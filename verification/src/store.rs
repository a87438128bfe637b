//! The device-code store: the in-memory correlation map from device code to
//! pairing-entry state, with atomic creation, session attach, CSRF claim,
//! token completion, status lookup and time-based expiry sweep.
//!
//! Time is modelled as an explicit monotonic tick count handed in by the
//! caller, so every lifecycle rule is stated and proved over plain values.

use vstd::prelude::*;
use vstd::pervasive::VecAdditionalExecFns;
use vstd::pervasive::unreached;

use crate::session::AuthorizeContext;
use crate::session::AuthorizeContextView;
use crate::utils::generate_random_string;
use crate::utils::code_alphabet;

verus! {

/// How many random draws one code generation may make before giving up.
/// A collision among live codes is astronomically unlikely, so the bound
/// exists only to keep generation total.
pub const MAX_CODE_ATTEMPTS: usize = 128;

/// One pairing entry: the optional token (present once login succeeded),
/// the optional in-flight authorization session, and the creation tick that
/// is the sole basis for expiry.
struct CodeEntry {
    token: Option<String>,
    auth_context: Option<AuthorizeContext>,
    created_ts: u64,
}

struct Slot {
    code: String,
    entry: CodeEntry,
}

/// Model of one pairing entry.
pub ghost struct EntryView {
    pub token: Option<Seq<char>>,
    pub auth_context: Option<AuthorizeContextView>,
    pub created_ts: u64,
}

/// Model of one stored slot: a device code and its entry.
pub ghost struct SlotView {
    pub code: Seq<char>,
    pub entry: EntryView,
}

impl View for CodeEntry {
    type V = EntryView;

    closed spec fn view(&self) -> EntryView {
        EntryView {
            token: match self.token {
                Some(t) => Some(t@),
                None => None,
            },
            auth_context: match self.auth_context {
                Some(c) => Some(c@),
                None => None,
            },
            created_ts: self.created_ts,
        }
    }
}

impl View for Slot {
    type V = SlotView;

    closed spec fn view(&self) -> SlotView {
        SlotView { code: self.code@, entry: self.entry@ }
    }
}

/// The outcome of polling a device code.
pub enum CodeTokenStatus {
    Invalid,
    Pending,
    Complete(String),
}

/// Model of a poll outcome.
pub ghost enum StatusView {
    Invalid,
    Pending,
    Complete(Seq<char>),
}

impl View for CodeTokenStatus {
    type V = StatusView;

    open spec fn view(&self) -> StatusView {
        match self {
            CodeTokenStatus::Invalid => StatusView::Invalid,
            CodeTokenStatus::Pending => StatusView::Pending,
            CodeTokenStatus::Complete(t) => StatusView::Complete(t@),
        }
    }
}

/// Whether some slot carries `code`.
pub open spec fn contains_code(s: Seq<SlotView>, code: Seq<char>) -> bool {
    exists|i: int| 0 <= i < s.len() && s[i].code == code
}

/// The index of the slot carrying `code`; meaningful only under
/// [`distinct_codes`] and [`contains_code`], where it is unique.
pub open spec fn code_index(s: Seq<SlotView>, code: Seq<char>) -> int {
    choose|i: int| 0 <= i < s.len() && s[i].code == code
}

/// The entry stored for `code`; meaningful only under [`contains_code`].
pub open spec fn entry_for(s: Seq<SlotView>, code: Seq<char>) -> EntryView {
    s[code_index(s, code)].entry
}

/// No two slots carry the same device code.
pub open spec fn distinct_codes(s: Seq<SlotView>) -> bool {
    forall|i: int, j: int| 0 <= i < j < s.len() ==> s[i].code != s[j].code
}

/// Whether `sl` holds a pending session whose CSRF value is `csrf`.
pub open spec fn slot_matches_csrf(sl: SlotView, csrf: Seq<char>) -> bool {
    match sl.entry.auth_context {
        Some(c) => c.csrf_token == csrf,
        None => false,
    }
}

/// Whether any slot holds a pending session with CSRF value `csrf`.
pub open spec fn has_csrf_match(s: Seq<SlotView>, csrf: Seq<char>) -> bool {
    exists|i: int| 0 <= i < s.len() && slot_matches_csrf(s[i], csrf)
}

/// A newly created entry: no token, no session, created at `now`.
pub open spec fn fresh_entry(now: u64) -> EntryView {
    EntryView { token: None, auth_context: None, created_ts: now }
}

/// `sl` with its token set to `t`.
pub open spec fn with_token(sl: SlotView, t: Seq<char>) -> SlotView {
    SlotView {
        code: sl.code,
        entry: EntryView {
            token: Some(t),
            auth_context: sl.entry.auth_context,
            created_ts: sl.entry.created_ts,
        },
    }
}

/// `sl` with its session replaced by `c`.
pub open spec fn with_session(sl: SlotView, c: AuthorizeContextView) -> SlotView {
    SlotView {
        code: sl.code,
        entry: EntryView {
            token: sl.entry.token,
            auth_context: Some(c),
            created_ts: sl.entry.created_ts,
        },
    }
}

/// `sl` with its session removed (the state after a successful claim).
pub open spec fn cleared(sl: SlotView) -> SlotView {
    SlotView {
        code: sl.code,
        entry: EntryView {
            token: sl.entry.token,
            auth_context: None,
            created_ts: sl.entry.created_ts,
        },
    }
}

/// An entry created at `created_ts` is expired once `ttl` ticks have passed.
pub open spec fn expired(e: EntryView, ttl: u64, now: u64) -> bool {
    now >= e.created_ts + ttl
}

/// The slots that survive a sweep at tick `now` with time-to-live `ttl`:
/// exactly the non-expired ones, in their original order.
pub open spec fn swept(s: Seq<SlotView>, ttl: u64, now: u64) -> Seq<SlotView>
    decreases s.len(),
{
    if s.len() == 0 {
        Seq::empty()
    } else {
        let rest = swept(s.drop_last(), ttl, now);
        if expired(s.last().entry, ttl, now) {
            rest
        } else {
            rest.push(s.last())
        }
    }
}

/// What polling `code` must report on a store in state `s`.
pub open spec fn status_of(s: Seq<SlotView>, code: Seq<char>) -> StatusView {
    if !contains_code(s, code) {
        StatusView::Invalid
    } else {
        match entry_for(s, code).token {
            Some(t) => StatusView::Complete(t),
            None => StatusView::Pending,
        }
    }
}

/// Under distinct codes, the slot at index `i` is the one `code_index` finds
/// for its own code.
pub proof fn lemma_code_index_is(s: Seq<SlotView>, i: int)
    requires
        distinct_codes(s),
        0 <= i < s.len(),
    ensures
        contains_code(s, s[i].code),
        code_index(s, s[i].code) == i,
        entry_for(s, s[i].code) == s[i].entry,
{
    assert(contains_code(s, s[i].code));
    let j = code_index(s, s[i].code);
    assert(0 <= j < s.len() && s[j].code == s[i].code);
    if i < j {
        assert(s[i].code != s[j].code);
    } else if j < i {
        assert(s[j].code != s[i].code);
    }
}

/// Updating a slot in place without changing its code leaves every lookup of
/// every other code unchanged, and keeps the set of live codes the same.
pub proof fn lemma_update_same_code(s: Seq<SlotView>, i: int, sl: SlotView)
    requires
        distinct_codes(s),
        0 <= i < s.len(),
        sl.code == s[i].code,
    ensures
        distinct_codes(s.update(i, sl)),
        forall|c: Seq<char>|
            contains_code(s.update(i, sl), c) == contains_code(s, c),
        forall|c: Seq<char>|
            contains_code(s, c) && c != s[i].code ==> entry_for(
                s.update(i, sl),
                c,
            ) == entry_for(s, c),
        contains_code(s, s[i].code) && entry_for(s.update(i, sl), s[i].code) == sl.entry,
{
    let t = s.update(i, sl);
    assert forall|k: int, l: int| 0 <= k < l < t.len() implies t[k].code != t[l].code by {
        assert(t[k].code == s[k].code);
        assert(t[l].code == s[l].code);
    }
    assert forall|c: Seq<char>| contains_code(t, c) == contains_code(s, c) by {
        if contains_code(t, c) {
            let k = choose|k: int| 0 <= k < t.len() && t[k].code == c;
            assert(s[k].code == c);
            assert(contains_code(s, c));
        }
        if contains_code(s, c) {
            let k = choose|k: int| 0 <= k < s.len() && s[k].code == c;
            assert(t[k].code == c);
            assert(contains_code(t, c));
        }
    }
    assert forall|c: Seq<char>|
        contains_code(s, c) && c != s[i].code implies entry_for(t, c) == entry_for(s, c) by {
        let k = code_index(s, c);
        assert(0 <= k < s.len() && s[k].code == c);
        assert(k != i);
        assert(t[k].code == c);
        lemma_code_index_is(t, k);
        lemma_code_index_is(s, k);
    }
    lemma_code_index_is(s, i);
    lemma_code_index_is(t, i);
}

/// Appending a slot with a fresh code keeps every existing lookup unchanged
/// and makes the new code live with its new entry.
pub proof fn lemma_push_fresh_code(s: Seq<SlotView>, sl: SlotView)
    requires
        distinct_codes(s),
        !contains_code(s, sl.code),
    ensures
        distinct_codes(s.push(sl)),
        contains_code(s.push(sl), sl.code),
        entry_for(s.push(sl), sl.code) == sl.entry,
        forall|c: Seq<char>|
            contains_code(s.push(sl), c) == (contains_code(s, c) || c == sl.code),
        forall|c: Seq<char>|
            contains_code(s, c) ==> entry_for(s.push(sl), c) == entry_for(s, c),
{
    let t = s.push(sl);
    assert forall|k: int, l: int| 0 <= k < l < t.len() implies t[k].code != t[l].code by {
        if l < s.len() {
            assert(t[k].code == s[k].code);
            assert(t[l].code == s[l].code);
        } else {
            assert(t[l] == sl);
            assert(t[k].code == s[k].code);
            if t[k].code == sl.code {
                assert(contains_code(s, sl.code));
            }
        }
    }
    assert(t[s.len() as int] == sl);
    lemma_code_index_is(t, s.len() as int);
    assert forall|c: Seq<char>|
        contains_code(t, c) == (contains_code(s, c) || c == sl.code) by {
        if contains_code(t, c) {
            let k = choose|k: int| 0 <= k < t.len() && t[k].code == c;
            if k < s.len() {
                assert(s[k].code == c);
                assert(contains_code(s, c));
            } else {
                assert(c == sl.code);
            }
        }
        if contains_code(s, c) {
            let k = choose|k: int| 0 <= k < s.len() && s[k].code == c;
            assert(t[k].code == c);
            assert(contains_code(t, c));
        }
    }
    assert forall|c: Seq<char>|
        contains_code(s, c) implies entry_for(t, c) == entry_for(s, c) by {
        let k = code_index(s, c);
        assert(0 <= k < s.len() && s[k].code == c);
        assert(t[k].code == c);
        lemma_code_index_is(s, k);
        lemma_code_index_is(t, k);
    }
}

/// The device-code store. It owns every pairing entry; all observations and
/// mutations go through the operations below, each of which is one atomic
/// step of the lifecycle state machine.
pub struct DeviceCodeStore {
    slots: Vec<Slot>,
    code_len: usize,
}

spec fn slots_view(v: Seq<Slot>) -> Seq<SlotView> {
    v.map_values(|s: Slot| s@)
}

impl View for DeviceCodeStore {
    type V = Seq<SlotView>;

    closed spec fn view(&self) -> Seq<SlotView> {
        slots_view(self.slots@)
    }
}

impl DeviceCodeStore {
    /// The configured device-code length.
    pub closed spec fn spec_code_len(self) -> usize {
        self.code_len
    }

    /// Well-formedness: live device codes are pairwise distinct.
    pub closed spec fn wf(self) -> bool {
        distinct_codes(self@)
    }

    /// An empty store issuing codes of length `code_len`.
    pub fn new(code_len: usize) -> (s: Self)
        ensures
            s.wf(),
            s@ == Seq::<SlotView>::empty(),
            s.spec_code_len() == code_len,
    {
        let s = DeviceCodeStore { slots: Vec::new(), code_len };
        proof {
            assert(s@ =~= Seq::<SlotView>::empty());
        }
        s
    }

    /// The index of the slot carrying `code`, if any.
    fn find_index(&self, code: &String) -> (r: Option<usize>)
        ensures
            match r {
                Some(i) => i < self@.len() && self@[i as int].code == code@,
                None => !contains_code(self@, code@),
            },
    {
        let n = self.slots.len();
        let mut i: usize = 0;
        while i < n
            invariant
                i <= n,
                n == self.slots@.len(),
                forall|j: int| 0 <= j < i ==> self@[j].code != code@,
            decreases n - i,
        {
            if self.slots[i].code == *code {
                assert(self@[i as int].code == code@);
                return Some(i);
            }
            i = i + 1;
        }
        assert(!contains_code(self@, code@));
        None
    }

    /// The index of the slot whose pending session carries `csrf`, if any.
    fn find_csrf_index(&self, csrf: &String) -> (r: Option<usize>)
        ensures
            match r {
                Some(i) => i < self@.len() && slot_matches_csrf(self@[i as int], csrf@),
                None => !has_csrf_match(self@, csrf@),
            },
    {
        let n = self.slots.len();
        let mut i: usize = 0;
        while i < n
            invariant
                i <= n,
                n == self.slots@.len(),
                forall|j: int| 0 <= j < i ==> !slot_matches_csrf(self@[j], csrf@),
            decreases n - i,
        {
            let matched = match &self.slots[i].entry.auth_context {
                Some(c) => c.csrf_token == *csrf,
                None => false,
            };
            if matched {
                assert(slot_matches_csrf(self@[i as int], csrf@));
                return Some(i);
            }
            assert(!slot_matches_csrf(self@[i as int], csrf@));
            i = i + 1;
        }
        assert(!has_csrf_match(self@, csrf@));
        None
    }

    /// Generate a fresh device code, insert an empty entry for it created at
    /// tick `now`, and return the code. The result is `None` only if every
    /// one of the bounded number of random draws collided with a live code,
    /// in which case the store is unchanged.
    pub fn add_new_code(&mut self, now: u64) -> (r: Option<String>)
        requires
            old(self).wf(),
        ensures
            final(self).wf(),
            final(self).spec_code_len() == old(self).spec_code_len(),
            match r {
                Some(code) => {
                    &&& !contains_code(old(self)@, code@)
                    &&& final(self)@ == old(self)@.push(SlotView { code: code@, entry: fresh_entry(now) })
                    &&& code@.len() == old(self).spec_code_len()
                    &&& forall|i: int| 0 <= i < code@.len() ==> code_alphabet().contains(#[trigger] code@[i])
                },
                None => final(self)@ == old(self)@ && old(self)@.len() > 0,
            },
    {
        let mut attempts: usize = 0;
        while attempts < MAX_CODE_ATTEMPTS
            invariant
                old(self).wf(),
                self == old(self),
                attempts > 0 ==> self@.len() > 0,
            decreases MAX_CODE_ATTEMPTS - attempts,
        {
            let code = generate_random_string(self.code_len);
            if self.find_index(&code).is_none() {
                let ghost pre = self@;
                let code_copy = code.clone();
                self.slots.push(
                    Slot {
                        code: code_copy,
                        entry: CodeEntry { token: None, auth_context: None, created_ts: now },
                    },
                );
                proof {
                    let sl = SlotView { code: code@, entry: fresh_entry(now) };
                    assert(self@ =~= pre.push(sl));
                    lemma_push_fresh_code(pre, sl);
                }
                return Some(code);
            }
            attempts = attempts + 1;
        }
        None
    }

    /// Attach (or replace) the in-flight authorization session of `code`.
    /// Returns whether `code` denoted a live entry; on `false` the store is
    /// unchanged.
    pub fn attach_session(&mut self, code: &String, session: AuthorizeContext) -> (r: bool)
        requires
            old(self).wf(),
        ensures
            final(self).wf(),
            final(self).spec_code_len() == old(self).spec_code_len(),
            r == contains_code(old(self)@, code@),
            r ==> final(self)@ == old(self)@.update(
                code_index(old(self)@, code@),
                with_session(old(self)@[code_index(old(self)@, code@)], session@),
            ),
            !r ==> final(self)@ == old(self)@,
    {
        match self.find_index(code) {
            Some(i) => {
                let ghost pre = self@;
                proof {
                    lemma_code_index_is(pre, i as int);
                }
                let token = clone_opt_string(&self.slots[i].entry.token);
                let created_ts = self.slots[i].entry.created_ts;
                let new_code = self.slots[i].code.clone();
                self.slots.set(
                    i,
                    Slot {
                        code: new_code,
                        entry: CodeEntry { token, auth_context: Some(session), created_ts },
                    },
                );
                proof {
                    let sl = with_session(pre[i as int], session@);
                    assert(self@ =~= pre.update(i as int, sl));
                    lemma_update_same_code(pre, i as int, sl);
                }
                true
            },
            None => false,
        }
    }

    /// Find the single live entry whose pending session carries `csrf` and
    /// claim it: the session is removed from the entry in the same step, so
    /// no second claim of the same value can succeed, and the claimed
    /// session is returned together with its device code. Returns `None`,
    /// leaving the store unchanged, when no live session matches.
    pub fn claim_session_by_csrf(&mut self, csrf: &String) -> (r: Option<(String, AuthorizeContext)>)
        requires
            old(self).wf(),
        ensures
            final(self).wf(),
            final(self).spec_code_len() == old(self).spec_code_len(),
            r is Some <==> has_csrf_match(old(self)@, csrf@),
            match r {
                Some(pair) => exists|i: int|
                    0 <= i < old(self)@.len() && slot_matches_csrf(#[trigger] old(self)@[i], csrf@)
                        && pair.0@ == old(self)@[i].code
                        && old(self)@[i].entry.auth_context == Some(pair.1@)
                        && final(self)@ == old(self)@.update(i, cleared(old(self)@[i])),
                None => final(self)@ == old(self)@,
            },
    {
        match self.find_csrf_index(csrf) {
            Some(i) => {
                let ghost pre = self@;
                let device_code = self.slots[i].code.clone();
                let token = clone_opt_string(&self.slots[i].entry.token);
                let created_ts = self.slots[i].entry.created_ts;
                let new_code = self.slots[i].code.clone();
                let session = match &self.slots[i].entry.auth_context {
                    Some(c) => AuthorizeContext {
                        pkce_code_verifier: c.pkce_code_verifier.clone(),
                        csrf_token: c.csrf_token.clone(),
                        authorize_url: c.authorize_url.clone(),
                    },
                    None => unreached(),
                };
                self.slots.set(
                    i,
                    Slot {
                        code: new_code,
                        entry: CodeEntry { token, auth_context: None, created_ts },
                    },
                );
                proof {
                    let sl = cleared(pre[i as int]);
                    assert(self@ =~= pre.update(i as int, sl));
                    lemma_update_same_code(pre, i as int, sl);
                    assert(slot_matches_csrf(pre[i as int], csrf@) && device_code@ == pre[
                        i as int
                    ].code && pre[i as int].entry.auth_context == Some(session@) && self@
                        == pre.update(i as int, cleared(pre[i as int])));
                }
                Some((device_code, session))
            },
            None => None,
        }
    }

    /// Record the token obtained for `code`. Returns whether `code` denoted
    /// a live entry; on `false` the store is unchanged.
    pub fn set_code_token(&mut self, code: &String, token: String) -> (r: bool)
        requires
            old(self).wf(),
        ensures
            final(self).wf(),
            final(self).spec_code_len() == old(self).spec_code_len(),
            r == contains_code(old(self)@, code@),
            r ==> final(self)@ == old(self)@.update(
                code_index(old(self)@, code@),
                with_token(old(self)@[code_index(old(self)@, code@)], token@),
            ),
            !r ==> final(self)@ == old(self)@,
    {
        match self.find_index(code) {
            Some(i) => {
                let ghost pre = self@;
                proof {
                    lemma_code_index_is(pre, i as int);
                }
                let auth_context = clone_opt_context(&self.slots[i].entry.auth_context);
                let created_ts = self.slots[i].entry.created_ts;
                let new_code = self.slots[i].code.clone();
                self.slots.set(
                    i,
                    Slot {
                        code: new_code,
                        entry: CodeEntry { token: Some(token), auth_context, created_ts },
                    },
                );
                proof {
                    let sl = with_token(pre[i as int], token@);
                    assert(self@ =~= pre.update(i as int, sl));
                    lemma_update_same_code(pre, i as int, sl);
                }
                true
            },
            None => false,
        }
    }

    /// Report the lifecycle status of `code`: `Invalid` when no live entry
    /// carries it, `Pending` while the entry has no token yet, and
    /// `Complete` with a copy of the token once one was recorded.
    pub fn get_code_token(&self, code: &String) -> (r: CodeTokenStatus)
        requires
            self.wf(),
        ensures
            r@ == status_of(self@, code@),
    {
        match self.find_index(code) {
            Some(i) => {
                proof {
                    lemma_code_index_is(self@, i as int);
                }
                match &self.slots[i].entry.token {
                    Some(t) => CodeTokenStatus::Complete(t.clone()),
                    None => CodeTokenStatus::Pending,
                }
            },
            None => CodeTokenStatus::Invalid,
        }
    }

    /// Remove every entry whose age at tick `now` has reached `ttl`; all
    /// younger entries survive unchanged, in order.
    pub fn garbage_collect(&mut self, ttl: u64, now: u64)
        requires
            old(self).wf(),
        ensures
            final(self).wf(),
            final(self).spec_code_len() == old(self).spec_code_len(),
            final(self)@ == swept(old(self)@, ttl, now),
    {
        let n = self.slots.len();
        let mut out: Vec<Slot> = Vec::new();
        let mut i: usize = 0;
        while i < n
            invariant
                i <= n,
                n == self.slots@.len(),
                self == old(self),
                slots_view(out@) == swept(self@.subrange(0, i as int), ttl, now),
            decreases n - i,
        {
            let ghost prefix = self@.subrange(0, i as int);
            let ghost prefix1 = self@.subrange(0, i as int + 1);
            proof {
                assert(prefix1.drop_last() =~= prefix);
                assert(prefix1.last() == self@[i as int]);
            }
            let created_ts = self.slots[i].entry.created_ts;
            let is_expired = now >= created_ts && now - created_ts >= ttl;
            proof {
                assert(is_expired == expired(self@[i as int].entry, ttl, now));
            }
            if !is_expired {
                let slot = clone_slot(&self.slots[i]);
                let ghost pre_out = slots_view(out@);
                out.push(slot);
                proof {
                    assert(slots_view(out@) =~= pre_out.push(self@[i as int]));
                }
            }
            i = i + 1;
        }
        proof {
            assert(self@.subrange(0, n as int) =~= self@);
        }
        self.slots = out;
        proof {
            lemma_swept_distinct(old(self)@, ttl, now);
        }
    }
}

/// Clone an optional token value, preserving its model.
fn clone_opt_string(o: &Option<String>) -> (r: Option<String>)
    ensures
        match r {
            Some(t) => o is Some && t@ == o->0@,
            None => o is None,
        },
{
    match o {
        Some(t) => Some(t.clone()),
        None => None,
    }
}

/// Clone an optional authorization session, preserving its model.
fn clone_opt_context(o: &Option<AuthorizeContext>) -> (r: Option<AuthorizeContext>)
    ensures
        match r {
            Some(c) => o is Some && c@ == o->0@,
            None => o is None,
        },
{
    match o {
        Some(c) => Some(
            AuthorizeContext {
                pkce_code_verifier: c.pkce_code_verifier.clone(),
                csrf_token: c.csrf_token.clone(),
                authorize_url: c.authorize_url.clone(),
            },
        ),
        None => None,
    }
}

/// Clone a stored slot, preserving its model.
fn clone_slot(s: &Slot) -> (r: Slot)
    ensures
        r@ == s@,
{
    Slot {
        code: s.code.clone(),
        entry: CodeEntry {
            token: clone_opt_string(&s.entry.token),
            auth_context: clone_opt_context(&s.entry.auth_context),
            created_ts: s.entry.created_ts,
        },
    }
}

/// Every slot surviving a sweep stood in the input sequence.
pub proof fn lemma_swept_element_origin(s: Seq<SlotView>, ttl: u64, now: u64, k: int)
    requires
        0 <= k < swept(s, ttl, now).len(),
    ensures
        exists|i: int|
            0 <= i < s.len() && s[i] == swept(s, ttl, now)[k] && !expired(
                #[trigger] s[i].entry,
                ttl,
                now,
            ),
    decreases s.len(),
{
    if s.len() > 0 {
        let rest = swept(s.drop_last(), ttl, now);
        if expired(s.last().entry, ttl, now) {
            lemma_swept_element_origin(s.drop_last(), ttl, now, k);
            let i = choose|i: int|
                0 <= i < s.drop_last().len() && s.drop_last()[i] == rest[k] && !expired(
                    #[trigger] s.drop_last()[i].entry,
                    ttl,
                    now,
                );
            assert(s[i] == s.drop_last()[i]);
        } else {
            if k < rest.len() {
                lemma_swept_element_origin(s.drop_last(), ttl, now, k);
                let i = choose|i: int|
                    0 <= i < s.drop_last().len() && s.drop_last()[i] == rest[k] && !expired(
                        #[trigger] s.drop_last()[i].entry,
                        ttl,
                        now,
                    );
                assert(s[i] == s.drop_last()[i]);
            } else {
                assert(swept(s, ttl, now)[k] == s.last());
                assert(s[s.len() - 1] == s.last());
            }
        }
    }
}

/// A sweep keeps every non-expired slot.
pub proof fn lemma_swept_keeps_live(s: Seq<SlotView>, ttl: u64, now: u64, i: int)
    requires
        0 <= i < s.len(),
        !expired(s[i].entry, ttl, now),
    ensures
        exists|k: int| 0 <= k < swept(s, ttl, now).len() && swept(s, ttl, now)[k] == s[i],
    decreases s.len(),
{
    let rest = swept(s.drop_last(), ttl, now);
    if i == s.len() - 1 {
        assert(s.last() == s[i]);
        assert(swept(s, ttl, now)[rest.len() as int] == s[i]);
    } else {
        assert(s.drop_last()[i] == s[i]);
        lemma_swept_keeps_live(s.drop_last(), ttl, now, i);
        let k = choose|k: int| 0 <= k < rest.len() && rest[k] == s[i];
        assert(swept(s, ttl, now)[k] == s[i]);
    }
}

/// A sweep preserves distinctness of device codes.
pub proof fn lemma_swept_distinct(s: Seq<SlotView>, ttl: u64, now: u64)
    requires
        distinct_codes(s),
    ensures
        distinct_codes(swept(s, ttl, now)),
    decreases s.len(),
{
    if s.len() > 0 {
        let d = s.drop_last();
        assert forall|i: int, j: int| 0 <= i < j < d.len() implies d[i].code != d[j].code by {
            assert(s[i].code != s[j].code);
        }
        lemma_swept_distinct(d, ttl, now);
        let rest = swept(d, ttl, now);
        if !expired(s.last().entry, ttl, now) {
            assert forall|k: int| 0 <= k < rest.len() implies rest[k].code != s.last().code by {
                lemma_swept_element_origin(d, ttl, now, k);
                let i = choose|i: int|
                    0 <= i < d.len() && d[i] == rest[k] && !expired(#[trigger] d[i].entry, ttl, now);
                assert(s[i] == d[i]);
                assert(s[i].code != s[s.len() - 1].code);
            }
            assert forall|k: int, l: int|
                0 <= k < l < rest.push(s.last()).len() implies rest.push(s.last())[k].code
                != rest.push(s.last())[l].code by {
                if l < rest.len() {
                    assert(rest.push(s.last())[k] == rest[k]);
                    assert(rest.push(s.last())[l] == rest[l]);
                } else {
                    assert(rest.push(s.last())[l] == s.last());
                    assert(rest.push(s.last())[k] == rest[k]);
                }
            }
        }
    }
}

} // verus!
