//! The store's lifecycle laws, stated over the same models that the
//! operations' contracts use and proved once and for all.

use vstd::prelude::*;

use crate::session::AuthorizeContextView;
use crate::store::SlotView;
use crate::store::StatusView;
use crate::store::cleared;
use crate::store::code_index;
use crate::store::contains_code;
use crate::store::distinct_codes;
use crate::store::entry_for;
use crate::store::expired;
use crate::store::has_csrf_match;
use crate::store::lemma_code_index_is;
use crate::store::lemma_push_fresh_code;
use crate::store::lemma_swept_distinct;
use crate::store::lemma_swept_element_origin;
use crate::store::lemma_update_same_code;
use crate::store::slot_matches_csrf;
use crate::store::status_of;
use crate::store::swept;
use crate::store::with_session;
use crate::store::with_token;

verus! {

/// Uniqueness law: over any run of code creations with no intervening
/// sweep, the returned codes are pairwise distinct. `s0` is the store's
/// state before the run and `added` the slots the run appended in order;
/// each creation returned a code that was not live at its own step, which
/// is exactly what `add_new_code` ensures.
pub proof fn lemma_add_run_codes_distinct(s0: Seq<SlotView>, added: Seq<SlotView>)
    requires
        forall|k: int|
            0 <= k < added.len() ==> !contains_code(s0 + #[trigger] added.take(k), added[k].code),
    ensures
        forall|k: int, l: int|
            0 <= k < l < added.len() ==> (#[trigger] added[k]).code != (#[trigger] added[l]).code,
{
    assert forall|k: int, l: int|
        0 <= k < l < added.len() implies (#[trigger] added[k]).code != (
    #[trigger] added[l]).code by {
        let run = s0 + added.take(l);
        assert(run[s0.len() + k] == added[k]);
        assert(contains_code(run, added[k].code));
    }
}

/// At-most-once claim law: when a CSRF value is attached to exactly one
/// live entry, claiming it removes the only match, so any further claim of
/// the same value finds nothing. Together with the claim operation's
/// contract this means that of any number of claims of one value, exactly
/// one succeeds.
pub proof fn lemma_claim_at_most_once(s: Seq<SlotView>, i: int, csrf: Seq<char>)
    requires
        0 <= i < s.len(),
        slot_matches_csrf(s[i], csrf),
        forall|j: int| 0 <= j < s.len() && slot_matches_csrf(#[trigger] s[j], csrf) ==> j == i,
    ensures
        !has_csrf_match(s.update(i, cleared(s[i])), csrf),
{
    let t = s.update(i, cleared(s[i]));
    assert forall|j: int| 0 <= j < t.len() implies !slot_matches_csrf(#[trigger] t[j], csrf) by {
        if j != i {
            assert(t[j] == s[j]);
        }
    }
}

/// Recording a token leaves the set of claimable CSRF values exactly as it
/// was: completion can neither create nor destroy a match.
pub proof fn lemma_csrf_match_unchanged_by_set_token(
    s: Seq<SlotView>,
    i: int,
    t: Seq<char>,
    csrf: Seq<char>,
)
    requires
        0 <= i < s.len(),
    ensures
        has_csrf_match(s.update(i, with_token(s[i], t)), csrf) == has_csrf_match(s, csrf),
{
    let u = s.update(i, with_token(s[i], t));
    if has_csrf_match(u, csrf) {
        let j = choose|j: int| 0 <= j < u.len() && slot_matches_csrf(u[j], csrf);
        assert(slot_matches_csrf(s[j], csrf));
    }
    if has_csrf_match(s, csrf) {
        let j = choose|j: int| 0 <= j < s.len() && slot_matches_csrf(s[j], csrf);
        assert(slot_matches_csrf(u[j], csrf));
    }
}

/// A claim can only remove CSRF matches, never add one: a value that was
/// not claimable before some claim is not claimable after it either.
pub proof fn lemma_csrf_match_not_created_by_claim(s: Seq<SlotView>, i: int, csrf: Seq<char>)
    requires
        0 <= i < s.len(),
        has_csrf_match(s.update(i, cleared(s[i])), csrf),
    ensures
        has_csrf_match(s, csrf),
{
    let u = s.update(i, cleared(s[i]));
    let j = choose|j: int| 0 <= j < u.len() && slot_matches_csrf(u[j], csrf);
    assert(j != i);
    assert(slot_matches_csrf(s[j], csrf));
}

/// A sweep can only remove CSRF matches, never add one.
pub proof fn lemma_csrf_match_not_created_by_sweep(
    s: Seq<SlotView>,
    ttl: u64,
    now: u64,
    csrf: Seq<char>,
)
    requires
        has_csrf_match(swept(s, ttl, now), csrf),
    ensures
        has_csrf_match(s, csrf),
{
    let t = swept(s, ttl, now);
    let k = choose|k: int| 0 <= k < t.len() && slot_matches_csrf(t[k], csrf);
    lemma_swept_element_origin(s, ttl, now, k);
    let i = choose|i: int|
        0 <= i < s.len() && s[i] == t[k] && !expired(#[trigger] s[i].entry, ttl, now);
    assert(slot_matches_csrf(s[i], csrf));
}

/// Expiry monotonicity law: once every live entry carrying `code` has
/// reached its time-to-live, a sweep removes the code entirely, and any
/// later lookup reports `Invalid`.
pub proof fn lemma_expired_entry_absent(s: Seq<SlotView>, ttl: u64, now: u64, code: Seq<char>)
    requires
        forall|i: int|
            0 <= i < s.len() && s[i].code == code ==> expired(#[trigger] s[i].entry, ttl, now),
    ensures
        !contains_code(swept(s, ttl, now), code),
        status_of(swept(s, ttl, now), code) == StatusView::Invalid,
{
    let t = swept(s, ttl, now);
    assert forall|k: int| 0 <= k < t.len() implies t[k].code != code by {
        lemma_swept_element_origin(s, ttl, now, k);
        let i = choose|i: int|
            0 <= i < s.len() && s[i] == t[k] && !expired(#[trigger] s[i].entry, ttl, now);
        if t[k].code == code {
            assert(expired(s[i].entry, ttl, now));
        }
    }
}

/// Status transition law, creation step: a code not yet issued polls as
/// `Invalid`; immediately after its entry is created it polls as `Pending`,
/// and the status of every other code is untouched.
pub proof fn lemma_status_after_create(s: Seq<SlotView>, sl: SlotView)
    requires
        distinct_codes(s),
        !contains_code(s, sl.code),
        sl.entry.token is None,
    ensures
        status_of(s, sl.code) == StatusView::Invalid,
        status_of(s.push(sl), sl.code) == StatusView::Pending,
        forall|c: Seq<char>| c != sl.code ==> status_of(s.push(sl), c) == status_of(s, c),
{
    lemma_push_fresh_code(s, sl);
}

/// Status transition law, completion step: recording a token for a live
/// code makes it poll as `Complete` with exactly that token, and leaves the
/// status of every other code untouched.
pub proof fn lemma_status_after_set_token(s: Seq<SlotView>, code: Seq<char>, t: Seq<char>)
    requires
        distinct_codes(s),
        contains_code(s, code),
    ensures
        status_of(s.update(code_index(s, code), with_token(s[code_index(s, code)], t)), code)
            == StatusView::Complete(t),
        forall|c: Seq<char>|
            c != code ==> status_of(
                s.update(code_index(s, code), with_token(s[code_index(s, code)], t)),
                c,
            ) == status_of(s, c),
{
    let i = code_index(s, code);
    assert(0 <= i < s.len() && s[i].code == code);
    lemma_update_same_code(s, i, with_token(s[i], t));
}

/// Status stability under session attach: attaching a session never changes
/// what any code polls as, since polling reads only the token.
pub proof fn lemma_status_after_attach(s: Seq<SlotView>, code: Seq<char>, cv: AuthorizeContextView)
    requires
        distinct_codes(s),
        contains_code(s, code),
    ensures
        forall|c: Seq<char>|
            status_of(
                s.update(code_index(s, code), with_session(s[code_index(s, code)], cv)),
                c,
            ) == status_of(s, c),
{
    let i = code_index(s, code);
    assert(0 <= i < s.len() && s[i].code == code);
    lemma_update_same_code(s, i, with_session(s[i], cv));
}

/// Status stability under claim: claiming a session never changes what any
/// code polls as, since only the session is removed.
pub proof fn lemma_status_after_claim(s: Seq<SlotView>, i: int)
    requires
        distinct_codes(s),
        0 <= i < s.len(),
    ensures
        forall|c: Seq<char>| status_of(s.update(i, cleared(s[i])), c) == status_of(s, c),
{
    lemma_update_same_code(s, i, cleared(s[i]));
}

/// Status transition law, sweep step: a sweep can only take a code from its
/// current status to `Invalid`; in particular a `Complete` code never
/// reverts to `Pending`.
pub proof fn lemma_status_after_sweep(s: Seq<SlotView>, ttl: u64, now: u64, code: Seq<char>)
    requires
        distinct_codes(s),
    ensures
        status_of(swept(s, ttl, now), code) == status_of(s, code) || status_of(
            swept(s, ttl, now),
            code,
        ) == StatusView::Invalid,
{
    let t = swept(s, ttl, now);
    lemma_swept_distinct(s, ttl, now);
    if contains_code(t, code) {
        let k = code_index(t, code);
        assert(0 <= k < t.len() && t[k].code == code);
        lemma_swept_element_origin(s, ttl, now, k);
        let i = choose|i: int|
            0 <= i < s.len() && s[i] == t[k] && !expired(#[trigger] s[i].entry, ttl, now);
        lemma_code_index_is(s, i);
        lemma_code_index_is(t, k);
        assert(entry_for(t, code) == entry_for(s, code));
    }
}

} // verus!
