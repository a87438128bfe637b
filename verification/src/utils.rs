//! Random device-code generation over a fixed alphanumeric alphabet.

use vstd::prelude::*;
use vstd::string::StrSliceExecFns;
use vstd::string::StringExecFns;
use rand::Rng;

verus! {

/// The characters a device code may be drawn from.
pub open spec fn code_alphabet() -> Seq<char> {
    "ABCDEFGHIJKLMNOPQRSTUVWXYZ0123456789"@
}

/// Relies on `rand::thread_rng` and `rand::Rng::gen_range` over `0..bound`:
/// `gen_range` panics on an empty range and otherwise returns a value of the
/// range. Nothing more is assumed of the draw.
#[verifier::external_body]
fn random_below(bound: usize) -> (r: usize)
    requires
        bound > 0,
    ensures
        r < bound,
{
    rand::thread_rng().gen_range(0..bound)
}

/// A random string of `len` characters, each drawn independently from the
/// fixed alphanumeric alphabet.
pub fn generate_random_string(len: usize) -> (r: String)
    ensures
        r@.len() == len,
        forall|i: int| 0 <= i < r@.len() ==> code_alphabet().contains(#[trigger] r@[i]),
{
    let charset: &str = "ABCDEFGHIJKLMNOPQRSTUVWXYZ0123456789";
    proof {
        reveal_strlit("ABCDEFGHIJKLMNOPQRSTUVWXYZ0123456789");
        assert(charset@ == code_alphabet());
        assert(charset@.len() == 36);
    }
    let mut out = String::new();
    let mut i: usize = 0;
    while i < len
        invariant
            i <= len,
            charset@ == code_alphabet(),
            charset@.len() == 36,
            out@.len() == i,
            forall|j: int| 0 <= j < out@.len() ==> code_alphabet().contains(#[trigger] out@[j]),
        decreases len - i,
    {
        let idx = random_below(36);
        let piece = charset.substring_char(idx, idx + 1);
        proof {
            assert(piece@ == charset@.subrange(idx as int, idx as int + 1));
            assert(piece@[0] == charset@[idx as int]);
            assert(code_alphabet().contains(charset@[idx as int]));
        }
        out.append(piece);
        i = i + 1;
    }
    out
}

} // verus!
