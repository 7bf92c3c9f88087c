//! Case normalization for category keys.
//!
//! Category lookups are case-insensitive: every category string is
//! canonicalized before it is used as a storage or lookup key, by mapping
//! each ASCII lowercase letter to its uppercase counterpart and leaving
//! every other character unchanged.

use vstd::prelude::*;

verus! {

/// The canonical form of one character: ASCII lowercase letters are mapped
/// to uppercase, everything else is left as it is.
pub open spec fn upper_char(c: char) -> char {
    if 97 <= c as u32 && c as u32 <= 122 {
        (((c as u32) - 32) as u8) as char
    } else {
        c
    }
}

/// The canonical form of a category string: `upper_char` applied to each
/// character.
pub open spec fn upper_seq(s: Seq<char>) -> Seq<char> {
    s.map_values(|c: char| upper_char(c))
}

/// Canonicalization is idempotent: a key already in canonical form stays
/// as it is, so stored keys are fixed points of `upper_seq`.
proof fn lemma_upper_char_idempotent(c: char)
    ensures
        upper_char(upper_char(c)) == upper_char(c),
{
}

/// `upper_seq` is idempotent, so looking a stored key up again after
/// re-normalizing it finds the same key.
pub proof fn lemma_upper_seq_idempotent(s: Seq<char>)
    ensures
        upper_seq(upper_seq(s)) == upper_seq(s),
{
    assert(upper_seq(upper_seq(s)) =~= upper_seq(s)) by {
        assert forall|i: int| 0 <= i < s.len() implies upper_seq(upper_seq(s))[i] == upper_seq(
            s,
        )[i] by {
            lemma_upper_char_idempotent(s[i]);
        }
    }
}

/// Two characters that differ at most in ASCII case: either they are the
/// same character, or one is an ASCII lowercase letter and the other its
/// uppercase counterpart.
pub open spec fn same_letter(a: char, b: char) -> bool {
    ||| a == b
    ||| (97 <= a as u32 <= 122 && b as u32 == a as u32 - 32)
    ||| (97 <= b as u32 <= 122 && a as u32 == b as u32 - 32)
}

/// Two category spellings that differ at most in ASCII case, character by
/// character.
pub open spec fn eq_ignore_ascii_case(s: Seq<char>, t: Seq<char>) -> bool {
    s.len() == t.len() && forall|i: int| 0 <= i < s.len() ==> same_letter(s[i], t[i])
}

/// Spellings that differ only in ASCII case canonicalize to the same key,
/// so they name the same category at every read and write.
pub proof fn lemma_eq_ignore_case_same_key(s: Seq<char>, t: Seq<char>)
    requires
        eq_ignore_ascii_case(s, t),
    ensures
        upper_seq(s) == upper_seq(t),
{
    assert(upper_seq(s) =~= upper_seq(t)) by {
        assert forall|i: int| 0 <= i < s.len() implies upper_seq(s)[i] == upper_seq(t)[i] by {
            assert(same_letter(s[i], t[i]));
        }
    }
}

/// Builds the canonical key for a category string.
#[verifier::loop_isolation(false)]
pub fn normalize_key(s: &str) -> (r: Vec<char>)
    ensures
        r@ == upper_seq(s@),
{
    let n = s.unicode_len();
    let mut r: Vec<char> = Vec::new();
    let mut i: usize = 0;
    while i < n
        invariant
            n == s@.len(),
            i <= n,
            r@ == upper_seq(s@.take(i as int)),
        decreases n - i,
    {
        let c = s.get_char(i);
        let u: u32 = c as u32;
        let up: char = if 97 <= u && u <= 122 {
            ((u - 32) as u8) as char
        } else {
            c
        };
        assert(up == upper_char(c));
        r.push(up);
        proof {
            assert(r@ =~= upper_seq(s@.take(i + 1)));
        }
        i += 1;
    }
    proof {
        assert(s@.take(n as int) =~= s@);
    }
    r
}

} // verus!
