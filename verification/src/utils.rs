//! Path-relativization helpers and the fast string hash used for
//! content fingerprints, rendered as a decimal string.

use crate::text::lower_seq;
use std::collections::hash_map::DefaultHasher;
use std::hash::Hash;
use std::hash::Hasher;
use vstd::prelude::*;

verus! {

/// The character for a single decimal digit.
pub open spec fn digit_char(d: nat) -> char
    recommends
        d < 10,
{
    ((d + 48) as u8) as char
}

/// The decimal representation of `n`, most significant digit first,
/// with no leading zeros (and `0` itself written as one digit).
pub open spec fn decimal_of(n: nat) -> Seq<char>
    decreases n,
{
    if n < 10 {
        seq![digit_char(n)]
    } else {
        decimal_of(n / 10).push(digit_char(n % 10))
    }
}

/// The digits of `ds`, each below 10, as characters in reverse order.
pub open spec fn digit_chars_rev(ds: Seq<u64>) -> Seq<char>
    decreases ds.len(),
{
    if ds.len() == 0 {
        Seq::empty()
    } else {
        seq![digit_char(ds.last() as nat)] + digit_chars_rev(ds.drop_last())
    }
}

proof fn lemma_dcr_len(ds: Seq<u64>)
    ensures
        digit_chars_rev(ds).len() == ds.len(),
    decreases ds.len(),
{
    if ds.len() > 0 {
        lemma_dcr_len(ds.drop_last());
    }
}

proof fn lemma_dcr_index(ds: Seq<u64>, j: int)
    requires
        0 <= j < ds.len(),
    ensures
        digit_chars_rev(ds).len() == ds.len(),
        digit_chars_rev(ds)[j] == digit_char(ds[ds.len() - 1 - j] as nat),
    decreases ds.len(),
{
    lemma_dcr_len(ds);
    lemma_dcr_len(ds.drop_last());
    if j > 0 {
        lemma_dcr_index(ds.drop_last(), j - 1);
    }
}

/// A one-character string holding the digit `d`.
fn digit_str(d: u64) -> (r: &'static str)
    requires
        d < 10,
    ensures
        r@ == seq![digit_char(d as nat)],
{
    let s = "0123456789";
    proof {
        reveal_strlit("0123456789");
    }
    let r = s.substring_char(d as usize, d as usize + 1);
    proof {
        assert(s@[d as int] == digit_char(d as nat));
        assert(r@ =~= seq![digit_char(d as nat)]);
    }
    r
}

/// Render `n` in decimal.
pub fn u64_to_decimal(n: u64) -> (r: String)
    ensures
        r@ == decimal_of(n as nat),
{
    if n == 0 {
        let z = "0";
        proof {
            reveal_strlit("0");
            assert(z@ =~= seq![digit_char(0)]);
        }
        return z.to_owned();
    }
    let mut digits: Vec<u64> = Vec::new();
    let mut m = n;
    while m > 0
        invariant
            forall|t: int| 0 <= t < digits@.len() ==> digits@[t] < 10,
            m > 0 ==> decimal_of(n as nat) == decimal_of(m as nat) + digit_chars_rev(digits@),
            m == 0 ==> decimal_of(n as nat) == digit_chars_rev(digits@),
            n > 0,
        decreases m,
    {
        let ghost old_m = m as nat;
        let ghost old_digits = digits@;
        let d = m % 10;
        digits.push(d);
        m = m / 10;
        proof {
            assert(digits@.drop_last() == old_digits);
            assert(digit_chars_rev(digits@) == seq![digit_char(d as nat)] + digit_chars_rev(
                old_digits,
            ));
            if old_m < 10 {
                assert(decimal_of(old_m) == seq![digit_char(old_m)]);
                assert(decimal_of(n as nat) =~= digit_chars_rev(digits@));
            } else {
                assert(decimal_of(old_m) == decimal_of(old_m / 10).push(
                    digit_char((old_m % 10) as nat),
                ));
                assert(decimal_of(n as nat) =~= decimal_of(m as nat) + digit_chars_rev(digits@));
            }
        }
    }
    proof {
        lemma_dcr_len(digits@);
    }
    let mut s = String::new();
    let mut i = digits.len();
    while i > 0
        invariant
            i <= digits.len(),
            forall|t: int| 0 <= t < digits@.len() ==> digits@[t] < 10,
            digit_chars_rev(digits@).len() == digits@.len(),
            decimal_of(n as nat) == digit_chars_rev(digits@),
            s@ == digit_chars_rev(digits@).subrange(0, digits@.len() - i),
        decreases i,
    {
        i -= 1;
        let piece = digit_str(digits[i]);
        s.append(piece);
        proof {
            lemma_dcr_index(digits@, digits@.len() - 1 - i);
            assert(s@ =~= digit_chars_rev(digits@).subrange(0, digits@.len() - i));
        }
    }
    proof {
        assert(digit_chars_rev(digits@).subrange(0, digits@.len() as int) =~= digit_chars_rev(
            digits@,
        ));
    }
    s
}

/// `base` names a directory that `path` lies under: `base` is a leading
/// segment of `path`, ending at a separator (or at the end of `path`).
pub open spec fn is_under(path: Seq<char>, base: Seq<char>) -> bool {
    &&& base.len() <= path.len()
    &&& path.subrange(0, base.len() as int) == base
    &&& (base.len() == path.len() || path[base.len() as int] == '/' || (base.len() > 0
        && base.last() == '/'))
}

/// The remainder of `path` after stripping the `base` prefix and the
/// separator that follows it, if one does.
pub open spec fn rel_of(path: Seq<char>, base: Seq<char>) -> Seq<char> {
    if base.len() < path.len() && path[base.len() as int] == '/' {
        path.subrange(base.len() as int + 1, path.len() as int)
    } else {
        path.subrange(base.len() as int, path.len() as int)
    }
}

/// Decide whether `path` lies under `base`.
pub fn path_is_under(path: &str, base: &str) -> (r: bool)
    ensures
        r == is_under(path@, base@),
{
    let pl = path.unicode_len();
    let bl = base.unicode_len();
    if bl > pl {
        return false;
    }
    let mut i: usize = 0;
    while i < bl
        invariant
            i <= bl,
            bl <= pl,
            pl == path@.len(),
            bl == base@.len(),
            forall|j: int| 0 <= j < i ==> path@[j] == base@[j],
        decreases bl - i,
    {
        if path.get_char(i) != base.get_char(i) {
            proof {
                assert(path@.subrange(0, base@.len() as int)[i as int] != base@[i as int]);
            }
            return false;
        }
        i += 1;
    }
    proof {
        assert(path@.subrange(0, base@.len() as int) =~= base@);
    }
    bl == pl || path.get_char(bl) == '/' || (bl > 0 && base.get_char(bl - 1) == '/')
}

/// Strip the `base` prefix from `path`.
///
/// A caller must know that `path` lies under `base`; the original interface
/// treats any other call as a programming error.
pub fn relative_to(path: &str, base: &str) -> (r: String)
    requires
        is_under(path@, base@),
    ensures
        r@ == rel_of(path@, base@),
{
    let pl = path.unicode_len();
    let bl = base.unicode_len();
    if bl < pl && path.get_char(bl) == '/' {
        path.substring_char(bl + 1, pl).to_owned()
    } else {
        path.substring_char(bl, pl).to_owned()
    }
}

/// Strip the `base` prefix from `path` when `path` lies under `base`.
pub fn try_relative_to(path: &str, base: &str) -> (r: Option<String>)
    ensures
        match r {
            Some(s) => is_under(path@, base@) && s@ == rel_of(path@, base@),
            None => !is_under(path@, base@),
        },
{
    if path_is_under(path, base) {
        Some(relative_to(path, base))
    } else {
        None
    }
}

/// Strip the `base` prefix from every path in `paths`.
pub fn all_relative_to(paths: &Vec<String>, base: &str) -> (r: Vec<String>)
    requires
        forall|i: int| 0 <= i < paths@.len() ==> is_under(#[trigger] paths@[i]@, base@),
    ensures
        r@.len() == paths@.len(),
        forall|i: int| 0 <= i < r@.len() ==> #[trigger] r@[i]@ == rel_of(paths@[i]@, base@),
{
    let mut r: Vec<String> = Vec::new();
    let mut i: usize = 0;
    while i < paths.len()
        invariant
            i <= paths@.len(),
            r@.len() == i,
            forall|k: int| 0 <= k < paths@.len() ==> is_under(#[trigger] paths@[k]@, base@),
            forall|k: int| 0 <= k < i ==> #[trigger] r@[k]@ == rel_of(paths@[k]@, base@),
        decreases paths@.len() - i,
    {
        let s = relative_to(paths[i].as_str(), base);
        r.push(s);
        i += 1;
    }
    r
}

/// The digest that the fast string hash assigns to `s`; a fixed function of
/// the characters alone.
pub uninterp spec fn hash64_of(s: Seq<char>) -> u64;

/// The digest that the salted fast string hash assigns to `s` and `salt`.
pub uninterp spec fn hash64_salted_of(s: Seq<char>, salt: Seq<char>) -> u64;

/// Relies on std's `DefaultHasher`: instances created through `new` are
/// documented to compute the same hash function, so the digest is a function
/// of the hashed characters alone.
#[verifier::external_body]
fn hash_str_u64(input: &str) -> (r: u64)
    ensures
        r == hash64_of(input@),
{
    let mut hasher = DefaultHasher::new();
    input.hash(&mut hasher);
    hasher.finish()
}

/// Relies on std's `DefaultHasher`, as `hash_str_u64` does, hashing the
/// input and then the salt into one digest.
#[verifier::external_body]
fn hash_str_salted_u64(input: &str, salt: &str) -> (r: u64)
    ensures
        r == hash64_salted_of(input@, salt@),
{
    let mut hasher = DefaultHasher::new();
    input.hash(&mut hasher);
    salt.hash(&mut hasher);
    hasher.finish()
}

/// The fast string hash, rendered in decimal.
pub fn fast_hash_str(input: &str) -> (r: String)
    ensures
        r@ == decimal_of(hash64_of(input@) as nat),
{
    u64_to_decimal(hash_str_u64(input))
}

/// The salted fast string hash, rendered in decimal.
pub fn fast_hash_str_with_salt(input: &str, salt: &str) -> (r: String)
    ensures
        r@ == decimal_of(hash64_salted_of(input@, salt@) as nat),
{
    u64_to_decimal(hash_str_salted_u64(input, salt))
}

} // verus!
