//! Small text helpers shared by the library.
//!
//! The library carries text as `Vec<char>` so that contracts can speak of
//! `Seq<char>` directly; these helpers convert from `&str`, compare, append,
//! and print decimal numbers.

use vstd::prelude::*;

verus! {

/// Character-for-character equality of two character slices.
pub fn chars_eq(a: &[char], b: &[char]) -> (r: bool)
    ensures
        r == (a@ == b@),
{
    if a.len() != b.len() {
        assert(a@.len() != b@.len());
        return false;
    }
    let mut i: usize = 0;
    while i < a.len()
        invariant
            i <= a.len(),
            a.len() == b.len(),
            forall|k: int| 0 <= k < i ==> a@[k] == b@[k],
        decreases a.len() - i,
    {
        if a[i] != b[i] {
            return false;
        }
        i += 1;
    }
    proof {
        assert(a@ =~= b@);
    }
    true
}

/// The characters of a string slice, in order.
pub fn str_to_chars(s: &str) -> (r: Vec<char>)
    ensures
        r@ == s@,
{
    let n = s.unicode_len();
    let mut r: Vec<char> = Vec::new();
    let mut i: usize = 0;
    while i < n
        invariant
            i <= n,
            n == s@.len(),
            r@ == s@.take(i as int),
        decreases n - i,
    {
        r.push(s.get_char(i));
        i += 1;
        proof {
            assert(r@ =~= s@.take(i as int));
        }
    }
    proof {
        assert(r@ =~= s@);
    }
    r
}

/// Appends all characters of `src` to `dst`.
pub fn append_chars(dst: &mut Vec<char>, src: &[char])
    ensures
        final(dst)@ == old(dst)@ + src@,
{
    dst.extend_from_slice(src);
    proof {
        assert(dst@ =~= old(dst)@ + src@);
    }
}

/// The first `n` characters of `v`.
pub fn take_chars(v: &[char], n: usize) -> (r: Vec<char>)
    requires
        n <= v.len(),
    ensures
        r@ == v@.take(n as int),
{
    let mut r: Vec<char> = Vec::new();
    let mut i: usize = 0;
    while i < n
        invariant
            i <= n,
            n <= v.len(),
            r@ == v@.take(i as int),
        decreases n - i,
    {
        r.push(v[i]);
        i += 1;
        proof {
            assert(r@ =~= v@.take(i as int));
        }
    }
    r
}

/// The decimal digit character for a value below ten.
pub open spec fn dec_digit(d: nat) -> char
    recommends
        d < 10,
{
    if d == 0 { '0' }
    else if d == 1 { '1' }
    else if d == 2 { '2' }
    else if d == 3 { '3' }
    else if d == 4 { '4' }
    else if d == 5 { '5' }
    else if d == 6 { '6' }
    else if d == 7 { '7' }
    else if d == 8 { '8' }
    else if d == 9 { '9' }
    else { ' ' }
}

/// The decimal numeral of `n`, most significant digit first, no leading zero.
pub open spec fn dec_chars(n: nat) -> Seq<char>
    decreases n,
{
    if n < 10 {
        seq![dec_digit(n)]
    } else {
        dec_chars(n / 10).push(dec_digit(n % 10))
    }
}

/// The decimal numeral of `n` as characters.
pub fn dec_chars_of(n: u64) -> (r: Vec<char>)
    ensures
        r@ == dec_chars(n as nat),
{
    let digits = str_to_chars("0123456789");
    proof {
        reveal_strlit("0123456789");
    }
    let mut rev: Vec<char> = Vec::new();
    let mut m: u64 = n;
    loop
        invariant_except_break
            dec_chars(n as nat) == dec_chars(m as nat) + rev@.reverse(),
        invariant
            digits@ == "0123456789"@,
        ensures
            dec_chars(n as nat) == rev@.reverse(),
        decreases m,
    {
        proof {
            reveal_strlit("0123456789");
        }
        let d = (m % 10) as usize;
        let ghost prev = rev@;
        rev.push(digits[d]);
        proof {
            assert(digits@[d as int] == dec_digit(m as nat % 10));
            assert(rev@.reverse() =~= seq![dec_digit(m as nat % 10)] + prev.reverse());
        }
        if m < 10 {
            proof {
                assert(dec_chars(m as nat) == seq![dec_digit(m as nat)]);
                assert(dec_chars(n as nat) =~= dec_chars(m as nat) + prev.reverse());
                assert(dec_chars(n as nat) =~= rev@.reverse());
            }
            break;
        }
        proof {
            assert(dec_chars(m as nat) == dec_chars(m as nat / 10).push(dec_digit(m as nat % 10)));
            assert(dec_chars(m as nat / 10) + rev@.reverse() =~= dec_chars(m as nat) + prev.reverse());
        }
        m = m / 10;
    }
    let mut r: Vec<char> = Vec::new();
    let mut i: usize = rev.len();
    while i > 0
        invariant
            i <= rev.len(),
            dec_chars(n as nat) == rev@.reverse(),
            r@ == rev@.reverse().take((rev@.len() - i) as int),
        decreases i,
    {
        i -= 1;
        r.push(rev[i]);
        proof {
            assert(r@ =~= rev@.reverse().take((rev@.len() - i) as int));
        }
    }
    proof {
        assert(r@ =~= rev@.reverse());
    }
    r
}

/// First value bound to `key` in an association list, if any.
pub open spec fn assoc_find<V>(entries: Seq<(Seq<char>, V)>, key: Seq<char>) -> Option<V>
    decreases entries.len(),
{
    if entries.len() == 0 {
        None
    } else if entries[0].0 == key {
        Some(entries[0].1)
    } else {
        assoc_find(entries.drop_first(), key)
    }
}

/// Skipping entries whose key does not match leaves `assoc_find` unchanged.
pub proof fn lemma_assoc_find_skip<V>(entries: Seq<(Seq<char>, V)>, key: Seq<char>, i: int)
    requires
        0 <= i <= entries.len(),
        forall|k: int| 0 <= k < i ==> entries[k].0 != key,
    ensures
        assoc_find(entries, key) == assoc_find(entries.skip(i), key),
    decreases i,
{
    if i > 0 {
        assert(entries[0].0 != key);
        lemma_assoc_find_skip(entries.drop_first(), key, i - 1);
        assert(entries.drop_first().skip(i - 1) =~= entries.skip(i));
    } else {
        assert(entries.skip(0) =~= entries);
    }
}

} // verus!
