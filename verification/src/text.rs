//! Building diagnostic strings: decimal and hexadecimal renderings of
//! integers, with their meaning stated as sequences of characters.

use vstd::prelude::*;
use vstd::string::StringSliceAdditionalSpecFns;
use vstd::utf8::{
    decode_utf8, encode_utf8_decode_utf8, encode_utf8_valid_utf8, is_char_boundary,
    is_char_boundary_iff_not_is_continuation_byte, is_char_boundary_start_end_of_seq,
    is_continuation_byte, valid_utf8, valid_utf8_split,
};

verus! {

/// The ASCII digit for `d` (0..=9), or the upper-case letter for 10..=15.
pub open spec fn digit_char(d: nat) -> char {
    if d < 10 {
        (48 + d) as char
    } else {
        (55 + d) as char
    }
}

/// Decimal rendering of a natural number, without leading zeros.
pub open spec fn nat_text(n: nat) -> Seq<char>
    decreases n,
{
    if n < 10 {
        seq![digit_char(n)]
    } else {
        nat_text(n / 10).push(digit_char(n % 10))
    }
}

/// Decimal rendering of an integer, with a leading `-` when negative.
pub open spec fn int_text(i: int) -> Seq<char> {
    if i < 0 {
        seq!['-'] + nat_text((-i) as nat)
    } else {
        nat_text(i as nat)
    }
}

/// The last `k` hexadecimal digits (upper case) of `v`, zero-padded.
pub open spec fn hex_text(v: nat, k: nat) -> Seq<char>
    decreases k,
{
    if k == 0 {
        Seq::empty()
    } else {
        hex_text(v / 16, (k - 1) as nat).push(digit_char(v % 16))
    }
}

/// Appends one character (`String::push`).
#[verifier::external_body]
pub(crate) fn push_char(s: &mut String, c: char)
    ensures
        final(s)@ == old(s)@.push(c),
{
    s.push(c);
}

fn digit(d: u8) -> (c: char)
    requires
        d < 16,
    ensures
        c == digit_char(d as nat),
{
    if d < 10 {
        (48u8 + d) as char
    } else {
        (55u8 + d) as char
    }
}

/// Appends the decimal rendering of `n`.
pub(crate) fn push_nat_text(s: &mut String, n: u64)
    ensures
        final(s)@ == old(s)@ + nat_text(n as nat),
    decreases n,
{
    if n >= 10 {
        push_nat_text(s, n / 10);
    }
    let ghost mid = s@;
    push_char(s, digit((n % 10) as u8));
    assert(s@ == old(s)@ + nat_text(n as nat));
}

/// Appends the decimal rendering of `v`.
pub(crate) fn push_int_text(s: &mut String, v: i64)
    ensures
        final(s)@ == old(s)@ + int_text(v as int),
{
    if v < 0 {
        push_char(s, '-');
        let mag: u64 = (0i128 - (v as i128)) as u64;
        push_nat_text(s, mag);
        assert(s@ == old(s)@ + int_text(v as int));
    } else {
        push_nat_text(s, v as u64);
    }
}

/// Appends the last `k` hexadecimal digits of `v`, zero-padded.
pub(crate) fn push_hex_text(s: &mut String, v: u64, k: u64)
    ensures
        final(s)@ == old(s)@ + hex_text(v as nat, k as nat),
    decreases k,
{
    if k > 0 {
        push_hex_text(s, v / 16, k - 1);
        push_char(s, digit((v % 16) as u8));
        assert(s@ == old(s)@ + hex_text(v as nat, k as nat));
    }
}

/// Whether two strings hold the same characters (compared through their
/// UTF-8 bytes).
pub fn str_eq(a: &str, b: &str) -> (res: bool)
    ensures
        res == (a@ == b@),
{
    let x = a.as_bytes();
    let y = b.as_bytes();
    proof {
        encode_utf8_decode_utf8(a@);
        encode_utf8_decode_utf8(b@);
    }
    if x.len() != y.len() {
        return false;
    }
    let mut i: usize = 0;
    while i < x.len()
        invariant
            x@ == a.spec_bytes(),
            y@ == b.spec_bytes(),
            x@.len() == y@.len(),
            i <= x@.len(),
            forall|j: int| 0 <= j < i ==> x@[j] == y@[j],
        decreases x@.len() - i,
    {
        if x[i] != y[i] {
            return false;
        }
        i = i + 1;
    }
    assert(x@ =~= y@);
    true
}

/// Whether byte offset `i` of `b` starts a character or is the end: the
/// offsets at which a `str` may be cut.
pub open spec fn cut_ok(b: Seq<u8>, i: int) -> bool {
    i == b.len() || (0 <= i < b.len() && !is_continuation_byte(b[i]))
}

/// The characters of `s` between byte offsets `from` and `to`.
pub open spec fn str_bytes_text(s: &str, from: int, to: int) -> Seq<char> {
    decode_utf8(s.spec_bytes().subrange(from, to))
}

proof fn lemma_cut_ok_boundary(b: Seq<u8>, i: int)
    requires
        valid_utf8(b),
        cut_ok(b, i),
    ensures
        is_char_boundary(b, i),
{
    is_char_boundary_start_end_of_seq(b);
    if i < b.len() {
        is_char_boundary_iff_not_is_continuation_byte(b, i);
    }
}

/// In valid UTF-8, the offset right after a character boundary holding an
/// ASCII byte is again a character boundary.
pub proof fn lemma_boundary_after_ascii(b: Seq<u8>, k: int)
    requires
        valid_utf8(b),
        is_char_boundary(b, k),
        0 <= k < b.len(),
        b[k] < 128,
    ensures
        is_char_boundary(b, k + 1),
    decreases b.len(),
{
    reveal_with_fuel(is_char_boundary, 2);
    let l = vstd::utf8::length_of_first_scalar(b);
    let pop = vstd::utf8::pop_first_scalar(b);
    if k == 0 {
        assert(l == 1);
        assert(is_char_boundary(pop, 0));
    } else {
        assert(pop.len() < b.len());
        assert(pop[k - l] == b[k]);
        lemma_boundary_after_ascii(pop, k - l);
    }
}

/// The offset right after an ASCII character that starts at a cut is a cut.
pub proof fn lemma_cut_after_ascii(s: &str, k: int)
    requires
        cut_ok(s.spec_bytes(), k),
        0 <= k < s.spec_bytes().len(),
        s.spec_bytes()[k] < 128,
    ensures
        cut_ok(s.spec_bytes(), k + 1),
{
    let b = s.spec_bytes();
    encode_utf8_valid_utf8(s@);
    lemma_cut_ok_boundary(b, k);
    lemma_boundary_after_ascii(b, k);
    if k + 1 < b.len() {
        is_char_boundary_iff_not_is_continuation_byte(b, k + 1);
    }
}

/// The part of `s` between byte offsets `from` and `to`, which must both be
/// character boundaries (`&s[from..to]`).
pub fn str_slice(s: &str, from: usize, to: usize) -> (res: &str)
    requires
        from <= to <= s.spec_bytes().len(),
        cut_ok(s.spec_bytes(), from as int),
        cut_ok(s.spec_bytes(), to as int),
    ensures
        res.spec_bytes() == s.spec_bytes().subrange(from as int, to as int),
        res@ == str_bytes_text(s, from as int, to as int),
{
    let ghost b = s.spec_bytes();
    proof {
        encode_utf8_valid_utf8(s@);
        lemma_cut_ok_boundary(b, from as int);
    }
    let (_, tail) = s.split_at(from);
    let ghost t = tail.spec_bytes();
    proof {
        valid_utf8_split(b, from as int);
        assert(t =~= b.subrange(from as int, b.len() as int));
        if (to as int) < b.len() {
            assert(t[to - from] == b[to as int]);
        }
        lemma_cut_ok_boundary(t, to - from);
    }
    let (mid, _) = tail.split_at(to - from);
    proof {
        assert(mid.spec_bytes() =~= b.subrange(from as int, to as int));
        encode_utf8_decode_utf8(mid@);
    }
    mid
}

/// The characters of `s`, in order.
pub fn chars_of(s: &str) -> (v: Vec<char>)
    ensures
        v@ == s@,
{
    let mut v: Vec<char> = Vec::new();
    for c in it: s.chars()
        invariant
            v@ == it.seq().take(it.index() as int),
    {
        v.push(c);
    }
    v
}

/// Whether `pat` occurs in `s` at position `i`.
pub open spec fn matches_at(s: Seq<char>, pat: Seq<char>, i: int) -> bool {
    i + pat.len() <= s.len() && s.subrange(i, i + pat.len()) == pat
}

/// The first position at or after `i` where `pat` occurs in `s`.
pub open spec fn find_from(s: Seq<char>, pat: Seq<char>, i: nat) -> Option<nat>
    decreases s.len() + 1 - i,
{
    if i + pat.len() > s.len() {
        None
    } else if matches_at(s, pat, i as int) {
        Some(i)
    } else {
        find_from(s, pat, i + 1)
    }
}

pub proof fn lemma_find_from_bound(s: Seq<char>, pat: Seq<char>, i: nat)
    ensures
        find_from(s, pat, i) matches Some(j) ==> i <= j && j + pat.len() <= s.len() && matches_at(
            s,
            pat,
            j as int,
        ),
    decreases s.len() + 1 - i,
{
    if i + pat.len() <= s.len() && !matches_at(s, pat, i as int) {
        lemma_find_from_bound(s, pat, i + 1);
    }
}

/// The first position at or after `from` where `pat` occurs in `s`.
pub fn find_chars(s: &Vec<char>, pat: &Vec<char>, from: usize) -> (r: Option<usize>)
    ensures
        match r {
            Some(j) => find_from(s@, pat@, from as nat) == Some(j as nat),
            None => find_from(s@, pat@, from as nat) is None,
        },
    decreases s@.len() + 1 - from,
{
    if from > s.len() || pat.len() > s.len() - from {
        return None;
    }
    let mut k: usize = 0;
    let mut same = true;
    while k < pat.len()
        invariant
            from + pat@.len() <= s@.len(),
            s@.len() == s.len(),
            k <= pat@.len(),
            same <==> forall|q: int| 0 <= q < k ==> s@[from + q] == pat@[q],
        decreases pat@.len() - k,
    {
        if s[from + k] != pat[k] {
            same = false;
        }
        k = k + 1;
    }
    if same {
        assert(s@.subrange(from as int, from + pat@.len()) =~= pat@);
        Some(from)
    } else {
        assert(!matches_at(s@, pat@, from as int)) by {
            if matches_at(s@, pat@, from as int) {
                assert forall|q: int| 0 <= q < pat@.len() implies s@[from + q] == pat@[q] by {
                    assert(s@.subrange(from as int, from + pat@.len())[q] == s@[from + q]);
                }
            }
        }
        find_chars(s, pat, from + 1)
    }
}

} // verus!
