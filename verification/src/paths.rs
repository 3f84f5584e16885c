//! Canonical namespace paths, handled as their segment lists.
//!
//! Every addressable resource has a canonical path string made of `/`
//! followed by segments (`/cur/42`, `/cmd/edit.copy`,
//! `/plugin/<name>/cb/<n>`). Encoders here produce both the segment list
//! and the joined string; decoders read a segment list (the path split
//! at its `/`s) and recognise one shape each.

use vstd::prelude::*;

use crate::text::{decimal, digits_value, all_digits, is_digit, parse_u64, push_char, spec_parse_u64};

verus! {

/// The text of each segment.
pub open spec fn seg_chars(segs: Seq<String>) -> Seq<Seq<char>> {
    segs.map_values(|s: String| s@)
}

/// The joined path: each segment preceded by `/`.
pub open spec fn join_path(segs: Seq<Seq<char>>) -> Seq<char>
    decreases segs.len(),
{
    if segs.len() == 0 {
        Seq::empty()
    } else {
        join_path(segs.drop_last()) + seq!['/'] + segs.last()
    }
}

/// Give up ownership of `s` for the rest of the process (`String::leak`):
/// a `&'static str` with the same text. Used where an id type holds
/// `&'static str` text that only becomes known at run time.
#[verifier::external_body]
pub(crate) fn leak_string(s: String) -> (r: &'static str)
    ensures
        r@ == s@,
{
    s.leak()
}

/// A `&'static str` with the text of `s`; the copy lives for the rest of
/// the process.
pub fn leak_str(s: &str) -> (r: &'static str)
    ensures
        r@ == s@,
{
    leak_string(owned(s))
}

/// Owned copy of a string slice.
pub fn owned(s: &str) -> (r: String)
    ensures
        r@ == s@,
{
    s.to_owned()
}

/// Compare a segment with literal text.
pub fn seg_is(seg: &String, lit: &str) -> (r: bool)
    ensures
        r == (seg@ == lit@),
{
    crate::commands::registry::str_eq(seg.as_str(), lit)
}

/// Append `text` to `s`.
pub fn push_str(s: &mut String, text: &str)
    ensures
        final(s)@ == old(s)@ + text@,
{
    let n = text.unicode_len();
    let mut i: usize = 0;
    let ghost start = s@;
    while i < n
        invariant
            n == text@.len(),
            i <= n,
            s@ == start + text@.subrange(0, i as int),
        decreases n - i,
    {
        push_char(s, text.get_char(i));
        assert(text@.subrange(0, i + 1) =~= text@.subrange(0, i as int).push(text@[i as int]));
        i = i + 1;
    }
    assert(text@.subrange(0, n as int) =~= text@);
}

/// Join a segment list into its path string.
pub fn join_segments(segs: &[String]) -> (r: String)
    ensures
        r@ == join_path(seg_chars(segs@)),
{
    let mut out = String::new();
    let mut i: usize = 0;
    while i < segs.len()
        invariant
            i <= segs@.len(),
            out@ == join_path(seg_chars(segs@.subrange(0, i as int))),
        decreases segs@.len() - i,
    {
        let ghost before = out@;
        push_char(&mut out, '/');
        push_str(&mut out, segs[i].as_str());
        proof {
            let p = seg_chars(segs@.subrange(0, i + 1));
            assert(p.drop_last() =~= seg_chars(segs@.subrange(0, i as int)));
            assert(p.last() == segs@[i as int]@);
        }
        i = i + 1;
    }
    assert(segs@.subrange(0, segs@.len() as int) =~= segs@);
    out
}

/// Decimal text of `n` as a `String`.
pub fn decimal_string(n: u64) -> (s: String)
    ensures
        s@ == decimal(n as nat),
{
    let mut s = String::new();
    crate::text::push_decimal(&mut s, n);
    assert(s@ =~= decimal(n as nat));
    s
}

proof fn lemma_decimal_digits(n: nat)
    ensures
        all_digits(decimal(n)),
        digits_value(decimal(n)) == n,
        decimal(n).len() > 0,
    decreases n,
{
    if n >= 10 {
        lemma_decimal_digits(n / 10);
        let d = decimal(n / 10);
        let t = d.push(crate::text::digit_char((n % 10) as int));
        assert(t.drop_last() =~= d);
        vstd::arithmetic::div_mod::lemma_fundamental_div_mod(n as int, 10);
        crate::text::lemma_digit_roundtrip((n % 10) as int);
        assert(decimal(n) == t);
        assert(t.last() == crate::text::digit_char((n % 10) as int));
        assert(digits_value(t) == digits_value(d) * 10 + crate::text::digit_value(t.last()));
        assert((n / 10) as int * 10 == 10 * (n / 10) as int) by (nonlinear_arith);
        assert(digits_value(t) == n);
        assert forall|i: int| 0 <= i < t.len() implies is_digit(#[trigger] t[i]) by {
            if i < d.len() {
                assert(t[i] == d[i]);
            }
        }
    } else {
        assert(decimal(n).drop_last() =~= Seq::<char>::empty());
        crate::text::lemma_digit_roundtrip(n as int);
        assert(decimal(n).last() == crate::text::digit_char(n as int));
        assert(digits_value(Seq::<char>::empty()) == 0);
        assert(digits_value(decimal(n)) == digits_value(decimal(n).drop_last()) * 10
            + crate::text::digit_value(decimal(n).last()));
    }
}

/// Decoding the decimal text of a number gives the number back.
pub proof fn lemma_parse_decimal(n: u64)
    ensures
        spec_parse_u64(decimal(n as nat)) == Some(n),
{
    lemma_decimal_digits(n as nat);
    let d = decimal(n as nat);
    assert(is_digit(d[0]));
    assert(crate::text::unsigned_body(d) == d);
}

/// `[root, decimal(n)]`: the segments of `/<root>/<n>`.
pub fn root_and_number(root: &str, n: u64) -> (segs: Vec<String>)
    ensures
        seg_chars(segs@) == seq![root@, decimal(n as nat)],
{
    let mut segs: Vec<String> = Vec::new();
    segs.push(owned(root));
    segs.push(decimal_string(n));
    assert(seg_chars(segs@) =~= seq![root@, decimal(n as nat)]);
    segs
}

/// Decode `/<root>/<u64>`: exactly two segments, the first equal to
/// `root`, the second a decimal `u64`.
pub fn number_under(segs: &[String], root: &str) -> (r: Option<u64>)
    ensures
        r == (if segs@.len() == 2 && segs@[0]@ == root@ {
            spec_parse_u64(segs@[1]@)
        } else {
            None
        }),
{
    if segs.len() != 2 {
        return None;
    }
    if !seg_is(&segs[0], root) {
        return None;
    }
    parse_u64(segs[1].as_str())
}

} // verus!
