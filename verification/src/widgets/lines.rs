//! Materializing the visible lines of a buffer: which window of lines
//! is produced, the right-aligned line-number gutter, and the style
//! runs of each line (highlights painted over a default style, the last
//! one painted winning, then equal neighbours merged into spans).
//!
//! Styles are handled by id: the caller resolves each highlight scope to
//! a style id and each id back to a style.

use vstd::prelude::*;

use crate::paths::decimal_string;
use crate::text::{decimal, push_char};
use crate::paths::push_str;

verus! {

/// How many lines one request materializes.
pub const MATERIALIZE_WINDOW: usize = 200;

/// `min(a, b)`.
pub open spec fn min_nat(a: int, b: int) -> int {
    if a <= b { a } else { b }
}

/// The window of lines produced for a buffer of `line_count` lines
/// scrolled to `scroll_top`: from `top = min(scroll_top, line_count)`
/// up to `MATERIALIZE_WINDOW` lines further, clipped at the end.
pub fn visible_window(scroll_top: usize, line_count: usize) -> (r: (usize, usize))
    requires
        line_count + MATERIALIZE_WINDOW <= usize::MAX,
    ensures
        r.0 == min_nat(scroll_top as int, line_count as int),
        r.1 == min_nat(r.0 + MATERIALIZE_WINDOW, line_count as int),
{
    let top = if scroll_top < line_count { scroll_top } else { line_count };
    let end = top + MATERIALIZE_WINDOW;
    let bottom = if end < line_count { end } else { line_count };
    (top, bottom)
}

/// The digits of the gutter: those of the largest line number.
pub open spec fn gutter_digits(line_count: nat) -> nat {
    decimal(if line_count >= 1 { line_count } else { 1 }).len()
}

/// `10^k`.
pub open spec fn pow10(k: nat) -> nat
    decreases k,
{
    if k == 0 {
        1
    } else {
        10 * pow10((k - 1) as nat)
    }
}

/// A number below `10^k` has at most `k` digits.
proof fn lemma_decimal_len(n: nat, k: nat)
    requires
        1 <= k,
        n < pow10(k),
    ensures
        decimal(n).len() <= k,
    decreases k,
{
    if n >= 10 {
        assert(k >= 2) by {
            if k == 1 {
                assert(pow10(1) == 10 * pow10(0));
            }
        }
        let p = pow10((k - 1) as nat);
        assert(n / 10 < p) by (nonlinear_arith)
            requires
                n < 10 * p,
                n >= 10,
        ;
        lemma_decimal_len(n / 10, (k - 1) as nat);
    }
}

/// A `u64` has at most 20 digits.
proof fn lemma_u64_digits(n: u64)
    ensures
        decimal(n as nat).len() <= 20,
{
    assert(pow10(20) == 100000000000000000000) by {
        reveal_with_fuel(pow10, 21);
    }
    lemma_decimal_len(n as nat, 20);
}

/// The gutter width in cells: the digits plus a space on each side.
pub fn gutter_width(line_count: u64) -> (w: usize)
    ensures
        w == gutter_digits(line_count as nat) + 2,
{
    let n = if line_count >= 1 { line_count } else { 1 };
    let d = decimal_string(n);
    proof {
        lemma_u64_digits(n);
    }
    d.unicode_len() + 2
}

/// `n` spaces.
pub open spec fn spaces(n: int) -> Seq<char> {
    Seq::new(if n > 0 { n as nat } else { 0 }, |i: int| ' ')
}

/// The gutter of line `line_idx` (0-based): its 1-based number,
/// right-aligned in `digits` cells, with a space on each side.
pub open spec fn gutter_text(line_idx: nat, digits: nat) -> Seq<char> {
    let num = decimal(line_idx + 1);
    seq![' '] + spaces(digits - num.len()) + num + seq![' ']
}

/// The gutter text of line `line_idx`.
pub fn gutter(line_idx: u64, digits: usize) -> (s: String)
    requires
        line_idx < u64::MAX,
    ensures
        s@ == gutter_text(line_idx as nat, digits as nat),
{
    let num = decimal_string(line_idx + 1);
    let len = num.unicode_len();
    let mut s = String::new();
    push_char(&mut s, ' ');
    let pad = if digits > len { digits - len } else { 0 };
    let mut i: usize = 0;
    while i < pad
        invariant
            i <= pad,
            s@ == seq![' '] + spaces(i as int),
        decreases pad - i,
    {
        push_char(&mut s, ' ');
        proof {
            assert(spaces(i + 1) =~= spaces(i as int).push(' '));
        }
        i = i + 1;
    }
    proof {
        assert(spaces(pad as int) =~= spaces(digits - len));
    }
    push_str(&mut s, num.as_str());
    push_char(&mut s, ' ');
    proof {
        assert(s@ =~= gutter_text(line_idx as nat, digits as nat));
    }
    s
}

/// The style of cell `i` of an `n`-cell line after painting `runs`
/// (each `(start, end, style)`, clamped to the line) in order over
/// `default`: the last run covering `i` wins.
pub open spec fn painted(runs: Seq<(usize, usize, u32)>, default: u32, n: int, i: int) -> u32
    decreases runs.len(),
{
    if runs.len() == 0 {
        default
    } else {
        let r = runs.last();
        if min_nat(r.0 as int, n) <= i < min_nat(r.1 as int, n) {
            r.2
        } else {
            painted(runs.drop_last(), default, n, i)
        }
    }
}

/// The style of every cell of an `n`-cell line after painting `runs`.
pub fn paint_styles(n: usize, default: u32, runs: &[(usize, usize, u32)]) -> (styles: Vec<u32>)
    ensures
        styles@.len() == n,
        forall|i: int| 0 <= i < n ==> #[trigger] styles@[i] == painted(runs@, default, n as int, i),
{
    let mut styles: Vec<u32> = Vec::new();
    let mut i: usize = 0;
    while i < n
        invariant
            i <= n,
            styles@.len() == i,
            forall|j: int| 0 <= j < i ==> styles@[j] == default,
        decreases n - i,
    {
        styles.push(default);
        i = i + 1;
    }
    let mut k: usize = 0;
    proof {
        assert(runs@.take(0) =~= Seq::<(usize, usize, u32)>::empty());
    }
    while k < runs.len()
        invariant
            k <= runs@.len(),
            styles@.len() == n,
            forall|j: int| 0 <= j < n ==> #[trigger] styles@[j] == painted(runs@.take(k as int), default, n as int, j),
        decreases runs@.len() - k,
    {
        let (s0, e0, st) = runs[k];
        let s = if s0 < n { s0 } else { n };
        let e = if e0 < n { e0 } else { n };
        let ghost before = styles@;
        let mut j: usize = s;
        while j < e
            invariant
                s <= j,
                j <= e || j == s,
                e <= n,
                styles@.len() == n,
                before.len() == n,
                forall|m: int| 0 <= m < n ==> #[trigger] styles@[m] == if s <= m < j {
                    st
                } else {
                    before[m]
                },
            decreases e - j,
        {
            styles.set(j, st);
            j = j + 1;
        }
        proof {
            let t1 = runs@.take(k + 1);
            assert(t1.drop_last() =~= runs@.take(k as int));
            assert(t1.last() == runs@[k as int]);
            assert forall|m: int| 0 <= m < n implies #[trigger] styles@[m] == painted(t1, default, n as int, m) by {
                assert(before[m] == painted(runs@.take(k as int), default, n as int, m));
                assert(s == min_nat(runs@[k as int].0 as int, n as int));
                assert(e == min_nat(runs@[k as int].1 as int, n as int));
            }
        }
        k = k + 1;
    }
    proof {
        assert(runs@.take(k as int) =~= runs@);
    }
    styles
}

/// `spans` cut `styles` into maximal runs of one style: consecutive
/// `(start, end, style)` ranges covering every cell, none empty, each of
/// one style, and neighbours of different styles.
pub open spec fn coalesced(styles: Seq<u32>, spans: Seq<(usize, usize, u32)>) -> bool {
    &&& styles.len() == 0 ==> spans.len() == 0
    &&& styles.len() > 0 ==> spans.len() > 0 && spans[0].0 == 0 && spans.last().1 == styles.len()
    &&& forall|k: int| 0 <= k < spans.len() ==> #[trigger] spans[k].0 < spans[k].1
    &&& forall|k: int| 0 <= k < spans.len() - 1 ==> #[trigger] spans[k].1 == spans[k + 1].0
    &&& forall|k: int, i: int|
        0 <= k < spans.len() && spans[k].0 <= i < spans[k].1 ==> #[trigger] styles[i] == #[trigger] spans[k].2
    &&& forall|k: int| 0 <= k < spans.len() - 1 ==> #[trigger] spans[k].2 != spans[k + 1].2
}

/// Merge neighbouring cells of one style into spans.
pub fn coalesce(styles: &[u32]) -> (spans: Vec<(usize, usize, u32)>)
    ensures
        coalesced(styles@, spans@),
{
    let n = styles.len();
    let mut spans: Vec<(usize, usize, u32)> = Vec::new();
    let mut i: usize = 0;
    while i < n
        invariant
            n == styles@.len(),
            i <= n,
            i == 0 <==> spans@.len() == 0,
            spans@.len() > 0 ==> spans@[0].0 == 0 && spans@.last().1 == i,
            forall|k: int| 0 <= k < spans@.len() ==> #[trigger] spans@[k].0 < spans@[k].1,
            forall|k: int| 0 <= k < spans@.len() - 1 ==> #[trigger] spans@[k].1 == spans@[k + 1].0,
            forall|k: int, m: int|
                0 <= k < spans@.len() && spans@[k].0 <= m < spans@[k].1 ==> #[trigger] styles@[m]
                    == #[trigger] spans@[k].2,
            forall|k: int| 0 <= k < spans@.len() - 1 ==> #[trigger] spans@[k].2 != spans@[k + 1].2,
            i < n && spans@.len() > 0 ==> styles@[i as int] != spans@.last().2,
        decreases n - i,
    {
        let style = styles[i];
        let mut j = i + 1;
        while j < n && styles[j] == style
            invariant
                i < j <= n,
                n == styles@.len(),
                style == styles@[i as int],
                forall|m: int| i <= m < j ==> styles@[m] == style,
            decreases n - j,
        {
            j = j + 1;
        }
        let ghost before = spans@;
        spans.push((i, j, style));
        proof {
            assert forall|k: int, m: int|
                0 <= k < spans@.len() && spans@[k].0 <= m < spans@[k].1 implies #[trigger] styles@[m]
                    == #[trigger] spans@[k].2 by {
                if k < before.len() {
                    assert(spans@[k] == before[k]);
                }
            }
            assert forall|k: int| 0 <= k < spans@.len() - 1 implies #[trigger] spans@[k].1 == spans@[k + 1].0 by {
                if k < before.len() - 1 {
                    assert(spans@[k] == before[k]);
                    assert(spans@[k + 1] == before[k + 1]);
                }
            }
            assert forall|k: int| 0 <= k < spans@.len() - 1 implies #[trigger] spans@[k].2 != spans@[k + 1].2 by {
                if k < before.len() - 1 {
                    assert(spans@[k] == before[k]);
                    assert(spans@[k + 1] == before[k + 1]);
                }
            }
        }
        i = j;
    }
    spans
}

/// The cell styles of an `n`-cell line after painting `runs`.
pub open spec fn painted_line(runs: Seq<(usize, usize, u32)>, default: u32, n: nat) -> Seq<u32> {
    Seq::new(n, |i: int| painted(runs, default, n as int, i))
}

/// The styled spans of `line`: its cells painted with `runs` over
/// `default`, merged into maximal runs of one style, each with its text.
pub fn line_spans(line: &str, default: u32, runs: &[(usize, usize, u32)]) -> (r: Vec<(String, u32)>)
    ensures
        exists|spans: Seq<(usize, usize, u32)>|
            #![trigger coalesced(painted_line(runs@, default, line@.len()), spans)]
            coalesced(painted_line(runs@, default, line@.len()), spans) && r@.len() == spans.len() && forall|k: int|
                0 <= k < spans.len() ==> (#[trigger] r@[k]).0@ == line@.subrange(
                    spans[k].0 as int,
                    spans[k].1 as int,
                ) && r@[k].1 == spans[k].2,
{
    let n = line.unicode_len();
    let styles = paint_styles(n, default, runs);
    proof {
        assert(styles@ =~= painted_line(runs@, default, line@.len()));
    }
    let spans = coalesce(styles.as_slice());
    let mut out: Vec<(String, u32)> = Vec::new();
    let mut k: usize = 0;
    while k < spans.len()
        invariant
            k <= spans@.len(),
            n == line@.len(),
            coalesced(styles@, spans@),
            styles@.len() == n,
            out@.len() == k,
            forall|m: int|
                0 <= m < k ==> (#[trigger] out@[m]).0@ == line@.subrange(
                    spans@[m].0 as int,
                    spans@[m].1 as int,
                ) && out@[m].1 == spans@[m].2,
        decreases spans@.len() - k,
    {
        let (a, b, st) = spans[k];
        proof {
            assert(spans@[k as int].0 < spans@[k as int].1);
            if k + 1 < spans@.len() {
                assert(spans@[k as int].1 == spans@[k + 1].0);
            }
            lemma_span_end_bound(styles@, spans@, k as int);
        }
        out.push((crate::paths::owned(line.substring_char(a, b)), st));
        k = k + 1;
    }
    out
}

/// Every span of a coalesced line ends within the line.
proof fn lemma_span_end_bound(styles: Seq<u32>, spans: Seq<(usize, usize, u32)>, k: int)
    requires
        coalesced(styles, spans),
        0 <= k < spans.len(),
    ensures
        spans[k].1 <= styles.len(),
    decreases spans.len() - k,
{
    if k < spans.len() - 1 {
        assert(spans[k].1 == spans[k + 1].0);
        assert(spans[k + 1].0 < spans[k + 1].1);
        lemma_span_end_bound(styles, spans, k + 1);
    }
}

/// The `k`-th spans of two coalescings of one line agree.
proof fn lemma_coalesced_agree(styles: Seq<u32>, s1: Seq<(usize, usize, u32)>, s2: Seq<(usize, usize, u32)>, k: int)
    requires
        coalesced(styles, s1),
        coalesced(styles, s2),
        0 <= k < s1.len(),
        0 <= k < s2.len(),
    ensures
        s1[k] == s2[k],
    decreases k,
{
    if k > 0 {
        lemma_coalesced_agree(styles, s1, s2, k - 1);
        assert(s1[k - 1].1 == s1[k].0);
        assert(s2[k - 1].1 == s2[k].0);
    }
    let a = s1[k].0;
    assert(a == s2[k].0);
    lemma_span_end_bound(styles, s1, k);
    lemma_span_end_bound(styles, s2, k);
    let e1 = s1[k].1;
    let e2 = s2[k].1;
    assert(styles[a as int] == s1[k].2);
    assert(styles[a as int] == s2[k].2);
    if e1 < e2 {
        // e1 lies inside the second span, and starts the next first span.
        assert(styles[e1 as int] == s2[k].2);
        if k + 1 < s1.len() {
            assert(s1[k].1 == s1[k + 1].0);
            assert(styles[e1 as int] == s1[k + 1].2);
            assert(s1[k].2 != s1[k + 1].2);
        } else {
            assert(e1 == styles.len());
        }
    } else if e2 < e1 {
        assert(styles[e2 as int] == s1[k].2);
        if k + 1 < s2.len() {
            assert(s2[k].1 == s2[k + 1].0);
            assert(styles[e2 as int] == s2[k + 1].2);
            assert(s2[k].2 != s2[k + 1].2);
        } else {
            assert(e2 == styles.len());
        }
    }
}

/// A line has exactly one coalescing: the spans are determined by the
/// cell styles.
pub proof fn lemma_coalesced_unique(styles: Seq<u32>, s1: Seq<(usize, usize, u32)>, s2: Seq<(usize, usize, u32)>)
    requires
        coalesced(styles, s1),
        coalesced(styles, s2),
    ensures
        s1 == s2,
{
    if s1.len() < s2.len() {
        let k = s1.len() - 1;
        if s1.len() == 0 {
            assert(styles.len() == 0);
        } else {
            lemma_coalesced_agree(styles, s1, s2, k);
            assert(s2[k].1 == s2[k + 1].0);
            lemma_span_end_bound(styles, s2, k + 1);
            assert(s2[k + 1].0 < s2[k + 1].1);
        }
    } else if s2.len() < s1.len() {
        let k = s2.len() - 1;
        if s2.len() == 0 {
            assert(styles.len() == 0);
        } else {
            lemma_coalesced_agree(styles, s1, s2, k);
            assert(s1[k].1 == s1[k + 1].0);
            lemma_span_end_bound(styles, s1, k + 1);
            assert(s1[k + 1].0 < s1[k + 1].1);
        }
    } else {
        assert forall|k: int| 0 <= k < s1.len() implies s1[k] == s2[k] by {
            lemma_coalesced_agree(styles, s1, s2, k);
        }
        assert(s1 =~= s2);
    }
}

} // verus!
