//! Byte-level scanners for the line-oriented font description format.
//!
//! Every scanner reads a line from a given position and either fails or
//! yields the position just behind what it read. The spec functions thread
//! an optional position through the scanners, so that a record can be
//! written down as a flat list of fields.

use vstd::prelude::*;

verus! {

/// A blank is a space or a horizontal tab.
pub open spec fn is_blank(b: u8) -> bool {
    b == 0x20 || b == 0x09
}

/// An ASCII decimal digit.
pub open spec fn is_digit(b: u8) -> bool {
    0x30 <= b <= 0x39
}

/// The end of the longest run of blanks that starts at `pos`.
pub open spec fn blank_run_end(s: Seq<u8>, pos: int) -> int
    decreases s.len() - pos,
{
    if 0 <= pos < s.len() && is_blank(s[pos]) {
        blank_run_end(s, pos + 1)
    } else {
        pos
    }
}

/// The end of the longest run of digits that starts at `pos`.
pub open spec fn digit_run_end(s: Seq<u8>, pos: int) -> int
    decreases s.len() - pos,
{
    if 0 <= pos < s.len() && is_digit(s[pos]) {
        digit_run_end(s, pos + 1)
    } else {
        pos
    }
}

/// The position of the first double quote at or behind `pos`, or the length
/// of the line if there is none.
pub open spec fn quote_pos(s: Seq<u8>, pos: int) -> int
    decreases s.len() - pos,
{
    if 0 <= pos < s.len() && s[pos] != 0x22 {
        quote_pos(s, pos + 1)
    } else {
        pos
    }
}

/// The number that the decimal digits `s[from..to]` denote.
pub open spec fn decimal_value(s: Seq<u8>, from: int, to: int) -> nat
    decreases to - from,
{
    if to <= from {
        0
    } else {
        (decimal_value(s, from, to - 1) * 10 + (s[to - 1] - 0x30)) as nat
    }
}

/// The pieces into which the separator byte `sep` cuts `s`. There is one
/// piece more than there are separators, and a piece may be empty.
pub open spec fn split(s: Seq<u8>, sep: u8) -> Seq<Seq<u8>>
    decreases s.len(),
{
    if s.len() == 0 {
        seq![Seq::empty()]
    } else {
        let before = split(s.drop_last(), sep);
        if s.last() == sep {
            before.push(Seq::empty())
        } else {
            before.update(before.len() - 1, before.last().push(s.last()))
        }
    }
}

/// There is always at least one piece.
pub proof fn lemma_split_nonempty(s: Seq<u8>, sep: u8)
    ensures
        split(s, sep).len() >= 1,
    decreases s.len(),
{
    if s.len() > 0 {
        lemma_split_nonempty(s.drop_last(), sep);
    }
}

/// What one more byte does to the pieces of a prefix of `s`.
pub proof fn lemma_split_step(s: Seq<u8>, i: int, sep: u8)
    requires
        0 <= i < s.len(),
    ensures
        split(s.take(i), sep).len() >= 1,
        s[i] == sep ==> split(s.take(i + 1), sep) == split(s.take(i), sep).push(Seq::empty()),
        s[i] != sep ==> split(s.take(i + 1), sep) == split(s.take(i), sep).update(
            split(s.take(i), sep).len() - 1,
            split(s.take(i), sep).last().push(s[i]),
        ),
{
    lemma_split_nonempty(s.take(i), sep);
    assert(s.take(i + 1).drop_last() =~= s.take(i));
    assert(s.take(i + 1).last() == s[i]);
}

/// The literal `tag` stands at the position `at`.
pub open spec fn spec_tag(s: Seq<u8>, at: Option<int>, tag: Seq<u8>) -> Option<int> {
    match at {
        Some(p) => if 0 <= p && p + tag.len() <= s.len() && s.subrange(p, p + tag.len()) == tag {
            Some(p + tag.len())
        } else {
            None
        },
        None => None,
    }
}

/// One or more blanks stand at the position `at`.
pub open spec fn spec_blanks(s: Seq<u8>, at: Option<int>) -> Option<int> {
    match at {
        Some(p) => if 0 <= p && blank_run_end(s, p) > p {
            Some(blank_run_end(s, p))
        } else {
            None
        },
        None => None,
    }
}

/// One or more digits stand at the position `at` and denote a number that is
/// at most `max`. The result is the number and the end of the digits.
pub open spec fn spec_number(s: Seq<u8>, at: Option<int>, max: int) -> Option<(int, int)> {
    match at {
        Some(p) => {
            let e = digit_run_end(s, p);
            if 0 <= p && e > p && decimal_value(s, p, e) <= max {
                Some((decimal_value(s, p, e) as int, e))
            } else {
                None
            }
        },
        None => None,
    }
}

/// An optional sign and one or more digits stand at the position `at` and
/// denote a number from `-limit - 1` to `limit`.
pub open spec fn spec_signed(s: Seq<u8>, at: Option<int>, limit: int) -> Option<(int, int)> {
    match at {
        Some(p) => if 0 <= p < s.len() && s[p] == 0x2d {
            match spec_number(s, Some(p + 1), limit + 1) {
                Some((v, e)) => Some((-v, e)),
                None => None,
            }
        } else if 0 <= p < s.len() && s[p] == 0x2b {
            spec_number(s, Some(p + 1), limit)
        } else {
            spec_number(s, at, limit)
        },
        None => None,
    }
}

/// A double quote closes a text that starts at the position `at`. The result
/// is the text before the quote and the position behind the quote.
pub open spec fn spec_quoted(s: Seq<u8>, at: Option<int>) -> Option<(Seq<u8>, int)> {
    match at {
        Some(p) => {
            let q = quote_pos(s, p);
            if 0 <= p && q < s.len() {
                Some((s.subrange(p, q), q + 1))
            } else {
                None
            }
        },
        None => None,
    }
}

/// The position behind a scanned value, if there is one.
pub open spec fn end_of<T>(r: Option<(T, int)>) -> Option<int> {
    match r {
        Some((_, e)) => Some(e),
        None => None,
    }
}

/// The scanned value, if there is one.
pub open spec fn value_of<T>(r: Option<(T, int)>) -> T {
    match r {
        Some((v, _)) => v,
        None => arbitrary(),
    }
}

/// A numeric field: blanks, the key, then a number that is at most `max`.
pub open spec fn spec_field(s: Seq<u8>, at: Option<int>, key: Seq<u8>, max: int) -> Option<(int, int)> {
    spec_number(s, spec_tag(s, spec_blanks(s, at), key), max)
}

/// A signed numeric field: blanks, the key, then a signed number.
pub open spec fn spec_signed_field(s: Seq<u8>, at: Option<int>, key: Seq<u8>, limit: int) -> Option<(int, int)> {
    spec_signed(s, spec_tag(s, spec_blanks(s, at), key), limit)
}

/// A text field: blanks, the key with its opening quote, then the text up to
/// the closing quote.
pub open spec fn spec_text_field(s: Seq<u8>, at: Option<int>, key: Seq<u8>) -> Option<(Seq<u8>, int)> {
    spec_quoted(s, spec_tag(s, spec_blanks(s, at), key))
}

/// A list item: the separator byte, then a number that is at most `max`.
pub open spec fn spec_item(s: Seq<u8>, at: Option<int>, sep: u8, max: int) -> Option<(int, int)> {
    spec_number(s, spec_tag(s, at, seq![sep]), max)
}

pub proof fn lemma_blank_run(s: Seq<u8>, pos: int, end: int)
    requires
        0 <= pos <= end <= s.len(),
        forall|i: int| pos <= i < end ==> is_blank(#[trigger] s[i]),
        end == s.len() || !is_blank(s[end]),
    ensures
        blank_run_end(s, pos) == end,
    decreases end - pos,
{
    if pos < end {
        lemma_blank_run(s, pos + 1, end);
    }
}

pub proof fn lemma_digit_run(s: Seq<u8>, pos: int, end: int)
    requires
        0 <= pos <= end <= s.len(),
        forall|i: int| pos <= i < end ==> is_digit(#[trigger] s[i]),
        end == s.len() || !is_digit(s[end]),
    ensures
        digit_run_end(s, pos) == end,
    decreases end - pos,
{
    if pos < end {
        lemma_digit_run(s, pos + 1, end);
    }
}

pub proof fn lemma_quote_pos(s: Seq<u8>, pos: int, end: int)
    requires
        0 <= pos <= end <= s.len(),
        forall|i: int| pos <= i < end ==> #[trigger] s[i] != 0x22,
        end == s.len() || s[end] == 0x22,
    ensures
        quote_pos(s, pos) == end,
    decreases end - pos,
{
    if pos < end {
        lemma_quote_pos(s, pos + 1, end);
    }
}

/// A longer run of digits never denotes a smaller number.
pub proof fn lemma_decimal_value_grows(s: Seq<u8>, from: int, mid: int, to: int)
    requires
        0 <= from <= mid <= to <= s.len(),
        forall|i: int| from <= i < to ==> is_digit(#[trigger] s[i]),
    ensures
        decimal_value(s, from, mid) <= decimal_value(s, from, to),
    decreases to - mid,
{
    if mid < to {
        lemma_decimal_value_grows(s, from, mid, to - 1);
        assert(is_digit(s[to - 1]));
    }
}

/// Reads the literal `t` at `pos`.
pub fn tag(s: &[u8], pos: usize, t: &[u8]) -> (r: Option<usize>)
    ensures
        match r {
            Some(e) => spec_tag(s@, Some(pos as int), t@) == Some(e as int),
            None => spec_tag(s@, Some(pos as int), t@) is None,
        },
{
    if pos > s.len() || t.len() > s.len() - pos {
        return None;
    }
    let mut i: usize = 0;
    while i < t.len()
        invariant
            pos + t.len() <= s.len(),
            i <= t.len(),
            forall|j: int| 0 <= j < i ==> s@[pos + j] == t@[j],
        decreases t.len() - i,
    {
        if s[pos + i] != t[i] {
            assert(s@.subrange(pos as int, pos + t.len())[i as int] == s@[pos + i]);
            return None;
        }
        i += 1;
    }
    assert(s@.subrange(pos as int, pos + t.len()) =~= t@);
    Some(pos + t.len())
}

/// Reads one or more blanks at `pos`.
pub fn blanks(s: &[u8], pos: usize) -> (r: Option<usize>)
    ensures
        match r {
            Some(e) => spec_blanks(s@, Some(pos as int)) == Some(e as int),
            None => spec_blanks(s@, Some(pos as int)) is None,
        },
{
    if pos >= s.len() {
        return None;
    }
    let mut i: usize = pos;
    while i < s.len() && (s[i] == 0x20 || s[i] == 0x09)
        invariant
            pos <= i <= s.len(),
            forall|j: int| pos <= j < i ==> is_blank(#[trigger] s@[j]),
        decreases s.len() - i,
    {
        i += 1;
    }
    proof {
        lemma_blank_run(s@, pos as int, i as int);
    }
    if i > pos {
        Some(i)
    } else {
        None
    }
}

/// Reads one or more digits at `pos` that denote a number of at most `max`.
pub fn number(s: &[u8], pos: usize, max: u64) -> (r: Option<(u64, usize)>)
    requires
        max <= 0xffff_ffff_ffff,
    ensures
        match r {
            Some((v, e)) => spec_number(s@, Some(pos as int), max as int) == Some((v as int, e as int)),
            None => spec_number(s@, Some(pos as int), max as int) is None,
        },
{
    if pos >= s.len() {
        return None;
    }
    let mut i: usize = pos;
    let mut value: u64 = 0;
    let mut fits: bool = true;
    while i < s.len() && 0x30 <= s[i] && s[i] <= 0x39
        invariant
            pos <= i <= s.len(),
            max <= 0xffff_ffff_ffff,
            forall|j: int| pos <= j < i ==> is_digit(#[trigger] s@[j]),
            fits ==> value == decimal_value(s@, pos as int, i as int) && value <= max,
            !fits ==> decimal_value(s@, pos as int, i as int) > max,
        decreases s.len() - i,
    {
        let digit: u64 = (s[i] - 0x30) as u64;
        if fits {
            let next: u64 = value * 10 + digit;
            if next <= max {
                value = next;
            } else {
                fits = false;
            }
        } else {
            proof {
                lemma_decimal_value_grows(s@, pos as int, i as int, i + 1);
            }
        }
        i += 1;
    }
    proof {
        lemma_digit_run(s@, pos as int, i as int);
    }
    if i > pos && fits {
        Some((value, i))
    } else {
        None
    }
}

/// Reads an optional sign and one or more digits at `pos` that denote a
/// number from `-limit - 1` to `limit`.
pub fn signed(s: &[u8], pos: usize, limit: u64) -> (r: Option<(i64, usize)>)
    requires
        limit <= 0xffff_ffff,
    ensures
        match r {
            Some((v, e)) => spec_signed(s@, Some(pos as int), limit as int) == Some((v as int, e as int)),
            None => spec_signed(s@, Some(pos as int), limit as int) is None,
        },
{
    if pos < s.len() && s[pos] == 0x2d {
        match number(s, pos + 1, limit + 1) {
            Some((v, e)) => Some((-(v as i64), e)),
            None => None,
        }
    } else if pos < s.len() && s[pos] == 0x2b {
        match number(s, pos + 1, limit) {
            Some((v, e)) => Some((v as i64, e)),
            None => None,
        }
    } else {
        match number(s, pos, limit) {
            Some((v, e)) => Some((v as i64, e)),
            None => None,
        }
    }
}

/// Reads a text up to its closing double quote at `pos`.
pub fn quoted(s: &[u8], pos: usize) -> (r: Option<(Vec<u8>, usize)>)
    ensures
        match r {
            Some((v, e)) => spec_quoted(s@, Some(pos as int)) == Some((v@, e as int)),
            None => spec_quoted(s@, Some(pos as int)) is None,
        },
{
    if pos >= s.len() {
        return None;
    }
    let mut i: usize = pos;
    let mut text: Vec<u8> = Vec::new();
    while i < s.len() && s[i] != 0x22
        invariant
            pos <= i <= s.len(),
            forall|j: int| pos <= j < i ==> #[trigger] s@[j] != 0x22,
            text@ == s@.subrange(pos as int, i as int),
        decreases s.len() - i,
    {
        text.push(s[i]);
        assert(text@ =~= s@.subrange(pos as int, i + 1));
        i += 1;
    }
    proof {
        lemma_quote_pos(s@, pos as int, i as int);
    }
    if i < s.len() {
        Some((text, i + 1))
    } else {
        None
    }
}

} // verus!
