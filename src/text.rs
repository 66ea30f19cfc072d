use vstd::prelude::*;
use vstd::string::StringSliceAdditionalSpecFns;

verus! {

/// ASCII whitespace: space, tab, line feed, vertical tab, form feed, carriage
/// return.
pub open spec fn is_space(b: u8) -> bool {
    b == 32 || (9 <= b && b <= 13)
}

/// The three-byte UTF-8 encodings of Unicode whitespace: U+1680, U+2000 to
/// U+200A, U+2028, U+2029, U+202F, U+205F and U+3000.
pub open spec fn is_space3(a: u8, b: u8, c: u8) -> bool {
    (a == 0xe1 && b == 0x9a && c == 0x80) || (a == 0xe2 && b == 0x80 && ((0x80 <= c && c
        <= 0x8a) || c == 0xa8 || c == 0xa9 || c == 0xaf)) || (a == 0xe2 && b == 0x81 && c
        == 0x9f) || (a == 0xe3 && b == 0x80 && c == 0x80)
}

/// The two-byte UTF-8 encodings of Unicode whitespace: U+0085 and U+00A0.
pub open spec fn is_space2(a: u8, b: u8) -> bool {
    a == 0xc2 && (b == 0x85 || b == 0xa0)
}

/// Length in bytes of the whitespace character (Unicode White_Space, in UTF-8)
/// that `s` starts with, or 0 when it starts with none.
pub open spec fn space_len(s: Seq<u8>) -> nat {
    if s.len() >= 1 && is_space(s[0]) {
        1
    } else if s.len() >= 2 && is_space2(s[0], s[1]) {
        2
    } else if s.len() >= 3 && is_space3(s[0], s[1], s[2]) {
        3
    } else {
        0
    }
}

/// Length in bytes of the whitespace character that `s` ends with, or 0.
pub open spec fn end_space_len(s: Seq<u8>) -> nat {
    let n = s.len() as int;
    if n >= 1 && is_space(s[n - 1]) {
        1
    } else if n >= 2 && is_space2(s[n - 2], s[n - 1]) {
        2
    } else if n >= 3 && is_space3(s[n - 3], s[n - 2], s[n - 1]) {
        3
    } else {
        0
    }
}

/// Number of leading bytes of `s` before its first whitespace character.
pub open spec fn word_len(s: Seq<u8>) -> nat
    decreases s.len(),
{
    if s.len() == 0 || space_len(s) > 0 {
        0
    } else {
        1 + word_len(s.drop_first())
    }
}

/// The whitespace-separated words of `s`, in order.
pub open spec fn tokens(s: Seq<u8>) -> Seq<Seq<u8>>
    decreases s.len()
    via tokens_decreases
{
    if s.len() == 0 {
        seq![]
    } else if space_len(s) > 0 {
        tokens(s.subrange(space_len(s) as int, s.len() as int))
    } else {
        let k = word_len(s);
        seq![s.subrange(0, k as int)] + tokens(s.subrange(k as int, s.len() as int))
    }
}

pub proof fn lemma_word_len_bound(s: Seq<u8>)
    ensures
        word_len(s) <= s.len(),
        s.len() > 0 && space_len(s) == 0 ==> word_len(s) >= 1,
    decreases s.len(),
{
    if s.len() > 0 && space_len(s) == 0 {
        lemma_word_len_bound(s.drop_first());
    }
}

#[via_fn]
proof fn tokens_decreases(s: Seq<u8>) {
    lemma_word_len_bound(s);
}

/// `s` without its leading whitespace.
pub open spec fn trim_start(s: Seq<u8>) -> Seq<u8>
    decreases s.len(),
{
    if space_len(s) > 0 {
        trim_start(s.subrange(space_len(s) as int, s.len() as int))
    } else {
        s
    }
}

/// `s` without its trailing whitespace.
pub open spec fn trim_end(s: Seq<u8>) -> Seq<u8>
    decreases s.len(),
{
    if end_space_len(s) > 0 {
        trim_end(s.subrange(0, s.len() - end_space_len(s)))
    } else {
        s
    }
}

/// `s` without whitespace at either end.
pub open spec fn trim(s: Seq<u8>) -> Seq<u8> {
    trim_end(trim_start(s))
}

/// Index of the first line feed in `s`, or its length when there is none.
pub open spec fn line_len(s: Seq<u8>) -> nat
    decreases s.len(),
{
    if s.len() == 0 || s[0] == 10 {
        0
    } else {
        1 + line_len(s.drop_first())
    }
}

pub proof fn lemma_line_len_bound(s: Seq<u8>)
    ensures
        line_len(s) <= s.len(),
        forall|i: int| 0 <= i < line_len(s) ==> #[trigger] s[i] != 10,
        line_len(s) < s.len() ==> s[line_len(s) as int] == 10,
    decreases s.len(),
{
    if s.len() > 0 && s[0] != 10 {
        lemma_line_len_bound(s.drop_first());
        assert forall|i: int| 0 <= i < line_len(s) implies #[trigger] s[i] != 10 by {
            if i > 0 {
                assert(s[i] == s.drop_first()[i - 1]);
            }
        }
    }
}

#[via_fn]
proof fn lines_of_decreases(s: Seq<u8>) {
    lemma_line_len_bound(s);
}

/// A line as it stands before its line feed, without the carriage return of a
/// `\r\n` ending.
pub open spec fn strip_cr(line: Seq<u8>) -> Seq<u8> {
    if line.len() > 0 && line.last() == 13 {
        line.drop_last()
    } else {
        line
    }
}

/// The lines of `s`: split at each line feed, a `\r\n` ending counting as one
/// line feed; a final line feed ends the last line and opens no new one.
pub open spec fn lines_of(s: Seq<u8>) -> Seq<Seq<u8>>
    decreases s.len()
    via lines_of_decreases
{
    if s.len() == 0 {
        seq![]
    } else {
        let k = line_len(s);
        if k < s.len() {
            seq![strip_cr(s.subrange(0, k as int))] + lines_of(s.subrange((k + 1) as int, s.len() as int))
        } else {
            seq![s]
        }
    }
}

/// Value of a string of decimal digits.
pub open spec fn digits_value(s: Seq<u8>) -> nat
    decreases s.len(),
{
    if s.len() == 0 {
        0
    } else {
        digits_value(s.drop_last()) * 10 + (s.last() - 48) as nat
    }
}

/// Every byte of `s` is a decimal digit.
pub open spec fn all_digits(s: Seq<u8>) -> bool {
    forall|i: int| 0 <= i < s.len() ==> 48 <= #[trigger] s[i] && s[i] <= 57
}

/// The digits of an unsigned decimal, after an optional leading `+`.
pub open spec fn unsigned_digits(s: Seq<u8>) -> Seq<u8> {
    if s.len() > 0 && s[0] == 43 {
        s.drop_first()
    } else {
        s
    }
}

/// An index written in decimal: an optional `+`, then one digit or more, and a
/// value that fits in `usize`.
pub open spec fn index_of(s: Seq<u8>) -> Option<usize> {
    let d = unsigned_digits(s);
    if d.len() > 0 && all_digits(d) && digits_value(d) <= usize::MAX {
        Some(digits_value(d) as usize)
    } else {
        None
    }
}

fn is_space_byte(b: u8) -> (r: bool)
    ensures
        r == is_space(b),
{
    b == 32 || (9 <= b && b <= 13)
}

fn is_space2_bytes(a: u8, b: u8) -> (r: bool)
    ensures
        r == is_space2(a, b),
{
    a == 0xc2 && (b == 0x85 || b == 0xa0)
}

fn is_space3_bytes(a: u8, b: u8, c: u8) -> (r: bool)
    ensures
        r == is_space3(a, b, c),
{
    (a == 0xe1 && b == 0x9a && c == 0x80) || (a == 0xe2 && b == 0x80 && ((0x80 <= c && c
        <= 0x8a) || c == 0xa8 || c == 0xa9 || c == 0xaf)) || (a == 0xe2 && b == 0x81 && c
        == 0x9f) || (a == 0xe3 && b == 0x80 && c == 0x80)
}

/// Length of the whitespace character that starts at `pos`, or 0.
pub fn space_len_at(s: &[u8], pos: usize) -> (r: usize)
    requires
        pos <= s@.len(),
    ensures
        r == space_len(s@.subrange(pos as int, s@.len() as int)),
{
    let ghost t = s@.subrange(pos as int, s@.len() as int);
    let n = s.len();
    if pos < n && is_space_byte(s[pos]) {
        assert(t[0] == s@[pos as int]);
        1
    } else if n - pos >= 2 && is_space2_bytes(s[pos], s[pos + 1]) {
        assert(t[0] == s@[pos as int] && t[1] == s@[pos + 1]);
        2
    } else if n - pos >= 3 && is_space3_bytes(s[pos], s[pos + 1], s[pos + 2]) {
        assert(t[0] == s@[pos as int] && t[1] == s@[pos + 1] && t[2] == s@[pos + 2]);
        3
    } else {
        proof {
            if pos < n {
                assert(t[0] == s@[pos as int]);
            }
            if n - pos >= 2 {
                assert(t[1] == s@[pos + 1]);
            }
            if n - pos >= 3 {
                assert(t[2] == s@[pos + 2]);
            }
        }
        0
    }
}

/// Length of the whitespace character that `s[start..end]` ends with, or 0.
pub fn space_len_before(s: &[u8], start: usize, end: usize) -> (r: usize)
    requires
        start <= end <= s@.len(),
    ensures
        r == end_space_len(s@.subrange(start as int, end as int)),
{
    let ghost t = s@.subrange(start as int, end as int);
    let m = end - start;
    proof {
        if m >= 1 {
            assert(t[m - 1] == s@[end - 1]);
        }
        if m >= 2 {
            assert(t[m - 2] == s@[end - 2]);
        }
        if m >= 3 {
            assert(t[m - 3] == s@[end - 3]);
        }
    }
    if m >= 1 && is_space_byte(s[end - 1]) {
        1
    } else if m >= 2 && is_space2_bytes(s[end - 2], s[end - 1]) {
        2
    } else if m >= 3 && is_space3_bytes(s[end - 3], s[end - 2], s[end - 1]) {
        3
    } else {
        0
    }
}

/// The bytes `s[start..end]` as a vector of their own.
pub fn copy_range(s: &[u8], start: usize, end: usize) -> (r: Vec<u8>)
    requires
        start <= end <= s@.len(),
    ensures
        r@ == s@.subrange(start as int, end as int),
{
    let mut r: Vec<u8> = Vec::new();
    let mut i: usize = start;
    while i < end
        invariant
            start <= i <= end <= s@.len(),
            r@ == s@.subrange(start as int, i as int),
        decreases end - i,
    {
        r.push(s[i]);
        i = i + 1;
        proof {
            assert(r@ =~= s@.subrange(start as int, i as int));
        }
    }
    r
}

/// End of the word that starts at `pos`: the first whitespace byte at or after
/// `pos`, or the length of `s`.
fn word_end(s: &[u8], pos: usize) -> (e: usize)
    requires
        pos <= s@.len(),
    ensures
        pos <= e <= s@.len(),
        e - pos == word_len(s@.subrange(pos as int, s@.len() as int)),
{
    let mut e: usize = pos;
    while e < s.len() && space_len_at(s, e) == 0
        invariant
            pos <= e <= s@.len(),
            word_len(s@.subrange(pos as int, s@.len() as int)) == (e - pos) + word_len(
                s@.subrange(e as int, s@.len() as int),
            ),
        decreases s@.len() - e,
    {
        proof {
            let t = s@.subrange(e as int, s@.len() as int);
            assert(t.drop_first() =~= s@.subrange(e + 1, s@.len() as int));
        }
        e = e + 1;
    }
    e
}

/// The whitespace-separated words of `line`.
pub fn split_fields(line: &[u8]) -> (r: Vec<Vec<u8>>)
    ensures
        r@.map_values(|w: Vec<u8>| w@) == tokens(line@),
{
    let mut r: Vec<Vec<u8>> = Vec::new();
    let mut pos: usize = 0;
    proof {
        assert(line@.subrange(0, line@.len() as int) =~= line@);
    }
    while pos < line.len()
        invariant
            pos <= line@.len(),
            tokens(line@) == r@.map_values(|w: Vec<u8>| w@) + tokens(
                line@.subrange(pos as int, line@.len() as int),
            ),
        decreases line@.len() - pos,
    {
        let ghost t = line@.subrange(pos as int, line@.len() as int);
        let k = space_len_at(line, pos);
        if k > 0 {
            proof {
                assert(t.subrange(k as int, t.len() as int) =~= line@.subrange(
                    pos + k,
                    line@.len() as int,
                ));
            }
            pos = pos + k;
        } else {
            let e = word_end(line, pos);
            let w = copy_range(line, pos, e);
            let ghost old_r = r@.map_values(|w: Vec<u8>| w@);
            r.push(w);
            proof {
                assert(t.subrange(0, (e - pos) as int) =~= line@.subrange(pos as int, e as int));
                assert(t.subrange((e - pos) as int, t.len() as int) =~= line@.subrange(
                    e as int,
                    line@.len() as int,
                ));
                assert(r@.map_values(|w: Vec<u8>| w@) =~= old_r.push(w@));
                assert(old_r.push(w@) + tokens(line@.subrange(e as int, line@.len() as int))
                    =~= old_r + (seq![w@] + tokens(line@.subrange(e as int, line@.len() as int))));
            }
            pos = e;
        }
    }
    proof {
        assert(r@.map_values(|w: Vec<u8>| w@) + tokens(
            line@.subrange(pos as int, line@.len() as int),
        ) =~= r@.map_values(|w: Vec<u8>| w@));
    }
    r
}

/// `line` without whitespace at either end.
pub fn trim_bytes(line: &[u8]) -> (r: Vec<u8>)
    ensures
        r@ == trim(line@),
{
    let mut start: usize = 0;
    proof {
        assert(line@.subrange(0, line@.len() as int) =~= line@);
    }
    let n = line.len();
    let mut k = space_len_at(line, start);
    while k > 0
        invariant
            n == line@.len(),
            start <= line@.len(),
            k == space_len(line@.subrange(start as int, line@.len() as int)),
            trim_start(line@) == trim_start(line@.subrange(start as int, line@.len() as int)),
        decreases line@.len() - start,
    {
        proof {
            let t = line@.subrange(start as int, line@.len() as int);
            assert(k <= t.len());
            assert(t.subrange(k as int, t.len() as int) =~= line@.subrange(
                start + k,
                line@.len() as int,
            ));
        }
        start = start + k;
        k = space_len_at(line, start);
    }
    let mut end: usize = line.len();
    let mut k = space_len_before(line, start, end);
    while k > 0
        invariant
            start <= end <= line@.len(),
            k == end_space_len(line@.subrange(start as int, end as int)),
            trim(line@) == trim_end(line@.subrange(start as int, end as int)),
        decreases end - start,
    {
        proof {
            let t = line@.subrange(start as int, end as int);
            assert(t.subrange(0, t.len() - k) =~= line@.subrange(start as int, end - k));
        }
        end = end - k;
        k = space_len_before(line, start, end);
    }
    copy_range(line, start, end)
}

proof fn lemma_digits_value_prefix(s: Seq<u8>, j: int)
    requires
        0 <= j <= s.len(),
        all_digits(s),
    ensures
        digits_value(s.subrange(0, j)) <= digits_value(s),
    decreases s.len(),
{
    if j < s.len() {
        let t = s.drop_last();
        assert(t.subrange(0, j) =~= s.subrange(0, j));
        assert(all_digits(t)) by {
            assert forall|i: int| 0 <= i < t.len() implies 48 <= #[trigger] t[i] && t[i] <= 57 by {
                assert(t[i] == s[i]);
            }
        }
        lemma_digits_value_prefix(t, j);
    } else {
        assert(s.subrange(0, j) =~= s);
    }
}

/// Reads an index written in decimal, as `usize`'s `from_str` does.
pub fn parse_index(s: &[u8]) -> (r: Option<usize>)
    ensures
        r == index_of(s@),
{
    let mut start: usize = 0;
    if s.len() > 0 && s[0] == 43 {
        start = 1;
    }
    let ghost d = unsigned_digits(s@);
    proof {
        assert(d =~= s@.subrange(start as int, s@.len() as int));
    }
    if start == s.len() {
        return None;
    }
    let mut acc: usize = 0;
    let mut i: usize = start;
    while i < s.len()
        invariant
            start <= i <= s@.len(),
            d == s@.subrange(start as int, s@.len() as int),
            d == unsigned_digits(s@),
            acc == digits_value(d.subrange(0, i - start)),
            forall|k: int| 0 <= k < i - start ==> 48 <= #[trigger] d[k] && d[k] <= 57,
        decreases s@.len() - i,
    {
        let b = s[i];
        if b < 48 || b > 57 {
            proof {
                assert(d[i - start] == b);
                assert(!all_digits(d));
            }
            return None;
        }
        let ghost pre = d.subrange(0, (i + 1 - start) as int);
        proof {
            assert(pre.drop_last() =~= d.subrange(0, i - start));
            assert(pre.last() == b);
            assert(digits_value(pre) == acc * 10 + (b - 48) as nat);
        }
        let m = acc.checked_mul(10);
        if m.is_none() {
            proof {
                assert(all_digits(d) ==> digits_value(pre) <= digits_value(d)) by {
                    if all_digits(d) {
                        lemma_digits_value_prefix(d, (i + 1 - start) as int);
                    }
                }
            }
            return None;
        }
        let v = m.unwrap().checked_add((b - 48) as usize);
        if v.is_none() {
            proof {
                assert(all_digits(d) ==> digits_value(pre) <= digits_value(d)) by {
                    if all_digits(d) {
                        lemma_digits_value_prefix(d, (i + 1 - start) as int);
                    }
                }
            }
            return None;
        }
        acc = v.unwrap();
        i = i + 1;
    }
    proof {
        assert(d.subrange(0, i - start) =~= d);
    }
    Some(acc)
}

/// End of the line that starts at `pos`: the first line feed at or after `pos`,
/// or the length of `s`.
fn line_end(s: &[u8], pos: usize) -> (e: usize)
    requires
        pos <= s@.len(),
    ensures
        pos <= e <= s@.len(),
        e - pos == line_len(s@.subrange(pos as int, s@.len() as int)),
{
    let mut e: usize = pos;
    while e < s.len() && s[e] != 10
        invariant
            pos <= e <= s@.len(),
            line_len(s@.subrange(pos as int, s@.len() as int)) == (e - pos) + line_len(
                s@.subrange(e as int, s@.len() as int),
            ),
        decreases s@.len() - e,
    {
        proof {
            let t = s@.subrange(e as int, s@.len() as int);
            assert(t.drop_first() =~= s@.subrange(e + 1, s@.len() as int));
        }
        e = e + 1;
    }
    e
}

/// The lines of `text`.
pub fn split_lines(text: &[u8]) -> (r: Vec<Vec<u8>>)
    ensures
        r@.map_values(|l: Vec<u8>| l@) == lines_of(text@),
{
    let mut r: Vec<Vec<u8>> = Vec::new();
    let mut pos: usize = 0;
    proof {
        assert(text@.subrange(0, text@.len() as int) =~= text@);
    }
    while pos < text.len()
        invariant
            pos <= text@.len(),
            lines_of(text@) == r@.map_values(|l: Vec<u8>| l@) + lines_of(
                text@.subrange(pos as int, text@.len() as int),
            ),
        decreases text@.len() - pos,
    {
        let ghost t = text@.subrange(pos as int, text@.len() as int);
        let ghost old_r = r@.map_values(|l: Vec<u8>| l@);
        let e = line_end(text, pos);
        if e < text.len() {
            let mut stop = e;
            if e > pos && text[e - 1] == 13 {
                stop = e - 1;
            }
            let l = copy_range(text, pos, stop);
            r.push(l);
            proof {
                assert(t.subrange(0, (e - pos) as int) =~= text@.subrange(pos as int, e as int));
                let raw = text@.subrange(pos as int, e as int);
                if e > pos && text@[e - 1] == 13 {
                    assert(raw.drop_last() =~= l@);
                } else {
                    assert(raw =~= l@);
                }
                assert(t.subrange((e - pos + 1) as int, t.len() as int) =~= text@.subrange(
                    e + 1,
                    text@.len() as int,
                ));
                assert(r@.map_values(|l: Vec<u8>| l@) =~= old_r.push(l@));
                assert(old_r.push(l@) + lines_of(text@.subrange(e + 1, text@.len() as int))
                    =~= old_r + (seq![l@] + lines_of(text@.subrange(e + 1, text@.len() as int))));
            }
            pos = e + 1;
        } else {
            let l = copy_range(text, pos, e);
            r.push(l);
            proof {
                assert(r@.map_values(|l: Vec<u8>| l@) =~= old_r.push(l@));
                assert(lines_of(text@.subrange(e as int, text@.len() as int)) =~= seq![]);
                assert(old_r.push(l@) + lines_of(text@.subrange(e as int, text@.len() as int))
                    =~= old_r + seq![t]);
            }
            pos = e;
        }
    }
    proof {
        assert(r@.map_values(|l: Vec<u8>| l@) + lines_of(
            text@.subrange(pos as int, text@.len() as int),
        ) =~= r@.map_values(|l: Vec<u8>| l@));
    }
    r
}

/// Number of leading decimal digits of `s`.
pub open spec fn lead_digits(s: Seq<u8>) -> nat
    decreases s.len(),
{
    if s.len() == 0 || !(48 <= s[0] && s[0] <= 57) {
        0
    } else {
        1 + lead_digits(s.drop_first())
    }
}

/// `s` without one leading `+` or `-`.
pub open spec fn strip_sign(s: Seq<u8>) -> Seq<u8> {
    if s.len() > 0 && (s[0] == 43 || s[0] == 45) {
        s.drop_first()
    } else {
        s
    }
}

/// An ASCII letter in lower case; other bytes are left as they are.
pub open spec fn ascii_lower(b: u8) -> u8 {
    if 65 <= b && b <= 90 {
        (b + 32) as u8
    } else {
        b
    }
}

/// `s` equals the lower-case word `w` when case is ignored.
pub open spec fn eq_ignore_case(s: Seq<u8>, w: Seq<u8>) -> bool {
    s.len() == w.len() && forall|i: int| 0 <= i < s.len() ==> ascii_lower(#[trigger] s[i]) == w[i]
}

/// Nothing, or an exponent: `e` or `E`, an optional sign, one digit or more.
pub open spec fn exponent_ok(s: Seq<u8>) -> bool {
    s.len() == 0 || ((s[0] == 101 || s[0] == 69) && strip_sign(s.drop_first()).len() > 0
        && all_digits(strip_sign(s.drop_first())))
}

/// Digits with an optional decimal point, at least one digit on either side of
/// it, then an optional exponent.
pub open spec fn decimal_ok(s: Seq<u8>) -> bool {
    let k = lead_digits(s);
    if k < s.len() && s[k as int] == 46 {
        let r = s.subrange((k + 1) as int, s.len() as int);
        let k2 = lead_digits(r);
        k + k2 > 0 && exponent_ok(r.subrange(k2 as int, r.len() as int))
    } else {
        k > 0 && exponent_ok(s.subrange(k as int, s.len() as int))
    }
}

/// The text of a floating-point number as `f64`'s `from_str` reads it: an
/// optional sign, then a decimal with optional exponent, or `inf`, `infinity`
/// or `nan` in any case.
pub open spec fn is_number(s: Seq<u8>) -> bool {
    let b = strip_sign(s);
    eq_ignore_case(b, "inf".spec_bytes()) || eq_ignore_case(b, "infinity".spec_bytes())
        || eq_ignore_case(b, "nan".spec_bytes()) || decimal_ok(b)
}

/// End of the run of digits that starts at `pos`.
fn digits_end(s: &[u8], pos: usize) -> (e: usize)
    requires
        pos <= s@.len(),
    ensures
        pos <= e <= s@.len(),
        e - pos == lead_digits(s@.subrange(pos as int, s@.len() as int)),
{
    let mut e: usize = pos;
    while e < s.len() && 48 <= s[e] && s[e] <= 57
        invariant
            pos <= e <= s@.len(),
            lead_digits(s@.subrange(pos as int, s@.len() as int)) == (e - pos) + lead_digits(
                s@.subrange(e as int, s@.len() as int),
            ),
        decreases s@.len() - e,
    {
        proof {
            let t = s@.subrange(e as int, s@.len() as int);
            assert(t.drop_first() =~= s@.subrange(e + 1, s@.len() as int));
        }
        e = e + 1;
    }
    e
}

fn lower_byte(b: u8) -> (r: u8)
    ensures
        r == ascii_lower(b),
{
    if 65 <= b && b <= 90 {
        b + 32
    } else {
        b
    }
}

/// Whether `s[start..]` equals the lower-case word `w` when case is ignored.
fn tail_eq_ignore_case(s: &[u8], start: usize, w: &[u8]) -> (r: bool)
    requires
        start <= s@.len(),
    ensures
        r == eq_ignore_case(s@.subrange(start as int, s@.len() as int), w@),
{
    let ghost t = s@.subrange(start as int, s@.len() as int);
    let n = s.len();
    if n - start != w.len() {
        return false;
    }
    let mut i: usize = 0;
    while i < w.len()
        invariant
            t == s@.subrange(start as int, s@.len() as int),
            t.len() == w@.len(),
            start + w@.len() == s@.len(),
            s@.len() == n,
            i <= w@.len(),
            forall|k: int| 0 <= k < i ==> ascii_lower(#[trigger] t[k]) == w@[k],
        decreases w@.len() - i,
    {
        if lower_byte(s[start + i]) != w[i] {
            proof {
                assert(t[i as int] == s@[start + i]);
            }
            return false;
        }
        proof {
            assert(t[i as int] == s@[start + i]);
        }
        i = i + 1;
    }
    true
}

/// Whether `s[start..]` is empty or an exponent.
fn exponent_at(s: &[u8], start: usize) -> (r: bool)
    requires
        start <= s@.len(),
    ensures
        r == exponent_ok(s@.subrange(start as int, s@.len() as int)),
{
    let ghost t = s@.subrange(start as int, s@.len() as int);
    if start == s.len() {
        return true;
    }
    if !(s[start] == 101 || s[start] == 69) {
        return false;
    }
    let mut p: usize = start + 1;
    if p < s.len() && (s[p] == 43 || s[p] == 45) {
        p = p + 1;
    }
    proof {
        assert(t[0] == s@[start as int]);
        assert(t.drop_first() =~= s@.subrange(start + 1, s@.len() as int));
        assert(strip_sign(t.drop_first()) =~= s@.subrange(p as int, s@.len() as int));
    }
    let e = digits_end(s, p);
    if e == p || e != s.len() {
        proof {
            let d = s@.subrange(p as int, s@.len() as int);
            if e != s.len() && e != p {
                lemma_lead_digits_stop(d);
                assert(d[(e - p) as int] == s@[e as int]);
            }
        }
        return false;
    }
    proof {
        lemma_lead_digits_all(s@.subrange(p as int, s@.len() as int));
    }
    true
}

pub proof fn lemma_lead_digits_stop(s: Seq<u8>)
    ensures
        lead_digits(s) <= s.len(),
        lead_digits(s) < s.len() ==> !(48 <= s[lead_digits(s) as int] && s[lead_digits(s) as int] <= 57),
        lead_digits(s) < s.len() ==> !all_digits(s),
        forall|i: int| 0 <= i < lead_digits(s) ==> 48 <= #[trigger] s[i] && s[i] <= 57,
    decreases s.len(),
{
    if s.len() > 0 && 48 <= s[0] && s[0] <= 57 {
        lemma_lead_digits_stop(s.drop_first());
        assert forall|i: int| 0 <= i < lead_digits(s) implies 48 <= #[trigger] s[i] && s[i] <= 57 by {
            if i > 0 {
                assert(s[i] == s.drop_first()[i - 1]);
            }
        }
        if lead_digits(s) < s.len() {
            assert(s[lead_digits(s) as int] == s.drop_first()[lead_digits(s.drop_first()) as int]);
        }
    }
}

proof fn lemma_lead_digits_all(s: Seq<u8>)
    requires
        lead_digits(s) == s.len(),
    ensures
        all_digits(s),
{
    lemma_lead_digits_stop(s);
}

/// Whether `s` is the text of a floating-point number.
pub fn check_number(s: &[u8]) -> (r: bool)
    ensures
        r == is_number(s@),
{
    let mut start: usize = 0;
    if s.len() > 0 && (s[0] == 43 || s[0] == 45) {
        start = 1;
    }
    let ghost b = strip_sign(s@);
    proof {
        assert(b =~= s@.subrange(start as int, s@.len() as int));
    }
    if tail_eq_ignore_case(s, start, "inf".as_bytes()) || tail_eq_ignore_case(
        s,
        start,
        "infinity".as_bytes(),
    ) || tail_eq_ignore_case(s, start, "nan".as_bytes()) {
        return true;
    }
    let k = digits_end(s, start);
    proof {
        assert(s@.subrange(k as int, s@.len() as int) =~= b.subrange(
            (k - start) as int,
            b.len() as int,
        ));
    }
    if k < s.len() && s[k] == 46 {
        let k2 = digits_end(s, k + 1);
        proof {
            assert(b[(k - start) as int] == s@[k as int]);
            let r = b.subrange((k - start) + 1, b.len() as int);
            assert(r =~= s@.subrange(k + 1, s@.len() as int));
            assert(r.subrange((k2 - k - 1) as int, r.len() as int) =~= s@.subrange(
                k2 as int,
                s@.len() as int,
            ));
        }
        k2 > start + 1 && exponent_at(s, k2)
    } else {
        proof {
            if k < s.len() {
                assert(b[(k - start) as int] == s@[k as int]);
            }
        }
        k > start && exponent_at(s, k)
    }
}

} // verus!
