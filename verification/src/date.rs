//! The calendar date taken from the command line: a `YYYY-MM-DD` argument
//! split at its dashes into three integer segments, and rendered back
//! zero-padded for URLs, playlist names and progress lines.
//!
//! No calendar validity is checked: a month of 13 or a day of 35 is kept
//! as it stands, and the archive endpoint answers for it.

use crate::digits::all_digits;
use crate::digits::dec_digits;
use crate::digits::digits_val;
use crate::digits::is_digit;
use crate::digits::lemma_digits_val_bound;
use crate::digits::lemma_pad_roundtrip;
use crate::digits::pad_left;
use crate::digits::pow10;
use crate::digits::zeroes;
use vstd::prelude::*;

verus! {

/// A structurally parsed date: year, month and day as the argument gave them.
#[derive(Clone, Copy, Debug, PartialEq, Eq, Structural)]
pub struct Date {
    pub year: i32,
    pub month: u32,
    pub day: u32,
}

/// The index of the first dash in `s`, or `s.len()` if there is none.
pub open spec fn first_dash(s: Seq<char>) -> int
    decreases s.len(),
{
    if s.len() == 0 {
        0
    } else if s[0] == '-' {
        0
    } else {
        1 + first_dash(s.skip(1))
    }
}

/// The value an unsigned integer parse gives `s`: an optional leading
/// plus sign, then at least one decimal digit, with a value that fits.
pub open spec fn parse_u32_spec(s: Seq<char>) -> Option<u32> {
    let digits = if s.len() >= 1 && s[0] == '+' {
        s.skip(1)
    } else {
        s
    };
    if digits.len() >= 1 && all_digits(digits) && digits_val(digits) <= u32::MAX {
        Some(digits_val(digits) as u32)
    } else {
        None
    }
}

/// The value a signed integer parse gives `s`: an optional leading sign,
/// then at least one decimal digit, with a value that fits.
pub open spec fn parse_i32_spec(s: Seq<char>) -> Option<i32> {
    if s.len() >= 1 && s[0] == '-' {
        let digits = s.skip(1);
        if digits.len() >= 1 && all_digits(digits) && digits_val(digits) <= 0x8000_0000 {
            Some((-(digits_val(digits) as int)) as i32)
        } else {
            None
        }
    } else {
        let digits = if s.len() >= 1 && s[0] == '+' {
            s.skip(1)
        } else {
            s
        };
        if digits.len() >= 1 && all_digits(digits) && digits_val(digits) <= i32::MAX {
            Some(digits_val(digits) as i32)
        } else {
            None
        }
    }
}

/// The date `s` denotes: `s` must split at its dashes into exactly three
/// segments, and the segments must parse as year, month and day.
pub open spec fn parse_date(s: Seq<char>) -> Option<Date> {
    let i = first_dash(s);
    if i == s.len() {
        None
    } else {
        let rest = s.skip(i + 1);
        let j = first_dash(rest);
        if j == rest.len() {
            None
        } else {
            let tail = rest.skip(j + 1);
            if first_dash(tail) != tail.len() {
                None
            } else {
                match (parse_i32_spec(s.take(i)), parse_u32_spec(rest.take(j)), parse_u32_spec(
                    tail,
                )) {
                    (Some(y), Some(m), Some(d)) => Some(Date { year: y, month: m, day: d }),
                    _ => None,
                }
            }
        }
    }
}

/// `first_dash` points at a dash, and nothing before it is one.
pub proof fn lemma_first_dash(s: Seq<char>)
    ensures
        0 <= first_dash(s) <= s.len(),
        first_dash(s) < s.len() ==> s[first_dash(s)] == '-',
        forall|k: int| 0 <= k < first_dash(s) ==> s[k] != '-',
    decreases s.len(),
{
    if s.len() == 0 {
    } else if s[0] == '-' {
    } else {
        lemma_first_dash(s.skip(1));
        assert forall|k: int| 0 <= k < first_dash(s) implies s[k] != '-' by {
            if k > 0 {
                assert(s.skip(1)[k - 1] == s[k]);
            }
        }
        if first_dash(s) < s.len() {
            assert(s.skip(1)[first_dash(s) - 1] == s[first_dash(s)]);
        }
    }
}

/// A position with no dash before it, itself a dash or the end, is the
/// first dash.
pub proof fn lemma_first_dash_is(s: Seq<char>, i: int)
    requires
        0 <= i <= s.len(),
        forall|k: int| 0 <= k < i ==> s[k] != '-',
        i < s.len() ==> s[i] == '-',
    ensures
        first_dash(s) == i,
{
    lemma_first_dash(s);
    if first_dash(s) < i {
        assert(s[first_dash(s)] != '-');
    }
    if first_dash(s) > i {
        assert(s[i] != '-');
    }
}

/// Scans `s[from..to]` as a run of decimal digits. Returns the value,
/// clamped at `0x1_0000_0000`, or `None` on an empty run or a non-digit.
fn scan_digits(s: &str, from: usize, to: usize) -> (r: Option<u64>)
    requires
        from <= to && to <= s@.len(),
    ensures
        ({
            let seg = s@.subrange(from as int, to as int);
            match r {
                Some(v) => {
                    &&& to > from
                    &&& all_digits(seg)
                    &&& if digits_val(seg) >= 0x1_0000_0000 {
                        v == 0x1_0000_0000u64
                    } else {
                        v == digits_val(seg)
                    }
                },
                None => to == from || !all_digits(seg),
            }
        }),
{
    if from == to {
        return None;
    }
    let ghost seg = s@.subrange(from as int, to as int);
    let mut i = from;
    let mut acc: u64 = 0;
    while i < to
        invariant
            from <= i <= to <= s@.len(),
            seg == s@.subrange(from as int, to as int),
            all_digits(s@.subrange(from as int, i as int)),
            ({
                let dv = digits_val(s@.subrange(from as int, i as int));
                if dv >= 0x1_0000_0000 {
                    acc == 0x1_0000_0000u64
                } else {
                    acc == dv
                }
            }),
        decreases to - i,
    {
        let c = s.get_char(i);
        let u = c as u32;
        if u < 48 || u > 57 {
            proof {
                assert(seg[i - from] == s@[i as int]);
                assert(!is_digit(seg[i - from]));
            }
            return None;
        }
        let d = (u - 48) as u64;
        proof {
            let pre = s@.subrange(from as int, i as int);
            let pre2 = s@.subrange(from as int, i + 1 as int);
            assert(pre2.drop_last() =~= pre);
            assert(pre2.last() == s@[i as int]);
            let dv = digits_val(pre);
            if dv >= 0x1_0000_0000 {
                assert(digits_val(pre2) == dv * 10 + (u - 48));
                assert(dv * 10 + (u - 48) >= 0x1_0000_0000) by (nonlinear_arith)
                    requires
                        dv >= 0x1_0000_0000,
                ;
            }
        }
        if acc >= 0x1_0000_0000 {
            acc = 0x1_0000_0000;
        } else {
            let tmp = acc * 10 + d;
            acc = if tmp >= 0x1_0000_0000 {
                0x1_0000_0000
            } else {
                tmp
            };
        }
        i += 1;
    }
    Some(acc)
}

/// Parses `s[from..to]` the way an unsigned decimal argument is read.
pub fn parse_u32_seg(s: &str, from: usize, to: usize) -> (r: Option<u32>)
    requires
        from <= to && to <= s@.len(),
    ensures
        r == parse_u32_spec(s@.subrange(from as int, to as int)),
{
    let ghost seg = s@.subrange(from as int, to as int);
    let start = if from < to && s.get_char(from) == '+' {
        from + 1
    } else {
        from
    };
    proof {
        if from < to && s@[from as int] == '+' {
            assert(seg[0] == s@[from as int]);
            assert(seg.skip(1) =~= s@.subrange(from + 1, to as int));
        } else if from < to {
            assert(seg[0] == s@[from as int]);
        }
    }
    match scan_digits(s, start, to) {
        Some(v) => if v <= u32::MAX as u64 {
            Some(v as u32)
        } else {
            None
        },
        None => None,
    }
}

/// Parses `s[from..to]` the way a signed decimal argument is read.
pub fn parse_i32_seg(s: &str, from: usize, to: usize) -> (r: Option<i32>)
    requires
        from <= to && to <= s@.len(),
    ensures
        r == parse_i32_spec(s@.subrange(from as int, to as int)),
{
    let ghost seg = s@.subrange(from as int, to as int);
    if from == to {
        return None;
    }
    let c = s.get_char(from);
    proof {
        assert(seg[0] == s@[from as int]);
        assert(seg.skip(1) =~= s@.subrange(from + 1, to as int));
    }
    if c == '-' {
        match scan_digits(s, from + 1, to) {
            Some(v) => if v <= 0x8000_0000u64 {
                Some((-(v as i64)) as i32)
            } else {
                None
            },
            None => None,
        }
    } else {
        let start = if c == '+' {
            from + 1
        } else {
            from
        };
        match scan_digits(s, start, to) {
            Some(v) => if v <= i32::MAX as u64 {
                Some(v as i32)
            } else {
                None
            },
            None => None,
        }
    }
}

/// The index of the first dash at or after `from`, or the length.
fn find_dash(s: &str, from: usize) -> (r: usize)
    requires
        from <= s@.len(),
    ensures
        from <= r <= s@.len(),
        forall|k: int| from <= k < r ==> s@[k] != '-',
        r < s@.len() ==> s@[r as int] == '-',
{
    let n = s.unicode_len();
    let mut i = from;
    while i < n
        invariant
            from <= i <= n == s@.len(),
            forall|k: int| from <= k < i ==> s@[k] != '-',
        decreases n - i,
    {
        if s.get_char(i) == '-' {
            return i;
        }
        i += 1;
    }
    i
}

impl Date {
    /// Reads a `YYYY-MM-DD` argument: exactly three dash-separated
    /// segments, each an integer. Anything else is rejected; whether the
    /// numbers form a real calendar date is not checked.
    pub fn from_str(s: &str) -> (r: Option<Date>)
        ensures
            r == parse_date(s@),
    {
        let n = s.unicode_len();
        let p1 = find_dash(s, 0);
        proof {
            lemma_first_dash_is(s@, p1 as int);
        }
        if p1 == n {
            return None;
        }
        let ghost rest = s@.skip(p1 + 1);
        let p2 = find_dash(s, p1 + 1);
        proof {
            assert forall|k: int| 0 <= k < p2 - p1 - 1 implies rest[k] != '-' by {
                assert(rest[k] == s@[p1 + 1 + k]);
            }
            if p2 < n {
                assert(rest[p2 - p1 - 1] == s@[p2 as int]);
            }
            lemma_first_dash_is(rest, p2 - p1 - 1);
        }
        if p2 == n {
            return None;
        }
        let ghost tail = rest.skip(p2 - p1);
        proof {
            assert(tail =~= s@.subrange(p2 + 1, n as int));
        }
        let p3 = find_dash(s, p2 + 1);
        proof {
            assert forall|k: int| 0 <= k < p3 - p2 - 1 implies tail[k] != '-' by {
                assert(tail[k] == s@[p2 + 1 + k]);
            }
            if p3 < n {
                assert(tail[p3 - p2 - 1] == s@[p3 as int]);
            }
            lemma_first_dash_is(tail, p3 - p2 - 1);
        }
        if p3 < n {
            return None;
        }
        proof {
            assert(s@.take(p1 as int) =~= s@.subrange(0, p1 as int));
            assert(rest.take(p2 - p1 - 1) =~= s@.subrange(p1 + 1, p2 as int));
        }
        let year = match parse_i32_seg(s, 0, p1) {
            Some(y) => y,
            None => {
                return None;
            },
        };
        let month = match parse_u32_seg(s, p1 + 1, p2) {
            Some(m) => m,
            None => {
                return None;
            },
        };
        let day = match parse_u32_seg(s, p2 + 1, n) {
            Some(d) => d,
            None => {
                return None;
            },
        };
        Some(Date { year, month, day })
    }
}

/// The digits a minimum-width, zero-padding render gives `v`: the sign,
/// if any, counts towards the width.
pub open spec fn render_int(v: int, w: nat) -> Seq<char> {
    if v < 0 {
        seq!['-'] + pad_left(dec_digits((-v) as nat), (w - 1) as nat)
    } else {
        pad_left(dec_digits(v as nat), w)
    }
}

/// The `YYYY-MM-DD` rendering of a date: year at least four characters,
/// month and day at least two, each zero-padded.
pub open spec fn date_str(d: Date) -> Seq<char> {
    render_int(d.year as int, 4) + seq!['-'] + pad_left(dec_digits(d.month as nat), 2) + seq!['-']
        + pad_left(dec_digits(d.day as nat), 2)
}

/// One decimal digit as a borrowed string.
fn digit_str(d: u8) -> (r: &'static str)
    requires
        d < 10,
    ensures
        r@ =~= seq![crate::digits::digit_char(d as nat)],
{
    proof {
        reveal_strlit("0");
        reveal_strlit("1");
        reveal_strlit("2");
        reveal_strlit("3");
        reveal_strlit("4");
        reveal_strlit("5");
        reveal_strlit("6");
        reveal_strlit("7");
        reveal_strlit("8");
        reveal_strlit("9");
    }
    if d == 0 {
        "0"
    } else if d == 1 {
        "1"
    } else if d == 2 {
        "2"
    } else if d == 3 {
        "3"
    } else if d == 4 {
        "4"
    } else if d == 5 {
        "5"
    } else if d == 6 {
        "6"
    } else if d == 7 {
        "7"
    } else if d == 8 {
        "8"
    } else {
        "9"
    }
}

/// Appends the decimal digits of `n`, most significant first.
fn push_dec(out: &mut String, n: u64)
    ensures
        final (out)@ == old(out)@ + dec_digits(n as nat),
    decreases n,
{
    if n >= 10 {
        push_dec(out, n / 10);
    }
    let ghost mid = out@;
    out.append(digit_str((n % 10) as u8));
    proof {
        if n < 10 {
            assert(final (out)@ =~= old(out)@ + dec_digits(n as nat));
        } else {
            assert(mid == old(out)@ + dec_digits((n / 10) as nat));
            assert(final (out)@ =~= old(out)@ + dec_digits((n / 10) as nat).push(
                crate::digits::digit_char((n % 10) as nat),
            ));
        }
    }
}

/// How many digits `n` has, by range.
proof fn lemma_dec_len(n: nat)
    ensures
        n < 10 ==> dec_digits(n).len() == 1,
        10 <= n < 100 ==> dec_digits(n).len() == 2,
        100 <= n < 1000 ==> dec_digits(n).len() == 3,
        n >= 1000 ==> dec_digits(n).len() >= 4,
    decreases n,
{
    if n >= 10 {
        lemma_dec_len(n / 10);
    }
}

/// Appends `n` zero-padded to at least two characters.
pub(crate) fn push_pad2(out: &mut String, n: u64)
    ensures
        final (out)@ == old(out)@ + pad_left(dec_digits(n as nat), 2),
{
    proof {
        lemma_dec_len(n as nat);
    }
    if n < 10 {
        out.append("0");
        proof {
            reveal_strlit("0");
            assert(zeroes(1) =~= "0"@);
        }
    }
    push_dec(out, n);
    proof {
        if n < 10 {
            assert(pad_left(dec_digits(n as nat), 2) =~= zeroes(1) + dec_digits(n as nat));
            assert(final (out)@ =~= old(out)@ + pad_left(dec_digits(n as nat), 2));
        }
    }
}

/// Appends `n` zero-padded to at least `width` characters, `width` up to
/// four.
fn push_pad_to(out: &mut String, n: u64, width: usize)
    requires
        3 <= width <= 4,
    ensures
        final (out)@ == old(out)@ + pad_left(dec_digits(n as nat), width as nat),
{
    proof {
        lemma_dec_len(n as nat);
        reveal_strlit("0");
        reveal_strlit("00");
        reveal_strlit("000");
        assert(zeroes(1) =~= "0"@);
        assert(zeroes(2) =~= "00"@);
        assert(zeroes(3) =~= "000"@);
    }
    let ghost padded = pad_left(dec_digits(n as nat), width as nat);
    let need: usize = if n < 10 {
        width - 1
    } else if n < 100 {
        width - 2
    } else if n < 1000 {
        if width == 4 {
            1
        } else {
            0
        }
    } else {
        0
    };
    if need == 1 {
        out.append("0");
    } else if need == 2 {
        out.append("00");
    } else if need == 3 {
        out.append("000");
    }
    push_dec(out, n);
    proof {
        if need > 0 {
            assert(padded =~= zeroes(need as nat) + dec_digits(n as nat));
        } else {
            assert(padded =~= dec_digits(n as nat));
        }
        assert(final (out)@ =~= old(out)@ + padded);
    }
}

/// Appends a year the way a width-four, zero-padding render writes it.
pub(crate) fn push_year4(out: &mut String, year: i32)
    ensures
        final (out)@ == old(out)@ + render_int(year as int, 4),
{
    if year < 0 {
        out.append("-");
        proof {
            reveal_strlit("-");
            assert("-"@ =~= seq!['-']);
        }
        let mag = (-(year as i64)) as u64;
        push_pad_to(out, mag, 3);
        proof {
            assert(final (out)@ =~= old(out)@ + render_int(year as int, 4));
        }
    } else {
        push_pad_to(out, year as u64, 4);
    }
}

impl Date {
    /// Renders the date as `YYYY-MM-DD`, zero-padded to four, two and two
    /// characters (a sign, for a negative year, counts towards the four).
    pub fn render(&self) -> (r: String)
        ensures
            r@ == date_str(*self),
    {
        let mut out = String::new();
        push_year4(&mut out, self.year);
        out.append("-");
        push_pad2(&mut out, self.month as u64);
        out.append("-");
        push_pad2(&mut out, self.day as u64);
        proof {
            reveal_strlit("-");
            assert("-"@ =~= seq!['-']);
            assert(out@ =~= date_str(*self));
        }
        out
    }
}

/// A ten-character date string already zero-padded to four, two and two
/// digit segments.
pub open spec fn is_padded_date(s: Seq<char>) -> bool {
    &&& s.len() == 10
    &&& s[4] == '-'
    &&& s[7] == '-'
    &&& all_digits(s.subrange(0, 4))
    &&& all_digits(s.subrange(5, 7))
    &&& all_digits(s.subrange(8, 10))
}

/// Parsing a zero-padded `YYYY-MM-DD` string succeeds, and rendering the
/// parsed date restores the string exactly.
pub proof fn lemma_parse_render_roundtrip(s: Seq<char>)
    requires
        is_padded_date(s),
    ensures
        parse_date(s) is Some,
        date_str(parse_date(s).unwrap()) == s,
{
    let seg1 = s.subrange(0, 4);
    let seg2 = s.subrange(5, 7);
    let seg3 = s.subrange(8, 10);
    assert forall|k: int| 0 <= k < 4 implies s[k] != '-' by {
        assert(is_digit(seg1[k]));
    }
    lemma_first_dash_is(s, 4);
    let rest = s.skip(5);
    assert forall|k: int| 0 <= k < 2 implies rest[k] != '-' by {
        assert(rest[k] == s[5 + k]);
        assert(is_digit(seg2[k]));
    }
    assert(rest[2] == s[7]);
    lemma_first_dash_is(rest, 2);
    let tail = rest.skip(3);
    assert(tail =~= seg3);
    assert forall|k: int| 0 <= k < 2 implies tail[k] != '-' by {
        assert(is_digit(seg3[k]));
    }
    lemma_first_dash_is(tail, 2);
    assert(s.take(4) =~= seg1);
    assert(rest.take(2) =~= seg2);
    lemma_digits_val_bound(seg1);
    lemma_digits_val_bound(seg2);
    lemma_digits_val_bound(seg3);
    assert(pow10(4) == 10000) by {
        assert(pow10(0) == 1);
        assert(pow10(1) == 10);
        assert(pow10(2) == 100);
        assert(pow10(3) == 1000);
    }
    assert(pow10(2) == 100) by {
        assert(pow10(0) == 1);
        assert(pow10(1) == 10);
    }
    assert(seg1[0] != '-' && seg1[0] != '+') by {
        assert(is_digit(seg1[0]));
    }
    assert(parse_i32_spec(seg1) == Some(digits_val(seg1) as i32));
    assert(seg2[0] != '+' && seg3[0] != '+') by {
        assert(is_digit(seg2[0]));
        assert(is_digit(seg3[0]));
    }
    assert(parse_u32_spec(seg2) == Some(digits_val(seg2) as u32));
    assert(parse_u32_spec(seg3) == Some(digits_val(seg3) as u32));
    let d = parse_date(s).unwrap();
    lemma_pad_roundtrip(seg1);
    lemma_pad_roundtrip(seg2);
    lemma_pad_roundtrip(seg3);
    assert(date_str(d) =~= s);
}

} // verus!

