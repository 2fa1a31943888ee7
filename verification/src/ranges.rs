//! The `--events` filter of `evtx_dump`: a comma-separated list of event
//! numbers and inclusive ranges `start-stop`.

use crate::text::{chars_of, decimal, digit_char};
use crate::utf16::string_from_chars;
use std::ops::RangeInclusive;
use vstd::prelude::*;

verus! {

/// An ASCII decimal digit.
pub open spec fn is_ascii_digit(c: char) -> bool {
    48 <= (c as u32) && (c as u32) <= 57
}

/// Every character of `d` is an ASCII decimal digit.
pub open spec fn all_digits(d: Seq<char>) -> bool {
    forall|i: int| 0 <= i < d.len() ==> is_ascii_digit(#[trigger] d[i])
}

/// The number that the decimal digits `d` write.
pub open spec fn digits_value(d: Seq<char>) -> nat
    decreases d.len(),
{
    if d.len() == 0 {
        0
    } else {
        digits_value(d.drop_last()) * 10 + ((d.last() as u32) - 48) as nat
    }
}

/// The digits of an unsigned number: `s` without a leading `+`.
pub open spec fn unsigned_digits(s: Seq<char>) -> Seq<char> {
    if s.len() > 0 && s[0] == '+' {
        s.skip(1)
    } else {
        s
    }
}

/// What `usize::from_str` gives for `s`: the value of an optional `+`
/// followed by at least one ASCII digit, where it fits in a `usize`.
pub open spec fn spec_parse_usize(s: Seq<char>) -> Option<usize> {
    let d = unsigned_digits(s);
    if d.len() > 0 && all_digits(d) && digits_value(d) <= usize::MAX {
        Some(digits_value(d) as usize)
    } else {
        None
    }
}

/// The pieces of `s` between the occurrences of `sep`, as `str::split` gives
/// them (an empty `s` gives one empty piece).
pub open spec fn split_chars(s: Seq<char>, sep: char) -> Seq<Seq<char>>
    decreases s.len(),
{
    if s.len() == 0 {
        seq![Seq::<char>::empty()]
    } else {
        let r = split_chars(s.drop_last(), sep);
        if s.last() == sep {
            r.push(Seq::<char>::empty())
        } else {
            r.update(r.len() - 1, r.last().push(s.last()))
        }
    }
}

/// Why a piece of the list is refused.
#[derive(Debug, Clone, Copy, PartialEq, Eq)]
pub enum RangesErrorKind {
    /// A number is missing or is not a non-negative integer that fits.
    NotAPositiveNumber,
    /// A piece holds more than one `-`.
    NotASingleNumberOrRange,
}

/// What a piece of the list stands for: a range `start-stop` where it holds
/// a `-`, else the single number `n` as the range `n-n`.
pub open spec fn spec_parse_piece(p: Seq<char>) -> Result<(usize, usize), RangesErrorKind> {
    if p.contains('-') {
        let numbers = split_chars(p, '-');
        match (spec_parse_usize(numbers[0]), spec_parse_usize(numbers[1])) {
            (Some(start), Some(stop)) => if numbers.len() == 2 {
                Ok((start, stop))
            } else {
                Err(RangesErrorKind::NotASingleNumberOrRange)
            },
            _ => Err(RangesErrorKind::NotAPositiveNumber),
        }
    } else {
        match spec_parse_usize(p) {
            Some(n) => Ok((n, n)),
            None => Err(RangesErrorKind::NotAPositiveNumber),
        }
    }
}

/// The ranges of the pieces, or why the first refused piece is refused,
/// with that piece.
pub open spec fn spec_parse_pieces(pieces: Seq<Seq<char>>) -> Result<
    Seq<(usize, usize)>,
    (RangesErrorKind, Seq<char>),
>
    decreases pieces.len(),
{
    if pieces.len() == 0 {
        Ok(Seq::empty())
    } else {
        match spec_parse_piece(pieces[0]) {
            Err(kind) => Err((kind, pieces[0])),
            Ok(range) => match spec_parse_pieces(pieces.skip(1)) {
                Ok(rest) => Ok(seq![range] + rest),
                Err(e) => Err(e),
            },
        }
    }
}

/// The ranges that the list `s` writes, or why it is refused.
pub open spec fn spec_parse_ranges(s: Seq<char>) -> Result<
    Seq<(usize, usize)>,
    (RangesErrorKind, Seq<char>),
> {
    spec_parse_pieces(split_chars(s, ','))
}

/// The message of a refused piece `range`.
pub open spec fn spec_error_message(kind: RangesErrorKind, range: Seq<char>) -> Seq<char> {
    match kind {
        RangesErrorKind::NotAPositiveNumber => "Expected range to be a positive number, got: "@
            + range,
        RangesErrorKind::NotASingleNumberOrRange =>
            "Expected either a single number or range of numbers, but got: "@ + range,
    }
}

/// Whether `n` lies in one of the inclusive `ranges`.
pub open spec fn in_some_range(ranges: Seq<(usize, usize)>, n: int) -> bool {
    exists|i: int| 0 <= i < ranges.len() && ranges[i].0 <= n && n <= ranges[i].1
}

/// A refused event-range list: why, and the piece refused.
#[derive(Debug, Clone)]
pub struct RangesError {
    pub kind: RangesErrorKind,
    pub range: String,
}

impl RangesError {
    /// The message that describes the error.
    pub fn to_string(&self) -> (m: String)
        ensures
            m@ == spec_error_message(self.kind, self.range@),
    {
        let mut m = match self.kind {
            RangesErrorKind::NotAPositiveNumber => "Expected range to be a positive number, got: ".to_owned(),
            RangesErrorKind::NotASingleNumberOrRange => "Expected either a single number or range of numbers, but got: ".to_owned(),
        };
        m.append(self.range.as_str());
        m
    }
}

/// A set of event numbers, given as inclusive ranges.
pub struct Ranges(Vec<RangeInclusive<usize>>);

impl View for Ranges {
    type V = Seq<(usize, usize)>;

    closed spec fn view(&self) -> Seq<(usize, usize)> {
        self.0@.map_values(|r: RangeInclusive<usize>| (r@.start, r@.end))
    }
}

/// The value of a prefix of all-digit `d` is at most the value of `d`.
proof fn lemma_digits_value_prefix(d: Seq<char>, k: int)
    requires
        all_digits(d),
        0 <= k <= d.len(),
    ensures
        digits_value(d.take(k)) <= digits_value(d),
    decreases d.len(),
{
    if k < d.len() {
        assert(d.drop_last().take(k) =~= d.take(k));
        lemma_digits_value_prefix(d.drop_last(), k);
    } else {
        assert(d.take(k) =~= d);
    }
}

/// `split_chars` gives at least one piece, and two where `sep` occurs.
proof fn lemma_split_len(s: Seq<char>, sep: char)
    ensures
        split_chars(s, sep).len() >= 1,
        s.contains(sep) ==> split_chars(s, sep).len() >= 2,
    decreases s.len(),
{
    if s.len() > 0 {
        lemma_split_len(s.drop_last(), sep);
        if s.last() != sep && s.contains(sep) {
            let i = choose|i: int| 0 <= i < s.len() && s[i] == sep;
            assert(s.drop_last()[i] == sep);
        }
    }
}

/// Parses `chars[start..end]` as `usize::from_str` does.
fn parse_usize(chars: &Vec<char>, start: usize, end: usize) -> (r: Option<usize>)
    requires
        start <= end <= chars@.len(),
    ensures
        r == spec_parse_usize(chars@.subrange(start as int, end as int)),
{
    let ghost s = chars@.subrange(start as int, end as int);
    let mut i = start;
    if i < end && chars[i] == '+' {
        i = i + 1;
    }
    let dstart = i;
    let ghost d = chars@.subrange(dstart as int, end as int);
    assert(unsigned_digits(s) =~= d);
    if dstart == end {
        return None;
    }
    let mut val: usize = 0;
    assert(d.take(0) =~= Seq::<char>::empty());
    while i < end
        invariant
            start <= dstart <= i <= end <= chars@.len(),
            dstart < end,
            d == chars@.subrange(dstart as int, end as int),
            s == chars@.subrange(start as int, end as int),
            unsigned_digits(s) == d,
            all_digits(d.take(i - dstart)),
            val == digits_value(d.take(i - dstart)),
        decreases end - i,
    {
        let c = chars[i];
        assert(d[i - dstart] == c);
        let code = c as u32;
        if !(48 <= code && code <= 57) {
            assert(!is_ascii_digit(d[i - dstart]));
            return None;
        }
        let digit = (code - 48) as usize;
        assert(d.take(i - dstart + 1).drop_last() =~= d.take(i - dstart));
        assert(d.take(i - dstart + 1).last() == c);
        assert(digits_value(d.take(i - dstart + 1)) == val * 10 + digit);
        assert(all_digits(d.take(i - dstart + 1)));
        let next = match val.checked_mul(10) {
            Some(m) => m.checked_add(digit),
            None => None,
        };
        match next {
            Some(v) => {
                val = v;
                i = i + 1;
            },
            None => {
                proof {
                    if all_digits(d) {
                        lemma_digits_value_prefix(d, i - dstart + 1);
                    }
                }
                return None;
            },
        }
    }
    assert(d.take(end - dstart) =~= d);
    Some(val)
}

/// The pieces of `chars` in `pieces`, as character sequences.
spec fn pieces_view(chars: Seq<char>, pieces: Seq<(usize, usize)>) -> Seq<Seq<char>> {
    pieces.map_values(|p: (usize, usize)| chars.subrange(p.0 as int, p.1 as int))
}

/// The bounds of the pieces of `chars[start..end]` between occurrences of `sep`.
fn split_positions(chars: &Vec<char>, start: usize, end: usize, sep: char) -> (pieces: Vec<(usize, usize)>)
    requires
        start <= end <= chars@.len(),
    ensures
        pieces_view(chars@, pieces@) == split_chars(chars@.subrange(start as int, end as int), sep),
        forall|k: int| 0 <= k < pieces@.len() ==> start <= (#[trigger] pieces@[k]).0 <= pieces@[k].1 <= end,
{
    let mut pieces: Vec<(usize, usize)> = Vec::new();
    let mut cur = start;
    let mut i = start;
    assert(chars@.subrange(start as int, start as int) =~= Seq::<char>::empty());
    assert(pieces_view(chars@, pieces@).push(chars@.subrange(cur as int, i as int)) =~= split_chars(
        chars@.subrange(start as int, i as int),
        sep,
    ));
    while i < end
        invariant
            start <= cur <= i <= end <= chars@.len(),
            pieces_view(chars@, pieces@).push(chars@.subrange(cur as int, i as int)) == split_chars(
                chars@.subrange(start as int, i as int),
                sep,
            ),
            forall|k: int| 0 <= k < pieces@.len() ==> start <= (#[trigger] pieces@[k]).0 <= pieces@[k].1 <= cur,
        decreases end - i,
    {
        let ghost prev = chars@.subrange(start as int, i as int);
        let ghost next = chars@.subrange(start as int, i + 1);
        assert(next.drop_last() =~= prev);
        assert(next.last() == chars@[i as int]);
        if chars[i] == sep {
            pieces.push((cur, i));
            cur = i + 1;
            assert(chars@.subrange(cur as int, i + 1) =~= Seq::<char>::empty());
            assert(pieces_view(chars@, pieces@).push(chars@.subrange(cur as int, i + 1)) =~= split_chars(next, sep));
        } else {
            assert(chars@.subrange(cur as int, i as int).push(chars@[i as int]) =~= chars@.subrange(cur as int, i + 1));
            assert(pieces_view(chars@, pieces@).push(chars@.subrange(cur as int, i + 1)) =~= split_chars(next, sep));
        }
        i = i + 1;
    }
    pieces.push((cur, end));
    assert(pieces_view(chars@, pieces@) =~= split_chars(chars@.subrange(start as int, end as int), sep));
    pieces
}

/// Whether `chars[start..end]` holds `c`.
fn has_char(chars: &Vec<char>, start: usize, end: usize, c: char) -> (b: bool)
    requires
        start <= end <= chars@.len(),
    ensures
        b == chars@.subrange(start as int, end as int).contains(c),
{
    let mut i = start;
    while i < end
        invariant
            start <= i <= end <= chars@.len(),
            forall|k: int| start <= k < i ==> chars@[k] != c,
        decreases end - i,
    {
        if chars[i] == c {
            assert(chars@.subrange(start as int, end as int)[i - start] == c);
            return true;
        }
        i = i + 1;
    }
    proof {
        let s = chars@.subrange(start as int, end as int);
        assert forall|k: int| 0 <= k < s.len() implies s[k] != c by {
            assert(s[k] == chars@[start + k]);
        }
    }
    false
}

/// The string of `chars[start..end]`.
fn piece_string(chars: &Vec<char>, start: usize, end: usize) -> (s: String)
    requires
        start <= end <= chars@.len(),
    ensures
        s@ == chars@.subrange(start as int, end as int),
{
    let mut v: Vec<char> = Vec::new();
    let mut i = start;
    while i < end
        invariant
            start <= i <= end <= chars@.len(),
            v@ == chars@.subrange(start as int, i as int),
        decreases end - i,
    {
        v.push(chars[i]);
        assert(v@ =~= chars@.subrange(start as int, i + 1));
        i = i + 1;
    }
    string_from_chars(v)
}

/// What a piece of `chars` stands for, as `spec_parse_piece` says.
fn parse_piece(chars: &Vec<char>, start: usize, end: usize) -> (r: Result<(usize, usize), RangesErrorKind>)
    requires
        start <= end <= chars@.len(),
    ensures
        r == spec_parse_piece(chars@.subrange(start as int, end as int)),
{
    let ghost p = chars@.subrange(start as int, end as int);
    if has_char(chars, start, end, '-') {
        let numbers = split_positions(chars, start, end, '-');
        proof {
            lemma_split_len(p, '-');
        }
        let (s0, e0) = numbers[0];
        let (s1, e1) = numbers[1];
        assert(chars@.subrange(s0 as int, e0 as int) == split_chars(p, '-')[0]);
        assert(chars@.subrange(s1 as int, e1 as int) == split_chars(p, '-')[1]);
        let rstart = parse_usize(chars, s0, e0);
        let rstop = parse_usize(chars, s1, e1);
        match (rstart, rstop) {
            (Some(x), Some(y)) => {
                if numbers.len() == 2 {
                    Ok((x, y))
                } else {
                    Err(RangesErrorKind::NotASingleNumberOrRange)
                }
            },
            _ => Err(RangesErrorKind::NotAPositiveNumber),
        }
    } else {
        match parse_usize(chars, start, end) {
            Some(n) => Ok((n, n)),
            None => Err(RangesErrorKind::NotAPositiveNumber),
        }
    }
}

/// `prefix` followed by the ranges that `rest` holds, if it holds some.
spec fn prepend_ranges(
    prefix: Seq<(usize, usize)>,
    rest: Result<Seq<(usize, usize)>, (RangesErrorKind, Seq<char>)>,
) -> Result<Seq<(usize, usize)>, (RangesErrorKind, Seq<char>)> {
    match rest {
        Ok(r) => Ok(prefix + r),
        Err(e) => Err(e),
    }
}

/// The bounds of a list of inclusive ranges.
spec fn range_bounds(v: Seq<RangeInclusive<usize>>) -> Seq<(usize, usize)> {
    v.map_values(|r: RangeInclusive<usize>| (r@.start, r@.end))
}

impl Ranges {
    /// No range has been iterated, so each holds exactly its bounds.
    #[verifier::type_invariant]
    spec fn fresh(&self) -> bool {
        forall|i: int| 0 <= i < self.0@.len() ==> !(#[trigger] self.0@[i])@.exhausted
    }

    /// Whether `number` lies in one of the ranges.
    pub fn contains(&self, number: &usize) -> (r: bool)
        ensures
            r == in_some_range(self@, *number as int),
    {
        proof {
            use_type_invariant(self);
        }
        let mut i: usize = 0;
        while i < self.0.len()
            invariant
                i <= self.0@.len(),
                self.fresh(),
                forall|j: int| 0 <= j < i ==> !(self@[j].0 <= *number && *number <= self@[j].1),
            decreases self.0@.len() - i,
        {
            assert(self@[i as int] == (self.0@[i as int]@.start, self.0@[i as int]@.end));
            if self.0[i].contains(number) {
                return true;
            }
            i = i + 1;
        }
        false
    }

    /// Parses a comma-separated list of event numbers `n` and inclusive
    /// ranges `start-stop`.
    pub fn from_str(s: &str) -> (r: Result<Ranges, RangesError>)
        ensures
            match spec_parse_ranges(s@) {
                Ok(bounds) => r matches Ok(ranges) && ranges@ == bounds,
                Err((kind, piece)) => r matches Err(e) && e.kind == kind && e.range@ == piece,
            },
    {
        let chars = chars_of(s);
        let n = chars.len();
        let pieces = split_positions(&chars, 0, n, ',');
        assert(chars@.subrange(0, n as int) =~= chars@);
        let ghost ps = pieces_view(chars@, pieces@);
        let mut res: Vec<RangeInclusive<usize>> = Vec::new();
        let mut k: usize = 0;
        assert(ps.skip(0) =~= ps);
        assert(range_bounds(res@) + Seq::<(usize, usize)>::empty() =~= range_bounds(res@));
        while k < pieces.len()
            invariant
                ps == pieces_view(chars@, pieces@),
                ps == split_chars(s@, ','),
                forall|j: int| 0 <= j < pieces@.len() ==> 0 <= (#[trigger] pieces@[j]).0 <= pieces@[j].1 <= chars@.len(),
                k <= pieces@.len(),
                spec_parse_pieces(ps) == prepend_ranges(range_bounds(res@), spec_parse_pieces(ps.skip(k as int))),
                forall|i: int| 0 <= i < res@.len() ==> !(#[trigger] res@[i])@.exhausted,
            decreases pieces@.len() - k,
        {
            let (a, b) = pieces[k];
            let ghost tail = ps.skip(k as int);
            assert(tail[0] == chars@.subrange(a as int, b as int));
            assert(tail.skip(1) =~= ps.skip(k + 1));
            match parse_piece(&chars, a, b) {
                Ok((x, y)) => {
                    let ghost before = range_bounds(res@);
                    res.push(RangeInclusive::new(x, y));
                    assert(range_bounds(res@) =~= before.push((x, y)));
                    proof {
                        match spec_parse_pieces(ps.skip(k + 1)) {
                            Ok(rest) => {
                                assert(before + (seq![(x, y)] + rest) =~= before.push((x, y)) + rest);
                            },
                            Err(_) => {},
                        }
                    }
                },
                Err(kind) => {
                    return Err(RangesError { kind, range: piece_string(&chars, a, b) });
                },
            }
            k = k + 1;
        }
        assert(ps.skip(k as int) =~= Seq::<Seq<char>>::empty());
        assert(range_bounds(res@) + Seq::<(usize, usize)>::empty() =~= range_bounds(res@));
        Ok(Ranges(res))
    }
}

/// Checks an event-range list: `Ok` where it parses, else the message of
/// the first refused piece.
pub fn matches_ranges(value: &str) -> (r: Result<(), String>)
    ensures
        match spec_parse_ranges(value@) {
            Ok(_) => r is Ok,
            Err((kind, piece)) => r matches Err(m) && m@ == spec_error_message(kind, piece),
        },
{
    match Ranges::from_str(value) {
        Ok(_) => Ok(()),
        Err(e) => Err(e.to_string()),
    }
}

/// The writing of an inclusive range: `start-stop`.
pub open spec fn range_text(r: (usize, usize)) -> Seq<char> {
    decimal(r.0 as nat) + seq!['-'] + decimal(r.1 as nat)
}

/// The writing of one piece of a list: `start-stop`, or the single number
/// `n` for a range `n-n` where `compact`.
pub open spec fn piece_text(r: (usize, usize), compact: bool) -> Seq<char> {
    if compact && r.0 == r.1 {
        decimal(r.0 as nat)
    } else {
        range_text(r)
    }
}

/// The writing of a list of ranges, with commas between the pieces (written
/// as `piece_text` says).
pub open spec fn ranges_text(rs: Seq<(usize, usize)>, compact: bool) -> Seq<char>
    decreases rs.len(),
{
    if rs.len() <= 1 {
        if rs.len() == 0 {
            Seq::empty()
        } else {
            piece_text(rs[0], compact)
        }
    } else {
        ranges_text(rs.drop_last(), compact) + seq![','] + piece_text(rs.last(), compact)
    }
}

/// The decimal writing of a number is a non-empty run of digits whose value
/// is that number.
proof fn lemma_decimal_digits(n: nat)
    ensures
        decimal(n).len() > 0,
        all_digits(decimal(n)),
        digits_value(decimal(n)) == n,
    decreases n,
{
    if n >= 10 {
        lemma_decimal_digits(n / 10);
        let d = decimal(n);
        assert(d.drop_last() =~= decimal(n / 10));
        assert(d.last() == digit_char(n % 10));
        assert((digit_char(n % 10) as u32) == 48 + n % 10);
        assert((n / 10) * 10 + n % 10 == n);
        assert(digits_value(d) == digits_value(d.drop_last()) * 10 + ((d.last() as u32) - 48) as nat);
        assert(digits_value(d) == n);
        assert forall|i: int| 0 <= i < d.len() implies is_ascii_digit(#[trigger] d[i]) by {
            if i < d.len() - 1 {
                assert(d[i] == decimal(n / 10)[i]);
            }
        }
    } else {
        assert(decimal(n).drop_last() =~= Seq::<char>::empty());
        assert((digit_char(n) as u32) == 48 + n);
        assert(digits_value(decimal(n).drop_last()) == 0);
        assert(decimal(n).last() == digit_char(n));
    }
}

/// A run of digits holds no `sep` that is not a digit.
proof fn lemma_digits_lack(d: Seq<char>, sep: char)
    requires
        all_digits(d),
        !is_ascii_digit(sep),
    ensures
        !d.contains(sep),
{
    if d.contains(sep) {
        let i = choose|i: int| 0 <= i < d.len() && d[i] == sep;
        assert(is_ascii_digit(d[i]));
    }
}

/// Splitting text without `sep` gives the text itself.
proof fn lemma_split_without_sep(s: Seq<char>, sep: char)
    requires
        !s.contains(sep),
    ensures
        split_chars(s, sep) == seq![s],
    decreases s.len(),
{
    if s.len() > 0 {
        let t = s.drop_last();
        assert(!t.contains(sep)) by {
            if t.contains(sep) {
                let i = choose|i: int| 0 <= i < t.len() && t[i] == sep;
                assert(s[i] == sep);
            }
        }
        lemma_split_without_sep(t, sep);
        assert(s.last() != sep) by {
            assert(s[s.len() - 1] == s.last());
        }
        assert(t.push(s.last()) =~= s);
    } else {
        assert(s =~= Seq::<char>::empty());
    }
}

/// Splitting `a`, `sep`, `b` gives the pieces of `a`, then those of `b`.
proof fn lemma_split_concat(a: Seq<char>, b: Seq<char>, sep: char)
    ensures
        split_chars(a + seq![sep] + b, sep) == split_chars(a, sep) + split_chars(b, sep),
    decreases b.len(),
{
    let whole = a + seq![sep] + b;
    if b.len() == 0 {
        assert(whole.drop_last() =~= a);
        assert(split_chars(b, sep) =~= seq![Seq::<char>::empty()]);
        assert(split_chars(whole, sep) =~= split_chars(a, sep) + split_chars(b, sep));
    } else {
        let b0 = b.drop_last();
        lemma_split_concat(a, b0, sep);
        lemma_split_len(b0, sep);
        lemma_split_len(a, sep);
        assert(whole.drop_last() =~= a + seq![sep] + b0);
        assert(whole.last() == b.last());
        assert(split_chars(whole, sep) =~= split_chars(a, sep) + split_chars(b, sep));
    }
}

/// A written range is split by `-` into its two numbers.
proof fn lemma_range_text_parses(r: (usize, usize))
    ensures
        spec_parse_piece(range_text(r)) == Ok::<(usize, usize), RangesErrorKind>(r),
        !range_text(r).contains(','),
{
    let x = decimal(r.0 as nat);
    let y = decimal(r.1 as nat);
    lemma_decimal_digits(r.0 as nat);
    lemma_decimal_digits(r.1 as nat);
    lemma_digits_lack(x, '-');
    lemma_digits_lack(y, '-');
    lemma_digits_lack(x, ',');
    lemma_digits_lack(y, ',');
    lemma_split_without_sep(x, '-');
    lemma_split_without_sep(y, '-');
    lemma_split_concat(x, y, '-');
    let t = range_text(r);
    assert(t[x.len() as int] == '-');
    assert(unsigned_digits(x) == x) by {
        assert(is_ascii_digit(x[0]));
    }
    assert(unsigned_digits(y) == y) by {
        assert(is_ascii_digit(y[0]));
    }
    assert(split_chars(t, '-') =~= seq![x, y]);
    assert(!t.contains(',')) by {
        if t.contains(',') {
            let i = choose|i: int| 0 <= i < t.len() && t[i] == ',';
            if i < x.len() {
                assert(x[i] == ',');
            } else if i > x.len() {
                assert(y[i - x.len() - 1] == ',');
            }
        }
    }
}

/// A written piece stands for its range and holds no comma.
proof fn lemma_piece_text_parses(r: (usize, usize), compact: bool)
    ensures
        spec_parse_piece(piece_text(r, compact)) == Ok::<(usize, usize), RangesErrorKind>(r),
        !piece_text(r, compact).contains(','),
{
    if compact && r.0 == r.1 {
        let x = decimal(r.0 as nat);
        lemma_decimal_digits(r.0 as nat);
        lemma_digits_lack(x, '-');
        lemma_digits_lack(x, ',');
        assert(unsigned_digits(x) == x) by {
            assert(is_ascii_digit(x[0]));
        }
    } else {
        lemma_range_text_parses(r);
    }
}

/// The pieces of a written list are the written ranges.
proof fn lemma_ranges_text_split(rs: Seq<(usize, usize)>, compact: bool)
    requires
        rs.len() > 0,
    ensures
        split_chars(ranges_text(rs, compact), ',') == rs.map_values(|r: (usize, usize)| piece_text(r, compact)),
    decreases rs.len(),
{
    if rs.len() == 1 {
        lemma_piece_text_parses(rs[0], compact);
        lemma_split_without_sep(piece_text(rs[0], compact), ',');
        assert(rs.map_values(|r: (usize, usize)| piece_text(r, compact)) =~= seq![piece_text(rs[0], compact)]);
    } else {
        lemma_ranges_text_split(rs.drop_last(), compact);
        lemma_piece_text_parses(rs.last(), compact);
        lemma_split_without_sep(piece_text(rs.last(), compact), ',');
        lemma_split_concat(ranges_text(rs.drop_last(), compact), piece_text(rs.last(), compact), ',');
        assert(rs.map_values(|r: (usize, usize)| piece_text(r, compact)) =~= rs.drop_last().map_values(
            |r: (usize, usize)| piece_text(r, compact),
        ) + seq![piece_text(rs.last(), compact)]);
    }
}

/// Written ranges, taken piece by piece, give back the ranges.
proof fn lemma_range_pieces_parse(rs: Seq<(usize, usize)>, compact: bool)
    ensures
        spec_parse_pieces(rs.map_values(|r: (usize, usize)| piece_text(r, compact))) == Ok::<
            Seq<(usize, usize)>,
            (RangesErrorKind, Seq<char>),
        >(rs),
    decreases rs.len(),
{
    let ps = rs.map_values(|r: (usize, usize)| piece_text(r, compact));
    if rs.len() > 0 {
        lemma_piece_text_parses(rs[0], compact);
        lemma_range_pieces_parse(rs.skip(1), compact);
        assert(ps.skip(1) =~= rs.skip(1).map_values(|r: (usize, usize)| piece_text(r, compact)));
        assert(seq![rs[0]] + rs.skip(1) =~= rs);
    } else {
        assert(rs =~= Seq::<(usize, usize)>::empty());
    }
}

/// Any non-empty list of ranges, written as `start-stop` pieces separated by
/// commas, parses back to exactly that list.
pub proof fn law_written_ranges_parse_back(rs: Seq<(usize, usize)>)
    requires
        rs.len() > 0,
    ensures
        spec_parse_ranges(ranges_text(rs, false)) == Ok::<Seq<(usize, usize)>, (RangesErrorKind, Seq<char>)>(rs),
{
    lemma_ranges_text_split(rs, false);
    lemma_range_pieces_parse(rs, false);
}

/// Any non-empty list of ranges, written with commas between the pieces and
/// each range `n-n` written as the single number `n`, parses back to exactly
/// that list.
pub proof fn law_compactly_written_ranges_parse_back(rs: Seq<(usize, usize)>)
    requires
        rs.len() > 0,
    ensures
        spec_parse_ranges(ranges_text(rs, true)) == Ok::<Seq<(usize, usize)>, (RangesErrorKind, Seq<char>)>(rs),
{
    lemma_ranges_text_split(rs, true);
    lemma_range_pieces_parse(rs, true);
}

/// The decimal writing of every number is a non-empty run of ASCII digits
/// whose value is that number, without a leading zero (but for `0` itself).
pub proof fn law_decimal_writes_the_number(n: nat)
    ensures
        decimal(n).len() > 0,
        all_digits(decimal(n)),
        digits_value(decimal(n)) == n,
        decimal(n).len() > 1 ==> decimal(n)[0] != '0',
        n >= 10 ==> decimal(n).len() > 1,
    decreases n,
{
    lemma_decimal_digits(n);
    if n >= 10 {
        law_decimal_writes_the_number(n / 10);
        assert(decimal(n)[0] == decimal(n / 10)[0]);
        if n / 10 < 10 {
            let m = n / 10;
            assert(m > 0);
            assert(decimal(m)[0] == digit_char(m));
            assert((digit_char(m) as u32) == 48 + m);
        }
    }
}

/// `usize::from_str`: a number written in decimal, with or without a
/// leading `+`, parses to itself; text that is empty, a bare `+`, or holds a
/// character that is not a digit after the optional `+` does not parse.
pub proof fn law_usize_parsing(n: usize, text: Seq<char>)
    ensures
        spec_parse_usize(decimal(n as nat)) == Some(n),
        spec_parse_usize(seq!['+'] + decimal(n as nat)) == Some(n),
        spec_parse_usize(Seq::empty()) is None,
        spec_parse_usize(seq!['+']) is None,
        (exists|i: int| 0 <= i < text.len() && !is_ascii_digit(#[trigger] text[i]) && !(i == 0 && text[0] == '+'))
            ==> spec_parse_usize(text) is None,
{
    lemma_decimal_digits(n as nat);
    let d = decimal(n as nat);
    assert(is_ascii_digit(d[0]));
    assert(unsigned_digits(d) == d);
    assert((seq!['+'] + d).skip(1) =~= d);
    assert(seq!['+'].skip(1) =~= Seq::<char>::empty());
    if exists|i: int| 0 <= i < text.len() && !is_ascii_digit(#[trigger] text[i]) && !(i == 0 && text[0] == '+') {
        let i = choose|i: int| 0 <= i < text.len() && !is_ascii_digit(#[trigger] text[i]) && !(i == 0 && text[0] == '+');
        let u = unsigned_digits(text);
        if text.len() > 0 && text[0] == '+' {
            assert(u[i - 1] == text[i]);
        } else {
            assert(u[i] == text[i]);
        }
    }
}

/// A number lies in the single range `(a, b)` exactly when `a <= n <= b`,
/// and in a list made of two lists exactly when it lies in either.
pub proof fn law_range_membership(a: usize, b: usize, n: int, xs: Seq<(usize, usize)>, ys: Seq<(usize, usize)>)
    ensures
        in_some_range(seq![(a, b)], n) == (a <= n && n <= b),
        in_some_range(xs + ys, n) == (in_some_range(xs, n) || in_some_range(ys, n)),
        !in_some_range(Seq::empty(), n),
{
    let one = seq![(a, b)];
    if a <= n && n <= b {
        assert(one[0] == (a, b));
    }
    let zs = xs + ys;
    if in_some_range(zs, n) {
        let i = choose|i: int| 0 <= i < zs.len() && zs[i].0 <= n && n <= zs[i].1;
        if i < xs.len() {
            assert(zs[i] == xs[i]);
        } else {
            assert(zs[i] == ys[i - xs.len()]);
        }
    }
    if in_some_range(xs, n) {
        let i = choose|i: int| 0 <= i < xs.len() && xs[i].0 <= n && n <= xs[i].1;
        assert(zs[i] == xs[i]);
    }
    if in_some_range(ys, n) {
        let i = choose|i: int| 0 <= i < ys.len() && ys[i].0 <= n && n <= ys[i].1;
        assert(zs[i + xs.len()] == ys[i]);
    }
}

} // verus!
