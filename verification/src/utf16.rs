//! Decoding of UTF-16 code units, stopping at the first NUL unit.

use vstd::prelude::*;

verus! {

/// A leading (high) surrogate code unit.
pub open spec fn is_high_surrogate(u: u16) -> bool {
    0xD800 <= u <= 0xDBFF
}

/// A trailing (low) surrogate code unit.
pub open spec fn is_low_surrogate(u: u16) -> bool {
    0xDC00 <= u <= 0xDFFF
}

/// The code point that a surrogate pair encodes.
pub open spec fn surrogate_pair_value(hi: u16, lo: u16) -> int {
    0x10000 + (hi - 0xD800) * 0x400 + (lo - 0xDC00)
}

/// The characters that `units` encode up to its first NUL unit (or its end),
/// or `None` where a surrogate before that point is unpaired.
pub open spec fn decode_utf16_to_nul(units: Seq<u16>) -> Option<Seq<char>>
    decreases units.len(),
{
    if units.len() == 0 || units[0] == 0 {
        Some(Seq::empty())
    } else if is_high_surrogate(units[0]) {
        if units.len() >= 2 && is_low_surrogate(units[1]) {
            match decode_utf16_to_nul(units.skip(2)) {
                Some(rest) => Some(
                    seq![surrogate_pair_value(units[0], units[1]) as char] + rest,
                ),
                None => None,
            }
        } else {
            None
        }
    } else if is_low_surrogate(units[0]) {
        None
    } else {
        match decode_utf16_to_nul(units.skip(1)) {
            Some(rest) => Some(seq![units[0] as char] + rest),
            None => None,
        }
    }
}

/// `prefix` followed by what `rest` holds, if it holds something.
pub open spec fn prepend_chars(prefix: Seq<char>, rest: Option<Seq<char>>) -> Option<Seq<char>> {
    match rest {
        Some(r) => Some(prefix + r),
        None => None,
    }
}

/// `char::from_u32`: the character with scalar value `v`, or `None` where `v`
/// is a surrogate or above `0x10FFFF`.
#[verifier::external_body]
fn char_from_u32(v: u32) -> (r: Option<char>)
    ensures
        (v < 0xD800 || (0xE000 <= v && v <= 0x10FFFF)) ==> r == Some(v as char),
        !(v < 0xD800 || (0xE000 <= v && v <= 0x10FFFF)) ==> r is None,
{
    char::from_u32(v)
}

/// `String::from_iter`: the string of the given characters.
#[verifier::external_body]
pub(crate) fn string_from_chars(chars: Vec<char>) -> (s: String)
    ensures
        s@ == chars@,
{
    String::from_iter(chars)
}

/// Decodes `units` up to its first NUL unit; `None` where a surrogate before
/// that point is unpaired.
pub fn decode_utf16_until_nul(units: &Vec<u16>) -> (r: Option<Vec<char>>)
    ensures
        r is Some <==> decode_utf16_to_nul(units@) is Some,
        r matches Some(cs) ==> Some(cs@) == decode_utf16_to_nul(units@),
{
    let n = units.len();
    let mut out: Vec<char> = Vec::new();
    let mut i: usize = 0;
    assert(units@.skip(0) =~= units@);
    while i < n
        invariant
            n == units@.len(),
            i <= n,
            decode_utf16_to_nul(units@) == prepend_chars(out@, decode_utf16_to_nul(units@.skip(i as int))),
        decreases n - i,
    {
        let u = units[i];
        let ghost tail = units@.skip(i as int);
        assert(tail[0] == u);
        if u == 0 {
            assert(decode_utf16_to_nul(tail) == Some(Seq::<char>::empty()));
            assert(out@ + Seq::<char>::empty() =~= out@);
            return Some(out);
        } else if 0xD800 <= u && u <= 0xDBFF {
            if i + 1 < n && 0xDC00 <= units[i + 1] && units[i + 1] <= 0xDFFF {
                let lo = units[i + 1];
                assert(tail[1] == lo);
                let v: u32 = 0x10000 + ((u as u32) - 0xD800) * 0x400 + ((lo as u32) - 0xDC00);
                assert(v == surrogate_pair_value(u, lo));
                let c = char_from_u32(v);
                match c {
                    Some(ch) => {
                        assert(tail.skip(2) =~= units@.skip(i + 2));
                        let ghost before = out@;
                        out.push(ch);
                        assert(before + (seq![ch] + decode_utf16_to_nul(units@.skip(i + 2)).unwrap())
                            =~= out@ + decode_utf16_to_nul(units@.skip(i + 2)).unwrap());
                        i = i + 2;
                    },
                    None => {
                        return None;
                    },
                }
            } else {
                return None;
            }
        } else if 0xDC00 <= u && u <= 0xDFFF {
            return None;
        } else {
            let c = char_from_u32(u as u32);
            match c {
                Some(ch) => {
                    assert(tail.skip(1) =~= units@.skip(i + 1));
                    let ghost before = out@;
                    out.push(ch);
                    assert(before + (seq![ch] + decode_utf16_to_nul(units@.skip(i + 1)).unwrap())
                        =~= out@ + decode_utf16_to_nul(units@.skip(i + 1)).unwrap());
                    i = i + 1;
                },
                None => {
                    return None;
                },
            }
        }
    }
    assert(units@.skip(n as int).len() == 0);
    assert(out@ + Seq::<char>::empty() =~= out@);
    Some(out)
}

/// Units that are neither NUL nor surrogates decode one for one to the
/// characters with the same values.
pub proof fn law_plain_units_decode_to_their_characters(units: Seq<u16>)
    requires
        forall|i: int|
            0 <= i < units.len() ==> #[trigger] units[i] != 0 && !(0xD800 <= units[i] && units[i]
                <= 0xDFFF),
    ensures
        decode_utf16_to_nul(units) is Some,
        decode_utf16_to_nul(units).unwrap().len() == units.len(),
        forall|i: int|
            0 <= i < units.len() ==> (#[trigger] decode_utf16_to_nul(units).unwrap()[i]) as u32
                == units[i] as u32,
    decreases units.len(),
{
    if units.len() > 0 {
        let rest = units.skip(1);
        assert forall|i: int| 0 <= i < rest.len() implies #[trigger] rest[i] != 0 && !(0xD800
            <= rest[i] && rest[i] <= 0xDFFF) by {
            assert(rest[i] == units[i + 1]);
        }
        law_plain_units_decode_to_their_characters(rest);
        let cs = decode_utf16_to_nul(units).unwrap();
        let u0 = units[0];
        assert(((u0 as char) as u32) == u0 as u32);
        assert forall|i: int| 0 <= i < units.len() implies (#[trigger] cs[i]) as u32
            == units[i] as u32 by {
            if i > 0 {
                assert(cs[i] == decode_utf16_to_nul(rest).unwrap()[i - 1]);
                assert(rest[i - 1] == units[i]);
            }
        }
    }
}

/// Decoding stops at the first NUL unit: what follows it is not decoded.
pub proof fn law_decoding_stops_at_nul(before: Seq<u16>, after: Seq<u16>)
    requires
        forall|i: int| 0 <= i < before.len() ==> #[trigger] before[i] != 0 && !(0xD800 <= before[i]
            && before[i] <= 0xDFFF),
    ensures
        decode_utf16_to_nul(before + seq![0u16] + after) == decode_utf16_to_nul(before),
    decreases before.len(),
{
    let whole = before + seq![0u16] + after;
    if before.len() == 0 {
        assert(whole[0] == 0);
    } else {
        let rest = before.skip(1);
        assert forall|i: int| 0 <= i < rest.len() implies #[trigger] rest[i] != 0 && !(0xD800
            <= rest[i] && rest[i] <= 0xDFFF) by {
            assert(rest[i] == before[i + 1]);
        }
        law_decoding_stops_at_nul(rest, after);
        assert(whole[0] == before[0]);
        assert(whole.skip(1) =~= rest + seq![0u16] + after);
    }
}

/// A leading surrogate followed by a trailing one decodes to the single
/// character `0x10000 + (hi - 0xD800) * 0x400 + (lo - 0xDC00)`.
pub proof fn law_surrogate_pair_decodes_to_one_character(hi: u16, lo: u16)
    requires
        0xD800 <= hi <= 0xDBFF,
        0xDC00 <= lo <= 0xDFFF,
    ensures
        decode_utf16_to_nul(seq![hi, lo]) is Some,
        decode_utf16_to_nul(seq![hi, lo]).unwrap().len() == 1,
        decode_utf16_to_nul(seq![hi, lo]).unwrap()[0] as u32 == 0x10000 + (hi - 0xD800) * 0x400 + (lo
            - 0xDC00),
{
    let u = seq![hi, lo];
    assert(u.len() == 2 && u[0] == hi && u[1] == lo);
    assert(u.skip(2) =~= Seq::<u16>::empty());
    assert(decode_utf16_to_nul(u.skip(2)) == Some(Seq::<char>::empty()));
    let v = 0x10000 + (hi - 0xD800) * 0x400 + (lo - 0xDC00);
    assert(0x10000 <= v <= 0x10FFFF);
    assert(((v as char) as u32) == v);
}

/// A trailing surrogate that no leading one precedes, or a leading one that
/// no trailing one follows, makes the units invalid.
pub proof fn law_unpaired_surrogate_is_invalid(u: u16, rest: Seq<u16>)
    requires
        0xD800 <= u <= 0xDFFF,
        0xD800 <= u <= 0xDBFF ==> rest.len() == 0 || !(0xDC00 <= rest[0] <= 0xDFFF),
    ensures
        decode_utf16_to_nul(seq![u] + rest) is None,
{
    let w = seq![u] + rest;
    assert(w[0] == u);
    if rest.len() > 0 {
        assert(w[1] == rest[0]);
    }
}

} // verus!
