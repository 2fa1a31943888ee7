//! Names in binary XML: the inline name record (link, hash, length-prefixed
//! UTF-16 string), references to it by chunk offset, and the cached name.

use crate::cursor::{le_u16_at, le_u32_at, ByteCursor, ReadFailure};
use crate::err::{DeserializationError, ReadKind, TokenName};
use crate::utf16::{
    decode_utf16_to_nul, decode_utf16_until_nul, law_plain_units_decode_to_their_characters,
    string_from_chars,
};
use vstd::prelude::*;

verus! {

/// An offset relative to the start of an EVTX chunk.
pub type ChunkOffset = u32;

/// The `u16` code units stored little-endian from `s[start]` on.
pub open spec fn utf16_units_at(s: Seq<u8>, start: int, n: nat) -> Seq<u16> {
    Seq::new(n, |k: int| le_u16_at(s, start + 2 * k) as u16)
}

/// Reading a length-prefixed UTF-16 string at `pos` of `s`, followed by a
/// NUL terminator unit where `nul_terminated`: what the read gives (the
/// characters up to the first NUL unit) and where the cursor ends.
pub open spec fn spec_read_len_prefixed_utf16(s: Seq<u8>, pos: int, nul_terminated: bool) -> (
    Result<Seq<char>, ReadFailure>,
    int,
) {
    if pos + 2 > s.len() {
        (Err(ReadFailure::UnexpectedEof), s.len() as int)
    } else {
        let n = le_u16_at(s, pos) as nat;
        let units_end = pos + 2 + 2 * n;
        if units_end > s.len() {
            (Err(ReadFailure::UnexpectedEof), s.len() as int)
        } else {
            match decode_utf16_to_nul(utf16_units_at(s, pos + 2, n)) {
                None => (Err(ReadFailure::InvalidData), units_end),
                Some(chars) => if !nul_terminated {
                    (Ok(chars), units_end)
                } else if units_end + 2 > s.len() {
                    (Err(ReadFailure::UnexpectedEof), s.len() as int)
                } else {
                    (Ok(chars), units_end + 2)
                },
            }
        }
    }
}

/// Reads a string prefixed by its length in UTF-16 code units (and followed
/// by a NUL unit where `is_null_terminated`). A length of zero gives `None`.
/// On failure the cursor ends where the failed read left it.
pub fn read_len_prefixed_utf16_string(cursor: &mut ByteCursor, is_null_terminated: bool) -> (r:
    Result<Option<String>, ReadFailure>)
    ensures
        final(cursor).bytes() == old(cursor).bytes(),
        final(cursor).pos() == spec_read_len_prefixed_utf16(
            old(cursor).bytes(),
            old(cursor).pos() as int,
            is_null_terminated,
        ).1,
        match spec_read_len_prefixed_utf16(
            old(cursor).bytes(),
            old(cursor).pos() as int,
            is_null_terminated,
        ).0 {
            Ok(chars) => match r {
                Ok(Some(s)) => s@ == chars && le_u16_at(old(cursor).bytes(), old(cursor).pos() as int)
                    != 0,
                Ok(None) => chars.len() == 0 && le_u16_at(
                    old(cursor).bytes(),
                    old(cursor).pos() as int,
                ) == 0,
                Err(_) => false,
            },
            Err(f) => r == Err::<Option<String>, ReadFailure>(f),
        },
{
    let ghost s = cursor.bytes();
    let ghost pos = cursor.pos() as int;
    let n = match cursor.read_u16_le() {
        Ok(n) => n,
        Err(e) => {
            return Err(e);
        },
    };
    let mut units: Vec<u16> = Vec::new();
    let mut i: u16 = 0;
    let mut failed = false;
    while i < n
        invariant_except_break
            cursor.bytes() == s,
            pos + 2 <= s.len(),
            n == le_u16_at(s, pos),
            i <= n,
            cursor.pos() == pos + 2 + 2 * i,
            pos + 2 + 2 * i <= s.len(),
            units@ == utf16_units_at(s, pos + 2, i as nat),
            !failed,
        ensures
            cursor.bytes() == s,
            failed ==> cursor.pos() == s.len() && pos + 2 + 2 * n > s.len(),
            !failed ==> cursor.pos() == pos + 2 + 2 * n && pos + 2 + 2 * n <= s.len() && units@ == utf16_units_at(
                s,
                pos + 2,
                n as nat,
            ),
        decreases n - i,
    {
        match cursor.read_u16_le() {
            Ok(u) => {
                units.push(u);
                assert(units@ =~= utf16_units_at(s, pos + 2, (i + 1) as nat));
                i = i + 1;
            },
            Err(_) => {
                failed = true;
                break;
            },
        }
    }
    if failed {
        return Err(ReadFailure::UnexpectedEof);
    }
    let chars = match decode_utf16_until_nul(&units) {
        Some(chars) => chars,
        None => {
            return Err(ReadFailure::InvalidData);
        },
    };
    if is_null_terminated {
        match cursor.read_u16_le() {
            Ok(_) => {},
            Err(e) => {
                return Err(e);
            },
        }
    }
    if n == 0 {
        Ok(None)
    } else {
        Ok(Some(string_from_chars(chars)))
    }
}

/// A name as it is stored in binary XML.
#[derive(Debug, PartialEq, Eq, PartialOrd, Clone, Hash)]
pub struct BinXmlName {
    value: String,
}

/// A reference to a name stored at an offset of the chunk.
#[derive(Debug, PartialOrd, PartialEq, Eq, Structural, Clone, Hash)]
pub struct BinXmlNameRef {
    pub offset: ChunkOffset,
}

/// The header of an inline name: the offset of the next string in the same
/// hash bucket (none where it is zero) and the name's hash.
#[derive(Debug, PartialEq, PartialOrd, Structural, Clone)]
pub struct BinXmlNameLink {
    pub next_string: Option<ChunkOffset>,
    pub hash: u16,
}

impl View for BinXmlName {
    type V = Seq<char>;

    closed spec fn view(&self) -> Seq<char> {
        self.value@
    }
}

/// The error of a failed read of `t` as field `token_name`, the cursor then
/// being at `offset`.
pub open spec fn failed_to_read(t: ReadKind, token_name: TokenName, offset: int, source: ReadFailure) -> DeserializationError {
    DeserializationError::FailedToRead { t, token_name, offset: offset as u64, source }
}

/// Reading a name link at `pos` of `s`: what it gives and where the cursor ends.
pub open spec fn spec_link_from_stream(s: Seq<u8>, pos: int) -> (
    Result<BinXmlNameLink, DeserializationError>,
    int,
) {
    if pos + 4 > s.len() {
        (
            Err(failed_to_read(ReadKind::U32, TokenName::Unknown, s.len() as int, ReadFailure::UnexpectedEof)),
            s.len() as int,
        )
    } else if pos + 6 > s.len() {
        (
            Err(failed_to_read(ReadKind::U16, TokenName::NameHash, s.len() as int, ReadFailure::UnexpectedEof)),
            s.len() as int,
        )
    } else {
        let next = le_u32_at(s, pos);
        (
            Ok(
                BinXmlNameLink {
                    next_string: if next > 0 {
                        Some(next as u32)
                    } else {
                        None
                    },
                    hash: le_u16_at(s, pos + 4) as u16,
                },
            ),
            pos + 6,
        )
    }
}

/// Reading a cached name at `pos` of `s`: the name's characters (up to its
/// first NUL unit) and where the cursor ends.
pub open spec fn spec_name_from_stream(s: Seq<u8>, pos: int) -> (
    Result<Seq<char>, DeserializationError>,
    int,
) {
    let (res, end) = spec_read_len_prefixed_utf16(s, pos, true);
    match res {
        Ok(chars) => (Ok(chars), end),
        Err(f) => (
            Err(failed_to_read(ReadKind::LenPrefixedUtf16StrNulTerminated, TokenName::Name, end, f)),
            end,
        ),
    }
}

/// Reading a name reference at `pos` of `s`: what it gives and where the
/// cursor ends. Where the offset read points just past itself, the name is
/// stored inline and is skipped (link, length, units and terminator).
pub open spec fn spec_name_ref_from_stream(s: Seq<u8>, pos: int) -> (
    Result<BinXmlNameRef, DeserializationError>,
    int,
) {
    if pos + 4 > s.len() {
        (
            Err(failed_to_read(ReadKind::U32, TokenName::NameOffset, s.len() as int, ReadFailure::UnexpectedEof)),
            s.len() as int,
        )
    } else {
        let offset = le_u32_at(s, pos);
        let before_string = pos + 4;
        if before_string != offset {
            (Ok(BinXmlNameRef { offset: offset as u32 }), before_string)
        } else {
            match spec_link_from_stream(s, before_string) {
                (Err(e), end) => (Err(e), end),
                (Ok(_), after_link) => if after_link + 2 > s.len() {
                    (Err(DeserializationError::Io(ReadFailure::UnexpectedEof)), s.len() as int)
                } else {
                    let end = before_string + 6 + 2 * le_u16_at(s, after_link) + 4;
                    if end > s.len() {
                        (Err(DeserializationError::Io(ReadFailure::UnexpectedEof)), after_link + 2)
                    } else {
                        (Ok(BinXmlNameRef { offset: offset as u32 }), end)
                    }
                },
            }
        }
    }
}

impl BinXmlNameLink {
    /// Reads the next-string offset (`u32`) and the hash (`u16`).
    pub fn from_stream(stream: &mut ByteCursor) -> (r: Result<Self, DeserializationError>)
        ensures
            final(stream).bytes() == old(stream).bytes(),
            (r, final(stream).pos() as int) == spec_link_from_stream(
                old(stream).bytes(),
                old(stream).pos() as int,
            ),
    {
        let next_string = match stream.read_u32_le() {
            Ok(v) => v,
            Err(e) => {
                return Err(
                    DeserializationError::FailedToRead {
                        t: ReadKind::U32,
                        token_name: TokenName::Unknown,
                        offset: stream.position(),
                        source: e,
                    },
                );
            },
        };
        let name_hash = match stream.read_u16_le() {
            Ok(v) => v,
            Err(e) => {
                return Err(
                    DeserializationError::FailedToRead {
                        t: ReadKind::U16,
                        token_name: TokenName::NameHash,
                        offset: stream.position(),
                        source: e,
                    },
                );
            },
        };
        Ok(
            BinXmlNameLink {
                next_string: if next_string > 0 {
                    Some(next_string)
                } else {
                    None
                },
                hash: name_hash,
            },
        )
    }

    /// The number of bytes that a link occupies.
    pub fn data_size() -> (n: u32)
        ensures
            n == 6,
    {
        6
    }
}

impl BinXmlNameRef {
    /// Reads the offset of a name; where the name is stored inline right
    /// after the offset, checks that it lies within the input and skips it.
    pub fn from_stream(cursor: &mut ByteCursor) -> (r: Result<Self, DeserializationError>)
        ensures
            final(cursor).bytes() == old(cursor).bytes(),
            (r, final(cursor).pos() as int) == spec_name_ref_from_stream(
                old(cursor).bytes(),
                old(cursor).pos() as int,
            ),
    {
        let name_offset = match cursor.read_u32_le() {
            Ok(v) => v,
            Err(e) => {
                return Err(
                    DeserializationError::FailedToRead {
                        t: ReadKind::U32,
                        token_name: TokenName::NameOffset,
                        offset: cursor.position(),
                        source: e,
                    },
                );
            },
        };
        let position_before_string = cursor.position();
        let need_to_seek = position_before_string == name_offset as u64;
        if need_to_seek {
            let _ = BinXmlNameLink::from_stream(cursor)?;
            let len = match cursor.read_u16_le() {
                Ok(v) => v,
                Err(e) => {
                    return Err(DeserializationError::Io(e));
                },
            };
            let nul_terminator_len: u32 = 4;
            let data_size = BinXmlNameLink::data_size() + (len as u32) * 2 + nul_terminator_len;
            let end_position = position_before_string + data_size as u64;
            // The position may be set past the input, so the complete name
            // (with its terminator) is checked before it is skipped.
            if end_position > cursor.data_len() {
                return Err(DeserializationError::Io(ReadFailure::UnexpectedEof));
            }
            cursor.set_position(end_position);
        }
        Ok(BinXmlNameRef { offset: name_offset })
    }
}

impl BinXmlName {
    /// A name holding the characters of `s`.
    pub fn from_str(s: &str) -> (r: Self)
        ensures
            r@ == s@,
    {
        BinXmlName { value: s.to_owned() }
    }

    /// A name holding `s`.
    pub fn from_string(s: String) -> (r: Self)
        ensures
            r@ == s@,
    {
        BinXmlName { value: s }
    }

    /// Reads a name stored as a length-prefixed, NUL-terminated UTF-16
    /// string; a length of zero gives the empty name.
    pub fn from_stream(cursor: &mut ByteCursor) -> (r: Result<Self, DeserializationError>)
        ensures
            final(cursor).bytes() == old(cursor).bytes(),
            final(cursor).pos() == spec_name_from_stream(old(cursor).bytes(), old(cursor).pos() as int).1,
            match spec_name_from_stream(old(cursor).bytes(), old(cursor).pos() as int).0 {
                Ok(chars) => r matches Ok(name) && name@ == chars,
                Err(e) => r == Err::<BinXmlName, DeserializationError>(e),
            },
    {
        match read_len_prefixed_utf16_string(cursor, true) {
            Ok(Some(s)) => Ok(BinXmlName { value: s }),
            Ok(None) => Ok(BinXmlName { value: String::new() }),
            Err(e) => Err(
                DeserializationError::FailedToRead {
                    t: ReadKind::LenPrefixedUtf16StrNulTerminated,
                    token_name: TokenName::Name,
                    offset: cursor.position(),
                    source: e,
                },
            ),
        }
    }

    /// The name's characters.
    pub fn as_str(&self) -> (r: &str)
        ensures
            r@ == self@,
    {
        self.value.as_str()
    }
}

/// Reading a link, a cached name or a name reference never leaves the
/// cursor past the end of the input, wherever it started: a name that does
/// not fit (its terminator included) is not skipped.
pub proof fn law_reads_stay_within_input(s: Seq<u8>, pos: int)
    requires
        0 <= pos,
    ensures
        spec_link_from_stream(s, pos).1 <= s.len(),
        spec_name_from_stream(s, pos).1 <= s.len(),
        spec_name_ref_from_stream(s, pos).1 <= s.len(),
{
}

/// A link that is read takes up exactly `BinXmlNameLink::data_size()` bytes.
pub proof fn law_link_takes_data_size(s: Seq<u8>, pos: int)
    requires
        0 <= pos,
        spec_link_from_stream(s, pos).0 is Ok,
    ensures
        spec_link_from_stream(s, pos).1 == pos + 6,
{
}

/// For a name stored inline (the offset read at `pos` points just past
/// itself) whose link can be read: where the name itself can be read after
/// the link, reading the reference succeeds and skips exactly the bytes that
/// reading the link and then the name consumes; and where reading the
/// reference succeeds, reading the name does not run out of input.
pub proof fn law_inline_name_skip_matches_name_read(s: Seq<u8>, pos: int)
    requires
        0 <= pos,
        pos + 4 <= s.len(),
        le_u32_at(s, pos) == pos + 4,
        spec_link_from_stream(s, pos + 4).0 is Ok,
    ensures
        spec_name_from_stream(s, pos + 10).0 is Ok ==> spec_name_ref_from_stream(s, pos) == (
            Ok::<BinXmlNameRef, DeserializationError>(BinXmlNameRef { offset: (pos + 4) as u32 }),
            spec_name_from_stream(s, pos + 10).1,
        ),
        spec_name_ref_from_stream(s, pos).0 is Ok ==> spec_read_len_prefixed_utf16(s, pos + 10, true).0
            != Err::<Seq<char>, ReadFailure>(ReadFailure::UnexpectedEof),
{
}

/// A link is read exactly where six bytes remain; its next-string offset is
/// the `u32` read (none exactly when that is zero) and its hash the `u16`
/// after it, and it takes those six bytes.
pub proof fn law_link_fields(s: Seq<u8>, pos: int)
    requires
        0 <= pos,
    ensures
        (spec_link_from_stream(s, pos).0 is Ok) == (pos + 6 <= s.len()),
        pos + 6 <= s.len() ==> spec_link_from_stream(s, pos) == (
            Ok::<BinXmlNameLink, DeserializationError>(
                BinXmlNameLink {
                    next_string: if le_u32_at(s, pos) == 0 {
                        None
                    } else {
                        Some(le_u32_at(s, pos) as u32)
                    },
                    hash: le_u16_at(s, pos + 4) as u16,
                },
            ),
            pos + 6,
        ),
{
}

/// The offset of a name reference is the `u32` read at its position,
/// wherever that is; a reference that does not point just past itself reads
/// only those four bytes.
pub proof fn law_name_ref_offset_is_the_u32_read(s: Seq<u8>, pos: int)
    requires
        0 <= pos,
    ensures
        spec_name_ref_from_stream(s, pos).0 matches Ok(r) ==> r.offset == le_u32_at(s, pos),
        pos + 4 <= s.len() && le_u32_at(s, pos) != pos + 4 ==> spec_name_ref_from_stream(s, pos)
            == (
            Ok::<BinXmlNameRef, DeserializationError>(
                BinXmlNameRef { offset: le_u32_at(s, pos) as u32 },
            ),
            pos + 4,
        ),
        (spec_name_ref_from_stream(s, pos).0 is Ok) ==> pos + 4 <= s.len(),
{
}

/// A cached name whose `n` units are neither NUL nor surrogates, followed by
/// its terminator, reads as exactly the characters with those units' values
/// and takes `2 + 2 * n + 2` bytes.
pub proof fn law_cached_name_reads_its_units(s: Seq<u8>, pos: int)
    requires
        0 <= pos,
        pos + 2 <= s.len(),
        pos + 2 + 2 * le_u16_at(s, pos) + 2 <= s.len(),
        forall|k: int|
            0 <= k < le_u16_at(s, pos) ==> #[trigger] le_u16_at(s, pos + 2 + 2 * k) != 0 && !(0xD800
                <= le_u16_at(s, pos + 2 + 2 * k) <= 0xDFFF),
    ensures
        spec_name_from_stream(s, pos).0 is Ok,
        spec_name_from_stream(s, pos).1 == pos + 2 + 2 * le_u16_at(s, pos) + 2,
        spec_name_from_stream(s, pos).0.unwrap().len() == le_u16_at(s, pos),
        forall|k: int|
            0 <= k < le_u16_at(s, pos) ==> (#[trigger] spec_name_from_stream(s, pos).0.unwrap()[k])
                as u32 == le_u16_at(s, pos + 2 + 2 * k),
{
    let n = le_u16_at(s, pos) as nat;
    let units = utf16_units_at(s, pos + 2, n);
    assert forall|i: int| 0 <= i < units.len() implies #[trigger] units[i] != 0 && !(0xD800
        <= units[i] && units[i] <= 0xDFFF) by {
        assert(units[i] == le_u16_at(s, pos + 2 + 2 * i) as u16);
        assert(le_u16_at(s, pos + 2 + 2 * i) != 0);
    }
    law_plain_units_decode_to_their_characters(units);
    let cs = decode_utf16_to_nul(units).unwrap();
    assert forall|k: int| 0 <= k < n implies (#[trigger] cs[k]) as u32 == le_u16_at(
        s,
        pos + 2 + 2 * k,
    ) by {
        assert(units[k] == le_u16_at(s, pos + 2 + 2 * k) as u16);
    }
}

/// A successful string read takes exactly the length prefix, the units it
/// announces, and the terminator where there is one.
pub proof fn law_string_read_takes_its_announced_length(s: Seq<u8>, pos: int, nul_terminated: bool)
    requires
        0 <= pos,
        spec_read_len_prefixed_utf16(s, pos, nul_terminated).0 is Ok,
    ensures
        spec_read_len_prefixed_utf16(s, pos, nul_terminated).1 == pos + 2 + 2 * le_u16_at(s, pos) + (
        if nul_terminated {
            2int
        } else {
            0int
        }),
        spec_read_len_prefixed_utf16(s, pos, nul_terminated).1 <= s.len(),
{
}

} // verus!
