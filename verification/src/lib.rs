//! Binary XML name records of the EVTX format, the event-range filter and the
//! output decisions of the `evtx_dump` command line tool, with their contracts.

pub mod cursor;
pub mod dump;
pub mod err;
pub mod name;
pub mod ranges;
pub mod text;
pub mod utf16;
pub mod xml;

pub use cursor::{ByteCursor, ReadFailure};
pub use dump::{EvtxOutputFormat, RecordOutput};
pub use err::DeserializationError;
pub use name::{BinXmlName, BinXmlNameLink, BinXmlNameRef, ChunkOffset};
pub use ranges::{matches_ranges, Ranges};
