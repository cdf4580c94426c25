//! The format of log records.
//!
//! A record is cut into chunks, and each chunk has a header. There are three
//! formats of headers:
//!
//! - legacy: checksum (4 bytes), size (2 bytes), type (1 byte);
//! - recyclable: the same, with the number of the log (4 bytes);
//! - sync: the same again, with the offset up to which the log should have been
//!   synced (8 bytes).
//!
//! The type byte tells both the format and where in its record the chunk stands.

use vstd::prelude::*;

verus! {

pub const BLOCK_SIZE: usize = 32 * 1024;

pub const BLOCK_SIZE_MASK: usize = BLOCK_SIZE - 1;

pub const LEGACY_HEADER_SIZE: usize = 7;

pub const RECYCLABLE_HEADER_SIZE: usize = LEGACY_HEADER_SIZE + 4;

pub const WAL_SYNC_RECYCLABLE_HEADER_SIZE: usize = RECYCLABLE_HEADER_SIZE + 8;

pub const INVALID_CHUNK_ENCODING: usize = 0;

pub const FULL_CHUNK_ENCODING: usize = 1;

pub const FIRST_CHUNK_ENCODING: usize = 2;

pub const MIDDLE_CHUNK_ENCODING: usize = 3;

pub const LAST_CHUNK_ENCODING: usize = 4;

pub const RECYCLABLE_FULL_CHUNK_ENCODING: usize = 5;

pub const RECYCLABLE_FIRST_CHUNK_ENCODING: usize = 6;

pub const RECYCLABLE_MIDDLE_CHUNK_ENCODING: usize = 7;

pub const RECYCLABLE_LAST_CHUNK_ENCODING: usize = 8;

pub const WAL_SYNC_FULL_CHUNK_ENCODING: usize = 9;

pub const WAL_SYNC_FIRST_CHUNK_ENCODING: usize = 10;

pub const WAL_SYNC_MIDDLE_CHUNK_ENCODING: usize = 11;

pub const WAL_SYNC_LAST_CHUNK_ENCODING: usize = 12;

/// Where in its record a chunk stands.
#[derive(Debug, Clone, Copy, PartialEq, Eq, Structural)]
pub enum ChunkPosition {
    InvalidType,
    FullType,
    FirstType,
    MiddleType,
    LastType,
}

/// The format of a chunk's header.
#[derive(Debug, Clone, Copy, PartialEq, Eq, Structural)]
pub enum WireFormat {
    InvalidFormat,
    Legacy,
    Recyclable,
    WALSync,
}

/// What a chunk's type byte says.
#[derive(Debug, Clone, Copy, PartialEq, Eq, Structural)]
pub struct HeaderFormat {
    pub chunk_position: ChunkPosition,
    pub wire_format: WireFormat,
    pub header_size: usize,
}

impl HeaderFormat {
    pub fn new(
        chunk_position: ChunkPosition,
        wire_format: WireFormat,
        header_size: usize,
    ) -> (format: Self)
        ensures
            format == (HeaderFormat { chunk_position, wire_format, header_size }),
    {
        HeaderFormat { chunk_position, wire_format, header_size }
    }
}

/// How many type bytes there are, the invalid one among them.
pub const HEADER_FORMAT_MAP_ARRAY_SIZE: usize = 13;

/// The position that the type byte `encoding` tells: the four positions follow
/// one another within each format.
pub open spec fn chunk_position(encoding: int) -> ChunkPosition {
    if encoding == 0 {
        ChunkPosition::InvalidType
    } else if encoding % 4 == 1 {
        ChunkPosition::FullType
    } else if encoding % 4 == 2 {
        ChunkPosition::FirstType
    } else if encoding % 4 == 3 {
        ChunkPosition::MiddleType
    } else {
        ChunkPosition::LastType
    }
}

/// The format that the type byte `encoding` tells.
pub open spec fn wire_format(encoding: int) -> WireFormat {
    if encoding == 0 {
        WireFormat::InvalidFormat
    } else if encoding <= 4 {
        WireFormat::Legacy
    } else if encoding <= 8 {
        WireFormat::Recyclable
    } else {
        WireFormat::WALSync
    }
}

/// The size of a header in `format`.
pub open spec fn header_size(format: WireFormat) -> int {
    match format {
        WireFormat::InvalidFormat => 0,
        WireFormat::Legacy => 7,
        WireFormat::Recyclable => 11,
        WireFormat::WALSync => 19,
    }
}

/// The table from type bytes to what they say.
pub fn make_header_format_map_array() -> (formats: [HeaderFormat; HEADER_FORMAT_MAP_ARRAY_SIZE])
    ensures
        forall|encoding: int|
            0 <= encoding < HEADER_FORMAT_MAP_ARRAY_SIZE ==> {
                let format = #[trigger] formats@[encoding];
                &&& format.chunk_position == chunk_position(encoding)
                &&& format.wire_format == wire_format(encoding)
                &&& format.header_size == header_size(wire_format(encoding))
            },
        forall|encoding: int|
            1 <= encoding <= 12 ==> {
                let format = #[trigger] formats@[encoding];
                &&& format.chunk_position is FullType <==> encoding == 1 || encoding == 5
                    || encoding == 9
                &&& format.chunk_position is FirstType <==> encoding == 2 || encoding == 6
                    || encoding == 10
                &&& format.chunk_position is MiddleType <==> encoding == 3 || encoding == 7
                    || encoding == 11
                &&& format.chunk_position is LastType <==> encoding == 4 || encoding == 8
                    || encoding == 12
                &&& format.wire_format is Legacy <==> 1 <= encoding <= 4
                &&& format.wire_format is Recyclable <==> 5 <= encoding <= 8
                &&& format.wire_format is WALSync <==> 9 <= encoding <= 12
                &&& format.wire_format is Legacy ==> format.header_size == 4 + 2 + 1
                &&& format.wire_format is Recyclable ==> format.header_size == 4 + 2 + 1 + 4
                &&& format.wire_format is WALSync ==> format.header_size == 4 + 2 + 1 + 4 + 8
            },
        formats@[0].chunk_position is InvalidType,
        formats@[0].wire_format is InvalidFormat,
        formats@[0].header_size == 0,
{
    let invalid = HeaderFormat::new(ChunkPosition::InvalidType, WireFormat::InvalidFormat, 0);
    let mut formats: [HeaderFormat; HEADER_FORMAT_MAP_ARRAY_SIZE] = [
        invalid;
        HEADER_FORMAT_MAP_ARRAY_SIZE
    ];

    formats[FULL_CHUNK_ENCODING] = HeaderFormat::new(
        ChunkPosition::FullType,
        WireFormat::Legacy,
        LEGACY_HEADER_SIZE,
    );
    formats[FIRST_CHUNK_ENCODING] = HeaderFormat::new(
        ChunkPosition::FirstType,
        WireFormat::Legacy,
        LEGACY_HEADER_SIZE,
    );
    formats[MIDDLE_CHUNK_ENCODING] = HeaderFormat::new(
        ChunkPosition::MiddleType,
        WireFormat::Legacy,
        LEGACY_HEADER_SIZE,
    );
    formats[LAST_CHUNK_ENCODING] = HeaderFormat::new(
        ChunkPosition::LastType,
        WireFormat::Legacy,
        LEGACY_HEADER_SIZE,
    );

    formats[RECYCLABLE_FULL_CHUNK_ENCODING] = HeaderFormat::new(
        ChunkPosition::FullType,
        WireFormat::Recyclable,
        RECYCLABLE_HEADER_SIZE,
    );
    formats[RECYCLABLE_FIRST_CHUNK_ENCODING] = HeaderFormat::new(
        ChunkPosition::FirstType,
        WireFormat::Recyclable,
        RECYCLABLE_HEADER_SIZE,
    );
    formats[RECYCLABLE_MIDDLE_CHUNK_ENCODING] = HeaderFormat::new(
        ChunkPosition::MiddleType,
        WireFormat::Recyclable,
        RECYCLABLE_HEADER_SIZE,
    );
    formats[RECYCLABLE_LAST_CHUNK_ENCODING] = HeaderFormat::new(
        ChunkPosition::LastType,
        WireFormat::Recyclable,
        RECYCLABLE_HEADER_SIZE,
    );

    formats[WAL_SYNC_FULL_CHUNK_ENCODING] = HeaderFormat::new(
        ChunkPosition::FullType,
        WireFormat::WALSync,
        WAL_SYNC_RECYCLABLE_HEADER_SIZE,
    );
    formats[WAL_SYNC_FIRST_CHUNK_ENCODING] = HeaderFormat::new(
        ChunkPosition::FirstType,
        WireFormat::WALSync,
        WAL_SYNC_RECYCLABLE_HEADER_SIZE,
    );
    formats[WAL_SYNC_MIDDLE_CHUNK_ENCODING] = HeaderFormat::new(
        ChunkPosition::MiddleType,
        WireFormat::WALSync,
        WAL_SYNC_RECYCLABLE_HEADER_SIZE,
    );
    formats[WAL_SYNC_LAST_CHUNK_ENCODING] = HeaderFormat::new(
        ChunkPosition::LastType,
        WireFormat::WALSync,
        WAL_SYNC_RECYCLABLE_HEADER_SIZE,
    );

    formats
}

/// A type byte tells one position in one format, and no other type byte tells
/// the same.
pub proof fn law_chunk_encodings_distinct(a: int, b: int)
    requires
        0 <= a < HEADER_FORMAT_MAP_ARRAY_SIZE,
        0 <= b < HEADER_FORMAT_MAP_ARRAY_SIZE,
        chunk_position(a) == chunk_position(b),
        wire_format(a) == wire_format(b),
    ensures
        a == b,
{
}

/// The formats come one after the other, each with its four positions in the order in
/// which chunks follow one another; a format's header is the one before it with what
/// the format adds: the number of the log, then the offset of the sync.
pub proof fn law_formats_follow_one_another(encoding: int)
    requires
        1 <= encoding <= 12,
    ensures
        chunk_position(encoding) != ChunkPosition::InvalidType,
        wire_format(encoding) != WireFormat::InvalidFormat,
        encoding <= 8 ==> chunk_position(encoding + 4) == chunk_position(encoding),
        encoding <= 4 ==> wire_format(encoding) is Legacy && header_size(wire_format(encoding))
            == 7,
        5 <= encoding <= 8 ==> wire_format(encoding) is Recyclable && header_size(
            wire_format(encoding),
        ) == header_size(wire_format(encoding - 4)) + 4,
        9 <= encoding ==> wire_format(encoding) is WALSync && header_size(wire_format(encoding))
            == header_size(wire_format(encoding - 4)) + 8,
        chunk_position(1) is FullType,
        chunk_position(2) is FirstType,
        chunk_position(3) is MiddleType,
        chunk_position(4) is LastType,
        chunk_position(0) is InvalidType,
        wire_format(0) is InvalidFormat,
{
}

} // verus!
