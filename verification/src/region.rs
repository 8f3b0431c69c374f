//! The region-file (.mca) container: chunk-location table, chunk
//! selection and payload decompression.
//!
//! A region file opens with an 8192-byte header of 1024 fixed-width
//! entries, each a 3-byte big-endian sector offset and a 1-byte sector
//! count. A chunk payload sits at `offset * 4096`: a 4-byte big-endian
//! length that covers the compression-type byte, the type byte itself,
//! and `length - 1` compressed bytes. Entries whose sector offset is
//! zero mark absent chunks and take no part in selection.
use vstd::prelude::*;

use crate::bytes::{copy_range, read_be};
use crate::err::DecodeError;
use crate::nbt::NbtParser;
use crate::tag::{NbtTag, TagModel};
use crate::wire;

verus! {

/// One entry of the chunk-location table: the sector offset of the
/// chunk payload and the number of 4096-byte sectors it occupies.
#[derive(Clone, Copy, Debug, PartialEq, Eq, Structural)]
pub struct ChunkLocation {
    pub offset: u32,
    pub sector_num: u8,
}

impl ChunkLocation {
    /// The byte offset of the chunk payload inside the region file.
    pub fn get_offset_byte(&self) -> (r: u32)
        requires
            self.offset * 4096 <= u32::MAX,
        ensures
            r == self.offset * 4096,
    {
        self.offset * 4096
    }
}

/// The sector offset stored in table entry `i`: the low three bytes of
/// its big-endian 32-bit field.
pub open spec fn table_offset(data: Seq<u8>, i: int) -> int {
    wire::be_bytes(data, 4 * i, 3)
}

/// The chunk-location table a conforming header holds: 1024 entries of
/// 3-byte big-endian sector offset and 1-byte sector count.
pub open spec fn table_model(data: Seq<u8>) -> Seq<ChunkLocation> {
    Seq::new(
        1024,
        |i: int|
            ChunkLocation {
                offset: table_offset(data, i) as u32,
                sector_num: data[4 * i + 3],
            },
    )
}

/// Read the 1024-entry chunk-location table from the head of a region
/// file image.
pub fn read_location_table(data: &[u8]) -> (r: Result<Vec<ChunkLocation>, DecodeError>)
    ensures
        match r {
            Ok(v) => data@.len() >= 8192 && v@ == table_model(data@),
            Err(e) => data@.len() < 8192 && e == DecodeError::IoError,
        },
{
    let len = data.len();
    if len < 8192 {
        return Err(DecodeError::IoError);
    }
    let mut v: Vec<ChunkLocation> = Vec::new();
    let mut i: usize = 0;
    while i < 1024
        invariant
            i <= 1024,
            data@.len() >= 8192,
            v@.len() == i,
            forall|j: int| 0 <= j < i ==> v@[j] == table_model(data@)[j],
        decreases 1024 - i,
    {
        let off64 = read_be(data, 4 * i, 3);
        proof {
            wire::lemma_be_bytes_bound(data@, 4 * i as int, 3);
            assert(wire::pow256(3) == 0x100_0000) by {
                reveal_with_fuel(wire::pow256, 4);
            }
        }
        let entry = ChunkLocation { offset: off64 as u32, sector_num: data[4 * i + 3] };
        proof {
            assert(entry == table_model(data@)[i as int]);
        }
        v.push(entry);
        i = i + 1;
    }
    proof {
        assert(v@ =~= table_model(data@));
    }
    Ok(v)
}

/// Whether `c` may be selected from table `v`: it is an entry, its
/// chunk is present, and no present entry starts at an earlier sector.
/// Among entries tied on the sector offset the choice is left open.
pub open spec fn is_selected(v: Seq<ChunkLocation>, c: ChunkLocation) -> bool {
    &&& exists|i: int| 0 <= i < v.len() && v[i] == c
    &&& c.offset != 0
    &&& forall|j: int| 0 <= j < v.len() && (#[trigger] v[j]).offset != 0 ==> c.offset <= v[j].offset
}

/// Select the present chunk whose sectors come first in the file.
/// Entries with a zero sector offset mark absent chunks and are never
/// selected.
pub fn select_chunk(locations: &Vec<ChunkLocation>) -> (r: Result<ChunkLocation, DecodeError>)
    ensures
        match r {
            Ok(c) => is_selected(locations@, c),
            Err(e) => e == DecodeError::EmptyLocationTable && forall|j: int|
                0 <= j < locations@.len() ==> (#[trigger] locations@[j]).offset == 0,
        },
{
    let mut best: Option<ChunkLocation> = None;
    let mut k: usize = 0;
    while k < locations.len()
        invariant
            k <= locations@.len(),
            match best {
                Some(b) => {
                    &&& exists|i: int| 0 <= i < k && locations@[i] == b
                    &&& b.offset != 0
                    &&& forall|j: int|
                        0 <= j < k && (#[trigger] locations@[j]).offset != 0 ==> b.offset
                            <= locations@[j].offset
                },
                None => forall|j: int| 0 <= j < k ==> (#[trigger] locations@[j]).offset == 0,
            },
        decreases locations@.len() - k,
    {
        let c = locations[k];
        if c.offset != 0 {
            best = match best {
                None => Some(c),
                Some(b) => if c.offset < b.offset {
                    Some(c)
                } else {
                    Some(b)
                },
            };
        }
        k = k + 1;
    }
    match best {
        Some(c) => Ok(c),
        None => Err(DecodeError::EmptyLocationTable),
    }
}

/// What inflating a zlib stream yields: the decompressed bytes when
/// the input is a well-formed zlib stream, and nothing otherwise.
pub uninterp spec fn zlib_inflate(bytes: Seq<u8>) -> Option<Seq<u8>>;

/// Relies on `flate2::bufread::ZlibDecoder` read to end-of-stream:
/// inflating depends on the input bytes alone, and reading fails
/// exactly when the bytes do not open with a well-formed zlib stream.
#[verifier::external_body]
fn inflate_zlib(input: &Vec<u8>) -> (r: Result<Vec<u8>, DecodeError>)
    ensures
        match r {
            Ok(v) => zlib_inflate(input@) == Some(v@),
            Err(e) => zlib_inflate(input@) is None && e == DecodeError::IoError,
        },
{
    let mut decoder = flate2::bufread::ZlibDecoder::new(&input[..]);
    let mut out = Vec::new();
    match std::io::Read::read_to_end(&mut decoder, &mut out) {
        Ok(_) => Ok(out),
        Err(_) => Err(DecodeError::IoError),
    }
}

/// The 4-byte big-endian length field of the chunk payload at byte
/// offset `off`; it covers the compression-type byte.
pub open spec fn payload_length(data: Seq<u8>, off: int) -> int {
    wire::be_bytes(data, off, 4)
}

/// The compression-type byte of the chunk payload at byte offset
/// `off`.
pub open spec fn payload_kind(data: Seq<u8>, off: int) -> u8 {
    data[off + 4]
}

/// The compressed bytes of the chunk payload at byte offset `off`.
pub open spec fn payload_bytes(data: Seq<u8>, off: int) -> Seq<u8> {
    data.subrange(off + 5, off + 5 + payload_length(data, off) - 1)
}

/// What reading and inflating the payload of chunk `c` must yield:
/// the inflated bytes for a zlib payload that lies inside the buffer,
/// and the typed error every other input deserves.
pub open spec fn spec_read_payload(data: Seq<u8>, c: ChunkLocation) -> Result<Seq<u8>, DecodeError> {
    let off = c.offset * 4096;
    if off + 5 > data.len() {
        Err(DecodeError::TruncatedInput)
    } else if payload_length(data, off) < 1 {
        Err(DecodeError::TruncatedInput)
    } else if off + 5 + (payload_length(data, off) - 1) > data.len() {
        Err(DecodeError::TruncatedInput)
    } else {
        let kind = payload_kind(data, off);
        if kind == 2 {
            match zlib_inflate(payload_bytes(data, off)) {
                Some(b) => Ok(b),
                None => Err(DecodeError::IoError),
            }
        } else if kind == 1 || kind == 3 {
            Err(DecodeError::UnsupportedCompressionType)
        } else {
            Err(DecodeError::UnknownCompressionType)
        }
    }
}

/// Read the payload of chunk `location`: seek to its byte offset, read
/// the length and compression-type fields, and inflate the compressed
/// bytes. Only zlib payloads (type 2) are implemented; gzip (1) and
/// uncompressed (3) payloads are reported as unsupported.
pub fn read_payload(data: &[u8], location: &ChunkLocation) -> (r: Result<Vec<u8>, DecodeError>)
    ensures
        match r {
            Ok(v) => spec_read_payload(data@, *location) == Ok::<Seq<u8>, DecodeError>(v@),
            Err(e) => spec_read_payload(data@, *location) == Err::<Seq<u8>, DecodeError>(e),
        },
{
    let len = data.len();
    let off64 = (location.offset as u64) * 4096;
    if off64 + 5 > len as u64 {
        return Err(DecodeError::TruncatedInput);
    }
    let off = off64 as usize;
    let length64 = read_be(data, off, 4);
    if length64 < 1 {
        return Err(DecodeError::TruncatedInput);
    }
    if length64 - 1 > (len - (off + 5)) as u64 {
        return Err(DecodeError::TruncatedInput);
    }
    let length = length64 as usize;
    let kind = data[off + 4];
    if kind == 2 {
        let compressed = copy_range(data, off + 5, off + 5 + (length - 1));
        inflate_zlib(&compressed)
    } else if kind == 1 || kind == 3 {
        Err(DecodeError::UnsupportedCompressionType)
    } else {
        Err(DecodeError::UnknownCompressionType)
    }
}

/// A region-file image: the container of up to 1024 chunks.
pub struct Region {}

impl Region {
    /// Decode the first present chunk of a region-file image: read the
    /// location table, select the present chunk whose sectors come
    /// first, inflate its payload and parse the tag tree it holds.
    pub fn load_mca(data: &[u8]) -> (r: Result<(NbtTag, usize), DecodeError>)
        ensures
            match r {
                Ok(p) => exists|c: ChunkLocation, b: Seq<u8>|
                    is_selected(table_model(data@), c) && spec_read_payload(data@, c) == Ok::<
                        Seq<u8>,
                        DecodeError,
                    >(b) && wire::parse_tag(b, 0) == Ok::<(TagModel, int), DecodeError>(
                        (p.0.model(), p.1 as int),
                    ),
                Err(e) => {
                    ||| data@.len() < 8192 && e == DecodeError::IoError
                    ||| data@.len() >= 8192 && e == DecodeError::EmptyLocationTable && forall|
                        j: int,
                    |
                        0 <= j < 1024 ==> table_offset(data@, j) == 0
                    ||| exists|c: ChunkLocation|
                        is_selected(table_model(data@), c) && (spec_read_payload(data@, c) == Err::<
                            Seq<u8>,
                            DecodeError,
                        >(e) || exists|b: Seq<u8>|
                            spec_read_payload(data@, c) == Ok::<Seq<u8>, DecodeError>(b)
                                && wire::parse_tag(b, 0) == Err::<(TagModel, int), DecodeError>(e))
                },
            },
    {
        let table = match read_location_table(data) {
            Ok(t) => t,
            Err(e) => {
                return Err(e);
            },
        };
        let location = match select_chunk(&table) {
            Ok(c) => c,
            Err(e) => {
                proof {
                    assert forall|j: int| 0 <= j < 1024 implies table_offset(data@, j) == 0 by {
                        assert(table_model(data@)[j].offset == 0);
                        wire::lemma_be_bytes_bound(data@, 4 * j, 3);
                        assert(wire::pow256(3) == 0x100_0000) by {
                            reveal_with_fuel(wire::pow256, 4);
                        }
                    }
                }
                return Err(e);
            },
        };
        let payload = match read_payload(data, &location) {
            Ok(p) => p,
            Err(e) => {
                return Err(e);
            },
        };
        let parser = NbtParser::new(payload.as_slice());
        match parser.parse() {
            Ok(p) => Ok(p),
            Err(e) => Err(e),
        }
    }
}

} // verus!
