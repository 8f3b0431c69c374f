//! Mathematical model of the NBT wire format.
//!
//! A named tag is encoded as `[type:u8][name_len:u16 BE][name:utf8][payload]`;
//! a list element is payload-only. The spec functions here parse a
//! `Seq<u8>` exactly as the format prescribes and give, for every input,
//! either the decoded tag model with the exact number of bytes consumed
//! or the typed error the input deserves. The executable parser is
//! proved to return precisely what these functions say.
use vstd::prelude::*;

use crate::err::DecodeError;
use crate::tag::{utf8_decode, TagModel};

verus! {

/// The value of the `n` bytes of `data` starting at `pos`, read as one
/// big-endian unsigned integer.
pub open spec fn be_bytes(data: Seq<u8>, pos: int, n: int) -> int
    decreases n,
{
    if n <= 0 {
        0
    } else {
        be_bytes(data, pos, n - 1) * 256 + data[pos + n - 1]
    }
}

/// A big-endian value of `n` bytes lies below 256^n.
pub proof fn lemma_be_bytes_bound(data: Seq<u8>, pos: int, n: int)
    requires
        0 <= pos,
        0 <= n,
        pos + n <= data.len(),
    ensures
        0 <= be_bytes(data, pos, n) < pow256(n),
    decreases n,
{
    if n > 0 {
        lemma_be_bytes_bound(data, pos, n - 1);
    }
}

/// 256 raised to the `n`th power.
pub open spec fn pow256(n: int) -> int
    decreases n,
{
    if n <= 0 {
        1
    } else {
        256 * pow256(n - 1)
    }
}

/// `pow256` is positive.
pub proof fn lemma_pow256_pos(n: int)
    ensures
        pow256(n) >= 1,
    decreases n,
{
    if n > 0 {
        lemma_pow256_pos(n - 1);
    }
}

/// `pow256` grows monotonically.
pub proof fn lemma_pow256_mono(a: int, b: int)
    requires
        a <= b,
    ensures
        pow256(a) <= pow256(b),
    decreases b - a,
{
    if a < b {
        lemma_pow256_mono(a, b - 1);
        lemma_pow256_pos(b - 1);
    }
}

/// The two's-complement reading of an unsigned 8-bit value.
pub open spec fn sign8(u: int) -> int {
    if u < 0x80 {
        u
    } else {
        u - 0x100
    }
}

/// The two's-complement reading of an unsigned 16-bit value.
pub open spec fn sign16(u: int) -> int {
    if u < 0x8000 {
        u
    } else {
        u - 0x1_0000
    }
}

/// The two's-complement reading of an unsigned 32-bit value.
pub open spec fn sign32(u: int) -> int {
    if u < 0x8000_0000 {
        u
    } else {
        u - 0x1_0000_0000
    }
}

/// The two's-complement reading of an unsigned 64-bit value.
pub open spec fn sign64(u: int) -> int {
    if u < 0x8000_0000_0000_0000 {
        u
    } else {
        u - 0x1_0000_0000_0000_0000
    }
}

/// The elements of an IntArray payload: `count` big-endian signed
/// 32-bit integers starting at `pos`.
pub open spec fn int_array_elems(data: Seq<u8>, pos: int, count: int) -> Seq<i32> {
    Seq::new(count as nat, |i: int| sign32(be_bytes(data, pos + 4 * i, 4)) as i32)
}

/// Parse one full named tag at `pos`: type id, name length, name and
/// payload. Consumed bytes count all four parts.
pub open spec fn parse_tag(data: Seq<u8>, pos: int) -> Result<(TagModel, int), DecodeError>
    decreases data.len() - pos, 0int,
{
    if pos < 0 || pos + 1 > data.len() {
        Err(DecodeError::TruncatedInput)
    } else {
        let t = data[pos];
        if t == 0 {
            Ok((TagModel::End, 1))
        } else if t > 11 {
            Err(DecodeError::UnknownTagType(t))
        } else if pos + 3 > data.len() {
            Err(DecodeError::TruncatedInput)
        } else {
            proof {
                lemma_be_bytes_bound(data, pos + 1, 2);
            }
            let name_len = be_bytes(data, pos + 1, 2);
            if pos + 3 + name_len > data.len() {
                Err(DecodeError::TruncatedInput)
            } else {
                match utf8_decode(data.subrange(pos + 3, pos + 3 + name_len)) {
                    None => Err(DecodeError::InvalidUtf8),
                    Some(name) => match parse_value(data, t, name, pos + 3 + name_len) {
                        Err(e) => Err(e),
                        Ok((tag, vs)) => Ok((tag, 3 + name_len + vs)),
                    },
                }
            }
        }
    }
}

/// Parse the payload of a tag of type `t` at `pos`; the tag carries
/// `name`. Consumed bytes count the payload only.
pub open spec fn parse_value(data: Seq<u8>, t: u8, name: Seq<char>, pos: int) -> Result<
    (TagModel, int),
    DecodeError,
>
    decreases data.len() - pos, 2int,
{
    let len = data.len() as int;
    if pos < 0 {
        Err(DecodeError::TruncatedInput)
    } else if t == 0 {
        Ok((TagModel::End, 0))
    } else if t == 1 {
        if pos + 1 <= len {
            Ok((TagModel::Byte(name, sign8(data[pos] as int) as i8), 1))
        } else {
            Err(DecodeError::TruncatedInput)
        }
    } else if t == 2 {
        if pos + 2 <= len {
            Ok((TagModel::Short(name, sign16(be_bytes(data, pos, 2)) as i16), 2))
        } else {
            Err(DecodeError::TruncatedInput)
        }
    } else if t == 3 {
        if pos + 4 <= len {
            Ok((TagModel::Int(name, sign32(be_bytes(data, pos, 4)) as i32), 4))
        } else {
            Err(DecodeError::TruncatedInput)
        }
    } else if t == 4 {
        if pos + 8 <= len {
            Ok((TagModel::Long(name, sign64(be_bytes(data, pos, 8)) as i64), 8))
        } else {
            Err(DecodeError::TruncatedInput)
        }
    } else if t == 5 {
        if pos + 4 <= len {
            Ok((TagModel::Float(name, be_bytes(data, pos, 4) as u32), 4))
        } else {
            Err(DecodeError::TruncatedInput)
        }
    } else if t == 6 {
        if pos + 8 <= len {
            Ok((TagModel::Double(name, be_bytes(data, pos, 8) as u64), 8))
        } else {
            Err(DecodeError::TruncatedInput)
        }
    } else if t == 7 {
        if pos + 4 <= len {
            let count = be_bytes(data, pos, 4);
            if pos + 4 + count <= len {
                Ok((TagModel::ByteArray(name, data.subrange(pos + 4, pos + 4 + count)), 4 + count))
            } else {
                Err(DecodeError::TruncatedInput)
            }
        } else {
            Err(DecodeError::TruncatedInput)
        }
    } else if t == 8 {
        if pos + 2 <= len {
            let count = be_bytes(data, pos, 2);
            if pos + 2 + count <= len {
                match utf8_decode(data.subrange(pos + 2, pos + 2 + count)) {
                    None => Err(DecodeError::InvalidUtf8),
                    Some(text) => Ok((TagModel::String(name, text), 2 + count)),
                }
            } else {
                Err(DecodeError::TruncatedInput)
            }
        } else {
            Err(DecodeError::TruncatedInput)
        }
    } else if t == 9 {
        if pos + 5 <= len {
            let et = data[pos];
            let count = be_bytes(data, pos + 1, 4);
            if et == 0 {
                Ok((TagModel::List(name, Seq::new(count as nat, |i: int| TagModel::End)), 5))
            } else if et > 11 {
                Err(DecodeError::UnknownTagType(et))
            } else {
                match parse_list_elems(data, et, pos + 5, count) {
                    Err(e) => Err(e),
                    Ok((items, sz)) => Ok((TagModel::List(name, items), 5 + sz)),
                }
            }
        } else {
            Err(DecodeError::TruncatedInput)
        }
    } else if t == 10 {
        match parse_members(data, pos) {
            Err(e) => Err(e),
            Ok((items, sz)) => Ok((TagModel::Compound(name, items), sz)),
        }
    } else if t == 11 {
        if pos + 4 <= len {
            let count = be_bytes(data, pos, 4);
            if pos + 4 + 4 * count <= len {
                Ok((TagModel::IntArray(name, int_array_elems(data, pos + 4, count)), 4 + 4 * count))
            } else {
                Err(DecodeError::TruncatedInput)
            }
        } else {
            Err(DecodeError::TruncatedInput)
        }
    } else {
        Err(DecodeError::UnknownTagType(t))
    }
}

/// Parse `count` payload-only list elements of type `et`, the first at
/// `pos`. Gives the elements in order and the bytes they span.
pub open spec fn parse_list_elems(data: Seq<u8>, et: u8, pos: int, count: int) -> Result<
    (Seq<TagModel>, int),
    DecodeError,
>
    decreases data.len() - pos, 3int,
{
    if count <= 0 {
        Ok((Seq::empty(), 0))
    } else {
        match parse_value(data, et, Seq::empty(), pos) {
            Err(e) => Err(e),
            Ok((tag, sz)) => if 1 <= sz && pos + sz <= data.len() {
                match parse_list_elems(data, et, pos + sz, count - 1) {
                    Err(e) => Err(e),
                    Ok((rest, rsz)) => Ok((seq![tag] + rest, sz + rsz)),
                }
            } else {
                // never reached: a non-End payload spans at least one
                // byte and stays inside the buffer (lemma_parse_value_bounds)
                Err(DecodeError::TruncatedInput)
            },
        }
    }
}

/// Parse compound members: full named tags up to and including the End
/// sentinel. The End tag is consumed and counted but not kept.
pub open spec fn parse_members(data: Seq<u8>, pos: int) -> Result<(Seq<TagModel>, int), DecodeError>
    decreases data.len() - pos, 1int,
{
    match parse_tag(data, pos) {
        Err(e) => Err(e),
        Ok((tag, sz)) => if tag is End {
            Ok((Seq::empty(), 1))
        } else if 1 <= sz && pos + sz <= data.len() {
            match parse_members(data, pos + sz) {
                Err(e) => Err(e),
                Ok((rest, rsz)) => Ok((seq![tag] + rest, sz + rsz)),
            }
        } else {
            // never reached: a named tag spans at least one byte and
            // stays inside the buffer (lemma_parse_tag_bounds)
            Err(DecodeError::TruncatedInput)
        },
    }
}

/// A successfully parsed named tag spans at least one byte and lies
/// inside the buffer.
pub proof fn lemma_parse_tag_bounds(data: Seq<u8>, pos: int)
    ensures
        parse_tag(data, pos) matches Ok((tag, n)) ==> 0 <= pos && 1 <= n && pos + n <= data.len(),
    decreases data.len() - pos, 0int,
{
    if 0 <= pos && pos + 3 <= data.len() {
        let t = data[pos];
        lemma_be_bytes_bound(data, pos + 1, 2);
        let name_len = be_bytes(data, pos + 1, 2);
        if 1 <= t <= 11 && pos + 3 + name_len <= data.len() {
            lemma_parse_value_bounds(data, t, pos + 3 + name_len);
            if let Some(name) = utf8_decode(data.subrange(pos + 3, pos + 3 + name_len)) {
                if let Ok((tag, vs)) = parse_value(data, t, name, pos + 3 + name_len) {
                    assert(1 <= vs);
                }
            }
        }
    }
}

/// A successfully parsed payload of a non-End type spans at least one
/// byte and lies inside the buffer; an End payload spans none.
pub proof fn lemma_parse_value_bounds(data: Seq<u8>, t: u8, pos: int)
    ensures
        forall|name: Seq<char>|
            {
                let r = #[trigger] parse_value(data, t, name, pos);
                r matches Ok((tag, n)) ==> {
                    &&& 0 <= pos
                    &&& if t == 0 {
                        n == 0
                    } else {
                        1 <= n && pos + n <= data.len()
                    }
                }
            },
    decreases data.len() - pos, 2int,
{
    let len = data.len() as int;
    if pos >= 0 {
        if t == 7 || t == 11 {
            if pos + 4 <= len {
                lemma_be_bytes_bound(data, pos, 4);
            }
        } else if t == 8 {
            if pos + 2 <= len {
                lemma_be_bytes_bound(data, pos, 2);
            }
        } else if t == 9 {
            if pos + 5 <= len {
                let et = data[pos];
                lemma_be_bytes_bound(data, pos + 1, 4);
                let count = be_bytes(data, pos + 1, 4);
                if 1 <= et <= 11 {
                    lemma_parse_list_elems_bounds(data, et, pos + 5, count);
                }
            }
        } else if t == 10 {
            lemma_parse_members_bounds(data, pos);
        }
    }
}

/// Successfully parsed list elements span a non-negative byte range
/// inside the buffer.
pub proof fn lemma_parse_list_elems_bounds(data: Seq<u8>, et: u8, pos: int, count: int)
    requires
        0 <= pos <= data.len(),
    ensures
        parse_list_elems(data, et, pos, count) matches Ok((items, n)) ==> 0 <= n && pos + n
            <= data.len(),
    decreases data.len() - pos, 3int,
{
    if count > 0 {
        lemma_parse_value_bounds(data, et, pos);
        match parse_value(data, et, Seq::empty(), pos) {
            Ok((tag, sz)) => {
                if 1 <= sz && pos + sz <= data.len() {
                    lemma_parse_list_elems_bounds(data, et, pos + sz, count - 1);
                }
            },
            Err(_) => {},
        }
    }
}

/// A successfully parsed compound body, End sentinel included, spans at
/// least one byte and lies inside the buffer.
pub proof fn lemma_parse_members_bounds(data: Seq<u8>, pos: int)
    ensures
        parse_members(data, pos) matches Ok((items, n)) ==> 0 <= pos && 1 <= n && pos + n
            <= data.len(),
    decreases data.len() - pos, 1int,
{
    lemma_parse_tag_bounds(data, pos);
    match parse_tag(data, pos) {
        Ok((tag, sz)) => {
            if !(tag is End) && 1 <= sz && pos + sz <= data.len() {
                lemma_parse_members_bounds(data, pos + sz);
            }
        },
        Err(_) => {},
    }
}

} // verus!
