//! The executable NBT decoder.
//!
//! `NbtParser` decodes one tag out of a byte buffer by recursive
//! descent, threading an explicit position instead of any shared
//! cursor. Every method returns exactly what the wire model in
//! `crate::wire` prescribes for its input: the decoded tag together
//! with the exact number of bytes it spans, or the typed error the
//! input deserves.
use vstd::prelude::*;

use crate::bytes::{copy_range, read_be, read_u16, read_u32, to_i16, to_i32, to_i64, to_i8};
use crate::err::DecodeError;
use crate::tag::{lemma_models_of_push, models_of, NbtTag, TagModel};
use crate::tag::string_from_utf8;
use crate::wire;

verus! {

/// A decoder over a borrowed byte buffer.
pub struct NbtParser<'a> {
    nbt_slice: &'a [u8],
}

impl<'a> View for NbtParser<'a> {
    type V = Seq<u8>;

    closed spec fn view(&self) -> Seq<u8> {
        self.nbt_slice@
    }
}

impl<'a> NbtParser<'a> {
    /// Wrap a byte buffer for decoding.
    pub fn new(nbt_slice: &'a [u8]) -> (p: NbtParser<'a>)
        ensures
            p@ == nbt_slice@,
    {
        NbtParser { nbt_slice }
    }

    /// Decode the tag that starts at the beginning of the buffer.
    pub fn parse(&self) -> (r: Result<(NbtTag, usize), DecodeError>)
        ensures
            match r {
                Ok(p) => wire::parse_tag(self@, 0) == Ok::<(TagModel, int), DecodeError>(
                    (p.0.model(), p.1 as int),
                ),
                Err(e) => wire::parse_tag(self@, 0) == Err::<(TagModel, int), DecodeError>(e),
            },
    {
        self.parse_at(0)
    }

    /// Decode the full named tag that starts at `pos`: type id, name
    /// length, name and payload. The returned count spans all four
    /// parts.
    pub fn parse_at(&self, pos: usize) -> (r: Result<(NbtTag, usize), DecodeError>)
        ensures
            match r {
                Ok(p) => wire::parse_tag(self@, pos as int) == Ok::<(TagModel, int), DecodeError>(
                    (p.0.model(), p.1 as int),
                ) && 1 <= p.1 && pos + p.1 <= self@.len(),
                Err(e) => wire::parse_tag(self@, pos as int) == Err::<
                    (TagModel, int),
                    DecodeError,
                >(e),
            },
        decreases self@.len() - pos, 0int,
    {
        let data = self.nbt_slice;
        let len = data.len();
        if pos >= len {
            return Err(DecodeError::TruncatedInput);
        }
        let t = data[pos];
        if t == 0 {
            return Ok((NbtTag::End, 1));
        }
        if t > 11 {
            return Err(DecodeError::UnknownTagType(t));
        }
        if len - pos < 3 {
            return Err(DecodeError::TruncatedInput);
        }
        let name_len = read_u16(data, pos + 1) as usize;
        if name_len > len - (pos + 3) {
            return Err(DecodeError::TruncatedInput);
        }
        let name_bytes = copy_range(data, pos + 3, pos + 3 + name_len);
        let name = match string_from_utf8(name_bytes) {
            Ok(s) => s,
            Err(e) => {
                return Err(e);
            },
        };
        match self.parse_value(name, t, pos + 3 + name_len) {
            Ok((tag, vs)) => Ok((tag, 3 + name_len + vs)),
            Err(e) => Err(e),
        }
    }

    /// Decode the payload of a tag of type `tag_type` at `position`;
    /// the produced tag carries `name`. The returned count spans the
    /// payload only.
    #[verifier::loop_isolation(false)]
    pub fn parse_value(&self, name: String, tag_type: u8, position: usize) -> (r: Result<
        (NbtTag, usize),
        DecodeError,
    >)
        ensures
            match r {
                Ok(p) => wire::parse_value(self@, tag_type, name@, position as int) == Ok::<
                    (TagModel, int),
                    DecodeError,
                >((p.0.model(), p.1 as int)) && (tag_type != 0 ==> 1 <= p.1 && position + p.1
                    <= self@.len()) && (tag_type == 0 ==> p.1 == 0),
                Err(e) => wire::parse_value(self@, tag_type, name@, position as int) == Err::<
                    (TagModel, int),
                    DecodeError,
                >(e),
            },
        decreases self@.len() - position, 1int,
    {
        let data = self.nbt_slice;
        let len = data.len();
        if tag_type == 0 {
            return Ok((NbtTag::End, 0));
        }
        if tag_type > 11 {
            return Err(DecodeError::UnknownTagType(tag_type));
        }
        if position > len {
            proof {
                // a compound delegates straight to its member scan,
                // whose first named-tag read is already out of bounds
                assert(wire::parse_tag(self@, position as int) == Err::<
                    (TagModel, int),
                    DecodeError,
                >(DecodeError::TruncatedInput));
            }
            return Err(DecodeError::TruncatedInput);
        }
        let avail = len - position;
        match tag_type {
            1 => {
                if avail < 1 {
                    return Err(DecodeError::TruncatedInput);
                }
                Ok((NbtTag::Byte(name, to_i8(data[position])), 1))
            },
            2 => {
                if avail < 2 {
                    return Err(DecodeError::TruncatedInput);
                }
                Ok((NbtTag::Short(name, to_i16(read_u16(data, position))), 2))
            },
            3 => {
                if avail < 4 {
                    return Err(DecodeError::TruncatedInput);
                }
                Ok((NbtTag::Int(name, to_i32(read_u32(data, position))), 4))
            },
            4 => {
                if avail < 8 {
                    return Err(DecodeError::TruncatedInput);
                }
                Ok((NbtTag::Long(name, to_i64(read_be(data, position, 8))), 8))
            },
            5 => {
                if avail < 4 {
                    return Err(DecodeError::TruncatedInput);
                }
                Ok((NbtTag::Float(name, read_u32(data, position)), 4))
            },
            6 => {
                if avail < 8 {
                    return Err(DecodeError::TruncatedInput);
                }
                Ok((NbtTag::Double(name, read_be(data, position, 8)), 8))
            },
            7 => {
                if avail < 4 {
                    return Err(DecodeError::TruncatedInput);
                }
                let count = read_u32(data, position);
                if count as u64 > (avail - 4) as u64 {
                    return Err(DecodeError::TruncatedInput);
                }
                let c = count as usize;
                let arr = copy_range(data, position + 4, position + 4 + c);
                Ok((NbtTag::ByteArray(name, arr), 4 + c))
            },
            8 => {
                if avail < 2 {
                    return Err(DecodeError::TruncatedInput);
                }
                let count = read_u16(data, position) as usize;
                if count > avail - 2 {
                    return Err(DecodeError::TruncatedInput);
                }
                let text_bytes = copy_range(data, position + 2, position + 2 + count);
                match string_from_utf8(text_bytes) {
                    Ok(text) => Ok((NbtTag::String(name, text), 2 + count)),
                    Err(e) => Err(e),
                }
            },
            9 => {
                if avail < 5 {
                    return Err(DecodeError::TruncatedInput);
                }
                let et = data[position];
                let count = read_u32(data, position + 1);
                if et == 0 {
                    let mut items: Vec<NbtTag> = Vec::new();
                    let mut i: u32 = 0;
                    while i < count
                        invariant
                            i <= count,
                            models_of(items@) == Seq::new(i as nat, |k: int| TagModel::End),
                        decreases count - i,
                    {
                        proof {
                            lemma_models_of_push(items@, NbtTag::End);
                            assert(models_of(items@) + seq![NbtTag::End.model()] =~= Seq::new(
                                (i + 1) as nat,
                                |k: int| TagModel::End,
                            ));
                        }
                        items.push(NbtTag::End);
                        i = i + 1;
                    }
                    return Ok((NbtTag::List(name, items), 5));
                }
                if et > 11 {
                    return Err(DecodeError::UnknownTagType(et));
                }
                let mut items: Vec<NbtTag> = Vec::new();
                let mut total: usize = 0;
                let mut i: u32 = 0;
                let ghost d = self@;
                let ghost base = position + 5;
                while i < count
                    invariant
                        d == self@,
                        base == position + 5,
                        position + 5 <= len,
                        len == self@.len(),
                        i <= count,
                        base + total <= len,
                        1 <= et <= 11,
                        wire::parse_list_elems(d, et, base as int, count as int) == (
                        match wire::parse_list_elems(
                            d,
                            et,
                            base + total,
                            count - i,
                        ) {
                            Ok(p) => Ok::<(Seq<TagModel>, int), DecodeError>(
                                (models_of(items@) + p.0, total + p.1),
                            ),
                            Err(e) => Err::<(Seq<TagModel>, int), DecodeError>(e),
                        }),
                    decreases count - i,
                {
                    let elem_name = String::new();
                    proof {
                        assert(elem_name@ =~= Seq::<char>::empty());
                    }
                    match self.parse_value(elem_name, et, position + 5 + total) {
                        Err(e) => {
                            proof {
                                assert(wire::parse_list_elems(d, et, base + total, count - i)
                                    == Err::<(Seq<TagModel>, int), DecodeError>(e));
                            }
                            return Err(e);
                        },
                        Ok((tag, sz)) => {
                            proof {
                                let ghost prev = items@;
                                lemma_models_of_push(prev, tag);
                                let rest = wire::parse_list_elems(
                                    d,
                                    et,
                                    base + total + sz,
                                    count - i - 1,
                                );
                                if let Ok(p) = rest {
                                    assert(models_of(prev) + (seq![tag.model()] + p.0) =~= models_of(
                                        prev.push(tag),
                                    ) + p.0);
                                }
                            }
                            items.push(tag);
                            total = total + sz;
                            i = i + 1;
                        },
                    }
                }
                proof {
                    assert(models_of(items@) + Seq::<TagModel>::empty() =~= models_of(items@));
                }
                Ok((NbtTag::List(name, items), 5 + total))
            },
            10 => {
                let mut items: Vec<NbtTag> = Vec::new();
                let mut cur: usize = position;
                let ghost d = self@;
                loop
                    invariant
                        d == self@,
                        len == self@.len(),
                        position <= cur <= len,
                        wire::parse_members(d, position as int) == (match wire::parse_members(
                            d,
                            cur as int,
                        ) {
                            Ok(p) => Ok::<(Seq<TagModel>, int), DecodeError>(
                                (models_of(items@) + p.0, (cur - position) + p.1),
                            ),
                            Err(e) => Err::<(Seq<TagModel>, int), DecodeError>(e),
                        }),
                    decreases self@.len() - cur,
                {
                    match self.parse_at(cur) {
                        Err(e) => {
                            return Err(e);
                        },
                        Ok((tag, sz)) => {
                            let is_end = match &tag {
                                NbtTag::End => true,
                                _ => false,
                            };
                            if is_end {
                                proof {
                                    assert(models_of(items@) + Seq::<TagModel>::empty()
                                        =~= models_of(items@));
                                }
                                return Ok((NbtTag::Compound(name, items), (cur - position) + 1));
                            }
                            proof {
                                let ghost prev = items@;
                                lemma_models_of_push(prev, tag);
                                let rest = wire::parse_members(d, cur + sz);
                                if let Ok(p) = rest {
                                    assert(models_of(prev) + (seq![tag.model()] + p.0) =~= models_of(
                                        prev.push(tag),
                                    ) + p.0);
                                }
                            }
                            items.push(tag);
                            cur = cur + sz;
                        },
                    }
                }
            },
            11 => {
                if avail < 4 {
                    return Err(DecodeError::TruncatedInput);
                }
                let count = read_u32(data, position);
                if (count as u64) * 4 > (avail - 4) as u64 {
                    return Err(DecodeError::TruncatedInput);
                }
                let c = count as usize;
                let mut items: Vec<i32> = Vec::new();
                let mut i: usize = 0;
                while i < c
                    invariant
                        i <= c,
                        position + 4 + 4 * c <= len,
                        len == self@.len(),
                        items@.len() == i,
                        forall|j: int|
                            0 <= j < i ==> items@[j] == wire::int_array_elems(
                                self@,
                                position + 4,
                                c as int,
                            )[j],
                    decreases c - i,
                {
                    let u = read_u32(data, position + 4 + 4 * i);
                    let v = to_i32(u);
                    proof {
                        assert(wire::int_array_elems(self@, position + 4, c as int)[i as int]
                            == v);
                    }
                    items.push(v);
                    i = i + 1;
                }
                proof {
                    assert(items@ =~= wire::int_array_elems(self@, position + 4, c as int));
                }
                Ok((NbtTag::IntArray(name, items), 4 + 4 * c))
            },
            _ => Err(DecodeError::UnknownTagType(tag_type)),
        }
    }
}

} // verus!
