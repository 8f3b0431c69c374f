//! Proved laws of the NBT wire model.
//!
//! The central one: a decode is determined by, and confined to, the
//! byte span it reports consuming. From it follows that two encodings
//! laid end to end decode independently, the second starting exactly
//! where the first reported stopping. A compound's span always closes
//! with the End sentinel byte.
use vstd::prelude::*;

use crate::err::DecodeError;
use crate::tag::TagModel;
use crate::wire::{be_bytes, lemma_parse_list_elems_bounds, lemma_parse_members_bounds,
    lemma_parse_tag_bounds, lemma_parse_value_bounds, parse_list_elems, parse_members, parse_tag,
    parse_value};

verus! {

/// A big-endian read sees only the bytes it spans: it is unchanged by
/// moving to another buffer that carries the same bytes `delta` later.
pub proof fn lemma_be_bytes_shift(d1: Seq<u8>, d2: Seq<u8>, pos: int, delta: int, n: int)
    requires
        forall|k: int| pos <= k < pos + n ==> d2[k + delta] == d1[k],
    ensures
        be_bytes(d2, pos + delta, n) == be_bytes(d1, pos, n),
    decreases n,
{
    if n > 0 {
        lemma_be_bytes_shift(d1, d2, pos, delta, n - 1);
    }
}

/// Decoding a named tag reads only the bytes it reports consuming:
/// on any buffer that carries those same bytes `delta` later, the
/// decode at the shifted position gives the same tag and span.
pub proof fn lemma_parse_tag_shift(
    d1: Seq<u8>,
    d2: Seq<u8>,
    pos: int,
    delta: int,
    t: TagModel,
    n: int,
)
    requires
        parse_tag(d1, pos) == Ok::<(TagModel, int), DecodeError>((t, n)),
        0 <= pos + delta,
        pos + delta + n <= d2.len(),
        forall|k: int| pos <= k < pos + n ==> d2[k + delta] == d1[k],
    ensures
        parse_tag(d2, pos + delta) == Ok::<(TagModel, int), DecodeError>((t, n)),
    decreases d1.len() - pos, 0int,
{
    lemma_parse_tag_bounds(d1, pos);
    let t0 = d1[pos];
    assert(d2[pos + delta] == t0);
    if t0 != 0 {
        crate::wire::lemma_be_bytes_bound(d1, pos + 1, 2);
        let name_len = be_bytes(d1, pos + 1, 2);
        let vpos = pos + 3 + name_len;
        if let Some(name) = crate::tag::utf8_decode(d1.subrange(pos + 3, vpos)) {
            if let Ok((tag, vs)) = parse_value(d1, t0, name, vpos) {
                lemma_parse_value_bounds(d1, t0, vpos);
                lemma_be_bytes_shift(d1, d2, pos + 1, delta, 2);
                assert(d2.subrange(pos + delta + 3, vpos + delta) =~= d1.subrange(pos + 3, vpos));
                lemma_parse_value_shift(d1, d2, vpos, delta, t0, name, tag, vs);
            }
        }
    }
}

/// Decoding a payload reads only the bytes it reports consuming.
pub proof fn lemma_parse_value_shift(
    d1: Seq<u8>,
    d2: Seq<u8>,
    pos: int,
    delta: int,
    t: u8,
    name: Seq<char>,
    tag: TagModel,
    n: int,
)
    requires
        parse_value(d1, t, name, pos) == Ok::<(TagModel, int), DecodeError>((tag, n)),
        0 <= pos + delta,
        pos + delta + n <= d2.len(),
        forall|k: int| pos <= k < pos + n ==> d2[k + delta] == d1[k],
    ensures
        parse_value(d2, t, name, pos + delta) == Ok::<(TagModel, int), DecodeError>((tag, n)),
    decreases d1.len() - pos, 2int,
{
    lemma_parse_value_bounds(d1, t, pos);
    if t == 2 || t == 3 || t == 4 || t == 5 || t == 6 {
        lemma_be_bytes_shift(d1, d2, pos, delta, n);
    } else if t == 7 {
        crate::wire::lemma_be_bytes_bound(d1, pos, 4);
        lemma_be_bytes_shift(d1, d2, pos, delta, 4);
        let count = be_bytes(d1, pos, 4);
        assert(d2.subrange(pos + delta + 4, pos + delta + 4 + count) =~= d1.subrange(
            pos + 4,
            pos + 4 + count,
        ));
    } else if t == 8 {
        crate::wire::lemma_be_bytes_bound(d1, pos, 2);
        lemma_be_bytes_shift(d1, d2, pos, delta, 2);
        let count = be_bytes(d1, pos, 2);
        assert(d2.subrange(pos + delta + 2, pos + delta + 2 + count) =~= d1.subrange(
            pos + 2,
            pos + 2 + count,
        ));
    } else if t == 9 {
        let et = d1[pos];
        assert(d2[pos + delta] == et);
        crate::wire::lemma_be_bytes_bound(d1, pos + 1, 4);
        let count = be_bytes(d1, pos + 1, 4);
        if 1 <= et <= 11 {
            if let Ok((items, sz)) = parse_list_elems(d1, et, pos + 5, count) {
                lemma_parse_list_elems_bounds(d1, et, pos + 5, count);
                lemma_be_bytes_shift(d1, d2, pos + 1, delta, 4);
                lemma_parse_list_elems_shift(d1, d2, pos + 5, delta, et, count, items, sz);
            }
        } else {
            lemma_be_bytes_shift(d1, d2, pos + 1, delta, 4);
        }
    } else if t == 10 {
        if let Ok((items, sz)) = parse_members(d1, pos) {
            lemma_parse_members_shift(d1, d2, pos, delta, items, sz);
        }
    } else if t == 11 {
        crate::wire::lemma_be_bytes_bound(d1, pos, 4);
        lemma_be_bytes_shift(d1, d2, pos, delta, 4);
        let count = be_bytes(d1, pos, 4);
        if 0 <= count && pos + 4 + 4 * count <= d1.len() {
            assert forall|i: int| 0 <= i < count implies #[trigger] crate::wire::int_array_elems(
                d2,
                pos + delta + 4,
                count,
            )[i] == crate::wire::int_array_elems(d1, pos + 4, count)[i] by {
                lemma_be_bytes_shift(d1, d2, pos + 4 + 4 * i, delta, 4);
            }
            assert(crate::wire::int_array_elems(d2, pos + delta + 4, count)
                =~= crate::wire::int_array_elems(d1, pos + 4, count));
        }
    }
}

/// Decoding a run of list elements reads only the bytes it reports
/// consuming.
pub proof fn lemma_parse_list_elems_shift(
    d1: Seq<u8>,
    d2: Seq<u8>,
    pos: int,
    delta: int,
    et: u8,
    count: int,
    items: Seq<TagModel>,
    n: int,
)
    requires
        0 <= pos <= d1.len(),
        parse_list_elems(d1, et, pos, count) == Ok::<(Seq<TagModel>, int), DecodeError>(
            (items, n),
        ),
        0 <= pos + delta,
        pos + delta + n <= d2.len(),
        forall|k: int| pos <= k < pos + n ==> d2[k + delta] == d1[k],
    ensures
        parse_list_elems(d2, et, pos + delta, count) == Ok::<(Seq<TagModel>, int), DecodeError>(
            (items, n),
        ),
    decreases d1.len() - pos, 3int,
{
    if count > 0 {
        lemma_parse_list_elems_bounds(d1, et, pos, count);
        if let Ok((head, sz)) = parse_value(d1, et, Seq::empty(), pos) {
            lemma_parse_value_bounds(d1, et, pos);
            if 1 <= sz && pos + sz <= d1.len() {
                if let Ok((rest, rsz)) = parse_list_elems(d1, et, pos + sz, count - 1) {
                    lemma_parse_list_elems_bounds(d1, et, pos + sz, count - 1);
                    lemma_parse_value_shift(d1, d2, pos, delta, et, Seq::empty(), head, sz);
                    lemma_parse_list_elems_shift(
                        d1,
                        d2,
                        pos + sz,
                        delta,
                        et,
                        count - 1,
                        rest,
                        rsz,
                    );
                }
            }
        }
    }
}

/// Decoding a compound body reads only the bytes it reports consuming.
pub proof fn lemma_parse_members_shift(
    d1: Seq<u8>,
    d2: Seq<u8>,
    pos: int,
    delta: int,
    items: Seq<TagModel>,
    n: int,
)
    requires
        parse_members(d1, pos) == Ok::<(Seq<TagModel>, int), DecodeError>((items, n)),
        0 <= pos + delta,
        pos + delta + n <= d2.len(),
        forall|k: int| pos <= k < pos + n ==> d2[k + delta] == d1[k],
    ensures
        parse_members(d2, pos + delta) == Ok::<(Seq<TagModel>, int), DecodeError>((items, n)),
    decreases d1.len() - pos, 1int,
{
    lemma_parse_members_bounds(d1, pos);
    if let Ok((head, sz)) = parse_tag(d1, pos) {
        lemma_parse_tag_bounds(d1, pos);
        if head is End {
            lemma_parse_tag_shift(d1, d2, pos, delta, head, sz);
        } else if 1 <= sz && pos + sz <= d1.len() {
            if let Ok((rest, rsz)) = parse_members(d1, pos + sz) {
                lemma_parse_members_bounds(d1, pos + sz);
                lemma_parse_tag_shift(d1, d2, pos, delta, head, sz);
                lemma_parse_members_shift(d1, d2, pos + sz, delta, rest, rsz);
            }
        }
    }
}

/// Two exact encodings laid end to end decode independently: the
/// first decode of the concatenation gives the first tag, and the
/// decode that starts exactly at its reported span gives the second.
pub proof fn lemma_decode_concatenation(e1: Seq<u8>, e2: Seq<u8>, t1: TagModel, t2: TagModel)
    requires
        parse_tag(e1, 0) == Ok::<(TagModel, int), DecodeError>((t1, e1.len() as int)),
        parse_tag(e2, 0) == Ok::<(TagModel, int), DecodeError>((t2, e2.len() as int)),
    ensures
        parse_tag(e1 + e2, 0) == Ok::<(TagModel, int), DecodeError>((t1, e1.len() as int)),
        parse_tag(e1 + e2, e1.len() as int) == Ok::<(TagModel, int), DecodeError>(
            (t2, e2.len() as int),
        ),
{
    lemma_parse_tag_shift(e1, e1 + e2, 0, 0, t1, e1.len() as int);
    lemma_parse_tag_shift(e2, e1 + e2, 0, e1.len() as int, t2, e2.len() as int);
}

/// A successfully decoded compound body always closes with the End
/// sentinel: the last byte of its reported span is zero.
pub proof fn lemma_members_end_sentinel(data: Seq<u8>, pos: int)
    ensures
        parse_members(data, pos) matches Ok(p) ==> data[pos + p.1 - 1] == 0,
    decreases data.len() - pos, 1int,
{
    lemma_parse_tag_bounds(data, pos);
    if let Ok((head, sz)) = parse_tag(data, pos) {
        if head is End {
            assert(data[pos] == 0);
        } else if 1 <= sz && pos + sz <= data.len() {
            lemma_members_end_sentinel(data, pos + sz);
        }
    }
}

/// Decoding a Compound payload always terminates on an End byte: the
/// last byte of the span it reports consuming is the End sentinel.
pub proof fn lemma_compound_terminates_on_end(
    data: Seq<u8>,
    name: Seq<char>,
    pos: int,
    tag: TagModel,
    n: int,
)
    requires
        parse_value(data, 10, name, pos) == Ok::<(TagModel, int), DecodeError>((tag, n)),
    ensures
        1 <= n,
        pos + n <= data.len(),
        data[pos + n - 1] == 0,
{
    lemma_parse_value_bounds(data, 10, pos);
    lemma_members_end_sentinel(data, pos);
}

} // verus!

