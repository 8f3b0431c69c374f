//! The NBT tag tree and its mathematical model.
//!
//! `NbtTag` is the executable tagged union the decoder produces; one
//! variant per wire type id. `TagModel` is its ghost counterpart over
//! `Seq`, which the decoding specification speaks of. Float and Double
//! payloads are carried as their big-endian wire bits.
use vstd::prelude::*;

use crate::err::DecodeError;

verus! {

broadcast use vstd::std_specs::vec::axiom_vec_decreases_to_view, vstd::seq::axiom_seq_index_decreases;

/// Ghost model of a decoded tag: names and texts as `Seq<char>`,
/// byte and integer payloads as sequences, children as `Seq<TagModel>`.
pub enum TagModel {
    End,
    Byte(Seq<char>, i8),
    Short(Seq<char>, i16),
    Int(Seq<char>, i32),
    Long(Seq<char>, i64),
    Float(Seq<char>, u32),
    Double(Seq<char>, u64),
    ByteArray(Seq<char>, Seq<u8>),
    String(Seq<char>, Seq<char>),
    List(Seq<char>, Seq<TagModel>),
    Compound(Seq<char>, Seq<TagModel>),
    IntArray(Seq<char>, Seq<i32>),
}

/// A decoded NBT tag. Scalar payloads are sign-reinterpreted from the
/// big-endian wire bytes; `Float` and `Double` keep the raw 32- and
/// 64-bit patterns of the wire, since their numeric reading plays no
/// part in binary-format correctness.
#[derive(Debug, PartialEq)]
pub enum NbtTag {
    End,
    Byte(String, i8),
    Short(String, i16),
    Int(String, i32),
    Long(String, i64),
    Float(String, u32),
    Double(String, u64),
    ByteArray(String, Vec<u8>),
    String(String, String),
    List(String, Vec<NbtTag>),
    Compound(String, Vec<NbtTag>),
    IntArray(String, Vec<i32>),
}

impl NbtTag {
    /// The ghost model of this tag, recursively through lists and
    /// compounds.
    pub open spec fn model(&self) -> TagModel
        decreases self,
    {
        match self {
            NbtTag::End => TagModel::End,
            NbtTag::Byte(n, v) => TagModel::Byte(n@, *v),
            NbtTag::Short(n, v) => TagModel::Short(n@, *v),
            NbtTag::Int(n, v) => TagModel::Int(n@, *v),
            NbtTag::Long(n, v) => TagModel::Long(n@, *v),
            NbtTag::Float(n, v) => TagModel::Float(n@, *v),
            NbtTag::Double(n, v) => TagModel::Double(n@, *v),
            NbtTag::ByteArray(n, v) => TagModel::ByteArray(n@, v@),
            NbtTag::String(n, v) => TagModel::String(n@, v@),
            NbtTag::List(n, items) => TagModel::List(n@, models_of(items@)),
            NbtTag::Compound(n, items) => TagModel::Compound(n@, models_of(items@)),
            NbtTag::IntArray(n, v) => TagModel::IntArray(n@, v@),
        }
    }
}

/// The ghost models of a sequence of tags, in order.
pub open spec fn models_of(s: Seq<NbtTag>) -> Seq<TagModel>
    decreases s,
{
    if s.len() == 0 {
        Seq::empty()
    } else {
        proof {
            vstd::seq::axiom_seq_index_decreases(s, 0);
            vstd::seq::axiom_seq_subrange_decreases(s, 1, s.len() as int);
            assert(s.drop_first() == s.subrange(1, s.len() as int));
        }
        seq![s[0].model()] + models_of(s.drop_first())
    }
}

/// `models_of` maps elementwise: it keeps the length and models each
/// element in place.
pub proof fn lemma_models_of(s: Seq<NbtTag>)
    ensures
        models_of(s).len() == s.len(),
        forall|i: int| 0 <= i < s.len() ==> models_of(s)[i] == s[i].model(),
    decreases s.len(),
{
    if s.len() > 0 {
        lemma_models_of(s.drop_first());
    }
}

/// Appending a tag to a sequence appends its model.
pub proof fn lemma_models_of_push(s: Seq<NbtTag>, t: NbtTag)
    ensures
        models_of(s.push(t)) == models_of(s) + seq![t.model()],
{
    lemma_models_of(s);
    lemma_models_of(s.push(t));
    assert(models_of(s.push(t)) =~= models_of(s) + seq![t.model()]);
}

/// What `String::from_utf8` returns: the decoded characters of `bytes`
/// when they are valid UTF-8, and nothing otherwise.
pub uninterp spec fn utf8_decode(bytes: Seq<u8>) -> Option<Seq<char>>;

/// Relies on `String::from_utf8`: turning bytes into the string they
/// spell depends on the bytes alone and fails exactly on invalid UTF-8.
#[verifier::external_body]
pub(crate) fn string_from_utf8(bytes: Vec<u8>) -> (r: Result<String, DecodeError>)
    ensures
        match r {
            Ok(s) => utf8_decode(bytes@) == Some(s@),
            Err(e) => utf8_decode(bytes@) is None && e == DecodeError::InvalidUtf8,
        },
{
    match String::from_utf8(bytes) {
        Ok(s) => Ok(s),
        Err(_) => Err(DecodeError::InvalidUtf8),
    }
}

} // verus!
