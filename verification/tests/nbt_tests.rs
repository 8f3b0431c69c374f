//! Decoding fixtures for every NBT tag type, nested cases included.
use anvil_nbt::err::DecodeError;
use anvil_nbt::nbt::NbtParser;
use anvil_nbt::tag::NbtTag;

#[test]
fn test_nbt_parser() {
    NbtParser::new(&[0]);
}

#[test]
fn test_nbt_end() {
    let parser = NbtParser::new(&[0]);

    assert_eq!(parser.parse(), Ok((NbtTag::End, 1)));
}

#[test]
fn test2() {
    println!("{:?}", "foo".as_bytes());
}

#[test]
fn test_nbt_byte() {
    let parser = NbtParser::new(&[1, 0, 3, 102, 111, 111, 3]);

    assert_eq!(parser.parse(), Ok((NbtTag::Byte("foo".to_string(), 3), 7)));
}

#[test]
fn test_nbt_short() {
    let parser = NbtParser::new(&[2, 0, 3, 102, 111, 111, 1, 1]);

    assert_eq!(parser.parse(), Ok((NbtTag::Short("foo".to_string(), 257), 8)));
}

#[test]
fn test_nbt_int() {
    let parser = NbtParser::new(&[3, 0, 3, 102, 111, 111, 1, 1, 1, 1]);

    assert_eq!(
        parser.parse(),
        Ok((NbtTag::Int("foo".to_string(), 16843009), 10))
    );
}

#[test]
fn test_nbt_long() {
    let parser = NbtParser::new(&[4, 0, 3, 102, 111, 111, 1, 1, 1, 1, 1, 1, 1, 1]);

    assert_eq!(
        parser.parse(),
        Ok((NbtTag::Long("foo".to_string(), 72340172838076673), 14))
    );
}

#[test]
fn test_float() {
    println!("{}", 1.0f32.to_bits());
}

#[test]
fn test_nbt_float() {
    let parser = NbtParser::new(&[5, 0, 3, 102, 111, 111, 63, 128, 0, 0]);

    assert_eq!(
        parser.parse(),
        Ok((NbtTag::Float("foo".to_string(), 1f32.to_bits()), 10))
    );
}

#[test]
fn test_double() {
    println!("{}", 1.0f64.to_bits());
}

#[test]
fn test_nbt_double() {
    let parser = NbtParser::new(&[6, 0, 3, 102, 111, 111, 63, 240, 0, 0, 0, 0, 0, 0]);

    assert_eq!(
        parser.parse(),
        Ok((NbtTag::Double("foo".to_string(), 1f64.to_bits()), 14))
    );
}

#[test]
fn test_nbt_byte_array() {
    let parser = NbtParser::new(&[7, 0, 3, 102, 111, 111, 0, 0, 0, 3, 1, 2, 3]);

    assert_eq!(
        parser.parse(),
        Ok((NbtTag::ByteArray("foo".to_string(), vec![1, 2, 3]), 13))
    );
}

#[test]
fn test_nbt_string() {
    let parser = NbtParser::new(&[8, 0, 3, 102, 111, 111, 0, 6, 227, 129, 187, 227, 129, 146]);

    assert_eq!(
        parser.parse(),
        Ok((NbtTag::String("foo".to_string(), "ほげ".to_string()), 14))
    );
}

// A list whose declared element type is End holds placeholders that
// span no payload bytes, so only the list header is consumed.
#[test]
fn test_nbt_list_end() {
    let parser = NbtParser::new(&[9, 0, 3, 102, 111, 111, 0, 0, 0, 0, 2, 0, 0]);

    assert_eq!(
        parser.parse(),
        Ok((
            NbtTag::List("foo".to_string(), vec![NbtTag::End, NbtTag::End]),
            11
        ))
    );
}

#[test]
fn test_nbt_list_byte() {
    let parser = NbtParser::new(&[9, 0, 3, 102, 111, 111, 1, 0, 0, 0, 2, 1, 2]);

    assert_eq!(
        parser.parse(),
        Ok((
            NbtTag::List(
                "foo".to_string(),
                vec![
                    NbtTag::Byte("".to_string(), 1),
                    NbtTag::Byte("".to_string(), 2)
                ]
            ),
            13
        ))
    );
}

#[test]
fn test_nbt_list_short() {
    let parser = NbtParser::new(&[9, 0, 3, 102, 111, 111, 2, 0, 0, 0, 2, 0, 1, 0, 2]);

    assert_eq!(
        parser.parse(),
        Ok((
            NbtTag::List(
                "foo".to_string(),
                vec![
                    NbtTag::Short("".to_string(), 1),
                    NbtTag::Short("".to_string(), 2)
                ]
            ),
            15
        ))
    );
}

#[test]
fn test_nbt_list_int() {
    let parser = NbtParser::new(&[
        9, 0, 3, 102, 111, 111, 3, 0, 0, 0, 2, 0, 0, 0, 1, 0, 0, 0, 2,
    ]);

    assert_eq!(
        parser.parse(),
        Ok((
            NbtTag::List(
                "foo".to_string(),
                vec![
                    NbtTag::Int("".to_string(), 1),
                    NbtTag::Int("".to_string(), 2)
                ]
            ),
            19
        ))
    );
}

#[test]
fn test_nbt_list_long() {
    let parser = NbtParser::new(&[
        9, 0, 3, 102, 111, 111, 4, 0, 0, 0, 2, 0, 0, 0, 0, 0, 0, 0, 1, 0, 0, 0, 0, 0, 0, 0, 2,
    ]);

    assert_eq!(
        parser.parse(),
        Ok((
            NbtTag::List(
                "foo".to_string(),
                vec![
                    NbtTag::Long("".to_string(), 1),
                    NbtTag::Long("".to_string(), 2)
                ]
            ),
            27
        ))
    );
}

#[test]
fn test_nbt_list_float() {
    let parser = NbtParser::new(&[
        9, 0, 3, 102, 111, 111, 5, 0, 0, 0, 2, 63, 128, 0, 0, 63, 128, 0, 0,
    ]);

    assert_eq!(
        parser.parse(),
        Ok((
            NbtTag::List(
                "foo".to_string(),
                vec![
                    NbtTag::Float("".to_string(), 1f32.to_bits()),
                    NbtTag::Float("".to_string(), 1f32.to_bits())
                ]
            ),
            19
        ))
    );
}

#[test]
fn test_nbt_list_double() {
    let parser = NbtParser::new(&[
        9, 0, 3, 102, 111, 111, 6, 0, 0, 0, 2, 63, 240, 0, 0, 0, 0, 0, 0, 63, 240, 0, 0, 0, 0, 0,
        0,
    ]);

    assert_eq!(
        parser.parse(),
        Ok((
            NbtTag::List(
                "foo".to_string(),
                vec![
                    NbtTag::Double("".to_string(), 1f64.to_bits()),
                    NbtTag::Double("".to_string(), 1f64.to_bits())
                ]
            ),
            27
        ))
    );
}

#[test]
fn test_nbt_list_byte_array() {
    let parser = NbtParser::new(&[
        9, 0, 3, 102, 111, 111, 7, 0, 0, 0, 2, 0, 0, 0, 2, 1, 2, 0, 0, 0, 3, 1, 2, 3,
    ]);

    assert_eq!(
        parser.parse(),
        Ok((
            NbtTag::List(
                "foo".to_string(),
                vec![
                    NbtTag::ByteArray("".to_string(), vec![1, 2]),
                    NbtTag::ByteArray("".to_string(), vec![1, 2, 3])
                ]
            ),
            24
        ))
    );
}

#[test]
fn test_nbt_list_string() {
    let parser = NbtParser::new(&[
        9, 0, 3, 102, 111, 111, 8, 0, 0, 0, 2, 0, 6, 227, 129, 187, 227, 129, 146, 0, 6, 227, 129,
        187, 227, 129, 146,
    ]);

    assert_eq!(
        parser.parse(),
        Ok((
            NbtTag::List(
                "foo".to_string(),
                vec![
                    NbtTag::String("".to_string(), "ほげ".to_string()),
                    NbtTag::String("".to_string(), "ほげ".to_string())
                ]
            ),
            27
        ))
    );
}

#[test]
fn test_nbt_list_list_byte() {
    let parser = NbtParser::new(&[
        9, 0, 3, 102, 111, 111, 9, 0, 0, 0, 2, 1, 0, 0, 0, 2, 1, 2, 1, 0, 0, 0, 2, 1, 2,
    ]);

    assert_eq!(
        parser.parse(),
        Ok((
            NbtTag::List(
                "foo".to_string(),
                vec![
                    NbtTag::List(
                        "".to_string(),
                        vec![
                            NbtTag::Byte("".to_string(), 1),
                            NbtTag::Byte("".to_string(), 2)
                        ]
                    ),
                    NbtTag::List(
                        "".to_string(),
                        vec![
                            NbtTag::Byte("".to_string(), 1),
                            NbtTag::Byte("".to_string(), 2)
                        ]
                    )
                ]
            ),
            25
        ))
    );
}

#[test]
fn test_nbt_compound() {
    let parser = NbtParser::new(&[10, 0, 3, 102, 111, 111, 0]);

    assert_eq!(
        parser.parse(),
        Ok((NbtTag::Compound("foo".to_string(), vec![]), 7))
    );
}

#[test]
fn test_nbt_byte_in_compound() {
    let parser = NbtParser::new(&[10, 0, 3, 102, 111, 111, 1, 0, 3, 102, 111, 111, 3, 0]);

    assert_eq!(
        parser.parse(),
        Ok((
            NbtTag::Compound(
                "foo".to_string(),
                vec![NbtTag::Byte("foo".to_string(), 3)]
            ),
            14
        ))
    );
}

#[test]
fn test_two_nbt_byte_in_compound() {
    let parser = NbtParser::new(&[
        10, 0, 3, 102, 111, 111, 1, 0, 3, 102, 111, 111, 3, 1, 0, 3, 102, 111, 111, 3, 0,
    ]);

    assert_eq!(
        parser.parse(),
        Ok((
            NbtTag::Compound(
                "foo".to_string(),
                vec![
                    NbtTag::Byte("foo".to_string(), 3),
                    NbtTag::Byte("foo".to_string(), 3)
                ]
            ),
            21
        ))
    );
}

#[test]
fn test_nbt_short_in_compound() {
    let parser = NbtParser::new(&[10, 0, 3, 102, 111, 111, 2, 0, 3, 102, 111, 111, 0, 3, 0]);

    assert_eq!(
        parser.parse(),
        Ok((
            NbtTag::Compound(
                "foo".to_string(),
                vec![NbtTag::Short("foo".to_string(), 3)]
            ),
            15
        ))
    );
}

#[test]
fn test_two_nbt_short_in_compound() {
    let parser = NbtParser::new(&[
        10, 0, 3, 102, 111, 111, 2, 0, 3, 102, 111, 111, 0, 3, 2, 0, 3, 102, 111, 111, 0, 3, 0,
    ]);

    assert_eq!(
        parser.parse(),
        Ok((
            NbtTag::Compound(
                "foo".to_string(),
                vec![
                    NbtTag::Short("foo".to_string(), 3),
                    NbtTag::Short("foo".to_string(), 3)
                ]
            ),
            23
        ))
    );
}

#[test]
fn test_nbt_int_in_compound() {
    let parser = NbtParser::new(&[10, 0, 3, 102, 111, 111, 3, 0, 3, 102, 111, 111, 0, 0, 0, 3, 0]);

    assert_eq!(
        parser.parse(),
        Ok((
            NbtTag::Compound("foo".to_string(), vec![NbtTag::Int("foo".to_string(), 3)]),
            17
        ))
    );
}

#[test]
fn test_nbt_two_int_in_compound() {
    let parser = NbtParser::new(&[
        10, 0, 3, 102, 111, 111, 3, 0, 3, 102, 111, 111, 0, 0, 0, 3, 3, 0, 3, 102, 111, 111, 0, 0,
        0, 3, 0,
    ]);

    assert_eq!(
        parser.parse(),
        Ok((
            NbtTag::Compound(
                "foo".to_string(),
                vec![
                    NbtTag::Int("foo".to_string(), 3),
                    NbtTag::Int("foo".to_string(), 3)
                ]
            ),
            27
        ))
    );
}

#[test]
fn test_nbt_int_array() {
    let parser = NbtParser::new(&[
        11, 0, 3, 102, 111, 111, 0, 0, 0, 2, 0, 0, 0, 1, 0, 0, 0, 1,
    ]);

    assert_eq!(
        parser.parse(),
        Ok((NbtTag::IntArray("foo".to_string(), vec![1, 1]), 18))
    );
}

// Every composite type can stand as a list element: a compound list
// element is a payload-only member scan up to its End sentinel.
#[test]
fn list_of_compound_elements() {
    let parser = NbtParser::new(&[9, 0, 1, 108, 10, 0, 0, 0, 1, 1, 0, 1, 120, 7, 0]);

    assert_eq!(
        parser.parse(),
        Ok((
            NbtTag::List(
                "l".to_string(),
                vec![NbtTag::Compound(
                    "".to_string(),
                    vec![NbtTag::Byte("x".to_string(), 7)]
                )]
            ),
            15
        ))
    );
}

#[test]
fn list_of_int_array_elements() {
    let parser = NbtParser::new(&[
        9, 0, 1, 108, 11, 0, 0, 0, 1, 0, 0, 0, 2, 0, 0, 0, 1, 0, 0, 0, 2,
    ]);

    assert_eq!(
        parser.parse(),
        Ok((
            NbtTag::List(
                "l".to_string(),
                vec![NbtTag::IntArray("".to_string(), vec![1, 2])]
            ),
            21
        ))
    );
}

#[test]
fn compound_in_compound() {
    let parser = NbtParser::new(&[10, 0, 1, 97, 10, 0, 1, 98, 0, 0]);

    assert_eq!(
        parser.parse(),
        Ok((
            NbtTag::Compound(
                "a".to_string(),
                vec![NbtTag::Compound("b".to_string(), vec![])]
            ),
            10
        ))
    );
}

// A compound whose member list is cut off before its End sentinel.
#[test]
fn unterminated_compound_is_truncated() {
    let parser = NbtParser::new(&[10, 0, 3, 102, 111, 111, 1, 0, 3, 102, 111, 111, 3]);

    assert_eq!(parser.parse(), Err(DecodeError::TruncatedInput));
}

// The degenerate list header: element type End with a zero count
// decodes to an empty list spanning exactly the header bytes.
#[test]
fn empty_end_list_spans_header_only() {
    let parser = NbtParser::new(&[9, 0, 3, 102, 111, 111, 0, 0, 0, 0, 0]);

    assert_eq!(
        parser.parse(),
        Ok((NbtTag::List("foo".to_string(), vec![]), 11))
    );
}

// Two encodings laid end to end decode independently: the second
// decode starts exactly at the span the first reported consuming.
#[test]
fn decode_concatenated_tags() {
    let first = [1, 0, 3, 102, 111, 111, 3];
    let second = [2, 0, 3, 102, 111, 111, 1, 1];
    let mut buf = Vec::new();
    buf.extend_from_slice(&first);
    buf.extend_from_slice(&second);

    let (tag1, consumed1) = NbtParser::new(&buf).parse().unwrap();
    assert_eq!(tag1, NbtTag::Byte("foo".to_string(), 3));
    assert_eq!(consumed1, first.len());

    let (tag2, consumed2) = NbtParser::new(&buf[consumed1..]).parse().unwrap();
    assert_eq!(tag2, NbtTag::Short("foo".to_string(), 257));
    assert_eq!(consumed2, second.len());
    assert_eq!(consumed1 + consumed2, buf.len());
}

#[test]
fn empty_buffer_is_truncated() {
    let parser = NbtParser::new(&[]);

    assert_eq!(parser.parse(), Err(DecodeError::TruncatedInput));
}

#[test]
fn truncated_payload_is_reported() {
    // a Byte tag whose one payload byte is missing
    let parser = NbtParser::new(&[1, 0, 3, 102, 111, 111]);

    assert_eq!(parser.parse(), Err(DecodeError::TruncatedInput));
}

#[test]
fn truncated_name_is_reported() {
    // the name length says three bytes but only one follows
    let parser = NbtParser::new(&[1, 0, 3, 102]);

    assert_eq!(parser.parse(), Err(DecodeError::TruncatedInput));
}

#[test]
fn unknown_tag_type_is_reported() {
    let parser = NbtParser::new(&[12, 0, 3, 102, 111, 111, 0]);

    assert_eq!(parser.parse(), Err(DecodeError::UnknownTagType(12)));
}

#[test]
fn unknown_list_element_type_is_reported() {
    let parser = NbtParser::new(&[9, 0, 3, 102, 111, 111, 12, 0, 0, 0, 1, 0]);

    assert_eq!(parser.parse(), Err(DecodeError::UnknownTagType(12)));
}

#[test]
fn invalid_utf8_in_string_is_reported() {
    let parser = NbtParser::new(&[8, 0, 3, 102, 111, 111, 0, 2, 255, 254]);

    assert_eq!(parser.parse(), Err(DecodeError::InvalidUtf8));
}

#[test]
fn invalid_utf8_in_name_is_reported() {
    let parser = NbtParser::new(&[1, 0, 2, 255, 254, 3]);

    assert_eq!(parser.parse(), Err(DecodeError::InvalidUtf8));
}

// Negative scalars travel as two's complement on the wire.
#[test]
fn negative_scalars_decode_two_complement() {
    let parser = NbtParser::new(&[1, 0, 1, 120, 255]);
    assert_eq!(parser.parse(), Ok((NbtTag::Byte("x".to_string(), -1), 5)));

    let parser = NbtParser::new(&[2, 0, 1, 120, 255, 254]);
    assert_eq!(parser.parse(), Ok((NbtTag::Short("x".to_string(), -2), 6)));

    let parser = NbtParser::new(&[3, 0, 1, 120, 255, 255, 255, 253]);
    assert_eq!(parser.parse(), Ok((NbtTag::Int("x".to_string(), -3), 8)));

    let parser = NbtParser::new(&[4, 0, 1, 120, 255, 255, 255, 255, 255, 255, 255, 252]);
    assert_eq!(parser.parse(), Ok((NbtTag::Long("x".to_string(), -4), 12)));
}

// An IntArray in a compound, decoded with negative members.
#[test]
fn int_array_negative_members() {
    let parser = NbtParser::new(&[11, 0, 1, 110, 0, 0, 0, 2, 255, 255, 255, 255, 0, 0, 0, 7]);

    assert_eq!(
        parser.parse(),
        Ok((NbtTag::IntArray("n".to_string(), vec![-1, 7]), 16))
    );
}
