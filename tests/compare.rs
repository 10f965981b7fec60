use nbt_compare::compare::compare;
use nbt_compare::cursor::Cursor;
use nbt_compare::decode::decode_document;
use nbt_compare::error::{CompareError, NbtError, Side};
use nbt_compare::value::RawValue;

fn named(tag: u8, name: &str, payload: &[u8]) -> Vec<u8> {
    let mut out = vec![tag];
    out.extend_from_slice(&(name.len() as u16).to_be_bytes());
    out.extend_from_slice(name.as_bytes());
    out.extend_from_slice(payload);
    out
}

fn document(members: &[Vec<u8>]) -> Vec<u8> {
    let mut out = vec![0x0A, 0x00, 0x00];
    for m in members {
        out.extend_from_slice(m);
    }
    out.push(0x00);
    out
}

fn long(v: i64) -> Vec<u8> {
    v.to_be_bytes().to_vec()
}

fn int_list(items: &[i32]) -> Vec<u8> {
    let mut out = vec![3];
    out.extend_from_slice(&(items.len() as u32).to_be_bytes());
    for i in items {
        out.extend_from_slice(&i.to_be_bytes());
    }
    out
}

fn string(s: &str) -> Vec<u8> {
    let mut out = (s.len() as u16).to_be_bytes().to_vec();
    out.extend_from_slice(s.as_bytes());
    out
}

fn left_err(kind: NbtError) -> Result<bool, CompareError> {
    Err(CompareError { side: Side::Left, kind })
}

fn sample() -> Vec<u8> {
    let inner = {
        let mut c = named(8, "name", &string("stone"));
        c.extend_from_slice(&named(1, "count", &[64]));
        c.push(0);
        c
    };
    let mut compounds = vec![10];
    compounds.extend_from_slice(&2u32.to_be_bytes());
    compounds.extend_from_slice(&inner);
    compounds.extend_from_slice(&inner);
    let mut longs = 2u32.to_be_bytes().to_vec();
    longs.extend_from_slice(&long(7));
    longs.extend_from_slice(&long(-7));
    document(&[
        named(4, "LastUpdate", &long(5)),
        named(9, "Items", &compounds),
        named(9, "Scores", &int_list(&[1, 2, 3])),
        named(12, "Longs", &longs),
        named(7, "Bytes", &[0, 0, 0, 3, 1, 2, 3]),
        named(11, "Ints", &[0, 0, 0, 1, 0, 0, 0, 9]),
        named(2, "Short", &[0, 1]),
        named(5, "Float", &[0x3f, 0x80, 0, 0]),
        named(6, "Double", &[0x3f, 0xf0, 0, 0, 0, 0, 0, 0]),
    ])
}

#[test]
fn minimal_document_is_empty_and_equal_to_itself() {
    let bytes = [0x0A, 0x00, 0x00, 0x00];
    match decode_document(&bytes) {
        Ok(RawValue::Members(m)) => assert!(m.is_empty()),
        _ => panic!("expected an empty compound"),
    }
    assert_eq!(compare(&bytes, &bytes, None), Ok(true));
}

#[test]
fn document_equals_itself() {
    let a = sample();
    assert_eq!(compare(&a, &a, None), Ok(true));
    assert_eq!(compare(&a, &a, Some(b"LastUpdate")), Ok(true));
}

#[test]
fn comparison_is_symmetric() {
    let a = sample();
    let b = document(&[named(4, "LastUpdate", &long(5))]);
    assert_eq!(compare(&a, &b, None), Ok(false));
    assert_eq!(compare(&a, &b, None), compare(&b, &a, None));
    assert_eq!(compare(&a, &b, Some(b"x")), compare(&b, &a, Some(b"x")));
}

#[test]
fn excluded_field_is_ignored() {
    let a = document(&[named(4, "LastUpdate", &long(1)), named(3, "x", &[0, 0, 0, 1])]);
    let b = document(&[named(4, "LastUpdate", &long(2)), named(3, "x", &[0, 0, 0, 1])]);
    assert_eq!(compare(&a, &b, Some(b"LastUpdate")), Ok(true));
    assert_eq!(compare(&a, &b, None), Ok(false));
}

#[test]
fn excluded_field_absent_on_one_side() {
    let a = document(&[named(4, "LastUpdate", &long(1)), named(1, "b", &[1])]);
    let b = document(&[named(1, "b", &[1])]);
    assert_eq!(compare(&a, &b, Some(b"LastUpdate")), Ok(true));
    assert_eq!(compare(&a, &b, None), Ok(false));
    assert_eq!(compare(&b, &b, Some(b"LastUpdate")), Ok(true));
}

#[test]
fn exclusion_applies_to_top_level_only() {
    let nested = |v: i64| {
        let mut c = named(4, "LastUpdate", &long(v));
        c.push(0);
        document(&[named(10, "inner", &c)])
    };
    assert_eq!(compare(&nested(1), &nested(2), Some(b"LastUpdate")), Ok(false));
}

#[test]
fn int_lists_compare_in_order() {
    let doc = |items: &[i32]| document(&[named(9, "l", &int_list(items))]);
    assert_eq!(compare(&doc(&[1, 2, 3]), &doc(&[1, 2, 3]), None), Ok(true));
    assert_eq!(compare(&doc(&[1, 2, 3]), &doc(&[1, 2, 4]), None), Ok(false));
    assert_eq!(compare(&doc(&[1, 2, 3]), &doc(&[3, 2, 1]), None), Ok(false));
}

#[test]
fn string_lists_compare_in_order() {
    let doc = |items: &[&str]| {
        let mut l = vec![8];
        l.extend_from_slice(&(items.len() as u32).to_be_bytes());
        for s in items {
            l.extend_from_slice(&string(s));
        }
        document(&[named(9, "l", &l)])
    };
    assert_eq!(compare(&doc(&["a", "b"]), &doc(&["a", "b"]), None), Ok(true));
    assert_eq!(compare(&doc(&["a", "b"]), &doc(&["b", "a"]), None), Ok(false));
    assert_eq!(compare(&doc(&["a", "b"]), &doc(&["a"]), None), Ok(false));
}

#[test]
fn member_order_does_not_matter() {
    let a = document(&[named(1, "a", &[1]), named(1, "b", &[2])]);
    let b = document(&[named(1, "b", &[2]), named(1, "a", &[1])]);
    assert_eq!(compare(&a, &b, None), Ok(true));
}

#[test]
fn later_duplicate_member_wins() {
    let a = document(&[named(1, "a", &[1]), named(1, "a", &[2])]);
    let b = document(&[named(1, "a", &[2])]);
    let c = document(&[named(1, "a", &[1])]);
    assert_eq!(compare(&a, &b, None), Ok(true));
    assert_eq!(compare(&a, &c, None), Ok(false));
    match decode_document(&a) {
        Ok(RawValue::Members(m)) => assert_eq!(m.len(), 1),
        _ => panic!("expected a compound"),
    }
}

#[test]
fn extra_member_makes_unequal() {
    let a = document(&[named(1, "a", &[1])]);
    let b = document(&[named(1, "a", &[1]), named(1, "b", &[1])]);
    assert_eq!(compare(&a, &b, None), Ok(false));
    assert_eq!(compare(&b, &a, None), Ok(false));
}

#[test]
fn spans_compare_by_bytes_only() {
    let a = document(&[named(3, "v", &[0, 0, 0, 1])]);
    let b = document(&[named(5, "v", &[0, 0, 0, 1])]);
    let c = document(&[named(5, "v", &[0, 0, 0, 2])]);
    assert_eq!(compare(&a, &b, None), Ok(true));
    assert_eq!(compare(&a, &c, None), Ok(false));
}

#[test]
fn shapes_differ() {
    let a = document(&[named(10, "v", &[0])]);
    let b = document(&[named(1, "v", &[0])]);
    let mut empty_compounds = vec![10];
    empty_compounds.extend_from_slice(&0u32.to_be_bytes());
    let c = document(&[named(9, "v", &empty_compounds)]);
    assert_eq!(compare(&a, &b, None), Ok(false));
    assert_eq!(compare(&a, &c, None), Ok(false));
    assert_eq!(compare(&b, &c, None), Ok(false));
}

#[test]
fn empty_end_list_is_empty_sequence() {
    let end_list = document(&[named(9, "v", &[0, 0, 0, 0, 0])]);
    let mut empty_compounds = vec![10];
    empty_compounds.extend_from_slice(&0u32.to_be_bytes());
    let compound_list = document(&[named(9, "v", &empty_compounds)]);
    assert_eq!(compare(&end_list, &compound_list, None), Ok(true));
}

#[test]
fn nonempty_end_list_is_unknown_tag() {
    let bad = document(&[named(9, "v", &[0, 0, 0, 0, 1])]);
    assert_eq!(compare(&bad, &bad, None), left_err(NbtError::UnknownTag));
}

#[test]
fn root_name_is_skipped() {
    let mut a = vec![0x0A, 0x00, 0x03];
    a.extend_from_slice(b"abc");
    a.push(0);
    let b = [0x0A, 0x00, 0x00, 0x00];
    assert_eq!(compare(&a, &b, None), Ok(true));
}

#[test]
fn root_name_longer_than_input() {
    let a = [0x0A, 0x00, 0x05, b'a', 0x00];
    assert_eq!(compare(&a, &a, None), left_err(NbtError::UnexpectedEndOfInput));
}

#[test]
fn trailing_bytes_are_ignored() {
    let a = [0x0A, 0x00, 0x00, 0x00];
    let b = [0x0A, 0x00, 0x00, 0x00, 0xFF, 0x01];
    assert_eq!(compare(&a, &b, None), Ok(true));
}

#[test]
fn invalid_root() {
    let a = document(&[]);
    let mut b = a.clone();
    b[0] = 0x08;
    assert_eq!(compare(&b, &a, None), left_err(NbtError::InvalidRoot));
    assert_eq!(
        compare(&a, &b, None),
        Err(CompareError { side: Side::Right, kind: NbtError::InvalidRoot })
    );
}

#[test]
fn empty_input_is_end_of_input() {
    let a = document(&[]);
    assert_eq!(compare(&[], &a, None), left_err(NbtError::UnexpectedEndOfInput));
}

#[test]
fn left_error_is_reported_before_right() {
    assert_eq!(compare(&[0x01], &[], None), left_err(NbtError::InvalidRoot));
}

#[test]
fn every_truncation_is_end_of_input() {
    let a = sample();
    for cut in 0..a.len() {
        assert_eq!(
            compare(&a[..cut], &a, None),
            left_err(NbtError::UnexpectedEndOfInput),
            "cut at {}",
            cut
        );
        assert_eq!(
            compare(&a, &a[..cut], None),
            Err(CompareError { side: Side::Right, kind: NbtError::UnexpectedEndOfInput })
        );
    }
}

#[test]
fn unknown_member_tag() {
    for tag in [13u8, 0x7F, 0xFF] {
        let a = document(&[named(1, "a", &[1]), named(tag, "b", &[1])]);
        assert_eq!(compare(&a, &a, None), left_err(NbtError::UnknownTag));
    }
}

#[test]
fn unknown_list_element_tag() {
    let a = document(&[named(9, "l", &[13, 0, 0, 0, 1, 0])]);
    assert_eq!(compare(&a, &a, None), left_err(NbtError::UnknownTag));
}

#[test]
fn unknown_tag_in_nested_compound() {
    let a = document(&[named(10, "c", &[0x20, 0, 0, 0])]);
    assert_eq!(compare(&a, &a, None), left_err(NbtError::UnknownTag));
}

#[test]
fn oversized_list_count_is_end_of_input() {
    let a = document(&[named(9, "l", &[8, 0xFF, 0xFF, 0xFF, 0xFF, 0, 0])]);
    assert_eq!(compare(&a, &a, None), left_err(NbtError::UnexpectedEndOfInput));
}

#[test]
fn huge_array_count() {
    let a = document(&[named(12, "a", &[0xFF, 0xFF, 0xFF, 0xFF])]);
    let expected = if (u32::MAX as usize).checked_mul(8).is_none() {
        NbtError::ArithmeticOverflow
    } else {
        NbtError::UnexpectedEndOfInput
    };
    assert_eq!(compare(&a, &a, None), left_err(expected));
    let b = document(&[named(9, "l", &[4, 0xFF, 0xFF, 0xFF, 0xFF])]);
    assert_eq!(compare(&b, &b, None), left_err(expected));
}

#[test]
fn array_lengths_count_element_width() {
    let a = document(&[named(11, "a", &[0, 0, 0, 2, 0, 0, 0, 1, 0, 0, 0, 2])]);
    let b = document(&[named(11, "a", &[0, 0, 0, 2, 0, 0, 0, 1, 0, 0, 0, 3])]);
    assert_eq!(compare(&a, &b, None), Ok(false));
    match decode_document(&a) {
        Ok(RawValue::Members(m)) => match &m[0].1 {
            RawValue::Mem(bytes) => assert_eq!(bytes.len(), 8),
            _ => panic!("expected a span"),
        },
        _ => panic!("expected a compound"),
    }
}

#[test]
fn unknown_tag_deep_in_nested_lists() {
    // a list of one compound holding a list of one compound whose member tag is 0x0D
    let mut inner_list = vec![10];
    inner_list.extend_from_slice(&1u32.to_be_bytes());
    inner_list.extend_from_slice(&[0x0D, 0, 0, 0]);
    let mut outer_compound = named(9, "in", &inner_list);
    outer_compound.push(0);
    let mut outer_list = vec![10];
    outer_list.extend_from_slice(&1u32.to_be_bytes());
    outer_list.extend_from_slice(&outer_compound);
    let a = document(&[named(1, "ok", &[1]), named(9, "out", &outer_list)]);
    assert_eq!(compare(&a, &a, None), left_err(NbtError::UnknownTag));
}

#[test]
fn failed_reads_leave_cursor_in_place() {
    let bytes = [0x01u8, 0x02, 0x03];
    let mut c = Cursor::new(&bytes);
    assert_eq!(c.read_u32(), Err(NbtError::UnexpectedEndOfInput));
    assert_eq!(c.pos, 0);
    assert_eq!(c.take(4), Err(NbtError::UnexpectedEndOfInput));
    assert_eq!(c.pos, 0);
    assert_eq!(c.read_u16(), Ok(0x0102));
    assert_eq!(c.pos, 2);
    assert_eq!(c.read_u16(), Err(NbtError::UnexpectedEndOfInput));
    assert_eq!(c.pos, 2);
    assert_eq!(c.read_u8(), Ok(0x03));
    assert_eq!(c.read_u8(), Err(NbtError::UnexpectedEndOfInput));
    assert_eq!(c.pos, 3);
}
