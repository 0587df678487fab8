use ironring::common::VarSizeInt;
use ironring::errors::UnpackError;
use ironring::param;
use ironring::param::ParamRowValue;
use ironring::paramdef;
use ironring::paramdef::Paramdef;
use ironring::paramdef::ParamdefField;
use ironring::paramdef::ParamdefHeader;

fn field(display_type: &str, byte_count: u32, internal_name: Option<&str>) -> ParamdefField {
    ParamdefField {
        display_name: "f".to_string(),
        display_type: display_type.to_string(),
        display_format: "%d".to_string(),
        default_value: 0,
        min_value: 0,
        max_value: 0,
        increment: 0,
        edit_flags: 0,
        byte_count,
        ofs_desc: VarSizeInt::U32(0),
        internal_type: display_type.to_string(),
        internal_name: internal_name.map(|s| s.to_string()),
        sort_id: 0,
        description: None,
    }
}

fn schema(fields: Vec<ParamdefField>) -> Paramdef {
    Paramdef {
        header: ParamdefHeader {
            file_size: 0,
            header_size: 0x30,
            data_version: 1,
            num_fields: fields.len() as u16,
            field_size: 0xB0,
            param_name: "TEST".to_string(),
            endianness: 0,
            unicode: 0,
            format_version: 104,
            ofs_fields: 0,
        },
        fields,
    }
}

#[test]
fn test_bit_size_suffix() {
    assert_eq!(field("u16", 2, Some("atk:3")).bit_size(), 3);
    // Whitespace around the suffix is trimmed before the decimal parse.
    assert_eq!(field("u16", 2, Some("atk: 3")).bit_size(), 3);
    assert_eq!(field("u16", 2, Some("atk:3 ")).bit_size(), 3);
    assert_eq!(field("u16", 2, Some("atk: +3")).bit_size(), 3);
    assert_eq!(field("u16", 2, Some("atk: ")).bit_size(), 0);
    assert_eq!(field("u16", 2, Some("atk:+")).bit_size(), 0);
    assert_eq!(field("u16", 2, Some("atk:-3")).bit_size(), 0);
    assert_eq!(field("u16", 2, Some("atk")).bit_size(), 0);
    assert_eq!(field("u16", 2, Some("atk:")).bit_size(), 0);
    assert_eq!(field("u16", 2, Some("a:b:12")).bit_size(), 12);
    assert_eq!(field("u16", 2, Some("atk:x")).bit_size(), 0);
    assert_eq!(field("u16", 2, None).bit_size(), 0);
    assert_eq!(field("u16", 2, Some("atk:99999999999999999999")).bit_size(), 0);
}

#[test]
fn test_bit_cursor_row_decode() {
    // Three bit-packed fields backed by a single 16-bit word: the
    // decoded values are sequential low-bit extractions, with exactly
    // one 2-byte backing read for all three fields combined.
    let def = schema(vec![
        field("u16", 2, Some("a:3")),
        field("u16", 2, Some("b:5")),
        field("u16", 2, Some("c:8")),
    ]);
    assert_eq!(def.row_size(), Some(2));

    let word: u16 = 0b0001011110100101;
    let data = word.to_le_bytes();
    let vals = param::parse_row_data(&data, false, &def).unwrap();
    assert_eq!(
        vals,
        vec![
            ParamRowValue::U16(0b101),
            ParamRowValue::U16(0b10100),
            ParamRowValue::U16(0b00010111),
        ]
    );
}

#[test]
fn test_row_decode_plain_types() {
    let def = schema(vec![
        field("s8", 1, None),
        field("u16", 2, None),
        field("f32", 4, None),
        field("blob", 3, None),
    ]);
    assert_eq!(def.row_size(), Some(10));
    let data = [0xFFu8, 0x34, 0x12, 0x00, 0x00, 0x80, 0x3F, 9, 8, 7];
    let vals = param::parse_row_data(&data, false, &def).unwrap();
    assert_eq!(
        vals,
        vec![
            ParamRowValue::S8(-1),
            ParamRowValue::U16(0x1234),
            ParamRowValue::F32(0x3F800000),
            ParamRowValue::UNK(vec![9, 8, 7]),
        ]
    );
}

#[test]
fn test_row_decode_mixed_bit_and_plain() {
    // A plain field resets the bit cursor: the second bit-packed run
    // consumes a fresh backing byte.
    let def = schema(vec![
        field("u8", 1, Some("a:4")),
        field("u8", 1, Some("b:4")),
        field("u8", 1, None),
        field("u8", 1, Some("c:2")),
    ]);
    assert_eq!(def.row_size(), Some(3));
    let data = [0xA7u8, 0x55, 0x03];
    let vals = param::parse_row_data(&data, false, &def).unwrap();
    assert_eq!(
        vals,
        vec![
            ParamRowValue::U8(0x7),
            ParamRowValue::U8(0xA),
            ParamRowValue::U8(0x55),
            ParamRowValue::U8(0x3),
        ]
    );
}

#[test]
fn test_row_decode_rejects_wide_backing_word() {
    // A bit-packed field declaring a 32-bit backing word is an explicit
    // unsupported-schema error, not a silent truncation.
    let def = schema(vec![field("u32", 4, Some("a:3"))]);
    assert_eq!(def.row_size(), None);
    assert!(matches!(
        param::parse_row_data(&[0u8; 4], false, &def),
        Err(UnpackError::Unknown(_))
    ));
}

#[test]
fn test_row_decode_rejects_short_data() {
    let def = schema(vec![field("u32", 4, None)]);
    assert!(matches!(
        param::parse_row_data(&[0u8; 2], false, &def),
        Err(UnpackError::Parsing(_))
    ));
}

fn sample_param() -> Vec<u8> {
    let mut b = Vec::new();
    b.extend_from_slice(&0u32.to_le_bytes()); // ofs_strings
    b.extend_from_slice(&0x30u16.to_le_bytes()); // ofs_data
    b.extend_from_slice(&0u16.to_le_bytes()); // unk06
    b.extend_from_slice(&1u16.to_le_bytes()); // paramdef_data_version
    b.extend_from_slice(&1u16.to_le_bytes()); // num_rows
    b.extend_from_slice(b"TEST\0");
    b.resize(0x2C, 0); // rest of the name slot
    b.push(0); // endianness
    b.push(0); // flags2D
    b.push(0); // flags2E
    b.push(2); // paramdef_format_version
    // row table at 0x30
    b.extend_from_slice(&77u32.to_le_bytes()); // id
    b.extend_from_slice(&0x40u32.to_le_bytes()); // ofs_data
    b.extend_from_slice(&0x3Cu32.to_le_bytes()); // ofs_name
    b.extend_from_slice(b"row\0"); // name at 0x3C
    b.push(0x5A); // row data at 0x40
    b
}

#[test]
fn test_param_parse_without_schema() {
    let data = sample_param();
    let p = param::load_param(&data, None).unwrap();
    assert_eq!(p.header.param_type, "TEST");
    assert_eq!(p.header.num_rows, 1);
    assert!(!p.header.has_u64_ofs_data());
    let row = &p.rows[0];
    assert_eq!(row.id, 77);
    assert_eq!(row.ofs_data.u64_if(false), 0x40);
    assert_eq!(row.name, Some("row".to_string()));
    // Without a schema the row carries empty data.
    assert_eq!(row.data.len(), 0);
}

#[test]
fn test_param_parse_with_schema() {
    let data = sample_param();
    let def = schema(vec![field("u8", 1, None)]);
    let p = param::load_param(&data, Some(&def)).unwrap();
    assert_eq!(p.rows[0].data, vec![ParamRowValue::U8(0x5A)]);
}

fn push_slot(b: &mut Vec<u8>, text: &[u8], slot: usize) {
    let start = b.len();
    b.extend_from_slice(text);
    b.push(0);
    b.resize(start + slot, 0);
}

#[test]
fn test_paramdef_parse() {
    let mut b = Vec::new();
    b.extend_from_slice(&0xE8u32.to_le_bytes()); // file_size
    b.extend_from_slice(&0x30u16.to_le_bytes()); // header_size
    b.extend_from_slice(&1u16.to_le_bytes()); // data_version
    b.extend_from_slice(&1u16.to_le_bytes()); // num_fields
    b.extend_from_slice(&0xB0u16.to_le_bytes()); // field_size
    push_slot(&mut b, b"TEST", 0x20); // param_name at 0xC
    b.push(0); // endianness at 0x2C
    b.push(0); // unicode
    b.extend_from_slice(&104u16.to_le_bytes()); // format_version
    // field record at 0x30 (0xB0 bytes)
    push_slot(&mut b, b"Attack", 0x40);
    push_slot(&mut b, b"u16", 0x8);
    push_slot(&mut b, b"%d", 0x8);
    b.extend_from_slice(&[0u8; 16]); // the four float parameters
    b.extend_from_slice(&1u32.to_le_bytes()); // edit_flags
    b.extend_from_slice(&2u32.to_le_bytes()); // byte_count
    b.extend_from_slice(&0xE0u32.to_le_bytes()); // ofs_desc
    push_slot(&mut b, b"u16", 0x20); // internal_type
    push_slot(&mut b, b"atk:3", 0x20); // internal_name
    b.extend_from_slice(&5u32.to_le_bytes()); // sort_id
    assert_eq!(b.len(), 0xE0);
    b.extend_from_slice(b"Power\0"); // description at 0xE0

    let def = paramdef::load_paramdef(&b).unwrap();
    assert_eq!(def.header.param_name, "TEST");
    assert_eq!(def.header.num_fields, 1);
    assert_eq!(def.header.format_version, 104);
    assert!(!def.header.use_be());
    assert!(!def.header.has_ofs_fields());
    assert!(def.header.can_have_bit_size());
    let f = &def.fields[0];
    assert_eq!(f.display_name, "Attack");
    assert_eq!(f.display_type, "u16");
    assert_eq!(f.byte_count, 2);
    assert_eq!(f.internal_name, Some("atk:3".to_string()));
    assert_eq!(f.sort_id, 5);
    assert_eq!(f.bit_size(), 3);
    assert_eq!(f.description, Some("Power".to_string()));
}

#[test]
fn test_paramdef_parse_rejects_truncated() {
    assert!(matches!(
        paramdef::parse(&[0u8; 0x10]),
        Err(UnpackError::Parsing(_))
    ));
}
