use ironring::common::bytes_eq;
use ironring::common::read_i8;
use ironring::common::read_u16;
use ironring::common::read_u32;
use ironring::common::read_u64;
use ironring::common::sjis_to_string;
use ironring::common::sjis_to_string_lossy;
use ironring::common::take_cstring;
use ironring::common::trim_leading_chars;
use ironring::common::take_cstring_from;
use ironring::common::VarSizeInt;

#[test]
fn test_take_cstring() {
    // The span before the first NUL; the terminator and what follows stay.
    assert_eq!(take_cstring(b"ABC\0\xFF", 0), b"ABC".to_vec());
    assert_eq!(take_cstring(b"\0", 0), b"".to_vec());
}

#[test]
fn test_take_cstring_from() {
    // Take cstring from the whole slice; the cursor lands at the end.
    let data = b"ABC\0\x20\x20\x20\x20\x20\x20\x20\x20\x20\x20\x20\x20"; // 0x10 bytes
    let (s, cur) = take_cstring_from(data, 0, 0x10);
    assert_eq!(s, b"ABC".to_vec());
    assert_eq!(cur, 0x10);

    // Take cstring from the first half of the slice; the second half remains.
    let (s, cur) = take_cstring_from(data, 0, 0x8);
    assert_eq!(s, b"ABC".to_vec());
    assert_eq!(cur, 0x8);
    assert_eq!(data.len() - cur, 8);
}

#[test]
fn test_fixed_slot_ignores_garbage() {
    // Garbage after the terminator inside the slot does not shift the cursor.
    let data = b"AB\0\x99\x88\x77\x66\x55\xAA\xBB";
    let (s, cur) = take_cstring_from(data, 0, 8);
    assert_eq!(s, b"AB".to_vec());
    assert_eq!(cur, 8);
    assert_eq!(read_u16(data, cur, false), 0xBBAA);
}

#[test]
fn test_readers_little_and_big_endian() {
    let data = [0x01u8, 0x02, 0x03, 0x04, 0x05, 0x06, 0x07, 0x08];
    assert_eq!(read_u16(&data, 0, false), 0x0201);
    assert_eq!(read_u16(&data, 0, true), 0x0102);
    assert_eq!(read_u32(&data, 0, false), 0x04030201);
    assert_eq!(read_u32(&data, 0, true), 0x01020304);
    assert_eq!(read_u64(&data, 0, false), 0x0807060504030201);
    assert_eq!(read_u64(&data, 0, true), 0x0102030405060708);
    assert_eq!(read_i8(&[0x7F], 0), 127);
    assert_eq!(read_i8(&[0xFF], 0), -1);
    assert_eq!(read_i8(&[0x80], 0), -128);
}

#[test]
fn test_bytes_eq() {
    assert!(bytes_eq(b"abc", b"abc"));
    assert!(!bytes_eq(b"abc", b"abd"));
    assert!(!bytes_eq(b"abc", b"ab"));
}

#[test]
fn test_sjis_to_string() {
    // Plain ASCII decodes as itself.
    assert_eq!(sjis_to_string(b"abc"), Some("abc".to_string()));
    // Katakana "te" in Shift JIS.
    assert_eq!(sjis_to_string(&[0x83, 0x65]), Some("\u{30C6}".to_string()));
    // A lone lead byte is malformed: no value, no replacement characters.
    assert_eq!(sjis_to_string(&[0x83]), None);
}

#[test]
fn test_sjis_to_string_lossy_falls_back_to_hex() {
    assert_eq!(sjis_to_string_lossy(b"abc"), "abc");
    // The fallback renders the bytes like a debug hex list.
    assert_eq!(sjis_to_string_lossy(&[0x83]), "[83]");
    assert_eq!(sjis_to_string_lossy(&[0x83, 0x0A, 0x83]), "[83, a, 83]");
}

#[test]
fn test_trim_leading_chars() {
    assert_eq!(trim_leading_chars("///chr/a.bin", '/'), "chr/a.bin");
    assert_eq!(trim_leading_chars("\\name.txt", '\\'), "name.txt");
    assert_eq!(trim_leading_chars("plain", '/'), "plain");
    assert_eq!(trim_leading_chars("", '/'), "");
}

#[test]
fn test_var_size_int_widens() {
    assert_eq!(VarSizeInt::U32(7).u64_if(false), 7u64);
    assert_eq!(VarSizeInt::U64(0x1_0000_0007).u64_if(true), 0x1_0000_0007u64);
}
