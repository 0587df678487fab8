use ironring::name_hashes::hash;
use ironring::name_hashes::hash_as_string;
use ironring::name_hashes::parse_name_line;
use ironring::name_hashes::NameMap;

#[test]
fn test_hash() {
    assert_eq!(hash("/chr/c0000.anibnd.dcx"), 0xF8630FB1);
    assert_eq!(hash("/param/DrawParam/default_DrawParam.parambnd.dcx"), 0xD9209D30);
}

#[test]
fn test_hash_as_string() {
    assert_eq!(hash_as_string(0xCAFECAFE), "CAFECAFE");
    assert_eq!(hash_as_string(0xDECE), "0000DECE");
}

#[test]
fn test_hash_is_case_insensitive() {
    assert_eq!(hash("/CHR/C0000.ANIBND.DCX"), hash("/chr/c0000.anibnd.dcx"));
    assert_eq!(hash("/Chr/C0000.AniBnd.dcx"), 0xF8630FB1);
}

#[test]
fn test_parse_name_line() {
    // The remainder after the hash and separator is kept verbatim.
    let parsed = parse_name_line("CAFECAFE: /chr/whatever.ext");
    assert_eq!(parsed, Some((0xCAFECAFE, "/chr/whatever.ext".to_string())));
    // A short or non-hexadecimal line is skipped.
    assert_eq!(parse_name_line(""), None);
    assert_eq!(parse_name_line("XYZ"), None);
    assert_eq!(parse_name_line("cafecafe: /lowercase/skipped"), None);
}

#[test]
fn test_name_map_last_line_wins() {
    let mut names = NameMap::new();
    assert!(names.add_line("0000DECE: /first.bin"));
    assert!(names.add_line("0000DECE: /second.bin"));
    assert!(!names.add_line("bad line"));
    assert_eq!(names.get(0xDECE), Some(&"/second.bin".to_string()));
    assert_eq!(names.get(0x12345678), None);
}
