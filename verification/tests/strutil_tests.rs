use ironring::strutil::n_bytes_pluralise;
use ironring::strutil::n_pluralise;
use ironring::strutil::pluralise;

#[test]
fn test_pluralise() {
    assert_eq!(pluralise(1, "entry", "entries"), "entry");
    assert_eq!(pluralise(0, "entry", "entries"), "entries");
    assert_eq!(pluralise(2, "entry", "entries"), "entries");
}

#[test]
fn test_n_pluralise() {
    assert_eq!(n_pluralise(1, "file", "files"), "1 file");
    assert_eq!(n_pluralise(12034, "file", "files"), "12034 files");
    assert_eq!(n_pluralise(-3, "file", "files"), "-3 files");
    assert_eq!(n_pluralise(0, "file", "files"), "0 files");
}

#[test]
fn test_n_bytes_pluralise() {
    assert_eq!(n_bytes_pluralise(1), "1 byte");
    assert_eq!(n_bytes_pluralise(2048), "2048 bytes");
}
