use ironring::bits::has_flag;
use ironring::bits::mask;
use ironring::bits::pad;

#[test]
fn test_has_flag() {
    assert!(has_flag(0x0, 0x0));
    assert!(has_flag(0x80, 0x80));
    assert!(!has_flag(0x80, 0x40));
}

#[test]
fn test_mask() {
    assert_eq!(mask(1), 0b00000001);
    assert_eq!(mask(2), 0b00000011);
    assert_eq!(mask(4), 0b00001111);
    assert_eq!(mask(8), 0b11111111);
    assert_eq!(mask(15), 0b01111111_11111111);
}

#[test]
fn test_pad() {
    assert_eq!(pad(0, 4), 0);
    assert_eq!(pad(1, 4), 3);
    assert_eq!(pad(3, 4), 1);
    assert_eq!(pad(4, 4), 0);
    assert_eq!(pad(4, 16), 12);
    assert_eq!(pad(15, 16), 1);
    assert_eq!(pad(16, 16), 0);
    assert_eq!(pad(17, 16), 15);
}
