use caseless_fs::text::{eq_bytes, eq_ignore_ascii_case, to_ascii_lower};

#[test]
fn capitals_become_small_letters() {
    assert_eq!(to_ascii_lower(b'A'), b'a');
    assert_eq!(to_ascii_lower(b'M'), b'm');
    assert_eq!(to_ascii_lower(b'Z'), b'z');
}

#[test]
fn bytes_around_the_capitals_stay() {
    assert_eq!(to_ascii_lower(b'@'), b'@');
    assert_eq!(to_ascii_lower(b'['), b'[');
    assert_eq!(to_ascii_lower(b'a'), b'a');
    assert_eq!(to_ascii_lower(b'z'), b'z');
    assert_eq!(to_ascii_lower(b'0'), b'0');
    assert_eq!(to_ascii_lower(0x00), 0x00);
    assert_eq!(to_ascii_lower(0xc9), 0xc9);
    assert_eq!(to_ascii_lower(0xff), 0xff);
}

#[test]
fn names_are_equal_up_to_ascii_case() {
    assert!(eq_ignore_ascii_case(&b"Readme.TXT".to_vec(), &b"readme.txt".to_vec()));
    assert!(eq_ignore_ascii_case(&b"".to_vec(), &b"".to_vec()));
    assert!(!eq_ignore_ascii_case(&b"readme".to_vec(), &b"readme.txt".to_vec()));
    assert!(!eq_ignore_ascii_case(&b"readme".to_vec(), &b"readmf".to_vec()));
    assert!(!eq_ignore_ascii_case(&b"a@".to_vec(), &b"a`".to_vec()));
    assert!(!eq_ignore_ascii_case(&b"a[".to_vec(), &b"a{".to_vec()));
}

#[test]
fn names_are_equal_byte_for_byte() {
    assert!(eq_bytes(&b"\xffabc".to_vec(), &b"\xffabc".to_vec()));
    assert!(!eq_bytes(&b"\xffabc".to_vec(), &b"\xffAbc".to_vec()));
    assert!(!eq_bytes(&b"abc".to_vec(), &b"ab".to_vec()));
    assert!(eq_bytes(&b"".to_vec(), &b"".to_vec()));
}
