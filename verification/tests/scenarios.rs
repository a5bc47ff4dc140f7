use quotemeta::quotemeta;
use std::path::{Path, PathBuf};

#[test]
fn test_quotemeta() {
    assert_eq!(&quotemeta("".as_bytes()), "");
    assert_eq!(&quotemeta("test".as_bytes()), "test");
    assert_eq!(&quotemeta("Hello, world!".as_bytes()), "'Hello, world!'");
    assert_eq!(&quotemeta("isn't".as_bytes()), r"$'isn\'t'");
    assert_eq!(&quotemeta(r"isn\t".as_bytes()), r"$'isn\\t'");
    // Octal escapes are unambiguous.
    assert_eq!(&quotemeta("\n3".as_bytes()), r"$'\0123'");
    // Valid UTF-8
    assert_eq!(&quotemeta("\u{a3}".as_bytes()), r"$'\302\243'");
    // Invalid UTF-8 (in this case, Latin-1.)
    assert_eq!(&quotemeta(&[0xa3]), r"$'\243'");
}

// The byte views of the usual owners of file names are all accepted.
#[test]
fn test_types() {
    let _ = quotemeta("".as_bytes());
    let _ = quotemeta("".to_string().as_bytes());
    let _ = quotemeta(Path::new("").as_os_str().as_encoded_bytes());
    let _ = quotemeta(PathBuf::new().as_os_str().as_encoded_bytes());
    let _ = quotemeta(PathBuf::new().into_os_string().as_encoded_bytes());
    let _ = quotemeta(&Vec::<u8>::new());
    let _ = quotemeta(&[]);
}

#[test]
fn plain_paths_are_not_quoted() {
    assert_eq!(&quotemeta(b"/bin/cat"), "/bin/cat");
}

#[test]
fn spaces_are_single_quoted() {
    assert_eq!(&quotemeta(b"Hello, world"), "'Hello, world'");
}

#[test]
fn unicode_is_ansi_c_quoted() {
    assert_eq!(&quotemeta("\u{1f980}".as_bytes()), r"$'\360\237\246\200'");
}

#[test]
fn empty_input_gives_empty_text() {
    assert_eq!(quotemeta(b""), String::new());
}

#[test]
fn every_bare_safe_byte_at_once() {
    let all: &[u8] = b"+,-./0123456789:=@ABCDEFGHIJKLMNOPQRSTUVWXYZ_abcdefghijklmnopqrstuvwxyz";
    assert_eq!(
        &quotemeta(all),
        "+,-./0123456789:=@ABCDEFGHIJKLMNOPQRSTUVWXYZ_abcdefghijklmnopqrstuvwxyz"
    );
}

#[test]
fn every_quote_only_byte_at_once() {
    let all: &[u8] = b" !\"#$%&()*;<>?[]^`{|}~";
    assert_eq!(&quotemeta(all), "' !\"#$%&()*;<>?[]^`{|}~'");
}

#[test]
fn octal_escapes_have_three_digits() {
    assert_eq!(&quotemeta(&[0]), r"$'\000'");
    assert_eq!(&quotemeta(&[7]), r"$'\007'");
    assert_eq!(&quotemeta(&[8]), r"$'\010'");
    assert_eq!(&quotemeta(&[31]), r"$'\037'");
    assert_eq!(&quotemeta(&[127]), r"$'\177'");
    assert_eq!(&quotemeta(&[128]), r"$'\200'");
    assert_eq!(&quotemeta(&[255]), r"$'\377'");
}

#[test]
fn escape_before_a_digit_stays_apart() {
    assert_eq!(&quotemeta(b"\x011"), r"$'\0011'");
    assert_eq!(&quotemeta(b"\t777"), r"$'\011777'");
}

#[test]
fn quote_and_backslash_get_a_backslash() {
    assert_eq!(&quotemeta(b"'"), r"$'\''");
    assert_eq!(&quotemeta(b"\\"), r"$'\\'");
    assert_eq!(&quotemeta(b"\\'"), r"$'\\\''");
}

#[test]
fn edges_of_the_printable_range() {
    assert_eq!(&quotemeta(b" "), "' '");
    assert_eq!(&quotemeta(b"~"), "'~'");
    assert_eq!(&quotemeta(b"\x1f"), r"$'\037'");
    assert_eq!(&quotemeta(b"\x7f"), r"$'\177'");
}

#[test]
fn escape_takes_precedence_over_single_quotes() {
    assert_eq!(&quotemeta(b"a b\tc"), r"$'a b\011c'");
    assert_eq!(&quotemeta(b"it's here"), r"$'it\'s here'");
    assert_eq!(&quotemeta(b" \\"), r"$' \\'");
}

#[test]
fn pushed_characters_are_kept() {
    let text: String = quotemeta(b"ab");
    assert_eq!(text.len(), 2);
    assert_ne!(text, String::new());
    assert_eq!(text, "ab");
}
