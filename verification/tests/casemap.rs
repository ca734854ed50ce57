use irc_suite::casemap::Casemap;

#[test]
fn ascii_folds_letters_only() {
    assert_eq!(Casemap::Ascii.fold(b"Nick[]\\~"), b"nick[]\\~".to_vec());
}

#[test]
fn rfc1459_folds_brackets_and_tilde() {
    assert_eq!(Casemap::Rfc1459.fold(b"Nick[]\\~"), b"nick{}|^".to_vec());
}

#[test]
fn rfc1459_strict_keeps_tilde() {
    assert_eq!(Casemap::Rfc1459Strict.fold(b"Nick[]\\~"), b"nick{}|~".to_vec());
}

#[test]
fn folding_is_idempotent() {
    let once = Casemap::Rfc1459.fold(b"MiXeD[Case]");
    assert_eq!(Casemap::Rfc1459.fold(&once), once);
}

#[test]
fn fold_byte_examples() {
    assert_eq!(Casemap::Rfc1459.fold_byte(b'A'), b'a');
    assert_eq!(Casemap::Rfc1459.fold_byte(b'z'), b'z');
    assert_eq!(Casemap::Ascii.fold_byte(b'['), b'[');
}
