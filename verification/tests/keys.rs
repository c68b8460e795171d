use attach::keys::key_to_bytes;

#[test]
fn simple_keys() {
    assert_eq!(key_to_bytes("Return"), vec![b'\r']);
    assert_eq!(key_to_bytes("Enter"), vec![b'\r']);
    assert_eq!(key_to_bytes("Tab"), vec![b'\t']);
    assert_eq!(key_to_bytes("Escape"), vec![0x1b]);
    assert_eq!(key_to_bytes("space"), vec![b' ']);
    assert_eq!(key_to_bytes("BackSpace"), vec![0x7f]);
}

#[test]
fn arrow_keys() {
    assert_eq!(key_to_bytes("Up"), vec![0x1b, b'[', b'A']);
    assert_eq!(key_to_bytes("Down"), vec![0x1b, b'[', b'B']);
    assert_eq!(key_to_bytes("Right"), vec![0x1b, b'[', b'C']);
    assert_eq!(key_to_bytes("Left"), vec![0x1b, b'[', b'D']);
}

#[test]
fn nav_keys() {
    assert_eq!(key_to_bytes("Home"), vec![0x1b, b'[', b'H']);
    assert_eq!(key_to_bytes("End"), vec![0x1b, b'[', b'F']);
    assert_eq!(key_to_bytes("Delete"), vec![0x1b, b'[', b'3', b'~']);
    assert_eq!(key_to_bytes("Insert"), vec![0x1b, b'[', b'2', b'~']);
    assert_eq!(key_to_bytes("Page_Up"), vec![0x1b, b'[', b'5', b'~']);
    assert_eq!(key_to_bytes("Page_Down"), vec![0x1b, b'[', b'6', b'~']);
}

#[test]
fn function_keys() {
    assert_eq!(key_to_bytes("F1"), vec![0x1b, b'O', b'P']);
    assert_eq!(key_to_bytes("F4"), vec![0x1b, b'O', b'S']);
    assert_eq!(key_to_bytes("F5"), vec![0x1b, b'[', b'1', b'5', b'~']);
    assert_eq!(key_to_bytes("F12"), vec![0x1b, b'[', b'2', b'4', b'~']);
}

#[test]
fn ctrl_letter() {
    assert_eq!(key_to_bytes("ctrl+c"), vec![0x03]);
    assert_eq!(key_to_bytes("ctrl+a"), vec![0x01]);
    assert_eq!(key_to_bytes("ctrl+z"), vec![0x1a]);
    assert_eq!(key_to_bytes("ctrl+d"), vec![0x04]);
    assert_eq!(key_to_bytes("ctrl+l"), vec![0x0c]);
}

#[test]
fn alt_key() {
    assert_eq!(key_to_bytes("alt+a"), vec![0x1b, b'a']);
    assert_eq!(key_to_bytes("alt+x"), vec![0x1b, b'x']);
}

#[test]
fn ctrl_alt() {
    assert_eq!(key_to_bytes("ctrl+alt+c"), vec![0x1b, 0x03]);
}

#[test]
fn modified_arrows() {
    assert_eq!(key_to_bytes("ctrl+Up"), vec![0x1b, b'[', b'1', b';', b'5', b'A']);
    assert_eq!(key_to_bytes("shift+Right"), vec![0x1b, b'[', b'1', b';', b'2', b'C']);
}

#[test]
fn single_char() {
    assert_eq!(key_to_bytes("a"), vec![b'a']);
    assert_eq!(key_to_bytes("Z"), vec![b'Z']);
}

#[test]
fn modifier_names_ignore_case() {
    assert_eq!(key_to_bytes("CTRL+c"), vec![0x03]);
    assert_eq!(key_to_bytes("Control+C"), vec![0x03]);
    assert_eq!(key_to_bytes("META+x"), vec![0x1b, b'x']);
}

#[test]
fn ctrl_letter_ignores_letter_case() {
    assert_eq!(key_to_bytes("ctrl+C"), key_to_bytes("ctrl+c"));
}

#[test]
fn modifier_order_does_not_matter() {
    assert_eq!(key_to_bytes("alt+ctrl+c"), vec![0x1b, 0x03]);
    assert_eq!(key_to_bytes("shift+ctrl+Up"), key_to_bytes("ctrl+shift+Up"));
}

#[test]
fn modifier_params() {
    assert_eq!(key_to_bytes("ctrl+shift+Up"), b"\x1b[1;6A".to_vec());
    assert_eq!(key_to_bytes("super+Home"), b"\x1b[1;2H".to_vec());
    assert_eq!(key_to_bytes("ctrl+alt+Delete"), b"\x1b[3;7~".to_vec());
    assert_eq!(key_to_bytes("shift+alt+ctrl+End"), b"\x1b[1;8F".to_vec());
    assert_eq!(key_to_bytes("ctrl+Page_Down"), b"\x1b[6;5~".to_vec());
    assert_eq!(key_to_bytes("shift+F1"), b"\x1b[1;2P".to_vec());
    assert_eq!(key_to_bytes("ctrl+Insert"), b"\x1b[2;5~".to_vec());
}

#[test]
fn alt_with_named_key() {
    assert_eq!(key_to_bytes("alt+Return"), vec![0x1b, b'\r']);
    assert_eq!(key_to_bytes("meta+Up"), vec![0x1b, 0x1b, b'[', b'A']);
}

#[test]
fn unknown_names_are_literal() {
    assert_eq!(key_to_bytes("foo+bar"), b"foo+bar".to_vec());
    assert_eq!(key_to_bytes("hello"), b"hello".to_vec());
    assert_eq!(key_to_bytes("shift+a"), b"shift+a".to_vec());
    assert_eq!(key_to_bytes("ctrl+F13"), b"ctrl+F13".to_vec());
    assert_eq!(key_to_bytes("ctrl+"), b"ctrl+".to_vec());
    assert_eq!(key_to_bytes("+"), b"+".to_vec());
    assert_eq!(key_to_bytes(""), Vec::<u8>::new());
}

#[test]
fn non_ascii_is_utf8() {
    assert_eq!(key_to_bytes("é"), "é".as_bytes().to_vec());
    assert_eq!(key_to_bytes("ctrl+é"), "ctrl+é".as_bytes().to_vec());
}

#[test]
fn key_name_aliases() {
    assert_eq!(key_to_bytes("KP_Enter"), vec![b'\r']);
    assert_eq!(key_to_bytes("Prior"), key_to_bytes("Page_Up"));
    assert_eq!(key_to_bytes("Next"), key_to_bytes("Page_Down"));
    assert_eq!(key_to_bytes("KP_Delete"), key_to_bytes("Delete"));
    assert_eq!(key_to_bytes("Space"), vec![b' ']);
    assert_eq!(key_to_bytes("ISO_Left_Tab"), b"\x1b[Z".to_vec());
    assert_eq!(key_to_bytes("F6"), b"\x1b[17~".to_vec());
    assert_eq!(key_to_bytes("F11"), b"\x1b[23~".to_vec());
}

#[test]
fn modifier_lists() {
    assert_eq!(key_to_bytes("shift+alt+x"), vec![0x1b, b'x']);
    assert_eq!(key_to_bytes("alt+shift+Return"), vec![0x1b, b'\r']);
    assert_eq!(key_to_bytes("shift+ctrl+c"), vec![0x03]);
    assert_eq!(key_to_bytes("meta+shift+ctrl+C"), vec![0x1b, 0x03]);
}
