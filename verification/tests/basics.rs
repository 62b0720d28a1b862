use zellij_server::encoding::{push_decimal_u32, push_decimal_u8, push_decimal_usize, push_utf8_char};
use zellij_server::pane_id::PaneId;
use zellij_server::position::Position;
use zellij_server::row::{Row, TerminalCharacter};

#[test]
fn pane_ids_have_a_text_form() {
    assert_eq!(PaneId::Terminal(12).to_text(), "terminal_12");
    assert_eq!(PaneId::Plugin(0).to_text(), "plugin_0");
}

#[test]
fn numbers_are_written_in_decimal() {
    let mut v = Vec::new();
    push_decimal_u8(&mut v, 205);
    assert_eq!(v, b"205".to_vec());
    let mut s = String::from("#");
    push_decimal_u32(&mut s, 4294967295);
    assert_eq!(s, "#4294967295");
    let mut s = String::new();
    push_decimal_usize(&mut s, 0);
    assert_eq!(s, "0");
}

#[test]
fn characters_are_written_in_utf8() {
    let mut v = Vec::new();
    for c in ['a', 'é', '€', '😀'] {
        push_utf8_char(&mut v, c);
    }
    assert_eq!(v, "aé€😀".as_bytes().to_vec());
}

#[test]
fn positions_order_by_line_then_column() {
    assert!(Position::new(1, 5).le(&Position::new(2, 0)));
    assert!(Position::new(2, 0).le(&Position::new(2, 0)));
    assert!(!Position::new(2, 1).le(&Position::new(2, 0)));
    assert_eq!(Position::new(-3, 4).line(), -3);
}

#[test]
fn a_row_is_as_wide_as_its_characters() {
    let r = Row::new(
        vec![TerminalCharacter::new('a', 1), TerminalCharacter::new('字', 2)],
        true,
    );
    assert_eq!(r.width(), 3);
}
