use zellij_server::host_query::{HostQuery, OscTerminator};

#[test]
fn text_area_pixel_size_serializes_as_csi_14t() {
    assert_eq!(HostQuery::TextAreaPixelSize.to_query_bytes(), b"\x1b[14t");
}

#[test]
fn character_cell_pixel_size_serializes_as_csi_16t() {
    assert_eq!(
        HostQuery::CharacterCellPixelSize.to_query_bytes(),
        b"\x1b[16t"
    );
}

#[test]
fn default_foreground_mirrors_terminator() {
    assert_eq!(
        HostQuery::DefaultForeground {
            terminator: OscTerminator::St,
        }
        .to_query_bytes(),
        b"\x1b]10;?\x1b\\",
    );
    assert_eq!(
        HostQuery::DefaultForeground {
            terminator: OscTerminator::Bel,
        }
        .to_query_bytes(),
        b"\x1b]10;?\x07",
    );
}

#[test]
fn default_background_serializes_correctly() {
    assert_eq!(
        HostQuery::DefaultBackground {
            terminator: OscTerminator::St,
        }
        .to_query_bytes(),
        b"\x1b]11;?\x1b\\",
    );
}

#[test]
fn palette_register_carries_index_and_terminator() {
    assert_eq!(
        HostQuery::PaletteRegister {
            index: 5,
            terminator: OscTerminator::Bel,
        }
        .to_query_bytes(),
        b"\x1b]4;5;?\x07",
    );
    assert_eq!(
        HostQuery::PaletteRegister {
            index: 255,
            terminator: OscTerminator::St,
        }
        .to_query_bytes(),
        b"\x1b]4;255;?\x1b\\",
    );
}

#[test]
fn clipboard_content_carries_selection_and_terminator() {
    assert_eq!(
        HostQuery::ClipboardContent {
            selection: 'c',
            terminator: OscTerminator::Bel,
        }
        .to_query_bytes(),
        b"\x1b]52;c;?\x07",
    );
    assert_eq!(
        HostQuery::ClipboardContent {
            selection: 'p',
            terminator: OscTerminator::St,
        }
        .to_query_bytes(),
        b"\x1b]52;p;?\x1b\\",
    );
}

#[test]
fn clipboard_content_empty_reply_mirrors_the_query_shape() {
    assert_eq!(
        HostQuery::ClipboardContent {
            selection: 'c',
            terminator: OscTerminator::Bel,
        }
        .empty_reply_bytes(),
        b"\x1b]52;c;\x07",
    );
    assert_eq!(
        HostQuery::ClipboardContent {
            selection: 'p',
            terminator: OscTerminator::St,
        }
        .empty_reply_bytes(),
        b"\x1b]52;p;\x1b\\",
    );
}

#[test]
fn non_clipboard_queries_have_no_empty_reply() {
    assert!(HostQuery::TextAreaPixelSize.empty_reply_bytes().is_empty());
    assert!(HostQuery::DefaultBackground {
        terminator: OscTerminator::St,
    }
    .empty_reply_bytes()
    .is_empty());
}

#[test]
fn from_bell_terminated_maps_bool_to_variant() {
    assert_eq!(
        OscTerminator::from_bell_terminated(true),
        OscTerminator::Bel
    );
    assert_eq!(
        OscTerminator::from_bell_terminated(false),
        OscTerminator::St
    );
}

#[test]
fn palette_register_single_and_double_digit_indices() {
    assert_eq!(
        HostQuery::PaletteRegister { index: 0, terminator: OscTerminator::Bel }.to_query_bytes(),
        b"\x1b]4;0;?\x07",
    );
    assert_eq!(
        HostQuery::PaletteRegister { index: 42, terminator: OscTerminator::Bel }.to_query_bytes(),
        b"\x1b]4;42;?\x07",
    );
    assert_eq!(
        HostQuery::PaletteRegister { index: 100, terminator: OscTerminator::Bel }.to_query_bytes(),
        b"\x1b]4;100;?\x07",
    );
}

#[test]
fn clipboard_selection_with_multibyte_character_is_utf8_encoded() {
    let expected = format!("\x1b]52;{};?\x07", 'é').into_bytes();
    assert_eq!(
        HostQuery::ClipboardContent { selection: 'é', terminator: OscTerminator::Bel }.to_query_bytes(),
        expected
    );
    let expected = format!("\x1b]52;{};\x1b\\", '🦀').into_bytes();
    assert_eq!(
        HostQuery::ClipboardContent { selection: '🦀', terminator: OscTerminator::St }.empty_reply_bytes(),
        expected
    );
}

#[test]
fn color_palette_mode_has_no_wire_form() {
    assert!(HostQuery::ColorPaletteMode.to_query_bytes().is_empty());
    assert!(HostQuery::ColorPaletteMode.empty_reply_bytes().is_empty());
}

#[test]
fn terminator_bytes_match_their_names() {
    assert_eq!(OscTerminator::St.as_bytes(), b"\x1b\\");
    assert_eq!(OscTerminator::Bel.as_bytes(), b"\x07");
}
