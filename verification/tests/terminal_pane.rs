use zellij_server::os_input_output::RunCommand;
use zellij_server::pane_size::{Dimension, Offset, PaneGeom};
use zellij_server::search::SearchResult;
use zellij_server::position::Position;
use zellij_server::terminal_pane::{
    adjust_input_with_kitty_keyboard_protocol, adjust_input_without_kitty_keyboard_protocol,
    edit_text, frame_omits_title, selection_scroll, AdjustedInput, FeedAction, FrameStatus, FrameView,
    Interception, AnsiEncoding, BareKey,
    InputMode, InputModes, KeyEncodings, KeyWithModifier, SelectionScroll, TerminalPane,
};

fn geom(x: usize, y: usize, rows: usize, cols: usize) -> PaneGeom {
    PaneGeom {
        x,
        y,
        rows: Dimension::fixed(rows),
        cols: Dimension::fixed(cols),
        stacked: None,
        is_pinned: false,
    }
}

fn pane() -> TerminalPane {
    TerminalPane::new(7, geom(2, 3, 20, 80), 4, String::new(), None)
}

fn key(bare_key: BareKey) -> Option<KeyWithModifier> {
    Some(KeyWithModifier {
        bare_key,
        ctrl: false,
        alt: false,
        shift: false,
        super_key: false,
    })
}

fn no_encodings() -> KeyEncodings {
    KeyEncodings {
        kitty: None,
        non_kitty: None,
    }
}

fn written(r: Option<AdjustedInput>) -> Option<Vec<u8>> {
    match r {
        Some(AdjustedInput::WriteBytesToTerminal(b)) => Some(b),
        _ => None,
    }
}

fn command() -> RunCommand {
    RunCommand {
        command: "htop".to_string(),
        args: vec![],
        cwd: Some("/tmp".to_string()),
        hold_on_close: true,
        hold_on_start: false,
    }
}

#[test]
fn ansi_encodings_are_application_cursor_keys() {
    assert_eq!(AnsiEncoding::Left.as_bytes(), b"\x1bOD".to_vec());
    assert_eq!(AnsiEncoding::Right.as_bytes(), b"\x1bOC".to_vec());
    assert_eq!(AnsiEncoding::Up.as_bytes(), b"\x1bOA".to_vec());
    assert_eq!(AnsiEncoding::Down.as_vec_bytes(), b"\x1bOB".to_vec());
    assert_eq!(AnsiEncoding::Home.as_vec_bytes(), vec![27, 79, 72]);
    assert_eq!(AnsiEncoding::End.as_vec_bytes(), vec![27, 79, 70]);
}

#[test]
fn new_pane_is_titled_by_its_index() {
    let p = pane();
    assert_eq!(p.pane_title, "Pane #4");
    assert_eq!(p.current_title(), "Pane #4");
    let named = TerminalPane::new(1, geom(0, 0, 1, 1), 0, String::new(), Some("logs".to_string()));
    assert_eq!(named.current_title(), "logs");
}

#[test]
fn titles_prefer_the_name_then_the_program() {
    let mut p = pane();
    p.grid_title = Some("vim".to_string());
    assert_eq!(p.current_title(), "vim");
    assert!(p.has_explicit_title());
    p.update_name("ed");
    p.update_name("it");
    assert_eq!(p.current_title(), "edit");
    assert_eq!(p.custom_title(), Some("edit".to_string()));
    p.update_name("\u{7f}");
    assert_eq!(p.pane_name, "edi");
    p.update_name("\0");
    assert_eq!(p.pane_name, "");
    assert_eq!(p.custom_title(), None);
}

#[test]
fn bell_marks_the_title() {
    let mut p = pane();
    assert_eq!(p.title_with_bell_indicator("x".to_string()), "x");
    p.has_bell_notification = true;
    assert_eq!(p.title_with_bell_indicator("x".to_string()), "x [!]");
    assert_eq!(p.stack_list_entry_label(), "Pane #4 [!]");
}

#[test]
fn frame_title_shows_search_with_its_options() {
    let mut p = pane();
    let mut search = SearchResult::default();
    assert_eq!(
        p.frame_title(InputMode::EnterSearch, true, false, &None, &search),
        "Enter search..."
    );
    p.update_search_term("fo");
    p.update_search_term("o");
    assert_eq!(p.search_term, "foo");
    assert_eq!(
        p.frame_title(InputMode::Search, false, false, &None, &search),
        "SEARCHING: foo"
    );
    search.case_insensitive = true;
    search.wrap_search = true;
    assert_eq!(
        p.frame_title(InputMode::Search, false, false, &None, &search),
        "SEARCHING: foo [c, w]"
    );
    search.whole_word_only = true;
    assert_eq!(
        p.frame_title(InputMode::Search, false, false, &None, &search),
        "SEARCHING: foo [c, o, w]"
    );
    assert_eq!(
        p.frame_title(InputMode::Normal, false, false, &None, &search),
        "Pane #4"
    );
    assert_eq!(
        p.frame_title(InputMode::Normal, false, true, &None, &search),
        ""
    );
    assert_eq!(
        p.frame_title(InputMode::Normal, false, false, &Some("ERROR".to_string()), &search),
        "ERROR"
    );
    assert_eq!(
        p.frame_title(InputMode::RenamePane, true, false, &None, &search),
        "Enter name..."
    );
    assert_eq!(p.terminal_title_text(InputMode::RenamePane), "Enter name...");
}

#[test]
fn content_geometry_leaves_room_for_the_frame() {
    let mut p = pane();
    assert_eq!(p.get_content_columns(), 80);
    p.set_borderless(false);
    assert_eq!(p.content_offset, Offset::frame(1));
    assert_eq!(p.get_content_x(), 3);
    assert_eq!(p.get_content_y(), 4);
    assert_eq!(p.get_content_columns(), 78);
    assert_eq!(p.get_content_rows(), 18);
    p.geom_override = Some(geom(0, 0, 1, 1));
    assert_eq!(p.get_rows(), 1);
    assert_eq!(p.get_content_rows(), 0);
    assert_eq!(p.cursor_coordinates(Some((1, 1, true))), None);
    p.geom_override = None;
    assert_eq!(
        p.cursor_coordinates_for_client(Some(1), Some((5, 6, true))),
        Some((6, 7, true))
    );
}

#[test]
fn geometry_moves_keep_the_pin() {
    let mut p = pane();
    p.toggle_pinned();
    p.set_geom(geom(10, 10, 5, 5));
    assert!(p.geom.is_pinned);
    assert_eq!(p.get_x(), 10);
    p.push_right(3);
    p.pull_up(4);
    assert_eq!((p.get_x(), p.get_y()), (13, 6));
}

#[test]
fn paste_markers_are_dropped_for_terminals_that_did_not_ask() {
    let mut p = pane();
    let r = p.adjust_input_to_terminal(&None, b"\x1b[200~".to_vec(), false, None, &no_encodings());
    assert_eq!(written(r), Some(vec![]));
    p.modes.bracketed_paste_mode = true;
    let r = p.adjust_input_to_terminal(&None, b"\x1b[200~".to_vec(), false, None, &no_encodings());
    assert_eq!(written(r), Some(b"\x1b[200~".to_vec()));
}

#[test]
fn cursor_key_mode_rewrites_arrows() {
    let mut p = pane();
    p.modes.cursor_key_mode = true;
    let r = p.adjust_input_to_terminal(&None, b"\x1b[D".to_vec(), false, None, &no_encodings());
    assert_eq!(written(r), Some(b"\x1bOD".to_vec()));
    let r = p.adjust_input_to_terminal(&key(BareKey::End), b"x".to_vec(), false, None, &no_encodings());
    assert_eq!(written(r), Some(b"\x1bOF".to_vec()));
    p.modes.cursor_key_mode = false;
    let r = p.adjust_input_to_terminal(&None, b"\x1b[D".to_vec(), false, None, &no_encodings());
    assert_eq!(written(r), Some(b"\x1b[D".to_vec()));
}

#[test]
fn new_line_mode_sends_cr_lf_for_enter() {
    let modes = InputModes {
        bracketed_paste_mode: false,
        new_line_mode: true,
        cursor_key_mode: false,
        supports_kitty_keyboard_protocol: false,
    };
    let r = adjust_input_without_kitty_keyboard_protocol(modes, &None, vec![13], false, &no_encodings());
    assert_eq!(written(r), Some(vec![13, 10]));
}

#[test]
fn kitty_input_is_reencoded_or_dropped() {
    let mut p = pane();
    let enc = KeyEncodings {
        kitty: Some(b"K".to_vec()),
        non_kitty: Some(b"N".to_vec()),
    };
    let r = p.adjust_input_to_terminal(&key(BareKey::Char('a')), b"kitty".to_vec(), true, None, &enc);
    assert_eq!(written(r), Some(b"N".to_vec()));
    let r = p.adjust_input_to_terminal(&key(BareKey::Char('a')), b"kitty".to_vec(), true, None, &no_encodings());
    assert!(r.is_none());
    p.modes.supports_kitty_keyboard_protocol = true;
    let r = p.adjust_input_to_terminal(&key(BareKey::Char('a')), b"a".to_vec(), false, None, &enc);
    assert_eq!(written(r), Some(b"K".to_vec()));
    let r = p.adjust_input_to_terminal(&key(BareKey::Char('a')), b"kitty".to_vec(), true, None, &enc);
    assert_eq!(written(r), Some(b"kitty".to_vec()));
}

#[test]
fn held_pane_runs_again_drops_to_shell_or_closes() {
    let mut p = pane();
    assert!(!p.hold(Some(2), false, command()));
    assert!(p.is_held());
    assert!(p.exited());
    assert_eq!(p.exit_status(), Some(2));
    let r = p.adjust_input_to_terminal(&None, b"q".to_vec(), false, None, &no_encodings());
    assert!(r.is_none());
    let r = p.adjust_input_to_terminal(&None, vec![3], false, None, &no_encodings());
    assert!(matches!(r, Some(AdjustedInput::CloseThisPane)));
    let r = p.adjust_input_to_terminal(&key(BareKey::Enter), vec![], false, None, &no_encodings());
    match r {
        Some(AdjustedInput::ReRunCommandInThisPane(c)) => assert_eq!(c, command()),
        _ => panic!("expected a rerun"),
    }
    assert!(!p.is_held());
    assert!(p.hold(None, true, command()));
    assert!(!p.exited());
    let r = p.adjust_input_to_terminal(&None, vec![27], false, None, &no_encodings());
    match r {
        Some(AdjustedInput::DropToShellInThisPane { working_dir }) => {
            assert_eq!(working_dir, Some("/tmp".to_string()))
        },
        _ => panic!("expected a shell"),
    }
    assert_eq!(p.rerun(), None);
}

#[test]
fn guest_dialog_steers_with_keys() {
    let mut p = pane();
    p.set_guest_modal(&[1, 2]);
    assert!(p.has_guest_modal_for_any_client());
    assert_eq!(p.guest_modal_selection(1), Some(0));
    let r = p.adjust_input_to_terminal(&key(BareKey::Char('j')), vec![], false, Some(1), &no_encodings());
    assert!(matches!(r, Some(AdjustedInput::GuestModalSelectionChanged)));
    assert_eq!(p.guest_modal_selection(1), Some(1));
    assert_eq!(p.guest_modal_selection(2), Some(0));
    let r = p.adjust_input_to_terminal(&None, vec![13], false, Some(1), &no_encodings());
    assert!(matches!(r, Some(AdjustedInput::GuestModalDescend)));
    let r = p.adjust_input_to_terminal(&None, vec![13], false, Some(2), &no_encodings());
    assert!(matches!(r, Some(AdjustedInput::GuestModalZoom)));
    let r = p.adjust_input_to_terminal(&None, b"2".to_vec(), false, Some(2), &no_encodings());
    assert!(matches!(r, Some(AdjustedInput::GuestModalDescend)));
    assert_eq!(
        p.cursor_coordinates_for_client(Some(2), Some((0, 0, true))),
        None
    );
    assert!(p.clear_guest_modal(1));
    assert!(!p.clear_guest_modal(1));
    assert!(p.clear_all_guest_modals());
    assert!(!p.has_guest_modal_for_any_client());
}

#[test]
fn stored_name_can_be_restored() {
    let mut p = pane();
    p.update_name("a");
    p.store_pane_name();
    p.update_name("b");
    assert_eq!(p.pane_name, "ab");
    p.load_pane_name();
    assert_eq!(p.pane_name, "a");
}

#[test]
fn forward_pause_is_cleared_once() {
    let mut p = pane();
    p.arm_forward_pause();
    assert!(p.clear_forward_pause());
    assert!(!p.clear_forward_pause());
}

#[test]
fn key_modifier_checks() {
    let plain = key(BareKey::Enter).unwrap();
    assert!(plain.is_key_without_modifier(BareKey::Enter));
    assert!(!plain.is_key_without_modifier(BareKey::Esc));
    assert!(!plain.is_key_with_ctrl_modifier(BareKey::Enter));
    let ctrl_c = KeyWithModifier {
        bare_key: BareKey::Char('c'),
        ctrl: true,
        alt: false,
        shift: false,
        super_key: false,
    };
    assert!(ctrl_c.is_key_with_ctrl_modifier(BareKey::Char('c')));
    assert!(!ctrl_c.is_key_without_modifier(BareKey::Char('c')));
}

#[test]
fn kitty_terminal_gets_kitty_bytes() {
    let enc = KeyEncodings {
        kitty: Some(b"K".to_vec()),
        non_kitty: Some(b"N".to_vec()),
    };
    let r = adjust_input_with_kitty_keyboard_protocol(&key(BareKey::Char('a')), b"a".to_vec(), false, &enc);
    assert_eq!(written(r), Some(b"K".to_vec()));
    let r = adjust_input_with_kitty_keyboard_protocol(&None, b"a".to_vec(), false, &enc);
    assert_eq!(written(r), Some(b"a".to_vec()));
    let r = adjust_input_with_kitty_keyboard_protocol(&key(BareKey::Char('a')), b"a".to_vec(), false, &no_encodings());
    assert!(r.is_none());
}

#[test]
fn name_editing_handles_backspace_and_clear() {
    assert_eq!(edit_text(&"ab".to_string(), "c"), "abc");
    assert_eq!(edit_text(&"ab".to_string(), "\u{7f}"), "a");
    assert_eq!(edit_text(&"ab".to_string(), "\u{8}"), "a");
    assert_eq!(edit_text(&"".to_string(), "\u{7f}"), "");
    assert_eq!(edit_text(&"ab".to_string(), "\0"), "");
}

#[test]
fn frame_title_is_kept_while_renaming() {
    assert!(frame_omits_title(true, InputMode::Normal, true));
    assert!(!frame_omits_title(true, InputMode::RenamePane, true));
    assert!(frame_omits_title(true, InputMode::RenamePane, false));
    assert!(!frame_omits_title(false, InputMode::Normal, true));
}

#[test]
fn selection_drag_scrolls_at_the_edges() {
    assert_eq!(selection_scroll(&Position::new(-1, 0), 10, true), SelectionScroll::ScrollUp);
    assert_eq!(selection_scroll(&Position::new(10, 0), 10, true), SelectionScroll::ScrollDown);
    assert_eq!(selection_scroll(&Position::new(3, 0), 10, true), SelectionScroll::Update);
    assert_eq!(selection_scroll(&Position::new(-1, 0), 10, false), SelectionScroll::Nothing);
}

#[test]
fn held_pane_keys_run_or_drop_to_shell() {
    let mut p = pane();
    assert!(p.handle_held_run().is_none());
    p.hold(Some(0), false, command());
    match p.handle_held_run() {
        Some(AdjustedInput::ReRunCommandInThisPane(c)) => assert_eq!(c, command()),
        _ => panic!("expected a rerun"),
    }
    assert!(p.handle_held_drop_to_shell().is_none());
    p.hold(Some(0), false, command());
    match p.handle_held_drop_to_shell() {
        Some(AdjustedInput::DropToShellInThisPane { working_dir }) => {
            assert_eq!(working_dir, Some("/tmp".to_string()))
        },
        _ => panic!("expected a shell"),
    }
}

#[test]
fn geometry_override_is_shown_until_reset() {
    let mut p = pane();
    assert_eq!(p.current_geom(), geom(2, 3, 20, 80));
    p.set_should_render(false);
    p.set_geom_override(geom(0, 0, 5, 6));
    assert!(p.should_render);
    assert_eq!(p.current_geom(), geom(0, 0, 5, 6));
    assert_eq!(p.get_columns(), 6);
    p.reset_size_and_position_override();
    assert_eq!(p.get_columns(), 80);
    p.set_pinned(true);
    assert!(p.current_geom().is_pinned);
    p.push_down(2);
    p.pull_left(2);
    assert_eq!((p.get_x(), p.get_y()), (0, 5));
    p.set_content_offset(Offset::frame(2));
    assert_eq!(p.get_content_columns(), 76);
}

#[test]
fn flags_are_set_and_read() {
    let mut p = pane();
    p.set_selectable(false);
    assert!(!p.selectable);
    p.set_bell_notification(true);
    assert!(p.get_bell_notification());
    p.set_title("shell".to_string());
    assert_eq!(p.pane_title, "shell");
}

#[test]
fn search_moves_only_with_a_term() {
    let mut p = pane();
    p.set_should_render(false);
    assert!(!p.search_down());
    assert!(!p.search_up());
    assert!(!p.should_render);
    p.update_search_term("x");
    p.set_should_render(false);
    assert!(p.search_down());
    assert!(p.should_render);
    p.set_should_render(false);
    assert!(p.search_up());
    assert!(p.should_render);
}

#[test]
fn banner_is_removed_once() {
    let mut p = pane();
    assert!(!p.remove_banner());
    p.banner = Some("Waiting to run: htop".to_string());
    p.set_should_render(false);
    assert!(p.remove_banner());
    assert!(p.banner.is_none());
    assert!(p.should_render);
    assert!(!p.remove_banner());
}

#[test]
fn input_resets_the_selection() {
    let mut p = pane();
    p.selection.start(Position::new(1, 2));
    p.selection.to(Position::new(3, 4));
    let r = p.adjust_input_to_terminal(&None, b"x".to_vec(), false, None, &no_encodings());
    assert_eq!(written(r), Some(b"x".to_vec()));
    assert_eq!(p.selection.start, Position::new(0, 0));
    assert_eq!(p.selection.end, Position::new(0, 0));
}

#[test]
fn a_new_pane_shows_its_initial_title() {
    let p = TerminalPane::new(1, geom(0, 0, 1, 1), 2, String::new(), None);
    assert_eq!(p.current_title(), "Pane #2");
    assert!(p.grid_title.is_none());
    let p = TerminalPane::new(1, geom(0, 0, 1, 1), 2, "named".to_string(), Some("t".to_string()));
    assert_eq!(p.current_title(), "named");
}

#[test]
fn pty_bytes_wait_while_a_forward_is_under_way() {
    let mut p = pane();
    p.set_should_render(false);
    let feed = p.handle_pty_bytes(b"ab".to_vec()).expect("a feed");
    assert_eq!((feed.bytes, feed.index, feed.forwarded.len()), (b"ab".to_vec(), 0, 0));
    assert!(p.should_render);
    p.arm_forward_pause();
    assert!(p.handle_pty_bytes(b"cd".to_vec()).is_none());
    assert!(p.handle_pty_bytes(b"e".to_vec()).is_none());
    assert!(p.clear_forward_pause());
    assert_eq!(p.drain_pending_pty_input(), b"cde".to_vec());
    assert_eq!(p.drain_pending_pty_input(), Vec::<u8>::new());
}

#[test]
fn forwarded_bytes_are_gathered_and_fed() {
    let mut p = pane();
    let mut feed = p.handle_pty_bytes(b"xy".to_vec()).unwrap();
    assert_eq!(feed.next_byte(), Some(b'x'));
    assert!(matches!(feed.intercepted(Interception::Forward(b"x".to_vec())), FeedAction::Continue));
    assert_eq!(feed.next_byte(), Some(b'y'));
    assert!(matches!(feed.intercepted(Interception::Forward(b"y".to_vec())), FeedAction::Continue));
    assert_eq!(feed.next_byte(), None);
    assert_eq!(feed.forwarded, b"xy".to_vec());
    // the parser took one byte: the other waits
    p.fed_rest(&feed, 1);
    assert_eq!(p.drain_pending_pty_input(), b"y".to_vec());
}

#[test]
fn a_paused_feed_before_a_command_keeps_the_rest() {
    let mut p = pane();
    let mut feed = p.handle_pty_bytes(b"ab\x1b_Gq".to_vec()).unwrap();
    feed.next_byte();
    feed.intercepted(Interception::Forward(b"a".to_vec()));
    feed.next_byte();
    feed.intercepted(Interception::Forward(b"b".to_vec()));
    feed.next_byte();
    assert!(matches!(feed.intercepted(Interception::Swallow), FeedAction::FeedBeforeCapture));
    // the parser took only "a"
    assert!(p.fed_before_capture(&mut feed, 1));
    assert_eq!(p.drain_pending_pty_input(), b"b\x1b_Gq".to_vec());
    // a second held-back byte asks for nothing more
    assert!(matches!(feed.intercepted(Interception::Swallow), FeedAction::Continue));
}

#[test]
fn a_captured_command_is_framed_again_when_feeding_pauses() {
    let mut p = pane();
    let mut feed = p.handle_pty_bytes(b"z\x1b_Gcmd\x1b\\w".to_vec()).unwrap();
    feed.next_byte();
    feed.intercepted(Interception::Forward(b"z".to_vec()));
    for _ in 0..8 {
        feed.next_byte();
    }
    let action = feed.intercepted(Interception::Captured(b"cmd".to_vec()));
    let cmd = match action {
        FeedAction::FeedBeforeApc(c) => c,
        _ => panic!("expected the forwarded bytes to be fed first"),
    };
    assert!(p.fed_before_apc(&mut feed, 0, &cmd));
    assert_eq!(p.drain_pending_pty_input(), b"z\x1b_Gcmd\x1b\\w".to_vec());
    // fed in full: the command goes to the grid, which may start a forward
    assert!(!p.fed_before_apc(&mut feed, 1, &cmd));
    assert!(feed.forwarded.is_empty());
    assert!(p.apc_handled(&feed, true));
    assert_eq!(p.drain_pending_pty_input(), b"w".to_vec());
    assert!(!p.apc_handled(&feed, false));
}

fn frame(title: &str) -> FrameView {
    FrameView {
        geom: geom(2, 3, 20, 80),
        scroll: (0, 0),
        title: title.to_string(),
        status: FrameStatus::Plain,
        color_override: None,
    }
}

#[test]
fn an_unchanged_frame_is_not_drawn_again() {
    let mut p = pane();
    assert!(p.frame_to_render(1, frame("a")));
    assert!(!p.frame_to_render(1, frame("a")));
    assert!(p.frame_to_render(2, frame("a")));
    assert!(p.frame_to_render(1, frame("b")));
    assert!(!p.frame_to_render(1, frame("b")));
    p.set_borderless(true);
    assert!(!p.frame_to_render(1, frame("c")));
    assert!(!p.frame_to_render(3, frame("c")));
}

#[test]
fn the_frame_shows_the_held_command() {
    let mut p = pane();
    assert_eq!(p.frame_status(), FrameStatus::Plain);
    p.hold(None, true, command());
    assert_eq!(p.frame_status(), FrameStatus::FirstRun);
    p.hold(Some(3), false, command());
    assert_eq!(p.frame_status(), FrameStatus::Exited(Some(3)));
}
