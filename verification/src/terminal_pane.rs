//! The state of a terminal pane that decides what becomes of the keys sent
//! to it, what its titles are and where its content sits.
//!
//! The terminal emulation itself (the grid, its parser and its rendering)
//! is not here: the pane holds the modes of the grid that its decisions
//! read, and the caller applies to the grid what a decision asks for.

use crate::encoding::{decimal_chars, push_decimal_usize};
use crate::os_input_output::RunCommand;
use crate::pane_id::PaneId;
use crate::pane_size::{Offset, PaneGeom};
use crate::position::Position;
use crate::search::SearchResult;
use crate::selection::{Selection, default_selection, origin};
use std::collections::HashMap;
use vstd::prelude::*;

verus! {

broadcast use vstd::std_specs::hash::group_hash_axioms;

/// The escape sequences of the keys whose encoding depends on the cursor key
/// mode.
#[derive(Debug, Clone, Copy, PartialEq, Eq, Structural)]
pub enum AnsiEncoding {
    Left,
    Right,
    Up,
    Down,
    Home,
    End,
}

/// The bytes of a key in application cursor key mode.
pub open spec fn ansi_bytes(e: AnsiEncoding) -> Seq<u8> {
    match e {
        AnsiEncoding::Left => seq![27u8, 79, 68],
        AnsiEncoding::Right => seq![27u8, 79, 67],
        AnsiEncoding::Up => seq![27u8, 79, 65],
        AnsiEncoding::Down => seq![27u8, 79, 66],
        AnsiEncoding::Home => seq![27u8, 79, 72],
        AnsiEncoding::End => seq![27u8, 79, 70],
    }
}

impl AnsiEncoding {
    /// The key's bytes: ESC `O` and a letter.
    pub fn as_bytes(&self) -> (b: Vec<u8>)
        ensures
            b@ == ansi_bytes(*self),
    {
        let last: u8 = match self {
            AnsiEncoding::Left => 68,
            AnsiEncoding::Right => 67,
            AnsiEncoding::Up => 65,
            AnsiEncoding::Down => 66,
            AnsiEncoding::Home => 72,
            AnsiEncoding::End => 70,
        };
        let mut b: Vec<u8> = Vec::new();
        b.push(27);
        b.push(79);
        b.push(last);
        proof {
            assert(b@ =~= ansi_bytes(*self));
        }
        b
    }

    /// The key's bytes, as an owned vector.
    pub fn as_vec_bytes(&self) -> (b: Vec<u8>)
        ensures
            b@ == ansi_bytes(*self),
    {
        self.as_bytes()
    }
}

/// A key, without its modifiers.
#[derive(Debug, Clone, Copy, PartialEq, Eq, Structural)]
pub enum BareKey {
    PageDown,
    PageUp,
    Left,
    Down,
    Up,
    Right,
    Home,
    End,
    Backspace,
    Delete,
    Insert,
    F(u8),
    Char(char),
    Tab,
    Esc,
    Enter,
    CapsLock,
    ScrollLock,
    NumLock,
    PrintScreen,
    Pause,
    Menu,
}

/// A key with the modifiers held with it.
#[derive(Debug, Clone, Copy, PartialEq, Eq, Structural)]
pub struct KeyWithModifier {
    pub bare_key: BareKey,
    pub ctrl: bool,
    pub alt: bool,
    pub shift: bool,
    pub super_key: bool,
}

/// The key is `k`, with no modifier held.
pub open spec fn is_plain_key(key: KeyWithModifier, k: BareKey) -> bool {
    key.bare_key == k && !key.ctrl && !key.alt && !key.shift && !key.super_key
}

/// The key is `k`, with ctrl held.
pub open spec fn is_ctrl_key(key: KeyWithModifier, k: BareKey) -> bool {
    key.bare_key == k && key.ctrl
}

/// There is a key, and it is `k` with no modifier held.
pub open spec fn key_is(key: Option<KeyWithModifier>, k: BareKey) -> bool {
    match key {
        Some(kw) => is_plain_key(kw, k),
        None => false,
    }
}

impl KeyWithModifier {
    /// Whether this is `key` with no modifier held.
    pub fn is_key_without_modifier(&self, key: BareKey) -> (b: bool)
        ensures
            b == is_plain_key(*self, key),
    {
        self.bare_key == key && !self.ctrl && !self.alt && !self.shift && !self.super_key
    }

    /// Whether this is `key` with ctrl held.
    pub fn is_key_with_ctrl_modifier(&self, key: BareKey) -> (b: bool)
        ensures
            b == is_ctrl_key(*self, key),
    {
        self.bare_key == key && self.ctrl
    }
}

/// How a key is written in each keyboard protocol, as worked out by the
/// caller from the key (`None` where it has no form there).
pub struct KeyEncodings {
    /// The key in the kitty keyboard protocol.
    pub kitty: Option<Vec<u8>>,
    /// The key in the legacy encoding.
    pub non_kitty: Option<Vec<u8>>,
}

/// What becomes of input sent to a pane.
pub enum AdjustedInput {
    /// Write these bytes to the terminal.
    WriteBytesToTerminal(Vec<u8>),
    /// Run the pane's command again.
    ReRunCommandInThisPane(RunCommand),
    /// Open a shell in the pane, in this directory.
    DropToShellInThisPane { working_dir: Option<String> },
    /// Close the pane.
    CloseThisPane,
    /// The selection of the guest dialog moved.
    GuestModalSelectionChanged,
    /// The guest dialog chose to zoom.
    GuestModalZoom,
    /// The guest dialog chose to descend.
    GuestModalDescend,
}

/// An adjusted input, with its bytes as a sequence.
pub enum InputView {
    Write(Seq<u8>),
    ReRun(RunCommand),
    DropToShell(Option<String>),
    Close,
    SelectionChanged,
    Zoom,
    Descend,
}

pub open spec fn input_view(a: AdjustedInput) -> InputView {
    match a {
        AdjustedInput::WriteBytesToTerminal(b) => InputView::Write(b@),
        AdjustedInput::ReRunCommandInThisPane(c) => InputView::ReRun(c),
        AdjustedInput::DropToShellInThisPane { working_dir } => InputView::DropToShell(working_dir),
        AdjustedInput::CloseThisPane => InputView::Close,
        AdjustedInput::GuestModalSelectionChanged => InputView::SelectionChanged,
        AdjustedInput::GuestModalZoom => InputView::Zoom,
        AdjustedInput::GuestModalDescend => InputView::Descend,
    }
}

pub open spec fn input_view_opt(a: Option<AdjustedInput>) -> Option<InputView> {
    match a {
        Some(x) => Some(input_view(x)),
        None => None,
    }
}

pub open spec fn left_arrow() -> Seq<u8> {
    seq![27u8, 91, 68]
}

pub open spec fn right_arrow() -> Seq<u8> {
    seq![27u8, 91, 67]
}

pub open spec fn up_arrow() -> Seq<u8> {
    seq![27u8, 91, 65]
}

pub open spec fn down_arrow() -> Seq<u8> {
    seq![27u8, 91, 66]
}

pub open spec fn home_key() -> Seq<u8> {
    seq![27u8, 91, 72]
}

pub open spec fn end_key() -> Seq<u8> {
    seq![27u8, 91, 70]
}

pub open spec fn bracketed_paste_begin() -> Seq<u8> {
    seq![27u8, 91, 50, 48, 48, 126]
}

pub open spec fn bracketed_paste_end() -> Seq<u8> {
    seq![27u8, 91, 50, 48, 49, 126]
}

/// The grid's modes that decide how input is written to it.
#[derive(Debug, Clone, Copy, PartialEq, Eq, Structural)]
pub struct InputModes {
    pub bracketed_paste_mode: bool,
    pub new_line_mode: bool,
    pub cursor_key_mode: bool,
    pub supports_kitty_keyboard_protocol: bool,
}

/// Input for a pane whose terminal speaks the legacy keyboard encoding:
/// enter becomes CR LF in new line mode, the cursor keys take their
/// application form in cursor key mode, a key that came kitty-encoded is
/// re-encoded (or dropped when it has no legacy form), and anything else
/// passes as it came.
pub open spec fn adjusted_without_kitty(
    modes: InputModes,
    key: Option<KeyWithModifier>,
    raw: Seq<u8>,
    raw_is_kitty: bool,
    non_kitty: Option<Seq<u8>>,
) -> Option<InputView> {
    if modes.new_line_mode && (raw == seq![13u8] || key_is(key, BareKey::Enter)) {
        Some(InputView::Write(seq![13u8, 10]))
    } else if modes.cursor_key_mode && (raw == left_arrow() || key_is(key, BareKey::Left)) {
        Some(InputView::Write(ansi_bytes(AnsiEncoding::Left)))
    } else if modes.cursor_key_mode && (raw == right_arrow() || key_is(key, BareKey::Right)) {
        Some(InputView::Write(ansi_bytes(AnsiEncoding::Right)))
    } else if modes.cursor_key_mode && (raw == up_arrow() || key_is(key, BareKey::Up)) {
        Some(InputView::Write(ansi_bytes(AnsiEncoding::Up)))
    } else if modes.cursor_key_mode && (raw == down_arrow() || key_is(key, BareKey::Down)) {
        Some(InputView::Write(ansi_bytes(AnsiEncoding::Down)))
    } else if modes.cursor_key_mode && (raw == home_key() || key_is(key, BareKey::Home)) {
        Some(InputView::Write(ansi_bytes(AnsiEncoding::Home)))
    } else if modes.cursor_key_mode && (raw == end_key() || key_is(key, BareKey::End)) {
        Some(InputView::Write(ansi_bytes(AnsiEncoding::End)))
    } else if raw_is_kitty {
        match (key, non_kitty) {
            (Some(_), Some(b)) => Some(InputView::Write(b)),
            _ => None,
        }
    } else {
        Some(InputView::Write(raw))
    }
}

/// Input for a pane whose terminal speaks the kitty keyboard protocol: a
/// key that came kitty-encoded (or raw input with no key) passes as it came,
/// any other key is encoded for kitty (or dropped when it has no kitty form).
pub open spec fn adjusted_with_kitty(
    key: Option<KeyWithModifier>,
    raw: Seq<u8>,
    raw_is_kitty: bool,
    kitty: Option<Seq<u8>>,
) -> Option<InputView> {
    if raw_is_kitty || key is None {
        Some(InputView::Write(raw))
    } else {
        match kitty {
            Some(b) => Some(InputView::Write(b)),
            None => None,
        }
    }
}

pub open spec fn opt_view(v: Option<Vec<u8>>) -> Option<Seq<u8>> {
    match v {
        Some(b) => Some(b@),
        None => None,
    }
}

/// Whether a byte slice equals a fixed sequence.
fn bytes_equal(a: &Vec<u8>, b: &[u8]) -> (r: bool)
    ensures
        r == (a@ == b@),
{
    if a.len() != b.len() {
        return false;
    }
    let mut i: usize = 0;
    while i < a.len()
        invariant
            a@.len() == b@.len(),
            0 <= i <= a@.len(),
            forall|j: int| 0 <= j < i ==> a@[j] == b@[j],
        decreases a@.len() - i,
    {
        if a[i] != b[i] {
            return false;
        }
        i = i + 1;
    }
    proof {
        assert(a@ =~= b@);
    }
    true
}

/// Whether the key is `k` with no modifier.
fn key_is_exec(key: &Option<KeyWithModifier>, k: BareKey) -> (b: bool)
    ensures
        b == key_is(*key, k),
{
    match key {
        Some(kw) => kw.is_key_without_modifier(k),
        None => false,
    }
}

fn write_bytes(b: Vec<u8>) -> (r: Option<AdjustedInput>)
    ensures
        input_view_opt(r) == Some(InputView::Write(b@)),
{
    Some(AdjustedInput::WriteBytesToTerminal(b))
}

/// The input for a terminal that speaks the kitty keyboard protocol.
pub fn adjust_input_with_kitty_keyboard_protocol(
    key: &Option<KeyWithModifier>,
    raw_input_bytes: Vec<u8>,
    raw_input_bytes_are_kitty: bool,
    encodings: &KeyEncodings,
) -> (r: Option<AdjustedInput>)
    ensures
        input_view_opt(r) == adjusted_with_kitty(*key, raw_input_bytes@, raw_input_bytes_are_kitty, opt_view(encodings.kitty)),
{
    if raw_input_bytes_are_kitty || key.is_none() {
        write_bytes(raw_input_bytes)
    } else {
        match &encodings.kitty {
            Some(b) => write_bytes(b.clone()),
            None => None,
        }
    }
}

/// The input for a terminal that speaks the legacy keyboard encoding.
pub fn adjust_input_without_kitty_keyboard_protocol(
    modes: InputModes,
    key: &Option<KeyWithModifier>,
    raw_input_bytes: Vec<u8>,
    raw_input_bytes_are_kitty: bool,
    encodings: &KeyEncodings,
) -> (r: Option<AdjustedInput>)
    ensures
        input_view_opt(r) == adjusted_without_kitty(
            modes,
            *key,
            raw_input_bytes@,
            raw_input_bytes_are_kitty,
            opt_view(encodings.non_kitty),
        ),
{
    if modes.new_line_mode {
        let cr: [u8; 1] = [13];
        let key_is_enter = bytes_equal(&raw_input_bytes, &cr) || key_is_exec(key, BareKey::Enter);
        proof {
            assert(cr@ =~= seq![13u8]);
        }
        if key_is_enter {
            let mut b: Vec<u8> = Vec::new();
            b.push(13);
            b.push(10);
            proof {
                assert(b@ =~= seq![13u8, 10]);
            }
            return write_bytes(b);
        }
    }
    if modes.cursor_key_mode {
        let left: [u8; 3] = [27, 91, 68];
        let right: [u8; 3] = [27, 91, 67];
        let up: [u8; 3] = [27, 91, 65];
        let down: [u8; 3] = [27, 91, 66];
        let home: [u8; 3] = [27, 91, 72];
        let end: [u8; 3] = [27, 91, 70];
        proof {
            assert(left@ =~= left_arrow());
            assert(right@ =~= right_arrow());
            assert(up@ =~= up_arrow());
            assert(down@ =~= down_arrow());
            assert(home@ =~= home_key());
            assert(end@ =~= end_key());
        }
        let key_is_left_arrow = bytes_equal(&raw_input_bytes, &left) || key_is_exec(key, BareKey::Left);
        let key_is_right_arrow = bytes_equal(&raw_input_bytes, &right) || key_is_exec(key, BareKey::Right);
        let key_is_up_arrow = bytes_equal(&raw_input_bytes, &up) || key_is_exec(key, BareKey::Up);
        let key_is_down_arrow = bytes_equal(&raw_input_bytes, &down) || key_is_exec(key, BareKey::Down);
        let key_is_home_key = bytes_equal(&raw_input_bytes, &home) || key_is_exec(key, BareKey::Home);
        let key_is_end_key = bytes_equal(&raw_input_bytes, &end) || key_is_exec(key, BareKey::End);
        if key_is_left_arrow {
            return write_bytes(AnsiEncoding::Left.as_vec_bytes());
        } else if key_is_right_arrow {
            return write_bytes(AnsiEncoding::Right.as_vec_bytes());
        } else if key_is_up_arrow {
            return write_bytes(AnsiEncoding::Up.as_vec_bytes());
        } else if key_is_down_arrow {
            return write_bytes(AnsiEncoding::Down.as_vec_bytes());
        } else if key_is_home_key {
            return write_bytes(AnsiEncoding::Home.as_vec_bytes());
        } else if key_is_end_key {
            return write_bytes(AnsiEncoding::End.as_vec_bytes());
        }
    }
    if raw_input_bytes_are_kitty {
        match (key, &encodings.non_kitty) {
            (Some(_), Some(b)) => write_bytes(b.clone()),
            _ => None,
        }
    } else {
        write_bytes(raw_input_bytes)
    }
}

/// A terminal pane.
pub struct TerminalPane {
    pub pid: u32,
    pub selectable: bool,
    pub geom: PaneGeom,
    pub geom_override: Option<PaneGeom>,
    pub content_offset: Offset,
    pub pane_title: String,
    pub pane_name: String,
    pub prev_pane_name: String,
    pub borderless: bool,
    pub exclude_from_sync: bool,
    pub search_term: String,
    /// A held pane: the exit status of its command (if it ran), whether it
    /// waits for its first run, and the command.
    pub is_held: Option<(Option<i32>, bool, RunCommand)>,
    /// The text shown over a pane that waits for its first run.
    pub banner: Option<String>,
    pub has_bell_notification: bool,
    pub forward_paused: bool,
    /// Bytes from the pty that wait while a forward to the host is under way.
    pub pending_pty_input: Vec<u8>,
    pub nested_guest: bool,
    /// The clients that see the guest dialog, with the entry each has
    /// selected.
    pub guest_modal: HashMap<u16, usize>,
    /// The frame last drawn for each client.
    pub frames: HashMap<u16, FrameView>,
    pub guest_session_name: Option<String>,
    /// The modes of the pane's grid.
    pub modes: InputModes,
    /// The title the program in the pane set, if any.
    pub grid_title: Option<String>,
    /// The selection in the pane's grid.
    pub selection: Selection,
    pub should_render: bool,
}

/// The key moves the guest dialog's selection up.
pub open spec fn guest_up(key: Option<KeyWithModifier>, raw: Seq<u8>) -> bool {
    key_is(key, BareKey::Up) || key_is(key, BareKey::Char('k')) || raw == up_arrow()
}

/// The key moves the guest dialog's selection down.
pub open spec fn guest_down(key: Option<KeyWithModifier>, raw: Seq<u8>) -> bool {
    key_is(key, BareKey::Down) || key_is(key, BareKey::Char('j')) || raw == down_arrow()
}

/// The key confirms the guest dialog's selection.
pub open spec fn guest_enter(key: Option<KeyWithModifier>, raw: Seq<u8>) -> bool {
    key_is(key, BareKey::Enter) || raw == seq![13u8] || raw == seq![10u8]
}

/// The key leaves the guest dialog.
pub open spec fn guest_esc(key: Option<KeyWithModifier>, raw: Seq<u8>) -> bool {
    key_is(key, BareKey::Esc) || raw == seq![27u8]
}

/// The digit that picks an entry of the guest dialog directly.
pub open spec fn guest_digit(key: Option<KeyWithModifier>, raw: Seq<u8>) -> Option<char> {
    if key_is(key, BareKey::Char('1')) {
        Some('1')
    } else if key_is(key, BareKey::Char('2')) {
        Some('2')
    } else if raw == seq![49u8] {
        Some('1')
    } else if raw == seq![50u8] {
        Some('2')
    } else {
        None
    }
}

/// Input while a client sees the guest dialog with entry `s` selected.
pub open spec fn guest_modal_input(s: usize, key: Option<KeyWithModifier>, raw: Seq<u8>) -> Option<InputView> {
    if guest_up(key, raw) || guest_down(key, raw) {
        Some(InputView::SelectionChanged)
    } else if guest_digit(key, raw) is Some {
        if guest_digit(key, raw) == Some('1') {
            Some(InputView::Zoom)
        } else {
            Some(InputView::Descend)
        }
    } else if guest_enter(key, raw) {
        if s == 0 {
            Some(InputView::Zoom)
        } else {
            Some(InputView::Descend)
        }
    } else if guest_esc(key, raw) {
        Some(InputView::Descend)
    } else {
        None
    }
}

/// Input to a held pane: enter (or space) runs its command again, escape
/// opens a shell where the command ran, ctrl-c closes the pane.
pub open spec fn held_input(cmd: RunCommand, key: Option<KeyWithModifier>, raw: Seq<u8>) -> Option<InputView> {
    if key_is(key, BareKey::Enter) {
        Some(InputView::ReRun(cmd))
    } else if key_is(key, BareKey::Esc) {
        Some(InputView::DropToShell(cmd.cwd))
    } else if key matches Some(k) && is_ctrl_key(k, BareKey::Char('c')) {
        Some(InputView::Close)
    } else if raw == seq![13u8] || raw == seq![10u8] || raw == seq![32u8] {
        Some(InputView::ReRun(cmd))
    } else if raw == seq![27u8] {
        Some(InputView::DropToShell(cmd.cwd))
    } else if raw == seq![3u8] {
        Some(InputView::Close)
    } else {
        None
    }
}

/// Which part of a pane's state decides what input becomes.
pub enum InputRoute {
    /// A bracketed paste marker for a terminal that did not ask for them.
    PasteMarker,
    /// The client sees the guest dialog with this entry selected.
    GuestModal(u16, usize),
    /// The pane holds this command.
    Held(RunCommand),
    /// The input goes to the terminal.
    Terminal,
}

pub open spec fn input_route(p: TerminalPane, raw: Seq<u8>, client: Option<u16>) -> InputRoute {
    if !p.modes.bracketed_paste_mode && (raw == bracketed_paste_begin() || raw == bracketed_paste_end()) {
        InputRoute::PasteMarker
    } else if client matches Some(c) && p.guest_modal@.contains_key(c) {
        InputRoute::GuestModal(client->0, p.guest_modal@[client->0])
    } else {
        match p.is_held {
            Some((_, _, cmd)) => InputRoute::Held(cmd),
            None => InputRoute::Terminal,
        }
    }
}

/// What a pane makes of input: a paste marker for a terminal that did not
/// ask for them is written as nothing; a client that sees the guest dialog
/// steers it; a held pane takes keys to run again, open a shell or close;
/// anything else is written to the terminal in its keyboard protocol.
pub open spec fn adjusted_input(
    p: TerminalPane,
    key: Option<KeyWithModifier>,
    raw: Seq<u8>,
    raw_is_kitty: bool,
    client: Option<u16>,
    kitty: Option<Seq<u8>>,
    non_kitty: Option<Seq<u8>>,
) -> Option<InputView> {
    match input_route(p, raw, client) {
        InputRoute::PasteMarker => Some(InputView::Write(Seq::empty())),
        InputRoute::GuestModal(_, s) => guest_modal_input(s, key, raw),
        InputRoute::Held(cmd) => held_input(cmd, key, raw),
        InputRoute::Terminal => if p.modes.supports_kitty_keyboard_protocol {
            adjusted_with_kitty(key, raw, raw_is_kitty, kitty)
        } else {
            adjusted_without_kitty(p.modes, key, raw, raw_is_kitty, non_kitty)
        },
    }
}

/// The panes are equal but for the state that input changes.
pub open spec fn same_but_input_state(a: TerminalPane, b: TerminalPane) -> bool {
    &&& a.pid == b.pid
    &&& a.selectable == b.selectable
    &&& a.geom == b.geom
    &&& a.geom_override == b.geom_override
    &&& a.content_offset == b.content_offset
    &&& a.pane_title == b.pane_title
    &&& a.pane_name == b.pane_name
    &&& a.prev_pane_name == b.prev_pane_name
    &&& a.borderless == b.borderless
    &&& a.exclude_from_sync == b.exclude_from_sync
    &&& a.search_term == b.search_term
    &&& a.has_bell_notification == b.has_bell_notification
    &&& a.forward_paused == b.forward_paused
    &&& a.pending_pty_input@ == b.pending_pty_input@
    &&& a.nested_guest == b.nested_guest
    &&& a.guest_session_name == b.guest_session_name
    &&& a.modes == b.modes
    &&& a.grid_title == b.grid_title
    &&& a.selection == b.selection
    &&& a.frames@ == b.frames@
}

impl TerminalPane {
    /// Runs the held command again: the pane is no longer held and loses
    /// its banner. The caller resets the grid's terminal state.
    pub fn handle_held_run(&mut self) -> (r: Option<AdjustedInput>)
        ensures
            input_view_opt(r) == match old(self).is_held {
                Some(h) => Some(InputView::ReRun(h.2)),
                None => None,
            },
            final(self).is_held is None,
            old(self).is_held is Some ==> final(self).banner is None && final(self).should_render,
            old(self).is_held is None ==> final(self).banner == old(self).banner && final(self).should_render == old(self).should_render,
            final(self).guest_modal@ == old(self).guest_modal@,
            same_but_input_state(*old(self), *final(self)),
    {
        match self.is_held.take() {
            Some((_, _, run_command)) => {
                self.should_render = true;
                self.banner = None;
                Some(AdjustedInput::ReRunCommandInThisPane(run_command))
            },
            None => None,
        }
    }

    /// Opens a shell where the held command ran: the pane is no longer held
    /// and loses its banner. The caller resets the grid's terminal state.
    pub fn handle_held_drop_to_shell(&mut self) -> (r: Option<AdjustedInput>)
        ensures
            input_view_opt(r) == match old(self).is_held {
                Some(h) => Some(InputView::DropToShell(h.2.cwd)),
                None => None,
            },
            final(self).is_held is None,
            old(self).is_held is Some ==> final(self).banner is None && final(self).should_render,
            old(self).is_held is None ==> final(self).banner == old(self).banner && final(self).should_render == old(self).should_render,
            final(self).guest_modal@ == old(self).guest_modal@,
            same_but_input_state(*old(self), *final(self)),
    {
        match self.is_held.take() {
            Some((_, _, run_command)) => {
                self.should_render = true;
                self.banner = None;
                Some(AdjustedInput::DropToShellInThisPane { working_dir: run_command.cwd })
            },
            None => None,
        }
    }

    /// What becomes of input sent to the pane, once its selection is reset.
    fn route_input_to_terminal(
        &mut self,
        key_with_modifier: &Option<KeyWithModifier>,
        raw_input_bytes: Vec<u8>,
        raw_input_bytes_are_kitty: bool,
        client_id: Option<u16>,
        encodings: &KeyEncodings,
    ) -> (r: Option<AdjustedInput>)
        ensures
            input_view_opt(r) == adjusted_input(
                *old(self),
                *key_with_modifier,
                raw_input_bytes@,
                raw_input_bytes_are_kitty,
                client_id,
                opt_view(encodings.kitty),
                opt_view(encodings.non_kitty),
            ),
            same_but_input_state(*old(self), *final(self)),
            match input_route(*old(self), raw_input_bytes@, client_id) {
                InputRoute::GuestModal(c, s) => if guest_up(*key_with_modifier, raw_input_bytes@) || guest_down(
                    *key_with_modifier,
                    raw_input_bytes@,
                ) {
                    final(self).guest_modal@ == old(self).guest_modal@.insert(c, ((s + 1) % 2) as usize)
                        && final(self).should_render
                } else {
                    final(self).guest_modal@ == old(self).guest_modal@ && final(self).should_render == old(self).should_render
                },
                _ => final(self).guest_modal@ == old(self).guest_modal@,
            },
            match input_route(*old(self), raw_input_bytes@, client_id) {
                InputRoute::Held(cmd) => match held_input(cmd, *key_with_modifier, raw_input_bytes@) {
                    Some(InputView::ReRun(_)) | Some(InputView::DropToShell(_)) => final(self).is_held is None
                        && final(self).banner is None && final(self).should_render,
                    _ => final(self).is_held == old(self).is_held && final(self).banner == old(self).banner
                        && final(self).should_render == old(self).should_render,
                },
                InputRoute::GuestModal(_, _) => final(self).is_held == old(self).is_held && final(self).banner
                    == old(self).banner,
                _ => final(self).is_held == old(self).is_held && final(self).banner == old(self).banner
                    && final(self).should_render == old(self).should_render,
            },
    {
        let raw = &raw_input_bytes;
        if !self.modes.bracketed_paste_mode {
            let begin: [u8; 6] = [27, 91, 50, 48, 48, 126];
            let end: [u8; 6] = [27, 91, 50, 48, 49, 126];
            proof {
                assert(begin@ =~= bracketed_paste_begin());
                assert(end@ =~= bracketed_paste_end());
            }
            if bytes_equal(raw, &begin) || bytes_equal(raw, &end) {
                let empty: Vec<u8> = Vec::new();
                proof {
                    assert(empty@ =~= Seq::<u8>::empty());
                }
                return write_bytes(empty);
            }
        }
        let selection = match client_id {
            Some(c) => match self.guest_modal.get(&c) {
                Some(s) => Some((c, *s)),
                None => None,
            },
            None => None,
        };
        if let Some((client_id, selection)) = selection {
            let up: [u8; 3] = [27, 91, 65];
            let down: [u8; 3] = [27, 91, 66];
            let cr: [u8; 1] = [13];
            let lf: [u8; 1] = [10];
            let esc: [u8; 1] = [27];
            let one: [u8; 1] = [49];
            let two: [u8; 1] = [50];
            proof {
                assert(up@ =~= up_arrow());
                assert(down@ =~= down_arrow());
                assert(cr@ =~= seq![13u8]);
                assert(lf@ =~= seq![10u8]);
                assert(esc@ =~= seq![27u8]);
                assert(one@ =~= seq![49u8]);
                assert(two@ =~= seq![50u8]);
            }
            let is_up = key_is_exec(key_with_modifier, BareKey::Up) || key_is_exec(key_with_modifier, BareKey::Char('k'))
                || bytes_equal(raw, &up);
            let is_down = key_is_exec(key_with_modifier, BareKey::Down) || key_is_exec(
                key_with_modifier,
                BareKey::Char('j'),
            ) || bytes_equal(raw, &down);
            let is_enter = key_is_exec(key_with_modifier, BareKey::Enter) || bytes_equal(raw, &cr) || bytes_equal(raw, &lf);
            let is_esc = key_is_exec(key_with_modifier, BareKey::Esc) || bytes_equal(raw, &esc);
            let digit = if key_is_exec(key_with_modifier, BareKey::Char('1')) {
                Some('1')
            } else if key_is_exec(key_with_modifier, BareKey::Char('2')) {
                Some('2')
            } else if bytes_equal(raw, &one) {
                Some('1')
            } else if bytes_equal(raw, &two) {
                Some('2')
            } else {
                None
            };
            if is_up || is_down {
                self.guest_modal.insert(client_id, (selection % 2 + 1) % 2);
                self.should_render = true;
                Some(AdjustedInput::GuestModalSelectionChanged)
            } else if let Some(digit) = digit {
                if digit == '1' {
                    Some(AdjustedInput::GuestModalZoom)
                } else {
                    Some(AdjustedInput::GuestModalDescend)
                }
            } else if is_enter {
                if selection == 0 {
                    Some(AdjustedInput::GuestModalZoom)
                } else {
                    Some(AdjustedInput::GuestModalDescend)
                }
            } else if is_esc {
                Some(AdjustedInput::GuestModalDescend)
            } else {
                None
            }
        } else if self.is_held.is_some() {
            let is_ctrl_c = match key_with_modifier {
                Some(k) => k.is_key_with_ctrl_modifier(BareKey::Char('c')),
                None => false,
            };
            if key_is_exec(key_with_modifier, BareKey::Enter) {
                self.handle_held_run()
            } else if key_is_exec(key_with_modifier, BareKey::Esc) {
                self.handle_held_drop_to_shell()
            } else if is_ctrl_c {
                Some(AdjustedInput::CloseThisPane)
            } else {
                let cr: [u8; 1] = [13];
                let lf: [u8; 1] = [10];
                let space: [u8; 1] = [32];
                let esc: [u8; 1] = [27];
                let ctrl_c: [u8; 1] = [3];
                proof {
                    assert(cr@ =~= seq![13u8]);
                    assert(lf@ =~= seq![10u8]);
                    assert(space@ =~= seq![32u8]);
                    assert(esc@ =~= seq![27u8]);
                    assert(ctrl_c@ =~= seq![3u8]);
                }
                if bytes_equal(raw, &cr) || bytes_equal(raw, &lf) || bytes_equal(raw, &space) {
                    self.handle_held_run()
                } else if bytes_equal(raw, &esc) {
                    self.handle_held_drop_to_shell()
                } else if bytes_equal(raw, &ctrl_c) {
                    Some(AdjustedInput::CloseThisPane)
                } else {
                    None
                }
            }
        } else if self.modes.supports_kitty_keyboard_protocol {
            adjust_input_with_kitty_keyboard_protocol(
                key_with_modifier,
                raw_input_bytes,
                raw_input_bytes_are_kitty,
                encodings,
            )
        } else {
            adjust_input_without_kitty_keyboard_protocol(
                self.modes,
                key_with_modifier,
                raw_input_bytes,
                raw_input_bytes_are_kitty,
                encodings,
            )
        }
    }

    /// What becomes of input sent to the pane (see `adjusted_input`). The
    /// pane's selection is reset first. A client steering the guest dialog
    /// up or down flips its selection; a held pane that runs again or drops
    /// to a shell is no longer held. The caller resets the grid's terminal
    /// state when the pane stops being held.
    pub fn adjust_input_to_terminal(
        &mut self,
        key_with_modifier: &Option<KeyWithModifier>,
        raw_input_bytes: Vec<u8>,
        raw_input_bytes_are_kitty: bool,
        client_id: Option<u16>,
        encodings: &KeyEncodings,
    ) -> (r: Option<AdjustedInput>)
        ensures
            input_view_opt(r) == adjusted_input(
                *old(self),
                *key_with_modifier,
                raw_input_bytes@,
                raw_input_bytes_are_kitty,
                client_id,
                opt_view(encodings.kitty),
                opt_view(encodings.non_kitty),
            ),
            final(self).selection == (Selection { start: origin(), end: origin(), ..old(self).selection }),
            same_but_input_state(TerminalPane { selection: final(self).selection, ..*old(self) }, *final(self)),
            match input_route(*old(self), raw_input_bytes@, client_id) {
                InputRoute::GuestModal(c, s) => if guest_up(*key_with_modifier, raw_input_bytes@) || guest_down(
                    *key_with_modifier,
                    raw_input_bytes@,
                ) {
                    final(self).guest_modal@ == old(self).guest_modal@.insert(c, ((s + 1) % 2) as usize)
                        && final(self).should_render
                } else {
                    final(self).guest_modal@ == old(self).guest_modal@ && final(self).should_render == old(self).should_render
                },
                _ => final(self).guest_modal@ == old(self).guest_modal@,
            },
            match input_route(*old(self), raw_input_bytes@, client_id) {
                InputRoute::Held(cmd) => match held_input(cmd, *key_with_modifier, raw_input_bytes@) {
                    Some(InputView::ReRun(_)) | Some(InputView::DropToShell(_)) => final(self).is_held is None
                        && final(self).banner is None && final(self).should_render,
                    _ => final(self).is_held == old(self).is_held && final(self).banner == old(self).banner
                        && final(self).should_render == old(self).should_render,
                },
                InputRoute::GuestModal(_, _) => final(self).is_held == old(self).is_held && final(self).banner
                    == old(self).banner,
                _ => final(self).is_held == old(self).is_held && final(self).banner == old(self).banner
                    && final(self).should_render == old(self).should_render,
            },
    {
        // a client's keys end its selection in the grid
        self.selection.reset();
        let ghost reset = *self;
        assert(reset == (TerminalPane { selection: reset.selection, ..*old(self) }));
        assert(input_route(reset, raw_input_bytes@, client_id) == input_route(*old(self), raw_input_bytes@, client_id));
        assert(adjusted_input(
            reset,
            *key_with_modifier,
            raw_input_bytes@,
            raw_input_bytes_are_kitty,
            client_id,
            opt_view(encodings.kitty),
            opt_view(encodings.non_kitty),
        ) == adjusted_input(
            *old(self),
            *key_with_modifier,
            raw_input_bytes@,
            raw_input_bytes_are_kitty,
            client_id,
            opt_view(encodings.kitty),
            opt_view(encodings.non_kitty),
        ));
        self.route_input_to_terminal(key_with_modifier, raw_input_bytes, raw_input_bytes_are_kitty, client_id, encodings)
    }
}

/// The modes of the client's input.
#[derive(Debug, Clone, Copy, PartialEq, Eq, Structural)]
pub enum InputMode {
    Normal,
    Locked,
    Resize,
    Pane,
    Tab,
    Scroll,
    EnterSearch,
    Search,
    RenameTab,
    RenamePane,
    Session,
    Move,
    Prompt,
    Tmux,
}

/// A text after typing `input` into it: a NUL clears it, delete or
/// backspace removes its last character, anything else is appended.
pub open spec fn edited(text: Seq<char>, input: Seq<char>) -> Seq<char> {
    if input == seq!['\0'] {
        Seq::empty()
    } else if input == seq!['\u{7f}'] || input == seq!['\u{8}'] {
        if text.len() > 0 {
            text.drop_last()
        } else {
            text
        }
    } else {
        text + input
    }
}

/// Whether a string is exactly the one character `c`.
fn is_single_char(s: &str, c: char) -> (b: bool)
    ensures
        b == (s@ == seq![c]),
{
    if s.unicode_len() == 1 {
        let first = s.get_char(0);
        proof {
            if first == c {
                assert(s@ =~= seq![c]);
            }
        }
        first == c
    } else {
        false
    }
}

/// Applies typed input to a text (see `edited`).
pub fn edit_text(text: &String, input: &str) -> (out: String)
    ensures
        out@ == edited(text@, input@),
{
    if is_single_char(input, '\0') {
        String::new()
    } else if is_single_char(input, '\u{7f}') || is_single_char(input, '\u{8}') {
        let len = text.as_str().unicode_len();
        if len > 0 {
            let kept = text.as_str().substring_char(0, len - 1);
            let out = kept.to_string();
            proof {
                assert(out@ =~= text@.drop_last());
            }
            out
        } else {
            text.clone()
        }
    } else {
        let mut out = text.clone();
        out.append(input);
        out
    }
}

/// The text of a literal, as an owned string.
fn owned(s: &str) -> (out: String)
    ensures
        out@ == s@,
{
    s.to_string()
}

/// The title a pane shows when nobody named it: what the program in it set,
/// else the pane's own title.
pub open spec fn current_title_of(p: TerminalPane) -> Seq<char> {
    if p.pane_name@.len() == 0 {
        match p.grid_title {
            Some(t) => t@,
            None => p.pane_title@,
        }
    } else {
        p.pane_name@
    }
}

/// A title with the bell's mark when the pane rang.
pub open spec fn with_bell(p: TerminalPane, title: Seq<char>) -> Seq<char> {
    if p.has_bell_notification {
        title + " [!]"@
    } else {
        title
    }
}

/// The marks of the search options that are on: `c` (case insensitive),
/// `o` (whole words only), `w` (wrap around).
pub open spec fn search_modifier_text(case_insensitive: bool, whole_word_only: bool, wrap_search: bool) -> Seq<char> {
    if !(case_insensitive || whole_word_only || wrap_search) {
        Seq::empty()
    } else {
        let marks = (if case_insensitive { seq!["c"@] } else { Seq::<Seq<char>>::empty() })
            + (if whole_word_only { seq!["o"@] } else { Seq::<Seq<char>>::empty() })
            + (if wrap_search { seq!["w"@] } else { Seq::<Seq<char>>::empty() });
        " ["@ + joined(marks) + "]"@
    }
}

/// Strings joined with `", "` between them.
pub open spec fn joined(parts: Seq<Seq<char>>) -> Seq<char>
    decreases parts.len(),
{
    if parts.len() == 0 {
        Seq::empty()
    } else if parts.len() == 1 {
        parts[0]
    } else {
        joined(parts.drop_last()) + ", "@ + parts.last()
    }
}

/// The title a pane's frame shows before the bell's mark and overrides:
/// prompts while the pane is being named or searched, the search with its
/// options while searching, else the current title.
pub open spec fn normal_frame_title(
    p: TerminalPane,
    mode: InputMode,
    is_main_client: bool,
    case_insensitive: bool,
    whole_word_only: bool,
    wrap_search: bool,
) -> Seq<char> {
    if p.pane_name@.len() == 0 && mode == InputMode::RenamePane && is_main_client {
        "Enter name..."@
    } else if mode == InputMode::EnterSearch && is_main_client && p.search_term@.len() == 0 {
        "Enter search..."@
    } else if (mode == InputMode::EnterSearch || mode == InputMode::Search) && p.search_term@.len() > 0 {
        "SEARCHING: "@ + p.search_term@ + search_modifier_text(case_insensitive, whole_word_only, wrap_search)
    } else {
        current_title_of(p)
    }
}

/// What a client's selection drag does when it reaches line `line` of a
/// grid `height` lines high.
#[derive(Debug, Clone, Copy, PartialEq, Eq, Structural)]
pub enum SelectionScroll {
    /// Scroll the grid up a line (the drag went above it).
    ScrollUp,
    /// Scroll the grid down a line (the drag went below it).
    ScrollDown,
    /// Move the selection's end.
    Update,
    /// Nothing (it is too early to scroll again).
    Nothing,
}

pub open spec fn selection_scroll_of(line: isize, height: usize, should_scroll: bool) -> SelectionScroll {
    if line < 0 && should_scroll {
        SelectionScroll::ScrollUp
    } else if line >= 0 && line >= height && should_scroll {
        SelectionScroll::ScrollDown
    } else if line >= 0 && line < height {
        SelectionScroll::Update
    } else {
        SelectionScroll::Nothing
    }
}

/// What dragging a selection to `to` does: `should_scroll` tells whether
/// the scroll interval has passed since the last scroll.
pub fn selection_scroll(to: &Position, grid_height: usize, should_scroll: bool) -> (r: SelectionScroll)
    ensures
        r == selection_scroll_of(to.line, grid_height, should_scroll),
{
    if to.line < 0 && should_scroll {
        SelectionScroll::ScrollUp
    } else if to.line >= 0 && (to.line as usize) >= grid_height && should_scroll {
        SelectionScroll::ScrollDown
    } else if to.line >= 0 && (to.line as usize) < grid_height {
        SelectionScroll::Update
    } else {
        SelectionScroll::Nothing
    }
}

/// Whether a frame leaves its title out: not while its main client names
/// the pane.
pub fn frame_omits_title(omit_title: bool, input_mode: InputMode, is_main_client: bool) -> (b: bool)
    ensures
        b == (omit_title && !(input_mode == InputMode::RenamePane && is_main_client)),
{
    omit_title && !(input_mode == InputMode::RenamePane && is_main_client)
}

/// The geometry a pane has while nothing overrides it.
pub open spec fn shown_geom(p: TerminalPane) -> PaneGeom {
    match p.geom_override {
        Some(g) => g,
        None => p.geom,
    }
}

impl TerminalPane {
    /// A pane for terminal `pid`: titled `initial_pane_title`, else
    /// "Pane #" and its index; not held, without a frame offset.
    pub fn new(
        pid: u32,
        position_and_size: PaneGeom,
        pane_index: usize,
        pane_name: String,
        initial_pane_title: Option<String>,
    ) -> (p: TerminalPane)
        ensures
            p.pid == pid,
            p.geom == position_and_size,
            p.geom_override is None,
            p.pane_title@ == match initial_pane_title {
                Some(t) => t@,
                None => "Pane #"@ + decimal_chars(pane_index as nat),
            },
            p.pane_name@ == pane_name@,
            p.prev_pane_name@ == pane_name@,
            p.content_offset == (Offset { top: 0, bottom: 0, left: 0, right: 0 }),
            p.search_term@ == Seq::<char>::empty(),
            p.is_held is None,
            p.banner is None,
            p.guest_modal@ == Map::<u16, usize>::empty(),
            p.frames@ == Map::<u16, FrameView>::empty(),
            p.selectable,
            !p.borderless,
            !p.has_bell_notification,
            !p.forward_paused,
            p.pending_pty_input@ == Seq::<u8>::empty(),
            p.should_render,
            p.grid_title is None,
            p.selection == default_selection(),
            !p.exclude_from_sync,
            !p.nested_guest,
            p.guest_session_name is None,
            p.modes == (InputModes {
                bracketed_paste_mode: false,
                new_line_mode: false,
                cursor_key_mode: false,
                supports_kitty_keyboard_protocol: false,
            }),
            current_title_of(p) == if pane_name@.len() == 0 {
                p.pane_title@
            } else {
                pane_name@
            },
    {
        let pane_title = match initial_pane_title {
            Some(t) => t,
            None => {
                let mut t = owned("Pane #");
                proof {
                    reveal_strlit("Pane #");
                }
                push_decimal_usize(&mut t, pane_index);
                t
            },
        };
        let prev_pane_name = pane_name.clone();
        TerminalPane {
            pid,
            selectable: true,
            geom: position_and_size,
            geom_override: None,
            content_offset: Offset { top: 0, bottom: 0, left: 0, right: 0 },
            pane_title,
            pane_name,
            prev_pane_name,
            borderless: false,
            exclude_from_sync: false,
            search_term: String::new(),
            is_held: None,
            banner: None,
            has_bell_notification: false,
            forward_paused: false,
            pending_pty_input: Vec::new(),
            nested_guest: false,
            guest_modal: HashMap::new(),
            frames: HashMap::new(),
            guest_session_name: None,
            modes: InputModes {
                bracketed_paste_mode: false,
                new_line_mode: false,
                cursor_key_mode: false,
                supports_kitty_keyboard_protocol: false,
            },
            grid_title: None,
            selection: Selection::default(),
            should_render: true,
        }
    }

    pub fn get_x(&self) -> (x: usize)
        ensures
            x == shown_geom(*self).x,
    {
        match self.geom_override {
            Some(g) => g.x,
            None => self.geom.x,
        }
    }

    pub fn get_y(&self) -> (y: usize)
        ensures
            y == shown_geom(*self).y,
    {
        match self.geom_override {
            Some(g) => g.y,
            None => self.geom.y,
        }
    }

    pub fn get_columns(&self) -> (c: usize)
        ensures
            c == shown_geom(*self).cols.inner,
    {
        match self.geom_override {
            Some(g) => g.cols.inner,
            None => self.geom.cols.inner,
        }
    }

    pub fn get_rows(&self) -> (r: usize)
        ensures
            r == shown_geom(*self).rows.inner,
    {
        match self.geom_override {
            Some(g) => g.rows.inner,
            None => self.geom.rows.inner,
        }
    }

    /// Where the content starts: right of the frame's left side.
    pub fn get_content_x(&self) -> (x: usize)
        requires
            shown_geom(*self).x + self.content_offset.left <= usize::MAX,
        ensures
            x == shown_geom(*self).x + self.content_offset.left,
    {
        self.get_x() + self.content_offset.left
    }

    /// Where the content starts: below the frame's top.
    pub fn get_content_y(&self) -> (y: usize)
        requires
            shown_geom(*self).y + self.content_offset.top <= usize::MAX,
        ensures
            y == shown_geom(*self).y + self.content_offset.top,
    {
        self.get_y() + self.content_offset.top
    }

    /// The content's width: the pane's, less the frame's sides (none when
    /// the frame takes it all).
    pub fn get_content_columns(&self) -> (c: usize)
        requires
            self.content_offset.left + self.content_offset.right <= usize::MAX,
        ensures
            c == if shown_geom(*self).cols.inner >= self.content_offset.left + self.content_offset.right {
                shown_geom(*self).cols.inner - (self.content_offset.left + self.content_offset.right)
            } else {
                0
            },
    {
        self.get_columns().saturating_sub(self.content_offset.left + self.content_offset.right)
    }

    /// The content's height: the pane's, less the frame's top and bottom
    /// (none when the frame takes it all).
    pub fn get_content_rows(&self) -> (r: usize)
        requires
            self.content_offset.top + self.content_offset.bottom <= usize::MAX,
        ensures
            r == if shown_geom(*self).rows.inner >= self.content_offset.top + self.content_offset.bottom {
                shown_geom(*self).rows.inner - (self.content_offset.top + self.content_offset.bottom)
            } else {
                0
            },
    {
        self.get_rows().saturating_sub(self.content_offset.top + self.content_offset.bottom)
    }

    /// The grid's cursor, unless the content has no room to show it.
    pub fn cursor_coordinates(&self, grid_cursor: Option<(usize, usize, bool)>) -> (c: Option<(usize, usize, bool)>)
        requires
            self.content_offset.left + self.content_offset.right <= usize::MAX,
            self.content_offset.top + self.content_offset.bottom <= usize::MAX,
        ensures
            c == if shown_geom(*self).rows.inner <= self.content_offset.top + self.content_offset.bottom
                || shown_geom(*self).cols.inner <= self.content_offset.left + self.content_offset.right {
                None
            } else {
                grid_cursor
            },
    {
        if self.get_content_rows() < 1 || self.get_content_columns() < 1 {
            return None;
        }
        grid_cursor
    }

    /// The grid's cursor moved past the frame, for a client: none while the
    /// client sees the guest dialog or when the content has no room.
    pub fn cursor_coordinates_for_client(
        &self,
        client_id: Option<u16>,
        grid_cursor: Option<(usize, usize, bool)>,
    ) -> (c: Option<(usize, usize, bool)>)
        requires
            self.content_offset.left + self.content_offset.right <= usize::MAX,
            self.content_offset.top + self.content_offset.bottom <= usize::MAX,
            grid_cursor matches Some((x, y, _)) ==> x + self.content_offset.left <= usize::MAX && y
                + self.content_offset.top <= usize::MAX,
        ensures
            c == if (client_id matches Some(cl) && self.guest_modal@.contains_key(cl))
                || shown_geom(*self).rows.inner <= self.content_offset.top + self.content_offset.bottom
                || shown_geom(*self).cols.inner <= self.content_offset.left + self.content_offset.right {
                None
            } else {
                match grid_cursor {
                    Some((x, y, v)) => Some(
                        ((x + self.content_offset.left) as usize, (y + self.content_offset.top) as usize, v),
                    ),
                    None => None,
                }
            },
    {
        if let Some(c) = client_id {
            if self.guest_modal.contains_key(&c) {
                return None;
            }
        }
        if self.get_content_rows() < 1 || self.get_content_columns() < 1 {
            return None;
        }
        match grid_cursor {
            Some((x, y, visible)) => Some((x + self.content_offset.left, y + self.content_offset.top, visible)),
            None => None,
        }
    }

    /// Moves and resizes the pane, keeping whether it is pinned.
    pub fn set_geom(&mut self, position_and_size: PaneGeom)
        ensures
            final(self).geom == (PaneGeom { is_pinned: old(self).geom.is_pinned, ..position_and_size }),
            final(self).should_render,
            same_but_geometry(*old(self), *final(self)),
    {
        let is_pinned = self.geom.is_pinned;
        self.geom = position_and_size;
        self.geom.is_pinned = is_pinned;
        self.should_render = true;
    }

    pub fn push_down(&mut self, count: usize)
        requires
            old(self).geom.y + count <= usize::MAX,
        ensures
            final(self).geom == (PaneGeom { y: (old(self).geom.y + count) as usize, ..old(self).geom }),
            final(self).should_render,
            same_but_geometry(*old(self), *final(self)),
    {
        self.geom.y = self.geom.y + count;
        self.should_render = true;
    }

    pub fn push_right(&mut self, count: usize)
        requires
            old(self).geom.x + count <= usize::MAX,
        ensures
            final(self).geom == (PaneGeom { x: (old(self).geom.x + count) as usize, ..old(self).geom }),
            final(self).should_render,
            same_but_geometry(*old(self), *final(self)),
    {
        self.geom.x = self.geom.x + count;
        self.should_render = true;
    }

    pub fn pull_left(&mut self, count: usize)
        requires
            old(self).geom.x >= count,
        ensures
            final(self).geom == (PaneGeom { x: (old(self).geom.x - count) as usize, ..old(self).geom }),
            final(self).should_render,
            same_but_geometry(*old(self), *final(self)),
    {
        self.geom.x = self.geom.x - count;
        self.should_render = true;
    }

    pub fn pull_up(&mut self, count: usize)
        requires
            old(self).geom.y >= count,
        ensures
            final(self).geom == (PaneGeom { y: (old(self).geom.y - count) as usize, ..old(self).geom }),
            final(self).should_render,
            same_but_geometry(*old(self), *final(self)),
    {
        self.geom.y = self.geom.y - count;
        self.should_render = true;
    }

    pub fn toggle_pinned(&mut self)
        ensures
            final(self).geom == (PaneGeom { is_pinned: !old(self).geom.is_pinned, ..old(self).geom }),
            final(self).should_render == old(self).should_render,
            same_but_geometry(*old(self), *final(self)),
    {
        self.geom.is_pinned = !self.geom.is_pinned;
    }

    pub fn set_pinned(&mut self, should_be_pinned: bool)
        ensures
            final(self).geom == (PaneGeom { is_pinned: should_be_pinned, ..old(self).geom }),
            final(self).should_render == old(self).should_render,
            same_but_geometry(*old(self), *final(self)),
    {
        self.geom.is_pinned = should_be_pinned;
    }

    /// Gives the pane a frame (one cell on each side) or takes it away.
    pub fn set_borderless(&mut self, should_be_borderless: bool)
        ensures
            final(self).borderless == should_be_borderless,
            final(self).content_offset == if should_be_borderless {
                Offset { top: 0, bottom: 0, left: 0, right: 0 }
            } else {
                Offset { top: 1, bottom: 1, left: 1, right: 1 }
            },
            final(self).geom == old(self).geom,
            final(self).should_render,
            final(self).pid == old(self).pid,
            final(self).selectable == old(self).selectable,
            final(self).geom_override == old(self).geom_override,
            final(self).exclude_from_sync == old(self).exclude_from_sync,
            same_texts(*old(self), *final(self)),
            same_state(*old(self), *final(self)),
    {
        self.borderless = should_be_borderless;
        if should_be_borderless {
            self.content_offset = Offset { top: 0, bottom: 0, left: 0, right: 0 };
        } else {
            self.content_offset = Offset { top: 1, bottom: 1, left: 1, right: 1 };
        }
        self.should_render = true;
    }

    /// Types into the pane's name.
    pub fn update_name(&mut self, name: &str)
        ensures
            final(self).pane_name@ == edited(old(self).pane_name@, name@),
            final(self).should_render,
            final(self).search_term == old(self).search_term,
            final(self).prev_pane_name == old(self).prev_pane_name,
            final(self).pane_title == old(self).pane_title,
            same_but_texts(*old(self), *final(self)),
    {
        self.pane_name = edit_text(&self.pane_name, name);
        self.should_render = true;
    }

    /// Types into the search term. The caller clears the grid's search and,
    /// when the term is not empty, searches the grid for it.
    pub fn update_search_term(&mut self, needle: &str)
        ensures
            final(self).search_term@ == edited(old(self).search_term@, needle@),
            final(self).should_render,
            final(self).pane_name == old(self).pane_name,
            final(self).prev_pane_name == old(self).prev_pane_name,
            final(self).pane_title == old(self).pane_title,
            same_but_texts(*old(self), *final(self)),
    {
        self.search_term = edit_text(&self.search_term, needle);
        self.should_render = true;
    }

    /// Remembers the current name, to go back to it later.
    pub fn store_pane_name(&mut self)
        ensures
            final(self).prev_pane_name@ == old(self).pane_name@,
            final(self).pane_name == old(self).pane_name,
            final(self).search_term == old(self).search_term,
            final(self).pane_title == old(self).pane_title,
            final(self).should_render == old(self).should_render,
            same_but_texts(*old(self), *final(self)),
    {
        if self.pane_name != self.prev_pane_name {
            self.prev_pane_name = self.pane_name.clone();
        }
    }

    /// Goes back to the remembered name.
    pub fn load_pane_name(&mut self)
        ensures
            final(self).pane_name@ == old(self).prev_pane_name@,
            final(self).prev_pane_name == old(self).prev_pane_name,
            final(self).search_term == old(self).search_term,
            final(self).pane_title == old(self).pane_title,
            final(self).should_render == old(self).should_render,
            same_but_texts(*old(self), *final(self)),
    {
        if self.pane_name != self.prev_pane_name {
            self.pane_name = self.prev_pane_name.clone();
        }
    }

    pub fn set_title(&mut self, title: String)
        ensures
            final(self).pane_title == title,
            final(self).pane_name == old(self).pane_name,
            final(self).prev_pane_name == old(self).prev_pane_name,
            final(self).search_term == old(self).search_term,
            final(self).should_render == old(self).should_render,
            same_but_texts(*old(self), *final(self)),
    {
        self.pane_title = title;
    }

    /// The name the pane was given, else the program's title, else the
    /// pane's own title.
    pub fn current_title(&self) -> (t: String)
        ensures
            t@ == current_title_of(*self),
    {
        if self.pane_name.as_str().unicode_len() == 0 {
            match &self.grid_title {
                Some(t) => t.clone(),
                None => self.pane_title.clone(),
            }
        } else {
            self.pane_name.clone()
        }
    }

    /// The name the pane was given, if any.
    pub fn custom_title(&self) -> (t: Option<String>)
        ensures
            match t {
                Some(s) => self.pane_name@.len() > 0 && s@ == self.pane_name@,
                None => self.pane_name@.len() == 0,
            },
    {
        if self.pane_name.as_str().unicode_len() == 0 {
            None
        } else {
            Some(self.pane_name.clone())
        }
    }

    /// Whether the pane was named or the program in it set a title.
    pub fn has_explicit_title(&self) -> (b: bool)
        ensures
            b == (self.pane_name@.len() > 0 || self.grid_title is Some),
    {
        self.pane_name.as_str().unicode_len() > 0 || self.grid_title.is_some()
    }

    /// A title with ` [!]` after it when the pane rang its bell.
    pub fn title_with_bell_indicator(&self, title: String) -> (t: String)
        ensures
            t@ == with_bell(*self, title@),
    {
        if self.has_bell_notification {
            let mut t = title;
            t.append(" [!]");
            t
        } else {
            title
        }
    }

    /// The pane's entry in a stack's list: its current title, marked when
    /// it rang.
    pub fn stack_list_entry_label(&self) -> (t: String)
        ensures
            t@ == with_bell(*self, current_title_of(*self)),
    {
        self.title_with_bell_indicator(self.current_title())
    }

    /// The text of the title the pane gives the terminal window: a prompt
    /// while it is being named, else its name, else the program's title.
    pub fn terminal_title_text(&self, input_mode: InputMode) -> (t: String)
        ensures
            t@ == if self.pane_name@.len() == 0 && input_mode == InputMode::RenamePane {
                "Enter name..."@
            } else if self.pane_name@.len() == 0 {
                match self.grid_title {
                    Some(g) => g@,
                    None => Seq::empty(),
                }
            } else {
                self.pane_name@
            },
    {
        if self.pane_name.as_str().unicode_len() == 0 && input_mode == InputMode::RenamePane {
            owned("Enter name...")
        } else if self.pane_name.as_str().unicode_len() == 0 {
            match &self.grid_title {
                Some(g) => g.clone(),
                None => String::new(),
            }
        } else {
            self.pane_name.clone()
        }
    }

    /// The title a client's frame shows: nothing for a blank title, the
    /// text of the frame's colour override if it has one, else the normal
    /// frame title (see `normal_frame_title`) marked when the pane rang.
    pub fn frame_title(
        &self,
        input_mode: InputMode,
        is_main_client: bool,
        blank_title: bool,
        override_text: &Option<String>,
        search: &SearchResult,
    ) -> (t: String)
        ensures
            t@ == if blank_title {
                Seq::empty()
            } else {
                match override_text {
                    Some(o) => o@,
                    None => with_bell(
                        *self,
                        normal_frame_title(
                            *self,
                            input_mode,
                            is_main_client,
                            search.case_insensitive,
                            search.whole_word_only,
                            search.wrap_search,
                        ),
                    ),
                }
            },
    {
        let name_empty = self.pane_name.as_str().unicode_len() == 0;
        let search_empty = self.search_term.as_str().unicode_len() == 0;
        let normal_title = if name_empty && input_mode == InputMode::RenamePane && is_main_client {
            owned("Enter name...")
        } else if input_mode == InputMode::EnterSearch && is_main_client && search_empty {
            owned("Enter search...")
        } else if (input_mode == InputMode::EnterSearch || input_mode == InputMode::Search) && !search_empty {
            let mut t = owned("SEARCHING: ");
            t.append(self.search_term.as_str());
            let modifiers = search_modifiers(search.case_insensitive, search.whole_word_only, search.wrap_search);
            t.append(modifiers.as_str());
            t
        } else {
            self.current_title()
        };
        if blank_title {
            String::new()
        } else {
            match override_text {
                Some(o) => o.clone(),
                None => self.title_with_bell_indicator(normal_title),
            }
        }
    }

    /// Holds the pane after its command exited (or before its first run).
    /// Returns whether the caller is to show the first-run banner.
    pub fn hold(&mut self, exit_status: Option<i32>, is_first_run: bool, run_command: RunCommand) -> (banner: bool)
        ensures
            final(self).is_held == Some((exit_status, is_first_run, run_command)),
            banner == is_first_run,
            final(self).should_render,
            same_but_input_state(*old(self), *final(self)),
            final(self).guest_modal@ == old(self).guest_modal@,
            final(self).banner == old(self).banner,
    {
        self.is_held = Some((exit_status, is_first_run, run_command));
        self.should_render = true;
        is_first_run
    }

    /// The exit status of the held command, if it exited with one.
    pub fn exit_status(&self) -> (e: Option<i32>)
        ensures
            e == match self.is_held {
                Some((status, _, _)) => status,
                None => None,
            },
    {
        match &self.is_held {
            Some((status, _, _)) => *status,
            None => None,
        }
    }

    pub fn is_held(&self) -> (b: bool)
        ensures
            b == self.is_held is Some,
    {
        self.is_held.is_some()
    }

    /// Whether the pane's command ran and exited.
    pub fn exited(&self) -> (b: bool)
        ensures
            b == match self.is_held {
                Some((_, first, _)) => !first,
                None => false,
            },
    {
        match &self.is_held {
            Some((_, is_first_run, _)) => !*is_first_run,
            None => false,
        }
    }

    /// The held command, which is to run again: the pane is no longer held
    /// and loses its banner. The caller resets the grid's terminal state.
    pub fn rerun(&mut self) -> (c: Option<RunCommand>)
        ensures
            c == match old(self).is_held {
                Some((_, _, cmd)) => Some(cmd),
                None => None,
            },
            final(self).is_held is None,
            old(self).is_held is Some ==> final(self).banner is None && final(self).should_render,
            old(self).is_held is None ==> final(self).banner == old(self).banner && final(self).should_render == old(self).should_render,
            final(self).guest_modal@ == old(self).guest_modal@,
            same_but_input_state(*old(self), *final(self)),
    {
        match self.is_held.take() {
            Some((_, _, run_command)) => {
                self.should_render = true;
                self.banner = None;
                Some(run_command)
            },
            None => None,
        }
    }

    /// Shows the guest dialog to these clients, with its first entry
    /// selected.
    pub fn set_guest_modal(&mut self, client_ids: &[u16])
        ensures
            forall|c: u16| #[trigger] final(self).guest_modal@.contains_key(c) == (old(self).guest_modal@.contains_key(c)
                || client_ids@.contains(c)),
            forall|c: u16| #[trigger] final(self).guest_modal@.contains_key(c) ==> final(self).guest_modal@[c] == if client_ids@.contains(c) {
                0
            } else {
                old(self).guest_modal@[c]
            },
            final(self).should_render,
            same_but_input_state(*old(self), *final(self)),
            final(self).is_held == old(self).is_held,
            final(self).banner == old(self).banner,
    {
        let mut i: usize = 0;
        while i < client_ids.len()
            invariant
                0 <= i <= client_ids@.len(),
                forall|c: u16| #[trigger] self.guest_modal@.contains_key(c) == (old(self).guest_modal@.contains_key(c)
                    || client_ids@.take(i as int).contains(c)),
                forall|c: u16| #[trigger] self.guest_modal@.contains_key(c) ==> self.guest_modal@[c] == if client_ids@.take(i as int).contains(c) {
                    0
                } else {
                    old(self).guest_modal@[c]
                },
                same_but_input_state(*old(self), *self),
                self.is_held == old(self).is_held,
                self.banner == old(self).banner,
            decreases client_ids@.len() - i,
        {
            let c = client_ids[i];
            self.guest_modal.insert(c, 0);
            proof {
                assert(client_ids@.take(i + 1) =~= client_ids@.take(i as int).push(c));
                let before = client_ids@.take(i as int);
                let after = client_ids@.take(i + 1);
                assert forall|d: u16| after.contains(d) == (before.contains(d) || d == c) by {
                    if after.contains(d) {
                        let k = choose|k: int| 0 <= k < after.len() && #[trigger] after[k] == d;
                        if k < i {
                            assert(before[k] == d);
                        }
                    }
                    if before.contains(d) {
                        let k = choose|k: int| 0 <= k < before.len() && #[trigger] before[k] == d;
                        assert(after[k] == d);
                    }
                    if d == c {
                        assert(after[i as int] == d);
                    }
                }
            }
            i = i + 1;
        }
        proof {
            assert(client_ids@.take(i as int) =~= client_ids@);
        }
        self.should_render = true;
    }

    /// Hides the guest dialog from a client. Returns whether it saw it (the
    /// caller then renders the whole viewport again).
    pub fn clear_guest_modal(&mut self, client_id: u16) -> (cleared: bool)
        ensures
            cleared == old(self).guest_modal@.contains_key(client_id),
            final(self).guest_modal@ == old(self).guest_modal@.remove(client_id),
            final(self).should_render == (old(self).should_render || cleared),
            same_but_input_state(*old(self), *final(self)),
            final(self).is_held == old(self).is_held,
            final(self).banner == old(self).banner,
    {
        let cleared = self.guest_modal.remove(&client_id).is_some();
        if cleared {
            self.should_render = true;
        }
        cleared
    }

    /// Hides the guest dialog from every client. Returns whether anybody saw
    /// it (the caller then renders the whole viewport again).
    pub fn clear_all_guest_modals(&mut self) -> (cleared: bool)
        ensures
            cleared == (old(self).guest_modal@.len() > 0),
            final(self).guest_modal@ == Map::<u16, usize>::empty(),
            final(self).should_render == (old(self).should_render || cleared),
            same_but_input_state(*old(self), *final(self)),
            final(self).is_held == old(self).is_held,
            final(self).banner == old(self).banner,
    {
        let cleared = !self.guest_modal.is_empty();
        if cleared {
            self.guest_modal.clear();
            self.should_render = true;
        } else {
            proof {
                assert(self.guest_modal@ =~= Map::<u16, usize>::empty());
            }
        }
        cleared
    }

    /// The entry a client has selected in the guest dialog, if it sees it.
    pub fn guest_modal_selection(&self, client_id: u16) -> (s: Option<usize>)
        ensures
            s == if self.guest_modal@.contains_key(client_id) {
                Some(self.guest_modal@[client_id])
            } else {
                None
            },
    {
        match self.guest_modal.get(&client_id) {
            Some(s) => Some(*s),
            None => None,
        }
    }

    pub fn has_guest_modal_for_any_client(&self) -> (b: bool)
        ensures
            b == (self.guest_modal@.len() > 0),
    {
        !self.guest_modal.is_empty()
    }

    /// The pane's id.
    pub fn pid(&self) -> (p: PaneId)
        ensures
            p == PaneId::Terminal(self.pid),
    {
        PaneId::Terminal(self.pid)
    }

    /// The geometry the pane has now: the override when there is one.
    pub fn current_geom(&self) -> (g: PaneGeom)
        ensures
            g == shown_geom(*self),
    {
        match self.geom_override {
            Some(g) => g,
            None => self.geom,
        }
    }

    /// Shows the pane with another geometry for a while.
    pub fn set_geom_override(&mut self, pane_geom: PaneGeom)
        ensures
            *final(self) == (TerminalPane { geom_override: Some(pane_geom), should_render: true, ..*old(self) }),
    {
        self.geom_override = Some(pane_geom);
        self.should_render = true;
    }

    /// Goes back to the pane's own geometry.
    pub fn reset_size_and_position_override(&mut self)
        ensures
            *final(self) == (TerminalPane { geom_override: None, should_render: true, ..*old(self) }),
    {
        self.geom_override = None;
        self.should_render = true;
    }

    pub fn set_content_offset(&mut self, offset: Offset)
        ensures
            *final(self) == (TerminalPane { content_offset: offset, should_render: true, ..*old(self) }),
    {
        self.content_offset = offset;
        self.should_render = true;
    }

    pub fn set_should_render(&mut self, should_render: bool)
        ensures
            *final(self) == (TerminalPane { should_render, ..*old(self) }),
    {
        self.should_render = should_render;
    }

    pub fn set_selectable(&mut self, selectable: bool)
        ensures
            *final(self) == (TerminalPane { selectable, ..*old(self) }),
    {
        self.selectable = selectable;
    }

    pub fn set_bell_notification(&mut self, val: bool)
        ensures
            *final(self) == (TerminalPane { has_bell_notification: val, ..*old(self) }),
    {
        self.has_bell_notification = val;
    }

    pub fn get_bell_notification(&self) -> (b: bool)
        ensures
            b == self.has_bell_notification,
    {
        self.has_bell_notification
    }

    /// Whether searching on (down or up) has something to do: not without a
    /// search term. When it has, the caller searches the grid and renders
    /// the pane.
    pub fn search_down(&mut self) -> (searches: bool)
        ensures
            searches == (old(self).search_term@.len() > 0),
            *final(self) == if searches {
                TerminalPane { should_render: true, ..*old(self) }
            } else {
                *old(self)
            },
    {
        if self.search_term.as_str().unicode_len() == 0 {
            return false;
        }
        self.should_render = true;
        true
    }

    /// See `search_down`.
    pub fn search_up(&mut self) -> (searches: bool)
        ensures
            searches == (old(self).search_term@.len() > 0),
            *final(self) == if searches {
                TerminalPane { should_render: true, ..*old(self) }
            } else {
                *old(self)
            },
    {
        self.search_down()
    }

    /// Forgets the search term (the caller clears the grid's search).
    pub fn clear_search(&mut self)
        ensures
            final(self).search_term@ == Seq::<char>::empty(),
            final(self).pane_name == old(self).pane_name,
            final(self).prev_pane_name == old(self).prev_pane_name,
            final(self).pane_title == old(self).pane_title,
            final(self).should_render == old(self).should_render,
            same_but_texts(*old(self), *final(self)),
    {
        self.search_term = String::new();
    }

    /// Pauses the pane's output until a forwarded query is answered.
    pub fn arm_forward_pause(&mut self)
        ensures
            final(self).forward_paused,
            *final(self) == (TerminalPane { forward_paused: true, ..*old(self) }),
    {
        self.forward_paused = true;
    }

    /// Ends the pause; returns whether the pane was paused.
    pub fn clear_forward_pause(&mut self) -> (was_paused: bool)
        ensures
            was_paused == old(self).forward_paused,
            *final(self) == (TerminalPane { forward_paused: false, ..*old(self) }),
    {
        let was_paused = self.forward_paused;
        self.forward_paused = false;
        was_paused
    }

    /// Bytes from the pty. While a forward to the host started by this pane
    /// is under way they wait in the pending input and `None` is returned;
    /// otherwise the run of bytes to feed to the grid starts (see `PtyFeed`).
    /// The pane renders again either way.
    pub fn handle_pty_bytes(&mut self, bytes: Vec<u8>) -> (feed: Option<PtyFeed>)
        ensures
            old(self).forward_paused ==> feed is None && final(self).pending_pty_input@
                == old(self).pending_pty_input@ + bytes@,
            !old(self).forward_paused ==> (feed matches Some(f) && f.bytes@ == bytes@ && f.index == 0
                && f.forwarded@.len() == 0 && !f.capture_started),
            !old(self).forward_paused ==> final(self).pending_pty_input@ == old(self).pending_pty_input@,
            *final(self) == (TerminalPane {
                should_render: true,
                pending_pty_input: final(self).pending_pty_input,
                ..*old(self)
            }),
    {
        self.should_render = true;
        if self.forward_paused {
            let mut bytes = bytes;
            self.pending_pty_input.append(&mut bytes);
            None
        } else {
            Some(PtyFeed { bytes, index: 0, forwarded: Vec::new(), capture_started: false })
        }
    }

    /// The parser took `consumed` of the forwarded bytes before a kitty
    /// command started. When it stopped short (a forward paused the
    /// feeding), the rest of the forwarded bytes and the input from the
    /// byte that started the command on wait in the pending input, and the
    /// caller resets the interceptor and stops (`true`); otherwise the
    /// forwarded bytes are done with.
    pub fn fed_before_capture(&mut self, feed: &mut PtyFeed, consumed: usize) -> (stop: bool)
        requires
            consumed <= old(feed).forwarded@.len(),
            1 <= old(feed).index <= old(feed).bytes@.len(),
        ensures
            stop == (consumed < old(feed).forwarded@.len()),
            stop ==> final(self).pending_pty_input@ == old(self).pending_pty_input@ + old(feed).forwarded@.skip(
                consumed as int,
            ) + old(feed).bytes@.skip(old(feed).index - 1),
            stop ==> *final(feed) == *old(feed),
            !stop ==> final(self).pending_pty_input@ == old(self).pending_pty_input@,
            !stop ==> *final(feed) == (PtyFeed { forwarded: final(feed).forwarded, ..*old(feed) })
                && final(feed).forwarded@.len() == 0,
            *final(self) == (TerminalPane { pending_pty_input: final(self).pending_pty_input, ..*old(self) }),
    {
        if consumed < feed.forwarded.len() {
            append_from(&mut self.pending_pty_input, &feed.forwarded, consumed);
            append_from(&mut self.pending_pty_input, &feed.bytes, feed.index - 1);
            true
        } else {
            feed.forwarded = Vec::new();
            false
        }
    }

    /// The parser took `consumed` of the forwarded bytes before the
    /// captured kitty command `cmd`. When it stopped short, the rest of the
    /// forwarded bytes, the command in its `ESC _ G ... ESC \` frame and the
    /// input after it wait in the pending input, and the caller stops
    /// (`true`); otherwise the forwarded bytes are done with and the caller
    /// hands the command to the grid.
    pub fn fed_before_apc(&mut self, feed: &mut PtyFeed, consumed: usize, cmd: &Vec<u8>) -> (stop: bool)
        requires
            consumed <= old(feed).forwarded@.len(),
            old(feed).index <= old(feed).bytes@.len(),
        ensures
            stop == (consumed < old(feed).forwarded@.len()),
            stop ==> final(self).pending_pty_input@ == old(self).pending_pty_input@ + old(feed).forwarded@.skip(
                consumed as int,
            ) + apc_start() + cmd@ + apc_end() + old(feed).bytes@.skip(old(feed).index as int),
            stop ==> *final(feed) == *old(feed),
            !stop ==> final(self).pending_pty_input@ == old(self).pending_pty_input@,
            !stop ==> *final(feed) == (PtyFeed { forwarded: final(feed).forwarded, ..*old(feed) })
                && final(feed).forwarded@.len() == 0,
            *final(self) == (TerminalPane { pending_pty_input: final(self).pending_pty_input, ..*old(self) }),
    {
        if consumed < feed.forwarded.len() {
            append_from(&mut self.pending_pty_input, &feed.forwarded, consumed);
            let start: Vec<u8> = vec![27, 95, 71];
            let end: Vec<u8> = vec![27, 92];
            proof {
                assert(start@ =~= apc_start());
                assert(end@ =~= apc_end());
            }
            append_from(&mut self.pending_pty_input, &start, 0);
            append_from(&mut self.pending_pty_input, cmd, 0);
            append_from(&mut self.pending_pty_input, &end, 0);
            append_from(&mut self.pending_pty_input, &feed.bytes, feed.index);
            proof {
                assert(start@.skip(0) =~= start@);
                assert(cmd@.skip(0) =~= cmd@);
                assert(end@.skip(0) =~= end@);
            }
            true
        } else {
            feed.forwarded = Vec::new();
            false
        }
    }

    /// The grid handled a captured kitty command. When that started a
    /// forward to the host, the input not yet fed waits in the pending
    /// input and the caller stops (`true`).
    pub fn apc_handled(&mut self, feed: &PtyFeed, forward_started: bool) -> (stop: bool)
        requires
            feed.index <= feed.bytes@.len(),
        ensures
            stop == forward_started,
            stop ==> final(self).pending_pty_input@ == old(self).pending_pty_input@ + feed.bytes@.skip(feed.index as int),
            !stop ==> final(self).pending_pty_input@ == old(self).pending_pty_input@,
            *final(self) == (TerminalPane { pending_pty_input: final(self).pending_pty_input, ..*old(self) }),
    {
        if forward_started {
            append_from(&mut self.pending_pty_input, &feed.bytes, feed.index);
            true
        } else {
            false
        }
    }

    /// At the end of the input the parser took `consumed` of the forwarded
    /// bytes; the rest wait in the pending input.
    pub fn fed_rest(&mut self, feed: &PtyFeed, consumed: usize)
        requires
            consumed <= feed.forwarded@.len(),
        ensures
            final(self).pending_pty_input@ == old(self).pending_pty_input@ + feed.forwarded@.skip(consumed as int),
            *final(self) == (TerminalPane { pending_pty_input: final(self).pending_pty_input, ..*old(self) }),
    {
        append_from(&mut self.pending_pty_input, &feed.forwarded, consumed);
    }

    /// Hands over the pending input, leaving none.
    pub fn drain_pending_pty_input(&mut self) -> (bytes: Vec<u8>)
        ensures
            bytes@ == old(self).pending_pty_input@,
            final(self).pending_pty_input@ == Seq::<u8>::empty(),
            *final(self) == (TerminalPane { pending_pty_input: final(self).pending_pty_input, ..*old(self) }),
    {
        let mut bytes: Vec<u8> = Vec::new();
        std::mem::swap(&mut bytes, &mut self.pending_pty_input);
        bytes
    }

    /// Whether to draw `frame` for a client: a pane with no border draws
    /// none, and a frame is drawn again only when it differs from the one
    /// last drawn for that client. A drawn frame is remembered for it.
    pub fn frame_to_render(&mut self, client_id: u16, frame: FrameView) -> (render: bool)
        ensures
            render == (!old(self).borderless && !(old(self).frames@.contains_key(client_id) && same_frame(
                old(self).frames@[client_id],
                frame,
            ))),
            render ==> final(self).frames@ == old(self).frames@.insert(client_id, frame),
            !render ==> final(self).frames@ == old(self).frames@,
            *final(self) == (TerminalPane { frames: final(self).frames, ..*old(self) }),
    {
        let unchanged = match self.frames.get(&client_id) {
            Some(last) => frames_equal(last, &frame),
            None => false,
        };
        if unchanged || self.borderless {
            false
        } else {
            self.frames.insert(client_id, frame);
            true
        }
    }

    /// What the frame shows of the pane's held command: the first run it
    /// waits for, or the exit status of the command that ran.
    pub fn frame_status(&self) -> (status: FrameStatus)
        ensures
            status == match self.is_held {
                Some((exit_status, first_run, _)) => if first_run {
                    FrameStatus::FirstRun
                } else {
                    FrameStatus::Exited(exit_status)
                },
                None => FrameStatus::Plain,
            },
    {
        match &self.is_held {
            Some((exit_status, first_run, _)) => if *first_run {
                FrameStatus::FirstRun
            } else {
                FrameStatus::Exited(*exit_status)
            },
            None => FrameStatus::Plain,
        }
    }

    /// Takes the first-run banner off the pane. Returns whether there was
    /// one, in which case the caller resets the grid's terminal state.
    pub fn remove_banner(&mut self) -> (removed: bool)
        ensures
            removed == (old(self).banner is Some),
            *final(self) == if removed {
                TerminalPane { banner: None, should_render: true, ..*old(self) }
            } else {
                *old(self)
            },
    {
        if self.banner.is_some() {
            self.should_render = true;
            self.banner = None;
            true
        } else {
            false
        }
    }
}

/// The marks of the search options that are on, as the frame shows them.
fn search_modifiers(case_insensitive: bool, whole_word_only: bool, wrap_search: bool) -> (t: String)
    ensures
        t@ == search_modifier_text(case_insensitive, whole_word_only, wrap_search),
{
    let mut t = String::new();
    if case_insensitive || whole_word_only || wrap_search {
        let ghost mut marks: Seq<Seq<char>> = Seq::empty();
        let mut body = String::new();
        if case_insensitive {
            body.append("c");
            proof {
                reveal_strlit("c");
                marks = marks.push("c"@);
                assert(body@ =~= joined(marks));
            }
        }
        if whole_word_only {
            if body.as_str().unicode_len() > 0 {
                body.append(", ");
            }
            body.append("o");
            proof {
                reveal_strlit("o");
                reveal_strlit(", ");
                let old_marks = marks;
                marks = marks.push("o"@);
                assert(marks.drop_last() =~= old_marks);
                assert(body@ =~= joined(marks));
            }
        }
        if wrap_search {
            if body.as_str().unicode_len() > 0 {
                body.append(", ");
            }
            body.append("w");
            proof {
                reveal_strlit("w");
                reveal_strlit(", ");
                let old_marks = marks;
                marks = marks.push("w"@);
                assert(marks.drop_last() =~= old_marks);
                assert(body@ =~= joined(marks));
            }
        }
        t.append(" [");
        t.append(body.as_str());
        t.append("]");
        proof {
            let expected = (if case_insensitive { seq!["c"@] } else { Seq::<Seq<char>>::empty() })
                + (if whole_word_only { seq!["o"@] } else { Seq::<Seq<char>>::empty() })
                + (if wrap_search { seq!["w"@] } else { Seq::<Seq<char>>::empty() });
            assert(marks =~= expected);
        }
    }
    t
}

/// The panes are equal but for their geometry and whether to render.
pub open spec fn same_but_geometry(a: TerminalPane, b: TerminalPane) -> bool {
    &&& a.pid == b.pid
    &&& a.selectable == b.selectable
    &&& a.geom_override == b.geom_override
    &&& a.content_offset == b.content_offset
    &&& same_texts(a, b)
    &&& a.borderless == b.borderless
    &&& a.exclude_from_sync == b.exclude_from_sync
    &&& same_state(a, b)
}

/// The panes have the same title, names and search term.
pub open spec fn same_texts(a: TerminalPane, b: TerminalPane) -> bool {
    &&& a.pane_title == b.pane_title
    &&& a.pane_name == b.pane_name
    &&& a.prev_pane_name == b.prev_pane_name
    &&& a.search_term == b.search_term
}

/// The panes are in the same state: held alike, with the same banner,
/// notifications, guests, grid modes and program title.
pub open spec fn same_state(a: TerminalPane, b: TerminalPane) -> bool {
    &&& a.is_held == b.is_held
    &&& a.banner == b.banner
    &&& a.has_bell_notification == b.has_bell_notification
    &&& a.forward_paused == b.forward_paused
    &&& a.pending_pty_input@ == b.pending_pty_input@
    &&& a.nested_guest == b.nested_guest
    &&& a.guest_modal == b.guest_modal
    &&& a.guest_session_name == b.guest_session_name
    &&& a.modes == b.modes
    &&& a.grid_title == b.grid_title
    &&& a.selection == b.selection
    &&& a.frames@ == b.frames@
}

/// The panes are equal but for their title, names, search term and whether
/// to render.
pub open spec fn same_but_texts(a: TerminalPane, b: TerminalPane) -> bool {
    &&& a.pid == b.pid
    &&& a.selectable == b.selectable
    &&& a.geom == b.geom
    &&& a.geom_override == b.geom_override
    &&& a.content_offset == b.content_offset
    &&& a.borderless == b.borderless
    &&& a.exclude_from_sync == b.exclude_from_sync
    &&& same_state(a, b)
}


/// What the kitty graphics interceptor makes of one byte of pty output.
pub enum Interception {
    /// Bytes to pass on to the terminal parser.
    Forward(Vec<u8>),
    /// The byte is held back: a kitty graphics command may be starting.
    Swallow,
    /// A complete kitty graphics command (what stands between `ESC _ G` and `ESC \`).
    Captured(Vec<u8>),
}

/// What the caller does after the interceptor took a byte.
pub enum FeedAction {
    /// Go on with the next byte.
    Continue,
    /// Feed the forwarded bytes to the parser and report how many it took
    /// (`TerminalPane::fed_before_capture`).
    FeedBeforeCapture,
    /// Feed the forwarded bytes to the parser and report how many it took
    /// (`TerminalPane::fed_before_apc`), then hand the command to the grid.
    FeedBeforeApc(Vec<u8>),
    /// Hand the command to the grid and report whether it started a forward
    /// (`TerminalPane::apc_handled`).
    HandleApc(Vec<u8>),
}

/// A run of pty output on its way to the grid: the input, how far it has
/// been read, the bytes forwarded to the parser but not fed yet, and
/// whether a kitty command started.
pub struct PtyFeed {
    pub bytes: Vec<u8>,
    pub index: usize,
    pub forwarded: Vec<u8>,
    pub capture_started: bool,
}

/// The start of a kitty graphics command: `ESC _ G`.
pub open spec fn apc_start() -> Seq<u8> {
    seq![27u8, 95u8, 71u8]
}

/// The end of a kitty graphics command: `ESC \`.
pub open spec fn apc_end() -> Seq<u8> {
    seq![27u8, 92u8]
}

impl PtyFeed {
    /// The next byte of the input, if any; it counts as read.
    pub fn next_byte(&mut self) -> (b: Option<u8>)
        ensures
            old(self).index < old(self).bytes@.len() ==> b == Some(old(self).bytes@[old(self).index as int])
                && *final(self) == (PtyFeed { index: (old(self).index + 1) as usize, ..*old(self) }),
            old(self).index >= old(self).bytes@.len() ==> b is None && *final(self) == *old(self),
    {
        if self.index < self.bytes.len() {
            let b = self.bytes[self.index];
            self.index = self.index + 1;
            Some(b)
        } else {
            None
        }
    }

    /// What follows from the interceptor's verdict on the byte just read:
    /// forwarded bytes are gathered; the first held-back byte of a command
    /// has the bytes gathered before it fed first; a captured command has
    /// the bytes gathered before it fed first, then goes to the grid.
    pub fn intercepted(&mut self, result: Interception) -> (action: FeedAction)
        ensures
            final(self).bytes == old(self).bytes,
            final(self).index == old(self).index,
            match result {
                Interception::Forward(fwd) => {
                    &&& final(self).forwarded@ == old(self).forwarded@ + fwd@
                    &&& !final(self).capture_started
                    &&& action is Continue
                },
                Interception::Swallow => {
                    &&& final(self).forwarded == old(self).forwarded
                    &&& final(self).capture_started
                    &&& if !old(self).capture_started && old(self).forwarded@.len() > 0 {
                        action is FeedBeforeCapture
                    } else {
                        action is Continue
                    }
                },
                Interception::Captured(cmd) => {
                    &&& final(self).forwarded == old(self).forwarded
                    &&& !final(self).capture_started
                    &&& if old(self).forwarded@.len() > 0 {
                        action matches FeedAction::FeedBeforeApc(c) && c@ == cmd@
                    } else {
                        action matches FeedAction::HandleApc(c) && c@ == cmd@
                    }
                },
            },
    {
        match result {
            Interception::Forward(fwd) => {
                self.capture_started = false;
                let mut fwd = fwd;
                self.forwarded.append(&mut fwd);
                FeedAction::Continue
            },
            Interception::Swallow => {
                if !self.capture_started {
                    self.capture_started = true;
                    if self.forwarded.len() > 0 {
                        return FeedAction::FeedBeforeCapture;
                    }
                }
                FeedAction::Continue
            },
            Interception::Captured(cmd) => {
                self.capture_started = false;
                if self.forwarded.len() > 0 {
                    FeedAction::FeedBeforeApc(cmd)
                } else {
                    FeedAction::HandleApc(cmd)
                }
            },
        }
    }
}

/// Appends the bytes of `src` from `from` on to `dst`.
fn append_from(dst: &mut Vec<u8>, src: &Vec<u8>, from: usize)
    requires
        from <= src@.len(),
    ensures
        final(dst)@ == old(dst)@ + src@.skip(from as int),
{
    let ghost start = dst@;
    let mut i = from;
    while i < src.len()
        invariant
            from <= i <= src@.len(),
            dst@ == start + src@.subrange(from as int, i as int),
        decreases src@.len() - i,
    {
        dst.push(src[i]);
        i = i + 1;
        assert(dst@ =~= start + src@.subrange(from as int, i as int));
    }
    assert(src@.subrange(from as int, i as int) =~= src@.skip(from as int));
}


/// What a pane's frame shows of its held command.
#[derive(Debug, Clone, Copy, PartialEq, Eq, Structural)]
pub enum FrameStatus {
    /// Nothing (the pane is not held).
    Plain,
    /// The command waits for its first run.
    FirstRun,
    /// The command exited, with this status if it had one.
    Exited(Option<i32>),
}

/// What a pane's frame shows: where it is drawn, the scroll position and
/// length of the scrollback, the title, the held command's state, and the
/// colour it is drawn in instead of its own, if any.
pub struct FrameView {
    pub geom: PaneGeom,
    pub scroll: (usize, usize),
    pub title: String,
    pub status: FrameStatus,
    pub color_override: Option<(u8, u8, u8)>,
}

/// Two frames show the same.
pub open spec fn same_frame(a: FrameView, b: FrameView) -> bool {
    &&& a.geom == b.geom
    &&& a.scroll == b.scroll
    &&& a.title@ == b.title@
    &&& a.status == b.status
    &&& a.color_override == b.color_override
}

fn frames_equal(a: &FrameView, b: &FrameView) -> (r: bool)
    ensures
        r == same_frame(*a, *b),
{
    let same_color = match (a.color_override, b.color_override) {
        (Some(x), Some(y)) => x.0 == y.0 && x.1 == y.1 && x.2 == y.2,
        (None, None) => true,
        _ => false,
    };
    a.geom == b.geom && a.scroll.0 == b.scroll.0 && a.scroll.1 == b.scroll.1 && a.title == b.title && a.status
        == b.status && same_color
}


/// In cursor key mode an arrow key, Home or End that comes as its
/// normal-mode sequence `ESC [ x` is written in application mode as
/// `ESC O x`, with the same final letter: `A` up, `B` down, `C` right, `D`
/// left, `H` home, `F` end. So it is for a pane that writes the input to
/// its terminal without the kitty protocol.
pub proof fn lemma_cursor_key_sequences_keep_their_letter(
    p: TerminalPane,
    x: u8,
    raw_is_kitty: bool,
    kitty: Option<Seq<u8>>,
    non_kitty: Option<Seq<u8>>,
)
    requires
        p.modes.cursor_key_mode,
        x == 65 || x == 66 || x == 67 || x == 68 || x == 72 || x == 70,
    ensures
        adjusted_without_kitty(p.modes, None, seq![27u8, 91u8, x], raw_is_kitty, non_kitty) == Some(
            InputView::Write(seq![27u8, 79u8, x]),
        ),
        p.is_held is None && !p.modes.supports_kitty_keyboard_protocol ==> adjusted_input(
            p,
            None,
            seq![27u8, 91u8, x],
            raw_is_kitty,
            None,
            kitty,
            non_kitty,
        ) == Some(InputView::Write(seq![27u8, 79u8, x])),
{
    let raw = seq![27u8, 91u8, x];
    assert(raw != seq![13u8]);
    assert(raw[2] == x);
    assert(left_arrow()[2] == 68u8 && right_arrow()[2] == 67u8 && up_arrow()[2] == 65u8);
    assert(down_arrow()[2] == 66u8 && home_key()[2] == 72u8 && end_key()[2] == 70u8);
    assert(raw == left_arrow() <==> x == 68) by {
        if x == 68 {
            assert(raw =~= left_arrow());
        }
    }
    assert(raw == right_arrow() <==> x == 67) by {
        if x == 67 {
            assert(raw =~= right_arrow());
        }
    }
    assert(raw == up_arrow() <==> x == 65) by {
        if x == 65 {
            assert(raw =~= up_arrow());
        }
    }
    assert(raw == down_arrow() <==> x == 66) by {
        if x == 66 {
            assert(raw =~= down_arrow());
        }
    }
    assert(raw == home_key() <==> x == 72) by {
        if x == 72 {
            assert(raw =~= home_key());
        }
    }
    assert(raw == end_key() <==> x == 70) by {
        if x == 70 {
            assert(raw =~= end_key());
        }
    }
    assert(ansi_bytes(AnsiEncoding::Up) =~= seq![27u8, 79u8, 65u8]);
    assert(raw.len() != bracketed_paste_begin().len());
    assert(raw.len() != bracketed_paste_end().len());
}

/// The final letter of a cursor key's sequences: `A` up, `B` down, `C`
/// right, `D` left, `H` home, `F` end.
pub open spec fn cursor_key_letter(k: BareKey) -> u8 {
    match k {
        BareKey::Up => 65u8,
        BareKey::Down => 66u8,
        BareKey::Right => 67u8,
        BareKey::Left => 68u8,
        BareKey::Home => 72u8,
        _ => 70u8,
    }
}

/// In cursor key mode a press of an arrow key, Home or End with no modifier
/// (whatever raw bytes came with it, other than a three-byte sequence or
/// a carriage return) is written as `ESC O` and the key's letter.
pub proof fn lemma_cursor_key_presses_keep_their_letter(
    modes: InputModes,
    k: KeyWithModifier,
    raw: Seq<u8>,
    raw_is_kitty: bool,
    non_kitty: Option<Seq<u8>>,
)
    requires
        modes.cursor_key_mode,
        !k.ctrl && !k.alt && !k.shift && !k.super_key,
        k.bare_key == BareKey::Up || k.bare_key == BareKey::Down || k.bare_key == BareKey::Left || k.bare_key
            == BareKey::Right || k.bare_key == BareKey::Home || k.bare_key == BareKey::End,
        raw.len() != 3,
        raw != seq![13u8],
    ensures
        adjusted_without_kitty(modes, Some(k), raw, raw_is_kitty, non_kitty) == Some(
            InputView::Write(seq![27u8, 79u8, cursor_key_letter(k.bare_key)]),
        ),
{
    assert(ansi_bytes(AnsiEncoding::Up) =~= seq![27u8, 79u8, 65u8]);
    assert(ansi_bytes(AnsiEncoding::Down) =~= seq![27u8, 79u8, 66u8]);
    assert(ansi_bytes(AnsiEncoding::Right) =~= seq![27u8, 79u8, 67u8]);
    assert(ansi_bytes(AnsiEncoding::Left) =~= seq![27u8, 79u8, 68u8]);
    assert(ansi_bytes(AnsiEncoding::Home) =~= seq![27u8, 79u8, 72u8]);
    assert(ansi_bytes(AnsiEncoding::End) =~= seq![27u8, 79u8, 70u8]);
    assert(raw != left_arrow() && raw != right_arrow() && raw != up_arrow() && raw != down_arrow()
        && raw != home_key() && raw != end_key());
}

} // verus!
