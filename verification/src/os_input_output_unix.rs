//! The bookkeeping of the Unix pty backend: which terminal ids are handed
//! out and which pty each one writes to, when a resize reaches a pty, how
//! far a non-blocking write got, and how a command that is asked to stop is
//! brought down. The ptys, the processes and the signals are the caller's.

use std::collections::BTreeMap;
use vstd::prelude::*;

verus! {

broadcast use vstd::std_specs::btree::group_btree_axioms, vstd::laws_cmp::group_laws_cmp;

/// The terminals of the backend: each reserved id, with the file
/// descriptor of its pty once the terminal runs, and the next id to hand
/// out.
pub struct UnixPtyBackend {
    pub terminal_id_to_raw_fd: BTreeMap<u32, Option<i32>>,
    pub next_terminal_id_counter: u32,
}

/// What a resize does to a terminal's pty.
#[derive(Debug, Clone, Copy, PartialEq, Eq, Structural)]
pub enum SizeAction {
    /// Set the window size of the pty behind this descriptor to columns,
    /// rows, width and height in pixels.
    Resize(i32, u16, u16, u16, u16),
    /// Leave it: a size without columns or rows is not applied.
    Skip,
    /// The terminal has no pty (an error to report; the resize is dropped).
    NoPty,
}

/// The pty descriptor of a terminal, when it has one.
pub open spec fn fd_of(m: Map<u32, Option<i32>>, id: u32) -> Option<i32> {
    if m.contains_key(id) {
        m[id]
    } else {
        None
    }
}

impl UnixPtyBackend {
    /// A backend with no terminal, handing out ids from 0.
    pub fn new() -> (b: Self)
        ensures
            b.terminal_id_to_raw_fd@ == Map::<u32, Option<i32>>::empty(),
            b.next_terminal_id_counter == 0,
    {
        UnixPtyBackend { terminal_id_to_raw_fd: BTreeMap::new(), next_terminal_id_counter: 0 }
    }

    /// Hands out the next terminal id (the counter wraps around after the
    /// largest id).
    pub fn next_terminal_id(&mut self) -> (id: Option<u32>)
        ensures
            id == Some(old(self).next_terminal_id_counter),
            final(self).next_terminal_id_counter == if old(self).next_terminal_id_counter == u32::MAX {
                0
            } else {
                (old(self).next_terminal_id_counter + 1) as u32
            },
            final(self).terminal_id_to_raw_fd@ == old(self).terminal_id_to_raw_fd@,
    {
        let id = self.next_terminal_id_counter;
        self.next_terminal_id_counter = id.wrapping_add(1);
        Some(id)
    }

    /// Reserves an id for a terminal that has no pty yet.
    pub fn reserve_terminal_id(&mut self, terminal_id: u32)
        ensures
            final(self).terminal_id_to_raw_fd@ == old(self).terminal_id_to_raw_fd@.insert(terminal_id, None),
            final(self).next_terminal_id_counter == old(self).next_terminal_id_counter,
    {
        self.terminal_id_to_raw_fd.insert(terminal_id, None);
    }

    /// Records the pty a terminal writes to once its command runs.
    pub fn register_terminal_fd(&mut self, terminal_id: u32, fd: i32)
        ensures
            final(self).terminal_id_to_raw_fd@ == old(self).terminal_id_to_raw_fd@.insert(terminal_id, Some(fd)),
            final(self).next_terminal_id_counter == old(self).next_terminal_id_counter,
    {
        self.terminal_id_to_raw_fd.insert(terminal_id, Some(fd));
    }

    /// Forgets a terminal.
    pub fn clear_terminal_id(&mut self, terminal_id: u32)
        ensures
            final(self).terminal_id_to_raw_fd@ == old(self).terminal_id_to_raw_fd@.remove(terminal_id),
            final(self).next_terminal_id_counter == old(self).next_terminal_id_counter,
    {
        self.terminal_id_to_raw_fd.remove(&terminal_id);
    }

    /// The pty descriptor of a terminal, when it has one (writes, drains
    /// and foreground lookups go through it).
    pub fn raw_fd(&self, terminal_id: u32) -> (fd: Option<i32>)
        ensures
            fd == fd_of(self.terminal_id_to_raw_fd@, terminal_id),
    {
        match self.terminal_id_to_raw_fd.get(&terminal_id) {
            Some(Some(fd)) => Some(*fd),
            _ => None,
        }
    }

    /// What resizing a terminal does: its pty gets the size (pixel sizes
    /// default to 0) when it has columns and rows.
    pub fn set_terminal_size(
        &self,
        terminal_id: u32,
        cols: u16,
        rows: u16,
        width_in_pixels: Option<u16>,
        height_in_pixels: Option<u16>,
    ) -> (a: SizeAction)
        ensures
            a == match fd_of(self.terminal_id_to_raw_fd@, terminal_id) {
                Some(fd) => if cols > 0 && rows > 0 {
                    SizeAction::Resize(
                        fd,
                        cols,
                        rows,
                        match width_in_pixels {
                            Some(w) => w,
                            None => 0,
                        },
                        match height_in_pixels {
                            Some(h) => h,
                            None => 0,
                        },
                    )
                } else {
                    SizeAction::Skip
                },
                None => SizeAction::NoPty,
            },
    {
        match self.raw_fd(terminal_id) {
            Some(fd) => {
                if cols > 0 && rows > 0 {
                    let ws_xpixel = match width_in_pixels {
                        Some(w) => w,
                        None => 0,
                    };
                    let ws_ypixel = match height_in_pixels {
                        Some(h) => h,
                        None => 0,
                    };
                    SizeAction::Resize(fd, cols, rows, ws_xpixel, ws_ypixel)
                } else {
                    SizeAction::Skip
                }
            },
            None => SizeAction::NoPty,
        }
    }
}

/// The outcome of one non-blocking write to a pty.
#[derive(Debug, Clone, Copy, PartialEq, Eq, Structural)]
pub enum WriteAttempt {
    /// The pty took this many bytes.
    Wrote(usize),
    /// The write was interrupted by a signal.
    Interrupted,
    /// The pty's buffer is full.
    WouldBlock,
    /// Any other error.
    Failed,
}

/// Where a non-blocking write of a buffer stands.
#[derive(Debug, Clone, Copy, PartialEq, Eq, Structural)]
pub enum WriteProgress {
    /// Write on, from this many bytes in.
    Continue(usize),
    /// Stop: this many bytes were written (the caller queues the rest).
    Done(usize),
    /// Stop with an error.
    Error,
}

/// How a write of a buffer of `len` bytes goes on after `written` of them:
/// a write that takes nothing, or a full buffer, stops the writing; an
/// interrupted one is tried again; any other error ends it.
pub fn write_progress(written: usize, len: usize, attempt: WriteAttempt) -> (p: WriteProgress)
    requires
        written < len,
        attempt matches WriteAttempt::Wrote(n) ==> n <= len - written,
    ensures
        p == match attempt {
            WriteAttempt::Wrote(n) => if n == 0 {
                WriteProgress::Done(written)
            } else if written + n < len {
                WriteProgress::Continue((written + n) as usize)
            } else {
                WriteProgress::Done((written + n) as usize)
            },
            WriteAttempt::Interrupted => WriteProgress::Continue(written),
            WriteAttempt::WouldBlock => WriteProgress::Done(written),
            WriteAttempt::Failed => WriteProgress::Error,
        },
{
    match attempt {
        WriteAttempt::Wrote(n) => {
            if n == 0 {
                WriteProgress::Done(written)
            } else if written + n < len {
                WriteProgress::Continue(written + n)
            } else {
                WriteProgress::Done(written + n)
            }
        },
        WriteAttempt::Interrupted => WriteProgress::Continue(written),
        WriteAttempt::WouldBlock => WriteProgress::Done(written),
        WriteAttempt::Failed => WriteProgress::Error,
    }
}

/// What to do about a command whose exit is awaited.
#[derive(Debug, Clone, Copy, PartialEq, Eq, Structural)]
pub enum ExitAction {
    /// The command exited with this status (none when a signal ended it).
    Exited(Option<i32>),
    /// Wait a moment and look again.
    KeepWaiting,
    /// Ask the command to terminate (SIGTERM), then look again.
    Terminate,
    /// Kill the command; its exit status is unknown.
    Kill,
}

/// The wait for a command to exit: once an interrupt or terminate signal
/// arrived, the command is asked to terminate a few times before it is
/// killed.
#[derive(Debug, Clone, Copy, PartialEq, Eq, Structural)]
pub struct CommandExitWatch {
    pub should_exit: bool,
    pub attempts: u32,
}

/// How many times a command is asked to terminate before it is killed.
pub const TERMINATE_ATTEMPTS: u32 = 3;

/// The decision one look at the command makes.
pub open spec fn watch_action(w: CommandExitWatch, status: Option<Option<i32>>) -> ExitAction {
    match status {
        Some(code) => ExitAction::Exited(code),
        None => if !w.should_exit {
            ExitAction::KeepWaiting
        } else if w.attempts > 0 {
            ExitAction::Terminate
        } else {
            ExitAction::Kill
        },
    }
}

/// The wait after one look: a pending stop signal is noted while the
/// command runs, and each request to terminate uses up an attempt.
pub open spec fn watch_after(w: CommandExitWatch, status: Option<Option<i32>>, stop_signal: bool) -> CommandExitWatch {
    CommandExitWatch {
        should_exit: w.should_exit || (status is None && stop_signal),
        attempts: if status is None && w.should_exit && w.attempts > 0 {
            (w.attempts - 1) as u32
        } else {
            w.attempts
        },
    }
}

/// The decisions of `n` looks at a command that keeps running.
pub open spec fn running_decisions(w: CommandExitWatch, n: nat) -> Seq<ExitAction>
    decreases n,
{
    if n == 0 {
        Seq::empty()
    } else {
        seq![watch_action(w, None)] + running_decisions(watch_after(w, None, false), (n - 1) as nat)
    }
}

/// Once a stop signal arrived, a command that keeps running is asked to
/// terminate once per remaining attempt and then killed.
pub proof fn lemma_stop_ends_in_kill(w: CommandExitWatch)
    requires
        w.should_exit,
    ensures
        running_decisions(w, (w.attempts + 1) as nat) == Seq::new(w.attempts as nat, |i: int| ExitAction::Terminate).push(
            ExitAction::Kill,
        ),
    decreases w.attempts,
{
    if w.attempts == 0 {
        assert(running_decisions(watch_after(w, None, false), 0) =~= Seq::<ExitAction>::empty());
        assert(running_decisions(w, 1) =~= seq![ExitAction::Kill]);
    } else {
        let next = watch_after(w, None, false);
        lemma_stop_ends_in_kill(next);
        assert(running_decisions(w, (w.attempts + 1) as nat) =~= Seq::new(w.attempts as nat, |i: int| ExitAction::Terminate).push(
            ExitAction::Kill,
        ));
    }
}

/// A stop signal is only noted while the command runs: a command that is
/// never asked to stop is waited for as long as it runs.
pub proof fn lemma_no_signal_keeps_waiting(w: CommandExitWatch, n: nat)
    requires
        !w.should_exit,
    ensures
        running_decisions(w, n) == Seq::new(n, |i: int| ExitAction::KeepWaiting),
    decreases n,
{
    if n > 0 {
        lemma_no_signal_keeps_waiting(watch_after(w, None, false), (n - 1) as nat);
        assert(running_decisions(w, n) =~= Seq::new(n, |i: int| ExitAction::KeepWaiting));
    } else {
        assert(running_decisions(w, n) =~= Seq::new(n, |i: int| ExitAction::KeepWaiting));
    }
}

/// A registered pty is the one found for its terminal; a reserved or
/// cleared terminal has none.
pub proof fn lemma_pty_registration(m: Map<u32, Option<i32>>, id: u32, fd: i32)
    ensures
        fd_of(m.insert(id, Some(fd)), id) == Some(fd),
        fd_of(m.insert(id, None), id) is None,
        fd_of(m.remove(id), id) is None,
        forall|other: u32| other != id ==> #[trigger] fd_of(m.insert(id, Some(fd)), other) == fd_of(m, other),
{
}

impl CommandExitWatch {
    pub fn new() -> (w: Self)
        ensures
            !w.should_exit,
            w.attempts == TERMINATE_ATTEMPTS,
    {
        CommandExitWatch { should_exit: false, attempts: TERMINATE_ATTEMPTS }
    }

    /// One look at the command: `status` is its exit status if it exited
    /// (`Some(None)` when a signal ended it) and `None` while it runs;
    /// `stop_signal` tells whether an interrupt or terminate signal is
    /// pending.
    pub fn step(&mut self, status: Option<Option<i32>>, stop_signal: bool) -> (a: ExitAction)
        ensures
            a == watch_action(*old(self), status),
            *final(self) == watch_after(*old(self), status, stop_signal),
    {
        match status {
            Some(code) => ExitAction::Exited(code),
            None => {
                if !self.should_exit {
                    if stop_signal {
                        self.should_exit = true;
                    }
                    ExitAction::KeepWaiting
                } else if self.attempts > 0 {
                    self.attempts = self.attempts - 1;
                    ExitAction::Terminate
                } else {
                    ExitAction::Kill
                }
            },
        }
    }
}

} // verus!
