//! The commands the server runs in its terminals: how a command line is split
//! into a program and its arguments, which command opens a file in an
//! editor, where a program is looked for, how a foreground process is told
//! from the shell, and how resizes are held back while a layout settles.

use crate::encoding::{decimal_chars, push_decimal_usize};
use std::collections::BTreeMap;
use vstd::prelude::*;

verus! {

broadcast use vstd::std_specs::btree::group_btree_axioms, vstd::laws_cmp::group_laws_cmp;

/// A command that a pane runs.
#[derive(Debug, Clone, PartialEq, Eq)]
pub struct RunCommand {
    pub command: String,
    pub args: Vec<String>,
    pub cwd: Option<String>,
    pub hold_on_close: bool,
    pub hold_on_start: bool,
}

/// A file to open in an editor, at a line if one is given.
#[derive(Debug, Clone, PartialEq, Eq)]
pub struct FileToOpen {
    pub path: String,
    pub line_number: Option<usize>,
    pub cwd: Option<String>,
}

/// What a new terminal is for.
pub enum TerminalAction {
    OpenFile(FileToOpen),
    RunCommand(RunCommand),
}

/// The characters `split_ascii_whitespace` splits on.
pub open spec fn is_ascii_whitespace(c: char) -> bool {
    c == ' ' || c == '\t' || c == '\n' || c == '\x0C' || c == '\r'
}

/// The words of `s` from position `i` on, `cur` being the word under way.
pub open spec fn words_from(s: Seq<char>, i: int, cur: Seq<char>) -> Seq<Seq<char>>
    decreases s.len() - i,
{
    if i >= s.len() {
        if cur.len() > 0 {
            seq![cur]
        } else {
            Seq::empty()
        }
    } else if is_ascii_whitespace(s[i]) {
        (if cur.len() > 0 {
            seq![cur]
        } else {
            Seq::empty()
        }) + words_from(s, i + 1, Seq::empty())
    } else {
        words_from(s, i + 1, cur.push(s[i]))
    }
}

/// The non-empty runs of `s` between ASCII whitespace, in order.
pub open spec fn ascii_words(s: Seq<char>) -> Seq<Seq<char>> {
    words_from(s, 0, Seq::empty())
}

/// The parts that words make when a word ending in a backslash is joined
/// to the next one with a space in the backslash's place; `cur` is the
/// part under way (a last part that still ends in a backslash is dropped).
pub open spec fn escaped_from(words: Seq<Seq<char>>, cur: Seq<char>) -> Seq<Seq<char>>
    decreases words.len(),
{
    if words.len() == 0 {
        Seq::empty()
    } else {
        let c = cur + words[0];
        if c.len() > 0 && c.last() == '\\' {
            escaped_from(words.drop_first(), c.drop_last().push(' '))
        } else {
            seq![c] + escaped_from(words.drop_first(), Seq::empty())
        }
    }
}

/// The program and the arguments of a command line.
pub open spec fn command_parts(command: Seq<char>) -> Seq<Seq<char>> {
    escaped_from(ascii_words(command), Seq::empty())
}

pub open spec fn string_views(v: Seq<String>) -> Seq<Seq<char>> {
    v.map_values(|s: String| s@)
}

/// A command line in which no word ends with a backslash splits exactly
/// into its words.
pub proof fn lemma_plain_words_are_parts(words: Seq<Seq<char>>)
    requires
        forall|i: int| 0 <= i < words.len() ==> (#[trigger] words[i]).len() > 0 && words[i].last() != '\\',
    ensures
        escaped_from(words, Seq::empty()) == words,
    decreases words.len(),
{
    if words.len() > 0 {
        let rest = words.drop_first();
        assert forall|i: int| 0 <= i < rest.len() implies (#[trigger] rest[i]).len() > 0 && rest[i].last() != '\\' by {
            assert(rest[i] == words[i + 1]);
        }
        lemma_plain_words_are_parts(rest);
        assert(Seq::<char>::empty() + words[0] =~= words[0]);
        assert(escaped_from(words, Seq::empty()) =~= words);
    }
}

/// Whether a string ends with a backslash.
fn ends_with_backslash(s: &String) -> (b: bool)
    ensures
        b == (s@.len() > 0 && s@.last() == '\\'),
{
    let n = s.as_str().unicode_len();
    n > 0 && s.as_str().get_char(n - 1) == '\\'
}

/// The words of a string, split at ASCII whitespace.
pub fn split_ascii_words(s: &str) -> (words: Vec<String>)
    ensures
        string_views(words@) == ascii_words(s@),
{
    let n = s.unicode_len();
    let mut words: Vec<String> = Vec::new();
    let mut start: usize = 0;
    let mut i: usize = 0;
    proof {
        assert(s@.subrange(0, 0) =~= Seq::<char>::empty());
        assert(string_views(words@) =~= Seq::<Seq<char>>::empty());
        assert(ascii_words(s@) =~= string_views(words@) + words_from(s@, 0, s@.subrange(0, 0)));
    }
    while i < n
        invariant
            n == s@.len(),
            0 <= start <= i <= n,
            forall|j: int| start <= j < i ==> !is_ascii_whitespace(#[trigger] s@[j]),
            ascii_words(s@) == string_views(words@) + words_from(s@, i as int, s@.subrange(start as int, i as int)),
        decreases n - i,
    {
        let c = s.get_char(i);
        if c == ' ' || c == '\t' || c == '\n' || c == '\x0C' || c == '\r' {
            let ghost before = string_views(words@);
            if i > start {
                let w = s.substring_char(start, i).to_string();
                words.push(w);
                proof {
                    assert(string_views(words@) =~= before + seq![s@.subrange(start as int, i as int)]);
                }
            } else {
                proof {
                    assert(s@.subrange(start as int, i as int) =~= Seq::<char>::empty());
                }
            }
            proof {
                assert(s@.subrange(i + 1, i + 1) =~= Seq::<char>::empty());
            }
            start = i + 1;
            i = i + 1;
        } else {
            proof {
                assert(s@.subrange(start as int, i + 1) =~= s@.subrange(start as int, i as int).push(c));
            }
            i = i + 1;
        }
    }
    if i > start {
        let ghost before = string_views(words@);
        let w = s.substring_char(start, i).to_string();
        words.push(w);
        proof {
            assert(string_views(words@) =~= before + seq![s@.subrange(start as int, i as int)]);
        }
    } else {
        proof {
            assert(s@.subrange(start as int, i as int) =~= Seq::<char>::empty());
        }
    }
    proof {
        assert(ascii_words(s@) =~= string_views(words@));
    }
    words
}

/// Splits the arguments off a command line ("/usr/bin/vim -e" gives the
/// program "/usr/bin/vim" and the argument "-e", which is added to `args`);
/// a backslash at the end of a word keeps it together with the next one,
/// with a space between. A command line without words stays as it is.
pub fn separate_command_arguments(command: &mut String, args: &mut Vec<String>)
    ensures
        command_parts(old(command)@).len() == 0 ==> final(command)@ == old(command)@ && final(args)@ == old(args)@,
        command_parts(old(command)@).len() > 0 ==> final(command)@ == command_parts(old(command)@)[0]
            && string_views(final(args)@) == string_views(old(args)@) + command_parts(old(command)@).drop_first(),
{
    let words = split_ascii_words(command.as_str());
    let ghost w = string_views(words@);
    let mut parts: Vec<String> = Vec::new();
    let mut current = String::new();
    let mut k: usize = 0;
    proof {
        assert(w.skip(0) =~= w);
        assert(string_views(parts@) =~= Seq::<Seq<char>>::empty());
        assert(current@ =~= Seq::<char>::empty());
        assert(escaped_from(w, Seq::empty()) =~= string_views(parts@) + escaped_from(w.skip(0), current@));
    }
    while k < words.len()
        invariant
            w == string_views(words@),
            0 <= k <= words@.len(),
            escaped_from(w, Seq::empty()) == string_views(parts@) + escaped_from(w.skip(k as int), current@),
        decreases words@.len() - k,
    {
        let ghost cur0 = current@;
        let ghost before = string_views(parts@);
        current.append(words[k].as_str());
        proof {
            assert(w.skip(k as int).drop_first() =~= w.skip(k + 1));
            assert(w.skip(k as int)[0] == words@[k as int]@);
        }
        if ends_with_backslash(&current) {
            let len = current.as_str().unicode_len();
            let mut joined = current.as_str().substring_char(0, len - 1).to_string();
            joined.append(" ");
            proof {
                reveal_strlit(" ");
                assert(joined@ =~= current@.drop_last().push(' '));
            }
            current = joined;
        } else {
            parts.push(current);
            current = String::new();
            proof {
                assert(string_views(parts@) =~= before + seq![cur0 + words@[k as int]@]);
            }
        }
        k = k + 1;
    }
    proof {
        assert(w.skip(k as int) =~= Seq::<Seq<char>>::empty());
        assert(escaped_from(w, Seq::empty()) =~= string_views(parts@));
    }
    if parts.len() > 0 {
        let first = parts.remove(0);
        let ghost old_args = string_views(args@);
        *command = first;
        let mut j: usize = 0;
        while j < parts.len()
            invariant
                0 <= j <= parts@.len(),
                string_views(args@) == old_args + string_views(parts@).take(j as int),
            decreases parts@.len() - j,
        {
            let ghost a0 = args@;
            let item = parts[j].clone();
            args.push(item);
            proof {
                assert(args@ =~= a0.push(item));
                assert(string_views(args@) =~= string_views(a0).push(item@));
                assert(string_views(parts@).take(j + 1) =~= string_views(parts@).take(j as int).push(parts@[j as int]@));
                assert(string_views(args@) =~= old_args + string_views(parts@).take(j + 1));
            }
            j = j + 1;
        }
        proof {
            assert(string_views(parts@).take(j as int) =~= string_views(parts@));
        }
    }
}

/// What `std::path::Path::join` builds from a base path and a path to
/// adjoin to it.
pub uninterp spec fn joined_path(base: Seq<char>, child: Seq<char>) -> Seq<char>;

/// Whether `std::path::Path::ends_with` finds `child` as the last whole
/// components of `path`.
pub uninterp spec fn path_ends_with(path: Seq<char>, child: Seq<char>) -> bool;

/// A character of the Unicode `White_Space` property, which `str::trim`
/// takes off a string's ends.
pub open spec fn is_unicode_whitespace(c: char) -> bool {
    ||| ('\u{9}' <= c && c <= '\u{d}')
    ||| c == ' '
    ||| c == '\u{85}'
    ||| c == '\u{a0}'
    ||| c == '\u{1680}'
    ||| ('\u{2000}' <= c && c <= '\u{200a}')
    ||| c == '\u{2028}'
    ||| c == '\u{2029}'
    ||| c == '\u{202f}'
    ||| c == '\u{205f}'
    ||| c == '\u{3000}'
}

/// A string without the whitespace at its start.
pub open spec fn trimmed_start(s: Seq<char>) -> Seq<char>
    decreases s.len(),
{
    if s.len() > 0 && is_unicode_whitespace(s[0]) {
        trimmed_start(s.drop_first())
    } else {
        s
    }
}

/// A string without the whitespace at its end.
pub open spec fn trimmed_end(s: Seq<char>) -> Seq<char>
    decreases s.len(),
{
    if s.len() > 0 && is_unicode_whitespace(s.last()) {
        trimmed_end(s.drop_last())
    } else {
        s
    }
}

/// What `str::trim` leaves of a string: the string without the whitespace
/// at its ends.
pub open spec fn trimmed(s: Seq<char>) -> Seq<char> {
    trimmed_end(trimmed_start(s))
}

/// Calls `std::path::Path::join`. The result is what `joined_path` names.
/// As the documentation of `PathBuf::push` says and shows, an absolute path
/// (one that starts with `/`) replaces the base, and a relative path
/// extends a base such as `/tmp` after a separator. What happens with an
/// empty base or one that ends with a separator is not stated.
#[verifier::external_body]
fn join_paths(base: &String, child: &String) -> (r: String)
    ensures
        r@ == joined_path(base@, child@),
        child@.len() > 0 && child@[0] == '/' ==> r@ == child@,
        child@.len() > 0 && child@[0] != '/' && base@.len() > 0 && base@.last() != '/' ==> r@ == base@
            + seq!['/'] + child@,
{
    std::path::Path::new(base.as_str()).join(child.as_str()).to_string_lossy().into_owned()
}

/// Calls `std::path::Path::ends_with`, which compares whole path
/// components; the result is what `path_ends_with` names.
#[verifier::external_body]
fn ends_with_component(path: &String, child: &str) -> (b: bool)
    ensures
        b == path_ends_with(path@, child@),
{
    std::path::Path::new(path.as_str()).ends_with(child)
}

/// Calls `std::path::Path::is_relative`: on Unix, as its documentation
/// says, a path is absolute exactly when it starts with the root `/`.
#[verifier::external_body]
fn is_relative_path(path: &String) -> (b: bool)
    ensures
        b == !(path@.len() > 0 && path@[0] == '/'),
{
    std::path::Path::new(path.as_str()).is_relative()
}

/// Calls `str::trim`, which, as its documentation says, takes the
/// characters of the Unicode `White_Space` property off both ends.
#[verifier::external_body]
fn trim_text(s: &String) -> (t: String)
    ensures
        t@ == trimmed(s@),
{
    s.as_str().trim().to_string()
}

pub open spec fn opt_string_view(o: Option<String>) -> Option<Seq<char>> {
    match o {
        Some(s) => Some(s@),
        None => None,
    }
}

/// The editor that opens files: the configured one, else `$EDITOR`, else
/// `$VISUAL`, else `vi`.
pub fn editor_command(default_editor: Option<String>, editor_var: Option<String>, visual_var: Option<String>) -> (e: String)
    ensures
        e@ == match default_editor {
            Some(d) => d@,
            None => match editor_var {
                Some(v) => v@,
                None => match visual_var {
                    Some(v) => v@,
                    None => "vi"@,
                },
            },
        },
{
    match default_editor {
        Some(d) => d,
        None => match editor_var {
            Some(v) => v,
            None => match visual_var {
                Some(v) => v,
                None => "vi".to_string(),
            },
        },
    }
}

/// Editors that take the line to open at as a `+LINE` argument before the
/// file.
pub open spec fn takes_plus_line(program: Seq<char>) -> bool {
    path_ends_with(program, "vim"@) || path_ends_with(program, "nvim"@) || path_ends_with(program, "emacs"@)
        || path_ends_with(program, "nano"@) || path_ends_with(program, "kak"@)
}

/// Editors that take the line to open at as `FILE:LINE`.
pub open spec fn takes_colon_line(program: Seq<char>) -> bool {
    path_ends_with(program, "hx"@) || path_ends_with(program, "helix"@)
}

/// The file an editor is to open: a relative path is taken from the
/// directory the file was asked for in, when there is one.
pub open spec fn file_to_open_path(f: FileToOpen) -> Seq<char> {
    if !(f.path@.len() > 0 && f.path@[0] == '/') && f.cwd is Some {
        joined_path(f.cwd->0@, f.path@)
    } else {
        f.path@
    }
}

/// The program of the editor command and the arguments it starts with.
pub open spec fn editor_program(editor: Seq<char>, editor_is_dir: bool) -> (Seq<char>, Seq<Seq<char>>) {
    if editor_is_dir || command_parts(editor).len() == 0 {
        (editor, Seq::empty())
    } else {
        (command_parts(editor)[0], command_parts(editor).drop_first())
    }
}

/// The arguments that open a file in an editor, at a line if one is given.
pub open spec fn open_file_args(program: Seq<char>, file: Seq<char>, line: Option<usize>) -> Seq<Seq<char>> {
    match line {
        Some(n) => if takes_plus_line(program) {
            seq!["+"@ + decimal_chars(n as nat), file]
        } else if takes_colon_line(program) {
            seq![file + ":"@ + decimal_chars(n as nat)]
        } else {
            seq![file]
        },
        None => seq![file],
    }
}

/// Adds the words of `extra` to `args`.
fn append_args(args: &mut Vec<String>, extra: Vec<String>)
    ensures
        string_views(final(args)@) == string_views(old(args)@) + string_views(extra@),
{
    let mut j: usize = 0;
    let ghost a0 = string_views(args@);
    while j < extra.len()
        invariant
            0 <= j <= extra@.len(),
            string_views(args@) == a0 + string_views(extra@).take(j as int),
        decreases extra@.len() - j,
    {
        let ghost before = args@;
        let item = extra[j].clone();
        args.push(item);
        proof {
            assert(args@ =~= before.push(item));
            assert(string_views(args@) =~= string_views(before).push(item@));
            assert(string_views(extra@).take(j + 1) =~= string_views(extra@).take(j as int).push(extra@[j as int]@));
        }
        j = j + 1;
    }
    proof {
        assert(string_views(extra@).take(j as int) =~= string_views(extra@));
    }
}

/// The command a new terminal runs, and the command to fall back on if its
/// editor rejects the line argument. A command runs as it is. A file opens
/// in `editor` (split into program and arguments unless `editor_is_dir`,
/// which tells whether that path is a directory): editors that take
/// `+LINE` get it before the file, and then fall back on the file alone;
/// helix gets `FILE:LINE`; any other editor gets just the file.
pub fn build_command(terminal_action: TerminalAction, editor: String, editor_is_dir: bool) -> (r: (
    RunCommand,
    Option<RunCommand>,
))
    ensures
        match terminal_action {
            TerminalAction::RunCommand(c) => r.0 == c && r.1 is None,
            TerminalAction::OpenFile(f) => {
                let (program, pre) = editor_program(editor@, editor_is_dir);
                let file = file_to_open_path(f);
                &&& r.0.command@ == program
                &&& string_views(r.0.args@) == pre + open_file_args(program, file, f.line_number)
                &&& opt_string_view(r.0.cwd) == opt_string_view(f.cwd)
                &&& !r.0.hold_on_close
                &&& !r.0.hold_on_start
                &&& match r.1 {
                    Some(fo) => {
                        &&& f.line_number is Some && takes_plus_line(program)
                        &&& fo.command@ == program
                        &&& string_views(fo.args@) == seq![file]
                        &&& opt_string_view(fo.cwd) == opt_string_view(f.cwd)
                        &&& !fo.hold_on_close
                        &&& !fo.hold_on_start
                    },
                    None => !(f.line_number is Some && takes_plus_line(program)),
                }
            },
        },
{
    match terminal_action {
        TerminalAction::RunCommand(c) => (c, None),
        TerminalAction::OpenFile(payload) => {
            let ghost f = payload;
            let path = if is_relative_path(&payload.path) {
                match &payload.cwd {
                    Some(cwd) => join_paths(cwd, &payload.path),
                    None => payload.path,
                }
            } else {
                payload.path
            };
            let mut command = editor;
            let mut args: Vec<String> = Vec::new();
            if !editor_is_dir {
                separate_command_arguments(&mut command, &mut args);
            }
            proof {
                assert(string_views(args@) =~= editor_program(editor@, editor_is_dir).1);
            }
            let mut failover_args: Option<Vec<String>> = None;
            match payload.line_number {
                Some(line_number) => {
                    let plus = ends_with_component(&command, "vim") || ends_with_component(&command, "nvim")
                        || ends_with_component(&command, "emacs") || ends_with_component(&command, "nano")
                        || ends_with_component(&command, "kak");
                    if plus {
                        let mut fo: Vec<String> = Vec::new();
                        fo.push(path.clone());
                        let mut line_arg = "+".to_string();
                        push_decimal_usize(&mut line_arg, line_number);
                        let mut extra: Vec<String> = Vec::new();
                        extra.push(line_arg);
                        extra.push(path);
                        proof {
                            reveal_strlit("+");
                            assert(string_views(fo@) =~= seq![file_to_open_path(f)]);
                            assert(string_views(extra@) =~= open_file_args(command@, file_to_open_path(f), f.line_number));
                        }
                        append_args(&mut args, extra);
                        failover_args = Some(fo);
                    } else if ends_with_component(&command, "hx") || ends_with_component(&command, "helix") {
                        let mut arg = path;
                        arg.append(":");
                        push_decimal_usize(&mut arg, line_number);
                        let mut extra: Vec<String> = Vec::new();
                        extra.push(arg);
                        proof {
                            reveal_strlit(":");
                            assert(string_views(extra@) =~= open_file_args(command@, file_to_open_path(f), f.line_number));
                        }
                        append_args(&mut args, extra);
                    } else {
                        let mut extra: Vec<String> = Vec::new();
                        extra.push(path);
                        proof {
                            assert(string_views(extra@) =~= open_file_args(command@, file_to_open_path(f), f.line_number));
                        }
                        append_args(&mut args, extra);
                    }
                },
                None => {
                    let mut extra: Vec<String> = Vec::new();
                    extra.push(path);
                    proof {
                        assert(string_views(extra@) =~= open_file_args(command@, file_to_open_path(f), f.line_number));
                    }
                    append_args(&mut args, extra);
                },
            }
            let failover = match failover_args {
                Some(fo) => Some(
                    RunCommand {
                        command: command.clone(),
                        args: fo,
                        cwd: match &payload.cwd {
                            Some(c) => Some(c.clone()),
                            None => None,
                        },
                        hold_on_close: false,
                        hold_on_start: false,
                    },
                ),
                None => None,
            };
            let cmd = RunCommand { command, args, cwd: payload.cwd, hold_on_close: false, hold_on_start: false };
            (cmd, failover)
        },
    }
}

/// The places a command's program is looked for, in order: the command in
/// its working directory (or as given, without one), then in each
/// directory of the search path.
pub fn command_candidates(cmd: &RunCommand, path_dirs: &Vec<String>) -> (c: Vec<String>)
    ensures
        c@.len() == path_dirs@.len() + 1,
        c@[0]@ == match cmd.cwd {
            Some(cwd) => joined_path(cwd@, cmd.command@),
            None => cmd.command@,
        },
        forall|i: int| 0 <= i < path_dirs@.len() ==> #[trigger] c@[i + 1]@ == joined_path(path_dirs@[i]@, cmd.command@),
{
    let mut c: Vec<String> = Vec::new();
    match &cmd.cwd {
        Some(cwd) => c.push(join_paths(cwd, &cmd.command)),
        None => c.push(cmd.command.clone()),
    }
    let mut i: usize = 0;
    while i < path_dirs.len()
        invariant
            0 <= i <= path_dirs@.len(),
            c@.len() == i + 1,
            c@[0]@ == match cmd.cwd {
                Some(cwd) => joined_path(cwd@, cmd.command@),
                None => cmd.command@,
            },
            forall|k: int| 0 <= k < i ==> #[trigger] c@[k + 1]@ == joined_path(path_dirs@[k]@, cmd.command@),
        decreases path_dirs@.len() - i,
    {
        c.push(join_paths(&path_dirs[i], &cmd.command));
        i = i + 1;
    }
    c
}

/// The words joined with single spaces.
pub open spec fn spaced(words: Seq<Seq<char>>) -> Seq<char>
    decreases words.len(),
{
    if words.len() == 0 {
        Seq::empty()
    } else if words.len() == 1 {
        words[0]
    } else {
        spaced(words.drop_last()) + " "@ + words.last()
    }
}

/// A command line as one string, its words separated by spaces (what a
/// post-command hook is given).
pub fn command_line(command: &Vec<String>) -> (s: String)
    ensures
        s@ == spaced(string_views(command@)),
{
    let mut s = String::new();
    let mut i: usize = 0;
    proof {
        assert(string_views(command@).take(0) =~= Seq::<Seq<char>>::empty());
    }
    while i < command.len()
        invariant
            0 <= i <= command@.len(),
            s@ == spaced(string_views(command@).take(i as int)),
        decreases command@.len() - i,
    {
        let ghost prefix = string_views(command@).take(i as int);
        if i > 0 {
            s.append(" ");
        }
        s.append(command[i].as_str());
        proof {
            reveal_strlit(" ");
            let next = string_views(command@).take(i + 1);
            assert(next.drop_last() =~= prefix);
            if i == 0 {
                assert(s@ =~= spaced(next));
            } else {
                assert(s@ =~= spaced(next));
            }
        }
        i = i + 1;
    }
    proof {
        assert(string_views(command@).take(i as int) =~= string_views(command@));
    }
    s
}

/// The command recorded for a pane after its post-command hook: without a
/// hook the command as found; else the words of what the hook printed, or
/// of the command line itself when the hook failed.
pub fn apply_post_command_hook(command: Vec<String>, hook_output: Option<Result<String, String>>) -> (c: Vec<String>)
    ensures
        string_views(c@) == match hook_output {
            None => string_views(command@),
            Some(Ok(out)) => ascii_words(trimmed(out@)),
            Some(Err(_)) => ascii_words(trimmed(spaced(string_views(command@)))),
        },
{
    match hook_output {
        None => command,
        Some(Ok(out)) => {
            let t = trim_text(&out);
            split_ascii_words(t.as_str())
        },
        Some(Err(_)) => {
            let line = command_line(&command);
            let t = trim_text(&line);
            split_ascii_words(t.as_str())
        },
    }
}

/// The process a terminal runs in its foreground, when that is not its
/// shell: the foreground process group, if there is one (above zero) and
/// it is not the shell's.
pub fn foreground_pid(foreground_group: Option<i32>, shell_pid: u32) -> (p: Option<u32>)
    ensures
        p == match foreground_group {
            Some(g) => if g > 0 && g != shell_pid {
                Some(g as u32)
            } else {
                None
            },
            None => None,
        },
{
    match foreground_group {
        Some(g) => {
            if g > 0 && (g as u32) != shell_pid {
                Some(g as u32)
            } else {
                None
            }
        },
        None => None,
    }
}

/// The resizes held back while a layout settles.
pub struct ResizeRequests {
    /// While resizes are held back, the last size asked for each terminal:
    /// columns, rows, and the width and height in pixels when known.
    pub cached_resizes: Option<BTreeMap<u32, (u16, u16, Option<u16>, Option<u16>)>>,
    /// The resize requests held back since holding started, in order.
    pub requests: Ghost<Seq<(u32, (u16, u16, Option<u16>, Option<u16>))>>,
}

impl ResizeRequests {
    /// The held sizes are those of the requests held back, the last request
    /// for a terminal winning; with nothing held back there are no requests.
    pub open spec fn wf(&self) -> bool {
        match self.cached_resizes {
            Some(m) => m@ == held_after(Map::empty(), self.requests@),
            None => self.requests@.len() == 0,
        }
    }

    /// Resizes apply at once.
    pub fn new() -> (r: Self)
        ensures
            r.cached_resizes is None,
            r.wf(),
    {
        ResizeRequests { cached_resizes: None, requests: Ghost(Seq::empty()) }
    }

    /// Starts holding resizes back (keeping those already held).
    pub fn cache_resizes(&mut self)
        ensures
            match old(self).cached_resizes {
                Some(m) => final(self).cached_resizes matches Some(n) && n@ == m@,
                None => final(self).cached_resizes matches Some(n) && n@ == Map::<u32, (u16, u16, Option<u16>, Option<u16>)>::empty(),
            },
            old(self).wf() ==> final(self).wf() && final(self).requests@ == old(self).requests@,
    {
        if self.cached_resizes.is_none() {
            self.cached_resizes = Some(BTreeMap::new());
            self.requests = Ghost(Seq::empty());
            proof {
                assert(held_after(Map::empty(), self.requests@) =~= Map::empty());
                if old(self).wf() {
                    assert(old(self).requests@ =~= self.requests@);
                }
            }
        }
    }

    /// A terminal is to get a size. Returns whether it is held back (the
    /// last size asked for a terminal is the one that applies); otherwise
    /// the caller resizes the terminal now.
    pub fn set_terminal_size_using_terminal_id(
        &mut self,
        id: u32,
        cols: u16,
        rows: u16,
        width_in_pixels: Option<u16>,
        height_in_pixels: Option<u16>,
    ) -> (held: bool)
        ensures
            held == old(self).cached_resizes is Some,
            match old(self).cached_resizes {
                Some(m) => final(self).cached_resizes matches Some(n) && n@ == m@.insert(
                    id,
                    (cols, rows, width_in_pixels, height_in_pixels),
                ),
                None => final(self).cached_resizes is None,
            },
            old(self).wf() ==> final(self).wf(),
            final(self).requests@ == if held {
                old(self).requests@.push((id, (cols, rows, width_in_pixels, height_in_pixels)))
            } else {
                old(self).requests@
            },
    {
        let ghost r0 = self.requests@;
        match &mut self.cached_resizes {
            Some(m) => {
                m.insert(id, (cols, rows, width_in_pixels, height_in_pixels));
                self.requests = Ghost(r0.push((id, (cols, rows, width_in_pixels, height_in_pixels))));
                proof {
                    let r1 = self.requests@;
                    assert(r1.drop_last() =~= r0);
                }
                true
            },
            None => false,
        }
    }

    /// Stops holding resizes back and hands over the held ones (the caller
    /// applies them, terminal by terminal in ascending order).
    pub fn apply_cached_resizes(&mut self) -> (held: Option<BTreeMap<u32, (u16, u16, Option<u16>, Option<u16>)>>)
        ensures
            final(self).cached_resizes is None,
            match (held, old(self).cached_resizes) {
                (Some(h), Some(m)) => h@ == m@,
                (None, None) => true,
                _ => false,
            },
            old(self).wf() ==> final(self).wf(),
            old(self).wf() ==> (held matches Some(h) ==> h@ == held_after(Map::empty(), old(self).requests@)),
    {
        self.requests = Ghost(Seq::empty());
        self.cached_resizes.take()
    }
}

/// While resizes are held back, only the last size asked for a terminal
/// applies: asking again for the same terminal replaces the earlier size,
/// and the sizes held for other terminals stay.
pub proof fn lemma_last_resize_wins(
    held: Map<u32, (u16, u16, Option<u16>, Option<u16>)>,
    id: u32,
    first: (u16, u16, Option<u16>, Option<u16>),
    last: (u16, u16, Option<u16>, Option<u16>),
    other: u32,
)
    ensures
        held.insert(id, first).insert(id, last) == held.insert(id, last),
        other != id ==> held.insert(id, first).insert(id, last).dom().contains(other) == held.dom().contains(other),
        other != id && held.dom().contains(other) ==> held.insert(id, first).insert(id, last)[other] == held[other],
{
    assert(held.insert(id, first).insert(id, last) =~= held.insert(id, last));
}


/// The sizes held back after resize requests, from the held sizes `held`:
/// each request for a terminal replaces what was held for it.
pub open spec fn held_after(
    held: Map<u32, (u16, u16, Option<u16>, Option<u16>)>,
    requests: Seq<(u32, (u16, u16, Option<u16>, Option<u16>))>,
) -> Map<u32, (u16, u16, Option<u16>, Option<u16>)>
    decreases requests.len(),
{
    if requests.len() == 0 {
        held
    } else {
        held_after(held, requests.drop_last()).insert(requests.last().0, requests.last().1)
    }
}

/// After resizes start being held back (with none held), a run of resize
/// requests leaves held exactly one size for each terminal asked for, the
/// size of the last request for it; `apply_cached_resizes` hands over
/// these and nothing else (its contract gives the held sizes as
/// `held_after(Map::empty(), requests)` over the requests made since
/// holding started).
pub proof fn lemma_only_the_last_resize_per_terminal_applies(
    requests: Seq<(u32, (u16, u16, Option<u16>, Option<u16>))>,
)
    ensures
        forall|id: u32|
            #[trigger] held_after(Map::empty(), requests).dom().contains(id) <==> exists|k: int|
                0 <= k < requests.len() && (#[trigger] requests[k]).0 == id,
        forall|k: int|
            0 <= k < requests.len() && (forall|j: int| k < j < requests.len() ==> (#[trigger] requests[j]).0 != requests[k].0)
                ==> held_after(Map::empty(), requests)[(#[trigger] requests[k]).0] == requests[k].1,
    decreases requests.len(),
{
    if requests.len() > 0 {
        let init = requests.drop_last();
        lemma_only_the_last_resize_per_terminal_applies(init);
        let last = requests.last();
        let m = held_after(Map::empty(), requests);
        assert forall|id: u32|
            #[trigger] m.dom().contains(id) <==> exists|k: int| 0 <= k < requests.len() && (#[trigger] requests[k]).0 == id by {
            if m.dom().contains(id) {
                if id == last.0 {
                    assert(requests[requests.len() - 1].0 == id);
                } else {
                    assert(m == held_after(Map::empty(), init).insert(last.0, last.1));
                    assert(held_after(Map::empty(), init).dom().contains(id));
                    let k = choose|k: int| 0 <= k < init.len() && (#[trigger] init[k]).0 == id;
                    assert(requests[k] == init[k]);
                }
            }
            if exists|k: int| 0 <= k < requests.len() && (#[trigger] requests[k]).0 == id {
                let k = choose|k: int| 0 <= k < requests.len() && (#[trigger] requests[k]).0 == id;
                assert(m == held_after(Map::empty(), init).insert(last.0, last.1));
                if k < init.len() {
                    assert(init[k] == requests[k]);
                    assert(held_after(Map::empty(), init).dom().contains(id));
                }
            }
        }
        assert forall|k: int|
            0 <= k < requests.len() && (forall|j: int| k < j < requests.len() ==> (#[trigger] requests[j]).0 != requests[k].0)
                implies m[(#[trigger] requests[k]).0] == requests[k].1 by {
            assert(m == held_after(Map::empty(), init).insert(last.0, last.1));
            if k < requests.len() - 1 {
                assert(requests[requests.len() - 1].0 != requests[k].0);
                assert(init[k] == requests[k]);
                assert forall|j: int| k < j < init.len() implies (#[trigger] init[j]).0 != init[k].0 by {
                    assert(init[j] == requests[j]);
                }
            }
        }
    }
}


/// The found command of a terminal, kept when its foreground process was
/// found and has a command line.
pub open spec fn kept_command(f: (u32, Option<Vec<String>>)) -> Seq<(u32, Vec<String>)> {
    match f.1 {
        Some(c) => if c@.len() > 0 {
            seq![(f.0, c)]
        } else {
            Seq::empty()
        },
        None => Seq::empty(),
    }
}

/// The found commands that are kept, in order.
pub open spec fn kept_commands(found: Seq<(u32, Option<Vec<String>>)>) -> Seq<(u32, Vec<String>)>
    decreases found.len(),
{
    if found.len() == 0 {
        Seq::empty()
    } else {
        kept_command(found[0]) + kept_commands(found.drop_first())
    }
}

/// The foreground commands of the terminals, from what was found for each
/// terminal: the command line of its foreground process, or `None` where
/// the process could not be read. Terminals whose process was not found or
/// has an empty command line are left out.
pub fn found_foreground_commands(found: Vec<(u32, Option<Vec<String>>)>) -> (cmds: Vec<(u32, Vec<String>)>)
    ensures
        cmds@ == kept_commands(found@),
{
    let ghost orig = found@;
    let mut found = found;
    let mut cmds: Vec<(u32, Vec<String>)> = Vec::new();
    while found.len() > 0
        invariant
            cmds@ + kept_commands(found@) == kept_commands(orig),
        decreases found@.len(),
    {
        let ghost cur = found@;
        let (terminal_id, command) = found.remove(0);
        assert(found@ == cur.drop_first());
        let ghost before = cmds@;
        match command {
            Some(c) => {
                if c.len() > 0 {
                    cmds.push((terminal_id, c));
                    assert(cmds@ + kept_commands(found@) =~= before + kept_commands(cur));
                } else {
                    assert(cmds@ + kept_commands(found@) =~= before + kept_commands(cur));
                }
            },
            None => {
                assert(cmds@ + kept_commands(found@) =~= before + kept_commands(cur));
            },
        }
    }
    assert(cmds@ + kept_commands(found@) =~= cmds@);
    cmds
}


/// Whatever calls were made since holding resizes back started, the sizes
/// held (and handed over by `apply_cached_resizes`) are exactly one per
/// terminal asked for, that of the last request for it.
pub proof fn lemma_held_resizes_are_the_last_requests(r: ResizeRequests)
    requires
        r.wf(),
        r.cached_resizes is Some,
    ensures
        forall|id: u32|
            #[trigger] r.cached_resizes->0@.dom().contains(id) <==> exists|k: int|
                0 <= k < r.requests@.len() && (#[trigger] r.requests@[k]).0 == id,
        forall|k: int|
            0 <= k < r.requests@.len() && (forall|j: int| k < j < r.requests@.len() ==> (#[trigger] r.requests@[j]).0
                != r.requests@[k].0) ==> r.cached_resizes->0@[(#[trigger] r.requests@[k]).0] == r.requests@[k].1,
{
    lemma_only_the_last_resize_per_terminal_applies(r.requests@);
}


/// An editor whose program is `vim`, `nvim`, `emacs`, `nano` or `kak` (as the
/// last component of its path) opens a file at line `n` with the arguments
/// `+n` and the file, and falls back on the file alone: `build_command`
/// gives it those arguments after its own and a fallback command.
pub proof fn lemma_plus_line_editors_get_the_line(program: Seq<char>, name: Seq<char>, file: Seq<char>, n: usize)
    requires
        name == "vim"@ || name == "nvim"@ || name == "emacs"@ || name == "nano"@ || name == "kak"@,
        path_ends_with(program, name),
    ensures
        takes_plus_line(program),
        open_file_args(program, file, Some(n)) == seq!["+"@ + decimal_chars(n as nat), file],
{
}


/// Helix (`hx` or `helix` as the last component of its path) opens a file
/// at line `n` with the single argument `FILE:n`; with no line any editor
/// gets just the file.
pub proof fn lemma_helix_gets_file_colon_line(program: Seq<char>, name: Seq<char>, file: Seq<char>, n: usize)
    requires
        name == "hx"@ || name == "helix"@,
        path_ends_with(program, name),
        !takes_plus_line(program),
    ensures
        takes_colon_line(program),
        open_file_args(program, file, Some(n)) == seq![file + ":"@ + decimal_chars(n as nat)],
        open_file_args(program, file, None) == seq![file],
{
}

} // verus!
