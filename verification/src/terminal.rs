//! Text terminal / command shell: a scrollback ring, an editable input line
//! with a caret, and a small command interpreter. Effects are returned as an
//! [`Action`] so the kernel decides how to react (e.g. opening the editor).
use vstd::prelude::*;
use crate::bytes::{
    bytes_eq, is_skip_end, is_word_end, skip_space, skip_spaces, to_vec, trim, trim_spec,
    upper_spec, word_end, word_len, ascii_upper, push_all,
};
use crate::keymap::Key;
use vstd::string::StringSliceAdditionalSpecFns;

verus! {

/// Visible columns per line.
pub const COLS: usize = 40;
/// Scrollback rows kept in the ring.
pub const ROWS: usize = 14;
/// Max characters typed on the input line.
pub const INPUT_MAX: usize = 32;
/// Maximum file-name length carried by a terminal action.
pub const FNAME_MAX: usize = 16;

/// The command prompt prefix.
pub fn prompt() -> (p: &'static [u8])
    ensures
        p@ == prompt_spec(),
{
    "OSJEFF> ".as_bytes()
}

pub open spec fn prompt_spec() -> Seq<u8> {
    "OSJEFF> ".spec_bytes()
}

/// A clock reading injected into time-dependent commands.
#[derive(Clone, Copy, PartialEq, Eq, Debug, Default, Structural)]
pub struct Time {
    pub h: u8,
    pub m: u8,
    pub s: u8,
}

/// A bounded file name parsed from a command argument.
#[derive(Clone, PartialEq, Eq, Debug)]
pub struct FileName {
    bytes: Vec<u8>,
}

impl View for FileName {
    type V = Seq<u8>;

    closed spec fn view(&self) -> Seq<u8> {
        self.bytes@
    }
}

/// The name a command argument denotes: the trimmed argument, when it is
/// non-empty and at most [`FNAME_MAX`] bytes.
pub open spec fn file_name_of(arg: Seq<u8>) -> Option<Seq<u8>> {
    let t = trim_spec(arg);
    if t.len() == 0 || t.len() > FNAME_MAX { None } else { Some(t) }
}

impl FileName {
    /// Parse `arg` (trimmed here) into a name, or `None` if it is empty or
    /// too long.
    pub fn parse(arg: &[u8]) -> (r: Option<Self>)
        ensures
            match r {
                Some(f) => file_name_of(arg@) == Some(f@),
                None => file_name_of(arg@) is None,
            },
    {
        let t = trim(arg);
        if t.len() == 0 || t.len() > FNAME_MAX {
            return None;
        }
        Some(FileName { bytes: to_vec(t) })
    }

    pub fn as_bytes(&self) -> (s: &[u8])
        ensures
            s@ == self@,
    {
        self.bytes.as_slice()
    }
}

/// Side effect requested by the terminal after handling input. Filesystem
/// actions are executed by the desktop (which owns the disk) and their output
/// is printed back via [`Terminal::println`].
#[derive(Clone, PartialEq, Eq, Debug)]
pub enum Action {
    Nothing,
    OpenEditor,
    OpenTasks,
    OpenCalc,
    Reboot,
    Shutdown,
    List,
    Save(FileName),
    Load(FileName),
    Cat(FileName),
    Remove(FileName),
}

/// What an [`Action`] asks for, with file names as byte sequences.
pub enum ActionView {
    Nothing,
    OpenEditor,
    OpenTasks,
    OpenCalc,
    Reboot,
    Shutdown,
    List,
    Save(Seq<u8>),
    Load(Seq<u8>),
    Cat(Seq<u8>),
    Remove(Seq<u8>),
}

impl View for Action {
    type V = ActionView;

    open spec fn view(&self) -> ActionView {
        match self {
            Action::Nothing => ActionView::Nothing,
            Action::OpenEditor => ActionView::OpenEditor,
            Action::OpenTasks => ActionView::OpenTasks,
            Action::OpenCalc => ActionView::OpenCalc,
            Action::Reboot => ActionView::Reboot,
            Action::Shutdown => ActionView::Shutdown,
            Action::List => ActionView::List,
            Action::Save(f) => ActionView::Save(f@),
            Action::Load(f) => ActionView::Load(f@),
            Action::Cat(f) => ActionView::Cat(f@),
            Action::Remove(f) => ActionView::Remove(f@),
        }
    }
}

// ---- scrollback model ----

/// The first `n` bytes of `s` (all of it when shorter).
pub open spec fn clip(s: Seq<u8>, n: int) -> Seq<u8> {
    if s.len() <= n { s } else { s.subrange(0, n) }
}

/// Scrollback after appending one row (clipped to [`COLS`]); the oldest row
/// scrolls away once [`ROWS`] are kept.
pub open spec fn push_row(lines: Seq<Seq<u8>>, b: Seq<u8>) -> Seq<Seq<u8>> {
    let row = clip(b, COLS as int);
    if lines.len() < ROWS { lines.push(row) } else { lines.drop_first().push(row) }
}

/// Scrollback after printing `text`, wrapped at [`COLS`]; empty text prints
/// one blank row.
pub open spec fn print_spec(lines: Seq<Seq<u8>>, text: Seq<u8>) -> Seq<Seq<u8>>
    decreases text.len(),
{
    if text.len() <= COLS {
        push_row(lines, text)
    } else {
        print_spec(push_row(lines, text.subrange(0, COLS as int)), text.subrange(COLS as int, text.len() as int))
    }
}

/// The scrollback invariant: at most [`ROWS`] rows of at most [`COLS`] bytes.
pub open spec fn lines_ok(lines: Seq<Seq<u8>>) -> bool {
    &&& lines.len() <= ROWS
    &&& forall|i: int| 0 <= i < lines.len() ==> #[trigger] lines[i].len() <= COLS
}

// ---- command interpreter model ----

/// The command word: at most eight bytes of the first word, upper-cased.
pub open spec fn token_spec(cmd: Seq<u8>) -> Seq<u8> {
    let n = word_end(cmd);
    cmd.subrange(0, if n < 8 { n } else { 8 }).map_values(|c: u8| upper_spec(c))
}

/// Everything after the first word and the spaces that follow it.
pub open spec fn rest_spec(cmd: Seq<u8>) -> Seq<u8> {
    cmd.subrange(skip_spaces(cmd, word_end(cmd)), cmd.len() as int)
}

/// Which file action a file command builds.
pub enum FileCmd {
    Save,
    Load,
    Cat,
    Remove,
}

pub open spec fn file_action_view(kind: FileCmd, f: Seq<u8>) -> ActionView {
    match kind {
        FileCmd::Save => ActionView::Save(f),
        FileCmd::Load => ActionView::Load(f),
        FileCmd::Cat => ActionView::Cat(f),
        FileCmd::Remove => ActionView::Remove(f),
    }
}

/// A file command: the action for a valid name, else a usage hint.
pub open spec fn file_cmd_spec(lines: Seq<Seq<u8>>, arg: Seq<u8>, kind: FileCmd) -> (Seq<Seq<u8>>, ActionView) {
    match file_name_of(arg) {
        Some(f) => (lines, file_action_view(kind, f)),
        None => (print_spec(lines, "usage: <cmd> <name>".spec_bytes()), ActionView::Nothing),
    }
}

/// Two decimal digits of `v` (its tens and units).
pub open spec fn two_digits(v: u8) -> Seq<u8> {
    seq![(0x30 + (v / 10) % 10) as u8, (0x30 + v % 10) as u8]
}

/// The `TIME` line: `Now hh:mm:ss`.
pub open spec fn time_line(t: Time) -> Seq<u8> {
    "Now ".spec_bytes() + two_digits(t.h) + seq![0x3Au8] + two_digits(t.m) + seq![0x3Au8] + two_digits(t.s)
}

/// The number two ASCII digits `d0 d1` stand for.
pub open spec fn read_two(d0: u8, d1: u8) -> int {
    (d0 - 0x30) * 10 + (d1 - 0x30)
}

/// The two digits printed for any value below one hundred are decimal
/// digits that read back as that value.
pub proof fn lemma_two_digits_read_back(v: u8)
    requires
        v < 100,
    ensures
        two_digits(v).len() == 2,
        0x30 <= two_digits(v)[0] <= 0x39,
        0x30 <= two_digits(v)[1] <= 0x39,
        read_two(two_digits(v)[0], two_digits(v)[1]) == v,
{
}

/// The `TIME` line reads back as the time it was made from: `Now `, then
/// the hours, minutes and seconds as two digits each, colon-separated.
pub proof fn lemma_time_line_reads_back(t: Time)
    requires
        t.h < 100,
        t.m < 100,
        t.s < 100,
    ensures
        ({
            let l = time_line(t);
            &&& l.len() == 12
            &&& l.subrange(0, 4) == "Now ".spec_bytes()
            &&& l[6] == 0x3A && l[9] == 0x3A
            &&& read_two(l[4], l[5]) == t.h
            &&& read_two(l[7], l[8]) == t.m
            &&& read_two(l[10], l[11]) == t.s
        }),
{
    lemma_two_digits_read_back(t.h);
    lemma_two_digits_read_back(t.m);
    lemma_two_digits_read_back(t.s);
    reveal_strlit("Now ");
    assert(vstd::string::is_ascii("Now "));
    assert("Now ".spec_bytes().len() == 4);
    let l = time_line(t);
    assert(l.subrange(0, 4) =~= "Now ".spec_bytes());
}

pub open spec fn help_spec(lines: Seq<Seq<u8>>) -> Seq<Seq<u8>> {
    print_spec(print_spec(print_spec(print_spec(print_spec(lines,
        "Commands:".spec_bytes()),
        " HELP CLS TIME VER ECHO".spec_bytes()),
        " EDIT CALC PS LS CAT".spec_bytes()),
        " SAVE LOAD RM REBOOT SHUTDOWN".spec_bytes()),
        "LS/CAT/SAVE/LOAD/RM = files".spec_bytes())
}

/// A shell command, named by its word.
#[derive(PartialEq, Eq, Structural)]
pub enum Command {
    Help,
    List,
    Save,
    Load,
    Cat,
    Remove,
    Tasks,
    Calc,
    Reboot,
    Shutdown,
    Clear,
    Ver,
    Time,
    Echo,
    Edit,
    Unknown,
}

/// The command a (upper-cased) command word names; several words have aliases.
pub open spec fn command_of(tok: Seq<u8>) -> Command {
    if tok == "HELP".spec_bytes() {
        Command::Help
    } else if tok == "LS".spec_bytes() || tok == "DIR".spec_bytes() {
        Command::List
    } else if tok == "SAVE".spec_bytes() {
        Command::Save
    } else if tok == "LOAD".spec_bytes() || tok == "OPEN".spec_bytes() {
        Command::Load
    } else if tok == "CAT".spec_bytes() || tok == "TYPE".spec_bytes() {
        Command::Cat
    } else if tok == "RM".spec_bytes() || tok == "DEL".spec_bytes() {
        Command::Remove
    } else if tok == "PS".spec_bytes() || tok == "TASK".spec_bytes() || tok == "TASKS".spec_bytes() {
        Command::Tasks
    } else if tok == "CALC".spec_bytes() {
        Command::Calc
    } else if tok == "REBOOT".spec_bytes() || tok == "RESTART".spec_bytes() {
        Command::Reboot
    } else if tok == "SHUTDOWN".spec_bytes() || tok == "POWEROFF".spec_bytes() {
        Command::Shutdown
    } else if tok == "CLS".spec_bytes() || tok == "CLEAR".spec_bytes() {
        Command::Clear
    } else if tok == "VER".spec_bytes() || tok == "ABOUT".spec_bytes() {
        Command::Ver
    } else if tok == "TIME".spec_bytes() {
        Command::Time
    } else if tok == "ECHO".spec_bytes() {
        Command::Echo
    } else if tok == "EDIT".spec_bytes() || tok == "EDITOR".spec_bytes() {
        Command::Edit
    } else {
        Command::Unknown
    }
}

/// Run one command line: the resulting scrollback and the requested action.
pub open spec fn run_spec(lines: Seq<Seq<u8>>, raw: Seq<u8>, t: Time) -> (Seq<Seq<u8>>, ActionView) {
    let cmd = trim_spec(raw);
    let rest = rest_spec(cmd);
    if cmd.len() == 0 {
        (lines, ActionView::Nothing)
    } else {
        match command_of(token_spec(cmd)) {
            Command::Help => (help_spec(lines), ActionView::Nothing),
            Command::List => (lines, ActionView::List),
            Command::Save => file_cmd_spec(lines, rest, FileCmd::Save),
            Command::Load => file_cmd_spec(lines, rest, FileCmd::Load),
            Command::Cat => file_cmd_spec(lines, rest, FileCmd::Cat),
            Command::Remove => file_cmd_spec(lines, rest, FileCmd::Remove),
            Command::Tasks => (print_spec(lines, "Opening task manager...".spec_bytes()), ActionView::OpenTasks),
            Command::Calc => (print_spec(lines, "Launching calculator...".spec_bytes()), ActionView::OpenCalc),
            Command::Reboot => (print_spec(lines, "Rebooting...".spec_bytes()), ActionView::Reboot),
            Command::Shutdown => (print_spec(lines, "Shutting down...".spec_bytes()), ActionView::Shutdown),
            Command::Clear => (Seq::empty(), ActionView::Nothing),
            Command::Ver => (print_spec(lines, "OSJEFF 0.2 - Rust bare metal".spec_bytes()), ActionView::Nothing),
            Command::Time => (print_spec(lines, time_line(t)), ActionView::Nothing),
            Command::Echo => (print_spec(lines, rest), ActionView::Nothing),
            Command::Edit => (print_spec(lines, "Launching editor...".spec_bytes()), ActionView::OpenEditor),
            Command::Unknown => (print_spec(lines, "Unknown command. Type HELP.".spec_bytes()), ActionView::Nothing),
        }
    }
}

/// The command an input line runs: none for a blank line.
pub open spec fn command_in_spec(raw: Seq<u8>) -> Option<Command> {
    let cmd = trim_spec(raw);
    if cmd.len() == 0 {
        None
    } else {
        Some(command_of(token_spec(cmd)))
    }
}

/// The command ENTER would run on the input line `raw`.
pub fn command_in(raw: &[u8]) -> (c: Option<Command>)
    ensures
        c == command_in_spec(raw@),
{
    let cmd = trim(raw);
    if cmd.len() == 0 {
        return None;
    }
    let n = word_len(cmd);
    let m = if n < 8 { n } else { 8 };
    let mut tok: Vec<u8> = Vec::new();
    let mut i: usize = 0;
    while i < m
        invariant
            m <= n,
            n <= cmd@.len(),
            i <= m,
            tok@ == cmd@.subrange(0, i as int).map_values(|c: u8| upper_spec(c)),
        decreases m - i,
    {
        tok.push(ascii_upper(cmd[i]));
        i += 1;
        assert(tok@ =~= cmd@.subrange(0, i as int).map_values(|c: u8| upper_spec(c)));
    }
    assert(tok@ == token_spec(cmd@));
    Some(classify(tok.as_slice()))
}

/// Name the command a command word denotes.
fn classify(token: &[u8]) -> (c: Command)
    ensures
        c == command_of(token@),
{
    if bytes_eq(token, "HELP".as_bytes()) {
        Command::Help
    } else if bytes_eq(token, "LS".as_bytes()) || bytes_eq(token, "DIR".as_bytes()) {
        Command::List
    } else if bytes_eq(token, "SAVE".as_bytes()) {
        Command::Save
    } else if bytes_eq(token, "LOAD".as_bytes()) || bytes_eq(token, "OPEN".as_bytes()) {
        Command::Load
    } else if bytes_eq(token, "CAT".as_bytes()) || bytes_eq(token, "TYPE".as_bytes()) {
        Command::Cat
    } else if bytes_eq(token, "RM".as_bytes()) || bytes_eq(token, "DEL".as_bytes()) {
        Command::Remove
    } else if bytes_eq(token, "PS".as_bytes()) || bytes_eq(token, "TASK".as_bytes()) || bytes_eq(
        token,
        "TASKS".as_bytes(),
    ) {
        Command::Tasks
    } else if bytes_eq(token, "CALC".as_bytes()) {
        Command::Calc
    } else if bytes_eq(token, "REBOOT".as_bytes()) || bytes_eq(token, "RESTART".as_bytes()) {
        Command::Reboot
    } else if bytes_eq(token, "SHUTDOWN".as_bytes()) || bytes_eq(token, "POWEROFF".as_bytes()) {
        Command::Shutdown
    } else if bytes_eq(token, "CLS".as_bytes()) || bytes_eq(token, "CLEAR".as_bytes()) {
        Command::Clear
    } else if bytes_eq(token, "VER".as_bytes()) || bytes_eq(token, "ABOUT".as_bytes()) {
        Command::Ver
    } else if bytes_eq(token, "TIME".as_bytes()) {
        Command::Time
    } else if bytes_eq(token, "ECHO".as_bytes()) {
        Command::Echo
    } else if bytes_eq(token, "EDIT".as_bytes()) || bytes_eq(token, "EDITOR".as_bytes()) {
        Command::Edit
    } else {
        Command::Unknown
    }
}


/// The terminal as seen by its contract: the scrollback rows, the input line
/// and the caret within it.
pub struct TermState {
    pub lines: Seq<Seq<u8>>,
    pub input: Seq<u8>,
    pub caret: int,
}

pub open spec fn term_ok(s: TermState) -> bool {
    &&& lines_ok(s.lines)
    &&& s.input.len() <= INPUT_MAX
    &&& 0 <= s.caret <= s.input.len()
}

/// Pressing ENTER: echo the prompt and the input, clear the input, run it.
pub open spec fn submit_spec(s: TermState, t: Time) -> (TermState, ActionView) {
    let echoed = print_spec(s.lines, prompt_spec() + s.input);
    let (lines, act) = run_spec(echoed, s.input, t);
    (TermState { lines, input: Seq::empty(), caret: 0 }, act)
}

/// The effect of one key press on the terminal, and the action it requests.
pub open spec fn term_key_spec(s: TermState, key: Key, t: Time) -> (TermState, ActionView) {
    match key {
        Key::Char(c) => (if s.input.len() >= INPUT_MAX {
            s
        } else {
            TermState { input: s.input.insert(s.caret, c), caret: s.caret + 1, ..s }
        }, ActionView::Nothing),
        Key::Backspace => (if s.caret == 0 {
            s
        } else {
            TermState { input: s.input.remove(s.caret - 1), caret: s.caret - 1, ..s }
        }, ActionView::Nothing),
        Key::Delete => (if s.caret >= s.input.len() {
            s
        } else {
            TermState { input: s.input.remove(s.caret), ..s }
        }, ActionView::Nothing),
        Key::Left => (if s.caret > 0 { TermState { caret: s.caret - 1, ..s } } else { s }, ActionView::Nothing),
        Key::Right => (if s.caret < s.input.len() { TermState { caret: s.caret + 1, ..s } } else { s }, ActionView::Nothing),
        Key::Home => (TermState { caret: 0, ..s }, ActionView::Nothing),
        Key::End => (TermState { caret: s.input.len() as int, ..s }, ActionView::Nothing),
        Key::Enter => submit_spec(s, t),
        _ => (s, ActionView::Nothing),
    }
}

/// The scrollback right after start-up: the two banner lines.
pub open spec fn banner_spec() -> Seq<Seq<u8>> {
    print_spec(print_spec(Seq::empty(), "OSJEFF shell ready.".spec_bytes()), "Type HELP for commands.".spec_bytes())
}

/// The `TIME` line for `time`.
fn time_text(time: Time) -> (out: Vec<u8>)
    ensures
        out@ == time_line(time),
{
    let mut out: Vec<u8> = Vec::new();
    push_all(&mut out, "Now ".as_bytes());
    out.push(0x30 + (time.h / 10) % 10);
    out.push(0x30 + time.h % 10);
    out.push(0x3A);
    out.push(0x30 + (time.m / 10) % 10);
    out.push(0x30 + time.m % 10);
    out.push(0x3A);
    out.push(0x30 + (time.s / 10) % 10);
    out.push(0x30 + time.s % 10);
    assert(out@ =~= time_line(time));
    out
}

pub struct Terminal {
    lines: Vec<Vec<u8>>,
    input: Vec<u8>,
    caret: usize,
}

impl View for Terminal {
    type V = TermState;

    closed spec fn view(&self) -> TermState {
        TermState {
            lines: self.lines@.map_values(|l: Vec<u8>| l@),
            input: self.input@,
            caret: self.caret as int,
        }
    }
}

proof fn lemma_push_row_ok(lines: Seq<Seq<u8>>, b: Seq<u8>)
    requires
        lines_ok(lines),
    ensures
        lines_ok(push_row(lines, b)),
{
    let r = push_row(lines, b);
    assert forall|i: int| 0 <= i < r.len() implies #[trigger] r[i].len() <= COLS by {
        if lines.len() >= ROWS && i < r.len() - 1 {
            assert(r[i] == lines[i + 1]);
        }
    }
}

proof fn lemma_print_ok(lines: Seq<Seq<u8>>, text: Seq<u8>)
    requires
        lines_ok(lines),
    ensures
        lines_ok(print_spec(lines, text)),
    decreases text.len(),
{
    if text.len() <= COLS {
        lemma_push_row_ok(lines, text);
    } else {
        lemma_push_row_ok(lines, text.subrange(0, COLS as int));
        lemma_print_ok(push_row(lines, text.subrange(0, COLS as int)), text.subrange(COLS as int, text.len() as int));
    }
}

impl Terminal {
    pub open spec fn wf(&self) -> bool {
        term_ok(self@)
    }

    pub fn new() -> (t: Self)
        ensures
            t.wf(),
            t@.lines == banner_spec(),
            t@.input == Seq::<u8>::empty(),
            t@.caret == 0,
    {
        let mut t = Terminal { lines: Vec::new(), input: Vec::new(), caret: 0 };
        assert(t@.lines =~= Seq::<Seq<u8>>::empty());
        t.println("OSJEFF shell ready.".as_bytes());
        t.println("Type HELP for commands.".as_bytes());
        t
    }

    // ---- scrollback ----

    /// Number of populated scrollback rows.
    pub fn row_count(&self) -> (n: usize)
        ensures
            n == self@.lines.len(),
    {
        self.lines.len()
    }

    /// Borrow scrollback row `i` (`0..row_count`).
    pub fn row(&self, i: usize) -> (r: &[u8])
        requires
            i < self@.lines.len(),
        ensures
            r@ == self@.lines[i as int],
    {
        self.lines[i].as_slice()
    }

    /// Current input text (without the prompt).
    pub fn input(&self) -> (r: &[u8])
        ensures
            r@ == self@.input,
    {
        self.input.as_slice()
    }

    /// Caret index within the input (`0..=input_len`).
    pub fn caret(&self) -> (c: usize)
        ensures
            c == self@.caret,
    {
        self.caret
    }

    fn push_raw(&mut self, b: &[u8])
        requires
            old(self).wf(),
        ensures
            final(self).wf(),
            final(self)@ == (TermState { lines: push_row(old(self)@.lines, b@), ..old(self)@ }),
    {
        let n = if b.len() < COLS { b.len() } else { COLS };
        let row = to_vec(&b[0..n]);
        if self.lines.len() >= ROWS {
            self.lines.remove(0);
        }
        self.lines.push(row);
        proof {
            lemma_push_row_ok(old(self)@.lines, b@);
            assert(row@ == clip(b@, COLS as int));
            assert(self@.lines =~= push_row(old(self)@.lines, b@));
        }
    }

    /// Append a line, wrapping at [`COLS`]. Empty input yields one blank row.
    pub fn println(&mut self, text: &[u8])
        requires
            old(self).wf(),
        ensures
            final(self).wf(),
            final(self)@ == (TermState { lines: print_spec(old(self)@.lines, text@), ..old(self)@ }),
    {
        if text.len() == 0 {
            self.push_raw(text);
            return;
        }
        let ghost target = print_spec(old(self)@.lines, text@);
        let mut i: usize = 0;
        assert(text@.subrange(0, text@.len() as int) =~= text@);
        while i < text.len()
            invariant
                self.wf(),
                self@.input == old(self)@.input,
                self@.caret == old(self)@.caret,
                target == print_spec(old(self)@.lines, text@),
                i <= text@.len(),
                i < text@.len() ==> target == print_spec(self@.lines, text@.subrange(i as int, text@.len() as int)),
                i == text@.len() ==> target == self@.lines,
            decreases text@.len() - i,
        {
            let rem = text.len() - i;
            let n = if rem < COLS { rem } else { COLS };
            let ghost r = text@.subrange(i as int, text@.len() as int);
            proof {
                if r.len() > COLS {
                    assert(r.subrange(0, COLS as int) =~= text@.subrange(i as int, i + n));
                    assert(r.subrange(COLS as int, r.len() as int) =~= text@.subrange(i + n, text@.len() as int));
                } else {
                    assert(r =~= text@.subrange(i as int, i + n));
                }
            }
            self.push_raw(&text[i..i + n]);
            i += n;
        }
    }

    fn clear(&mut self)
        requires
            old(self).wf(),
        ensures
            final(self).wf(),
            final(self)@ == (TermState { lines: Seq::empty(), ..old(self)@ }),
    {
        self.lines = Vec::new();
        assert(self@.lines =~= Seq::<Seq<u8>>::empty());
    }

    // ---- input editing ----

    /// Feed a key. Returns the requested side effect.
    pub fn on_key(&mut self, key: Key, time: Time) -> (a: Action)
        requires
            old(self).wf(),
        ensures
            final(self).wf(),
            (final(self)@, a@) == term_key_spec(old(self)@, key, time),
    {
        match key {
            Key::Char(c) => {
                if self.input.len() < INPUT_MAX {
                    self.input.insert(self.caret, c);
                    self.caret = self.caret + 1;
                }
                Action::Nothing
            },
            Key::Backspace => {
                if self.caret > 0 {
                    self.input.remove(self.caret - 1);
                    self.caret = self.caret - 1;
                }
                Action::Nothing
            },
            Key::Delete => {
                if self.caret < self.input.len() {
                    self.input.remove(self.caret);
                }
                Action::Nothing
            },
            Key::Left => {
                if self.caret > 0 {
                    self.caret = self.caret - 1;
                }
                Action::Nothing
            },
            Key::Right => {
                if self.caret < self.input.len() {
                    self.caret = self.caret + 1;
                }
                Action::Nothing
            },
            Key::Home => {
                self.caret = 0;
                Action::Nothing
            },
            Key::End => {
                self.caret = self.input.len();
                Action::Nothing
            },
            Key::Enter => self.submit(time),
            _ => Action::Nothing,
        }
    }

    fn submit(&mut self, time: Time) -> (a: Action)
        requires
            old(self).wf(),
        ensures
            final(self).wf(),
            (final(self)@, a@) == submit_spec(old(self)@, time),
    {
        let mut line: Vec<u8> = Vec::new();
        push_all(&mut line, prompt());
        push_all(&mut line, self.input.as_slice());
        self.println(line.as_slice());
        let mut cmd: Vec<u8> = Vec::new();
        std::mem::swap(&mut cmd, &mut self.input);
        self.caret = 0;
        self.run(cmd.as_slice(), time)
    }

    fn run(&mut self, raw: &[u8], time: Time) -> (a: Action)
        requires
            old(self).wf(),
        ensures
            final(self).wf(),
            final(self)@.input == old(self)@.input,
            final(self)@.caret == old(self)@.caret,
            (final(self)@.lines, a@) == run_spec(old(self)@.lines, raw@, time),
    {
        let cmd = trim(raw);
        if cmd.len() == 0 {
            return Action::Nothing;
        }
        let n = word_len(cmd);
        let m = if n < 8 { n } else { 8 };
        let mut tok: Vec<u8> = Vec::new();
        let mut i: usize = 0;
        while i < m
            invariant
                m <= n,
                n <= cmd@.len(),
                i <= m,
                tok@ == cmd@.subrange(0, i as int).map_values(|c: u8| upper_spec(c)),
            decreases m - i,
        {
            tok.push(ascii_upper(cmd[i]));
            i += 1;
            assert(tok@ =~= cmd@.subrange(0, i as int).map_values(|c: u8| upper_spec(c)));
        }
        let token = tok.as_slice();
        let start = skip_space(cmd, n);
        let rest = &cmd[start..cmd.len()];
        assert(token@ == token_spec(cmd@));
        assert(rest@ == rest_spec(cmd@));
        match classify(token) {
            Command::Help => {
                self.println("Commands:".as_bytes());
                self.println(" HELP CLS TIME VER ECHO".as_bytes());
                self.println(" EDIT CALC PS LS CAT".as_bytes());
                self.println(" SAVE LOAD RM REBOOT SHUTDOWN".as_bytes());
                self.println("LS/CAT/SAVE/LOAD/RM = files".as_bytes());
                Action::Nothing
            },
            Command::List => Action::List,
            Command::Save => self.file_action(rest, FileCmd::Save),
            Command::Load => self.file_action(rest, FileCmd::Load),
            Command::Cat => self.file_action(rest, FileCmd::Cat),
            Command::Remove => self.file_action(rest, FileCmd::Remove),
            Command::Tasks => {
                self.println("Opening task manager...".as_bytes());
                Action::OpenTasks
            },
            Command::Calc => {
                self.println("Launching calculator...".as_bytes());
                Action::OpenCalc
            },
            Command::Reboot => {
                self.println("Rebooting...".as_bytes());
                Action::Reboot
            },
            Command::Shutdown => {
                self.println("Shutting down...".as_bytes());
                Action::Shutdown
            },
            Command::Clear => {
                self.clear();
                Action::Nothing
            },
            Command::Ver => {
                self.println("OSJEFF 0.2 - Rust bare metal".as_bytes());
                Action::Nothing
            },
            Command::Time => {
                let out = time_text(time);
                self.println(out.as_slice());
                Action::Nothing
            },
            Command::Echo => {
                self.println(rest);
                Action::Nothing
            },
            Command::Edit => {
                self.println("Launching editor...".as_bytes());
                Action::OpenEditor
            },
            Command::Unknown => {
                self.println("Unknown command. Type HELP.".as_bytes());
                Action::Nothing
            },
        }
    }

    /// Parse a single file-name argument into a filesystem action, printing a
    /// usage hint when it is missing or invalid.
    fn file_action(&mut self, arg: &[u8], kind: FileCmd) -> (a: Action)
        requires
            old(self).wf(),
        ensures
            final(self).wf(),
            final(self)@.input == old(self)@.input,
            final(self)@.caret == old(self)@.caret,
            (final(self)@.lines, a@) == file_cmd_spec(old(self)@.lines, arg@, kind),
    {
        match FileName::parse(arg) {
            Some(f) => match kind {
                FileCmd::Save => Action::Save(f),
                FileCmd::Load => Action::Load(f),
                FileCmd::Cat => Action::Cat(f),
                FileCmd::Remove => Action::Remove(f),
            },
            None => {
                self.println("usage: <cmd> <name>".as_bytes());
                Action::Nothing
            },
        }
    }
}

impl Default for Terminal {
    fn default() -> (t: Self)
        ensures
            t.wf(),
            t@.lines == banner_spec(),
            t@.input == Seq::<u8>::empty(),
            t@.caret == 0,
    {
        Self::new()
    }
}

} // verus!
