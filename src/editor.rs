//! The editor's state and the effect of each command on it.

use vstd::prelude::*;
use vstd::string::*;
use crate::buffer::{replace_line, LineBuffer};
use crate::command::{command_of, is_quit_word, parse_command, BedCommand, ParseError, Range};
use crate::text::{decimal, decimal_string, lemma_decimal_len_monotone, line_at, line_count, push_char, trim, trim_end, trimmed_end};

verus! {

/// Why a command could not be carried out.
#[derive(PartialEq, Eq, Structural, Clone, Copy, Debug)]
pub enum EditError {
    /// The input was not a command.
    Parse { error: ParseError },
    /// The range names a line that the buffer does not have.
    RangeOutOfBounds { range: Range },
    /// The current line is not a line of the buffer.
    NoCurrentLine { line: usize },
}

/// What the surrounding program has to do after a command.
#[derive(Debug)]
pub enum Action {
    /// Stop the session.
    Quit,
    /// Print these lines, one per line of output.
    Emit { lines: Vec<String> },
    /// Report the error and go on.
    Fail { error: EditError },
    /// Read replacement text up to a line holding only `.`, then call
    /// `Editor::change` with it.
    CollectChange,
    /// Write this text to the file being edited.
    Save { text: String },
    /// Nothing to do.
    Nothing,
}

/// The editor: the buffer and the current line (1-based).
pub struct Editor {
    pub buffer: LineBuffer,
    pub current_line: usize,
}

/// A range can be printed: it starts at line 1 or later, and unless it is
/// empty (`start > end`) it ends within the buffer.
pub open spec fn range_ok(r: Range, count: nat) -> bool {
    r.start >= 1 && (r.start > r.end || r.end <= count)
}

/// The lines of `t` in the range, in order.
pub open spec fn printed(t: Seq<char>, r: Range) -> Seq<Seq<char>> {
    if r.start > r.end {
        Seq::empty()
    } else {
        Seq::new((r.end - r.start + 1) as nat, |k: int| line_at(t, (r.start - 1 + k) as nat))
    }
}

/// A space repeated `n` times.
pub open spec fn spaces(n: nat) -> Seq<char> {
    Seq::new(n, |k: int| ' ')
}

/// The number `n` right-aligned in a field of `width` characters.
pub open spec fn gutter(n: nat, width: nat) -> Seq<char> {
    let d = decimal(n);
    if d.len() < width {
        spaces((width - d.len()) as nat) + d
    } else {
        d
    }
}

/// A line of numbered output: its number, a separator, then its text.
pub open spec fn numbered_line(n: nat, width: nat, line: Seq<char>) -> Seq<char> {
    gutter(n, width) + seq![' ', '\u{2502}', ' '] + line
}

/// Width of the gutter: the number of digits of the line count.
pub open spec fn gutter_width(t: Seq<char>) -> nat {
    decimal(line_count(t)).len()
}

/// The lines of `t` in the range, each with its 1-based number in front.
pub open spec fn numbered(t: Seq<char>, r: Range) -> Seq<Seq<char>> {
    if r.start > r.end {
        Seq::empty()
    } else {
        Seq::new(
            (r.end - r.start + 1) as nat,
            |k: int|
                numbered_line(
                    (r.start + k) as nat,
                    gutter_width(t),
                    line_at(t, (r.start - 1 + k) as nat),
                ),
        )
    }
}

/// The action emits exactly these lines.
pub open spec fn emits(a: Action, out: Seq<Seq<char>>) -> bool {
    match a {
        Action::Emit { lines } => lines@.len() == out.len() && forall|k: int|
            0 <= k < out.len() ==> (#[trigger] lines@[k])@ == out[k],
        _ => false,
    }
}

/// The current line names a line of the buffer.
pub open spec fn has_current_line(t: Seq<char>, current_line: usize) -> bool {
    1 <= current_line <= line_count(t)
}

/// The action reports exactly this error.
pub open spec fn fails_with(a: Action, e: EditError) -> bool {
    match a {
        Action::Fail { error } => error == e,
        _ => false,
    }
}

/// The action saves exactly this text.
pub open spec fn saves(a: Action, t: Seq<char>) -> bool {
    match a {
        Action::Save { text } => text@ == t,
        _ => false,
    }
}

/// Running `cmd` on buffer text `t` with current line `cur` gives action `a`,
/// buffer text `t2` and current line `cur2`. Only `Move` changes the state;
/// a change of text happens afterwards, through `Editor::change`.
pub open spec fn executes(
    t: Seq<char>,
    cur: usize,
    cmd: BedCommand,
    a: Action,
    t2: Seq<char>,
    cur2: usize,
) -> bool {
    &&& t2 == t
    &&& match cmd {
        BedCommand::Move { line } => cur2 == line && a is Nothing,
        _ => cur2 == cur,
    }
    &&& match cmd {
        BedCommand::Quit => a is Quit,
        BedCommand::Write => saves(a, t),
        BedCommand::Change => if has_current_line(t, cur) {
            a is CollectChange
        } else {
            fails_with(a, EditError::NoCurrentLine { line: cur })
        },
        BedCommand::Print { range } => if range_ok(range, line_count(t)) {
            emits(a, printed(t, range))
        } else {
            fails_with(a, EditError::RangeOutOfBounds { range })
        },
        BedCommand::NPrint { range } => if range_ok(range, line_count(t)) {
            emits(a, numbered(t, range))
        } else {
            fails_with(a, EditError::RangeOutOfBounds { range })
        },
        BedCommand::Move { line } => true,
        BedCommand::Invalid { error } => fails_with(a, EditError::Parse { error }),
    }
}

/// Only the words `q` and `quit` end a session: every other input, however
/// malformed, leads to a command other than `Quit`.
pub proof fn lemma_only_quit_words_quit(input: Seq<char>, current_line: usize, max_line: usize)
    ensures
        (command_of(input, current_line, max_line) is Quit) <==> is_quit_word(trim(input)),
{
}

/// Saving and loading again gives back the buffer: the text that `Write`
/// hands out, read into a new editor, has the same lines as the buffer.
pub proof fn lemma_save_reload(
    t: Seq<char>,
    cur: usize,
    a: Action,
    t2: Seq<char>,
    cur2: usize,
    reloaded: Seq<char>,
)
    requires
        executes(t, cur, BedCommand::Write, a, t2, cur2),
        saves(a, reloaded),
    ensures
        reloaded == t,
        line_count(reloaded) == line_count(t),
        forall|k: nat| k < line_count(t) ==> line_at(reloaded, k) == line_at(t, k),
{
}

/// Printing a range `start..=end` of existing lines emits `end - start + 1`
/// lines, in order, each the stored text of its line with nothing in front.
pub proof fn lemma_print_emits_range(
    t: Seq<char>,
    cur: usize,
    range: Range,
    a: Action,
    t2: Seq<char>,
    cur2: usize,
)
    requires
        executes(t, cur, BedCommand::Print { range }, a, t2, cur2),
        1 <= range.start <= range.end <= line_count(t),
    ensures
        a matches Action::Emit { lines } && lines@.len() == range.end - range.start + 1
            && forall|k: int|
            0 <= k < lines@.len() ==> (#[trigger] lines@[k])@ == line_at(
                t,
                (range.start - 1 + k) as nat,
            ),
{
}

/// The gutter of `n` is exactly `width` characters: spaces, then the digits
/// of `n`.
pub open spec fn right_aligned(n: nat, width: nat) -> bool {
    &&& gutter(n, width).len() == width
    &&& gutter(n, width) == spaces((width - decimal(n).len()) as nat) + decimal(n)
}

/// Numbered printing puts in front of each line its 1-based number, then a
/// separator; every line number of the buffer is right-aligned in a field
/// exactly as wide as the line count has digits.
pub proof fn lemma_numbered_print_gutter(
    t: Seq<char>,
    cur: usize,
    range: Range,
    a: Action,
    t2: Seq<char>,
    cur2: usize,
)
    requires
        executes(t, cur, BedCommand::NPrint { range }, a, t2, cur2),
        1 <= range.start <= range.end <= line_count(t),
    ensures
        a matches Action::Emit { lines } && lines@.len() == range.end - range.start + 1
            && forall|k: int|
            0 <= k < lines@.len() ==> (#[trigger] lines@[k])@ == gutter(
                (range.start + k) as nat,
                gutter_width(t),
            ) + seq![' ', '\u{2502}', ' '] + line_at(t, (range.start - 1 + k) as nat),
        forall|n: nat| 1 <= n <= line_count(t) ==> #[trigger] right_aligned(n, gutter_width(t)),
{
    assert forall|n: nat| 1 <= n <= line_count(t) implies #[trigger] right_aligned(
        n,
        gutter_width(t),
    ) by {
        lemma_decimal_len_monotone(n, line_count(t));
        if decimal(n).len() == gutter_width(t) {
            assert(spaces(0) + decimal(n) =~= decimal(n));
        }
    }
}

/// Whether an input line ends the text of a change: exactly `".\n"`.
pub fn is_change_terminator(line: &str) -> (r: bool)
    ensures
        r == (line@ == seq!['.', '\n']),
{
    let n = line.unicode_len();
    let r = n == 2 && line.get_char(0) == '.' && line.get_char(1) == '\n';
    assert(r ==> line@ =~= seq!['.', '\n']);
    r
}

/// `n` right-aligned in a field of `width` characters.
fn gutter_string(n: usize, width: usize) -> (s: String)
    ensures
        s@ == gutter(n as nat, width as nat),
{
    let d = decimal_string(n);
    let len = d.unicode_len();
    let pad: usize = if len < width { width - len } else { 0 };
    let mut s = String::new();
    let mut k: usize = 0;
    while k < pad
        invariant
            k <= pad,
            s@ == spaces(k as nat),
        decreases pad - k,
    {
        push_char(&mut s, ' ');
        k = k + 1;
        assert(s@ =~= spaces(k as nat));
    }
    s.append(d.as_str());
    assert(s@ =~= gutter(n as nat, width as nat));
    s
}

impl Editor {
    /// An editor on `text`, with the current line at the last line.
    pub fn new(text: String) -> (e: Editor)
        ensures
            e.buffer@ == text@,
            e.current_line == line_count(text@),
    {
        let buffer = LineBuffer::from_text(text);
        let current_line = buffer.line_count();
        Editor { buffer, current_line }
    }

    /// The lines in `range`, as `Print` shows them.
    pub fn print_lines(&self, range: Range) -> (lines: Vec<String>)
        requires
            range_ok(range, line_count(self.buffer@)),
        ensures
            lines@.len() == printed(self.buffer@, range).len(),
            forall|k: int|
                0 <= k < lines@.len() ==> (#[trigger] lines@[k])@ == printed(
                    self.buffer@,
                    range,
                )[k],
    {
        let mut lines: Vec<String> = Vec::new();
        if range.start > range.end {
            return lines;
        }
        let mut i: usize = range.start - 1;
        while i < range.end
            invariant
                range_ok(range, line_count(self.buffer@)),
                range.start <= range.end,
                range.start - 1 <= i <= range.end,
                lines@.len() == i - (range.start - 1),
                forall|k: int|
                    0 <= k < lines@.len() ==> (#[trigger] lines@[k])@ == line_at(
                        self.buffer@,
                        (range.start - 1 + k) as nat,
                    ),
            decreases range.end - i,
        {
            let line = self.buffer.line(i);
            lines.push(line);
            i = i + 1;
        }
        lines
    }

    /// The lines in `range`, each behind its right-aligned number, as
    /// `NPrint` shows them.
    pub fn numbered_lines(&self, range: Range) -> (lines: Vec<String>)
        requires
            range_ok(range, line_count(self.buffer@)),
        ensures
            lines@.len() == numbered(self.buffer@, range).len(),
            forall|k: int|
                0 <= k < lines@.len() ==> (#[trigger] lines@[k])@ == numbered(
                    self.buffer@,
                    range,
                )[k],
    {
        let mut lines: Vec<String> = Vec::new();
        if range.start > range.end {
            return lines;
        }
        let width = decimal_string(self.buffer.line_count()).unicode_len();
        let mut i: usize = range.start - 1;
        while i < range.end
            invariant
                range_ok(range, line_count(self.buffer@)),
                range.start <= range.end,
                width == gutter_width(self.buffer@),
                range.start - 1 <= i <= range.end,
                lines@.len() == i - (range.start - 1),
                forall|k: int|
                    0 <= k < lines@.len() ==> (#[trigger] lines@[k])@ == numbered_line(
                        (range.start + k) as nat,
                        width as nat,
                        line_at(self.buffer@, (range.start - 1 + k) as nat),
                    ),
            decreases range.end - i,
        {
            let mut out = gutter_string(i + 1, width);
            push_char(&mut out, ' ');
            push_char(&mut out, '\u{2502}');
            push_char(&mut out, ' ');
            let line = self.buffer.line(i);
            out.append(line.as_str());
            assert(out@ =~= numbered_line((i + 1) as nat, width as nat, line_at(self.buffer@, i as nat)));
            lines.push(out);
            i = i + 1;
        }
        lines
    }

    /// Carries out a parsed command.
    pub fn execute(&mut self, cmd: BedCommand) -> (a: Action)
        ensures
            executes(
                old(self).buffer@,
                old(self).current_line,
                cmd,
                a,
                final(self).buffer@,
                final(self).current_line,
            ),
    {
        match cmd {
            BedCommand::Quit => Action::Quit,
            BedCommand::Write => Action::Save { text: self.buffer.to_text() },
            BedCommand::Change => {
                let count = self.buffer.line_count();
                if self.current_line == 0 || self.current_line > count {
                    Action::Fail { error: EditError::NoCurrentLine { line: self.current_line } }
                } else {
                    Action::CollectChange
                }
            },
            BedCommand::Print { range } => {
                let count = self.buffer.line_count();
                if range.start >= 1 && (range.start > range.end || range.end <= count) {
                    Action::Emit { lines: self.print_lines(range) }
                } else {
                    Action::Fail { error: EditError::RangeOutOfBounds { range } }
                }
            },
            BedCommand::NPrint { range } => {
                let count = self.buffer.line_count();
                if range.start >= 1 && (range.start > range.end || range.end <= count) {
                    Action::Emit { lines: self.numbered_lines(range) }
                } else {
                    Action::Fail { error: EditError::RangeOutOfBounds { range } }
                }
            },
            BedCommand::Move { line } => {
                self.current_line = line;
                Action::Nothing
            },
            BedCommand::Invalid { error } => Action::Fail { error: EditError::Parse { error } },
        }
    }

    /// Parses one input line against the current state and carries it out.
    /// The session ends exactly on `q` or `quit`; input that is no command
    /// leaves the state as it was.
    pub fn handle(&mut self, input: &str) -> (a: Action)
        ensures
            executes(
                old(self).buffer@,
                old(self).current_line,
                command_of(input@, old(self).current_line, line_count(old(self).buffer@) as usize),
                a,
                final(self).buffer@,
                final(self).current_line,
            ),
            (a is Quit) <==> is_quit_word(trim(input@)),
            command_of(input@, old(self).current_line, line_count(old(self).buffer@) as usize) is Invalid
                ==> {
                &&& a is Fail
                &&& final(self).buffer@ == old(self).buffer@
                &&& final(self).current_line == old(self).current_line
            },
    {
        let count = self.buffer.line_count();
        let cmd = parse_command(input, self.current_line, count);
        self.execute(cmd)
    }

    /// Replaces the current line with `text`, trailing whitespace removed.
    /// The current line then stays where it was, moved back to the last line
    /// if the buffer has become shorter.
    pub fn change(&mut self, text: &str) -> (r: Result<(), EditError>)
        ensures
            has_current_line(old(self).buffer@, old(self).current_line) ==> {
                &&& r is Ok
                &&& final(self).buffer@ == replace_line(
                    old(self).buffer@,
                    (old(self).current_line - 1) as nat,
                    trim_end(text@),
                )
                &&& final(self).current_line == if old(self).current_line <= line_count(
                    final(self).buffer@,
                ) {
                    old(self).current_line as nat
                } else {
                    line_count(final(self).buffer@)
                }
            },
            !has_current_line(old(self).buffer@, old(self).current_line) ==> {
                &&& r == Err::<(), EditError>(EditError::NoCurrentLine { line: old(self).current_line })
                &&& final(self).buffer@ == old(self).buffer@
                &&& final(self).current_line == old(self).current_line
            },
    {
        let count = self.buffer.line_count();
        if self.current_line == 0 || self.current_line > count {
            return Err(EditError::NoCurrentLine { line: self.current_line });
        }
        let replacement = trimmed_end(text);
        self.buffer.replace_line(self.current_line - 1, replacement);
        let new_count = self.buffer.line_count();
        if self.current_line > new_count {
            self.current_line = new_count;
        }
        Ok(())
    }
}

} // verus!
