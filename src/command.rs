//! Commands and their parsing, with address resolution.

use vstd::prelude::*;
use vstd::string::*;
use crate::text::{digits_value, is_digit, is_whitespace, is_ws, lemma_digits_value_prefix, trim, trimmed};

verus! {

/// An inclusive span of 1-based line numbers.
#[derive(PartialEq, Eq, Structural, Clone, Copy, Debug)]
pub struct Range {
    pub start: usize,
    pub end: usize,
}

/// Why an input line is not a command.
#[derive(PartialEq, Eq, Structural, Clone, Copy, Debug)]
pub enum ParseError {
    /// The input matches no command form.
    UnknownCommand,
    /// A line number does not fit in `usize`.
    NumberTooLarge,
}

#[derive(PartialEq, Eq, Structural, Clone, Copy, Debug)]
pub enum BedCommand {
    Quit,
    Print { range: Range },
    NPrint { range: Range },
    Move { line: usize },
    Change,
    Write,
    Invalid { error: ParseError },
}

/// Length of the run of ASCII digits that begins at `i`.
pub open spec fn digit_run(t: Seq<char>, i: int) -> nat
    decreases t.len() - i,
{
    if 0 <= i < t.len() && is_digit(t[i]) {
        1 + digit_run(t, i + 1)
    } else {
        0
    }
}

pub open spec fn ws_at(t: Seq<char>, i: int) -> bool {
    0 <= i < t.len() && is_ws(t[i])
}

/// Where the leading number of a print-family command ends.
pub open spec fn first_end(t: Seq<char>) -> int {
    digit_run(t, 0) as int
}

/// Whether a comma follows the leading number.
pub open spec fn has_comma(t: Seq<char>) -> bool {
    first_end(t) < t.len() && t[first_end(t)] == ','
}

/// Where the trailing number of a print-family command begins.
pub open spec fn second_start(t: Seq<char>) -> int {
    let i = first_end(t) + if has_comma(t) { 1int } else { 0int };
    i + if ws_at(t, i) { 1int } else { 0int }
}

/// Where the trailing number of a print-family command ends.
pub open spec fn second_end(t: Seq<char>) -> int {
    second_start(t) + digit_run(t, second_start(t))
}

/// Where the command letter of a print-family command stands.
pub open spec fn suffix_at(t: Seq<char>) -> int {
    second_end(t) + if ws_at(t, second_end(t)) { 1int } else { 0int }
}

/// `[digits][,][ws][digits][ws]` followed by `p` or `n`, and nothing after.
pub open spec fn is_print_form(t: Seq<char>) -> bool {
    suffix_at(t) + 1 == t.len() && (t[suffix_at(t)] == 'p' || t[suffix_at(t)] == 'n')
}

/// The leading number of a print-family command, if written.
pub open spec fn first_number(t: Seq<char>) -> Option<nat> {
    if first_end(t) > 0 {
        Some(digits_value(t.take(first_end(t))))
    } else {
        None
    }
}

/// The trailing number of a print-family command, if written.
pub open spec fn second_number(t: Seq<char>) -> Option<nat> {
    if second_end(t) > second_start(t) {
        Some(digits_value(t.subrange(second_start(t), second_end(t))))
    } else {
        None
    }
}

pub open spec fn fits(n: Option<nat>) -> bool {
    match n {
        Some(v) => v <= usize::MAX,
        None => true,
    }
}

/// Address defaulting: with a comma, a missing start is 1 and a missing end
/// is the last line; without one, both are the given number, or else the
/// current line.
pub open spec fn resolve_range(
    first: Option<nat>,
    comma: bool,
    second: Option<nat>,
    current_line: usize,
    max_line: usize,
) -> Range {
    if comma {
        Range {
            start: match first {
                Some(v) => v as usize,
                None => 1,
            },
            end: match second {
                Some(v) => v as usize,
                None => max_line,
            },
        }
    } else {
        let s = match first {
            Some(v) => v as usize,
            None => current_line,
        };
        Range { start: s, end: s }
    }
}

/// Every character from `from` on is whitespace.
pub open spec fn rest_is_ws(t: Seq<char>, from: int) -> bool {
    forall|k: int| from <= k < t.len() ==> is_ws(t[k])
}

/// The letter `c`, then only whitespace.
pub open spec fn is_letter_command(t: Seq<char>, c: char) -> bool {
    t.len() >= 1 && t[0] == c && rest_is_ws(t, 1)
}

pub open spec fn is_quit_word(t: Seq<char>) -> bool {
    t == seq!['q'] || t == seq!['q', 'u', 'i', 't']
}

/// A line number alone.
pub open spec fn is_number_form(t: Seq<char>) -> bool {
    t.len() > 0 && digit_run(t, 0) == t.len()
}

/// The command that an input line denotes, given the current line and the
/// buffer's line count. Forms are tried in this order: quit, print family,
/// change, move, write.
pub open spec fn command_of(input: Seq<char>, current_line: usize, max_line: usize) -> BedCommand {
    let t = trim(input);
    if is_quit_word(t) {
        BedCommand::Quit
    } else if is_print_form(t) {
        if !fits(first_number(t)) || !fits(second_number(t)) {
            BedCommand::Invalid { error: ParseError::NumberTooLarge }
        } else {
            let range = resolve_range(
                first_number(t),
                has_comma(t),
                second_number(t),
                current_line,
                max_line,
            );
            if t.last() == 'p' {
                BedCommand::Print { range }
            } else {
                BedCommand::NPrint { range }
            }
        }
    } else if is_letter_command(t, 'c') {
        BedCommand::Change
    } else if is_number_form(t) {
        if digits_value(t) <= usize::MAX {
            BedCommand::Move { line: digits_value(t) as usize }
        } else {
            BedCommand::Invalid { error: ParseError::NumberTooLarge }
        }
    } else if is_letter_command(t, 'w') {
        BedCommand::Write
    } else {
        BedCommand::Invalid { error: ParseError::UnknownCommand }
    }
}


/// The characters of a digit run are digits, and the run stays in the text.
pub proof fn lemma_digit_run(t: Seq<char>, i: int)
    requires
        0 <= i,
    ensures
        i <= t.len() ==> i + digit_run(t, i) <= t.len(),
        forall|k: int| i <= k < i + digit_run(t, i) ==> is_digit(#[trigger] t[k]),
    decreases t.len() - i,
{
    if 0 <= i < t.len() && is_digit(t[i]) {
        lemma_digit_run(t, i + 1);
    }
}

fn is_ascii_digit(c: char) -> (r: bool)
    ensures
        r == is_digit(c),
{
    '0' <= c && c <= '9'
}

/// End of the digit run that begins at `i`.
fn scan_digits(t: &str, n: usize, i: usize) -> (r: usize)
    requires
        n == t@.len(),
        i <= n,
    ensures
        r == i + digit_run(t@, i as int),
{
    let mut j: usize = i;
    while j < n && is_ascii_digit(t.get_char(j))
        invariant
            n == t@.len(),
            i <= j <= n,
            digit_run(t@, i as int) == (j - i) + digit_run(t@, j as int),
        decreases n - j,
    {
        j = j + 1;
    }
    j
}

/// Whitespace at `i`, within the text.
fn ws_at_exec(t: &str, n: usize, i: usize) -> (r: bool)
    requires
        n == t@.len(),
    ensures
        r == ws_at(t@, i as int),
{
    i < n && is_whitespace(t.get_char(i))
}

/// The value of the digits between `from` and `to`, if it fits in `usize`.
fn parse_number(t: &str, from: usize, to: usize) -> (r: Option<usize>)
    requires
        from <= to <= t@.len(),
        forall|k: int| from <= k < to ==> is_digit(#[trigger] t@[k]),
    ensures
        ({
            let v = digits_value(t@.subrange(from as int, to as int));
            if v <= usize::MAX {
                r == Some(v as usize)
            } else {
                r is None
            }
        }),
{
    let ghost whole = t@.subrange(from as int, to as int);
    let mut acc: usize = 0;
    let mut k: usize = from;
    assert(t@.subrange(from as int, from as int) =~= Seq::<char>::empty());
    while k < to
        invariant
            from <= k <= to <= t@.len(),
            forall|q: int| from <= q < to ==> is_digit(#[trigger] t@[q]),
            whole == t@.subrange(from as int, to as int),
            acc == digits_value(t@.subrange(from as int, k as int)),
        decreases to - k,
    {
        let c = t.get_char(k);
        let d = (c as u32 - '0' as u32) as usize;
        let ghost next = t@.subrange(from as int, k + 1);
        assert(next.drop_last() =~= t@.subrange(from as int, k as int));
        assert(digits_value(next) == acc * 10 + d);
        proof {
            lemma_digits_value_prefix(whole, k + 1 - from);
            assert(whole.take(k + 1 - from) =~= next);
        }
        match acc.checked_mul(10) {
            Some(m) => match m.checked_add(d) {
                Some(v) => {
                    acc = v;
                },
                None => {
                    return None;
                },
            },
            None => {
                return None;
            },
        }
        k = k + 1;
    }
    Some(acc)
}

/// `c` followed by whitespace only.
fn letter_command(t: &str, n: usize, c: char) -> (r: bool)
    requires
        n == t@.len(),
    ensures
        r == is_letter_command(t@, c),
{
    if n == 0 || t.get_char(0) != c {
        return false;
    }
    let mut k: usize = 1;
    while k < n
        invariant
            n == t@.len(),
            1 <= k <= n,
            forall|q: int| 1 <= q < k ==> is_ws(#[trigger] t@[q]),
        decreases n - k,
    {
        if !is_whitespace(t.get_char(k)) {
            return false;
        }
        k = k + 1;
    }
    true
}

fn quit_word(t: &str, n: usize) -> (r: bool)
    requires
        n == t@.len(),
    ensures
        r == is_quit_word(t@),
{
    if n == 1 {
        let r = t.get_char(0) == 'q';
        assert(r ==> t@ =~= seq!['q']);
        r
    } else if n == 4 {
        let r = t.get_char(0) == 'q' && t.get_char(1) == 'u' && t.get_char(2) == 'i'
            && t.get_char(3) == 't';
        assert(r ==> t@ =~= seq!['q', 'u', 'i', 't']);
        r
    } else {
        false
    }
}

/// Parses one input line into a command, resolving its addresses against the
/// current line and the buffer's line count. Line numbers are written in
/// ASCII digits; one too large for `usize` is reported, not wrapped.
pub fn parse_command(input: &str, current_line: usize, max_line: usize) -> (cmd: BedCommand)
    ensures
        cmd == command_of(input@, current_line, max_line),
{
    let t = trimmed(input);
    let n = t.unicode_len();
    if quit_word(t, n) {
        return BedCommand::Quit;
    }
    let first_end = scan_digits(t, n, 0);
    proof { lemma_digit_run(t@, 0); }
    let comma = first_end < n && t.get_char(first_end) == ',';
    let after_comma = if comma { first_end + 1 } else { first_end };
    let second_start = if ws_at_exec(t, n, after_comma) { after_comma + 1 } else { after_comma };
    let second_end = scan_digits(t, n, second_start);
    proof { lemma_digit_run(t@, second_start as int); }
    let suffix = if ws_at_exec(t, n, second_end) { second_end + 1 } else { second_end };
    if suffix < n && suffix == n - 1 && (t.get_char(suffix) == 'p' || t.get_char(suffix) == 'n') {
        assert(t@.take(first_end as int) =~= t@.subrange(0, first_end as int));
        let first = if first_end > 0 {
            match parse_number(t, 0, first_end) {
                Some(v) => Some(v),
                None => {
                    return BedCommand::Invalid { error: ParseError::NumberTooLarge };
                },
            }
        } else {
            None
        };
        let second = if second_end > second_start {
            match parse_number(t, second_start, second_end) {
                Some(v) => Some(v),
                None => {
                    return BedCommand::Invalid { error: ParseError::NumberTooLarge };
                },
            }
        } else {
            None
        };
        let range = if comma {
            Range {
                start: match first {
                    Some(v) => v,
                    None => 1,
                },
                end: match second {
                    Some(v) => v,
                    None => max_line,
                },
            }
        } else {
            let s = match first {
                Some(v) => v,
                None => current_line,
            };
            Range { start: s, end: s }
        };
        if t.get_char(suffix) == 'p' {
            BedCommand::Print { range }
        } else {
            BedCommand::NPrint { range }
        }
    } else if letter_command(t, n, 'c') {
        BedCommand::Change
    } else if n > 0 && first_end == n {
        assert(t@.subrange(0, n as int) =~= t@);
        match parse_number(t, 0, n) {
            Some(line) => BedCommand::Move { line },
            None => BedCommand::Invalid { error: ParseError::NumberTooLarge },
        }
    } else if letter_command(t, n, 'w') {
        BedCommand::Write
    } else {
        BedCommand::Invalid { error: ParseError::UnknownCommand }
    }
}

} // verus!
