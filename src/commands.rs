//! The command line (`:w`, `:q`, `:3c`, ...): what each command text asks for.

use vstd::prelude::*;
use vstd::string::*;

verus! {

/// What a command line asks for.
#[derive(Debug)]
pub enum Command {
    /// `q`, `quit`: leave, unless there are unsaved changes.
    Quit,
    /// `q!`: leave, dropping unsaved changes.
    ForceQuit,
    /// `w`, `write`: save.
    Write,
    /// `wq`, `x`: save and leave.
    WriteQuit,
    /// `run-all`, `ra`: run every cell.
    RunAll,
    /// `restart`: restart the kernel.
    Restart,
    /// `restart!`: restart the kernel and run every cell.
    RestartAndRunAll,
    /// `interrupt`: interrupt the kernel.
    Interrupt,
    /// `<n>c`: go to cell n (counted from 1).
    GotoCell(usize),
    /// `<n>`: go to line n of the cell being edited (counted from 1).
    GotoLine(usize),
    /// `w <file>`: save to that file.
    WriteTo(String),
    /// Anything else.
    Unknown,
}

pub ghost enum CommandModel {
    Quit,
    ForceQuit,
    Write,
    WriteQuit,
    RunAll,
    Restart,
    RestartAndRunAll,
    Interrupt,
    GotoCell(usize),
    GotoLine(usize),
    WriteTo(Seq<char>),
    Unknown,
}

impl View for Command {
    type V = CommandModel;

    open spec fn view(&self) -> CommandModel {
        match self {
            Command::Quit => CommandModel::Quit,
            Command::ForceQuit => CommandModel::ForceQuit,
            Command::Write => CommandModel::Write,
            Command::WriteQuit => CommandModel::WriteQuit,
            Command::RunAll => CommandModel::RunAll,
            Command::Restart => CommandModel::Restart,
            Command::RestartAndRunAll => CommandModel::RestartAndRunAll,
            Command::Interrupt => CommandModel::Interrupt,
            Command::GotoCell(n) => CommandModel::GotoCell(*n),
            Command::GotoLine(n) => CommandModel::GotoLine(*n),
            Command::WriteTo(f) => CommandModel::WriteTo(f@),
            Command::Unknown => CommandModel::Unknown,
        }
    }
}

/// What `str::trim` gives for `s`: `s` without leading and trailing
/// whitespace.
pub uninterp spec fn trimmed(s: Seq<char>) -> Seq<char>;

/// Relies on str::trim: removes leading and trailing whitespace.
#[verifier::external_body]
fn trim_text(s: &str) -> (r: &str)
    ensures
        r@ == trimmed(s@),
{
    s.trim()
}

pub open spec fn is_digit(c: char) -> bool {
    '0' <= c <= '9'
}

/// The value of a string of decimal digits.
pub open spec fn digits_value(s: Seq<char>) -> int
    decreases s.len(),
{
    if s.len() == 0 {
        0
    } else {
        digits_value(s.drop_last()) * 10 + (s.last() as int - '0' as int)
    }
}

/// `s` without one leading `+`.
pub open spec fn unsigned_part(s: Seq<char>) -> Seq<char> {
    if s.len() > 0 && s[0] == '+' {
        s.drop_first()
    } else {
        s
    }
}

pub open spec fn all_digits(d: Seq<char>) -> bool {
    forall|i: int| 0 <= i < d.len() ==> is_digit(#[trigger] d[i])
}

/// A `usize` written in decimal, as std parses one: an optional `+`, then
/// one or more digits, with a value that fits.
pub open spec fn decimal(s: Seq<char>) -> Option<usize> {
    let d = unsigned_part(s);
    if d.len() > 0 && all_digits(d) && digits_value(d) <= usize::MAX {
        Some(digits_value(d) as usize)
    } else {
        None
    }
}

proof fn lemma_digits_grow(d: Seq<char>, i: int)
    requires
        0 <= i <= d.len(),
        forall|k: int| 0 <= k < d.len() ==> is_digit(#[trigger] d[k]),
    ensures
        digits_value(d) >= digits_value(d.subrange(0, i)),
        digits_value(d.subrange(0, i)) >= 0,
    decreases d.len() - i,
{
    if i < d.len() {
        lemma_digits_grow(d, i + 1);
        let p = d.subrange(0, i + 1);
        assert(p.drop_last() =~= d.subrange(0, i));
        assert(is_digit(d[i]));
    } else {
        assert(d.subrange(0, i) =~= d);
        lemma_digits_nonneg(d);
    }
}

proof fn lemma_digits_nonneg(d: Seq<char>)
    requires
        forall|k: int| 0 <= k < d.len() ==> is_digit(#[trigger] d[k]),
    ensures
        digits_value(d) >= 0,
    decreases d.len(),
{
    if d.len() > 0 {
        assert(is_digit(d[d.len() - 1]));
        lemma_digits_nonneg(d.drop_last());
    }
}

/// Parses a `usize` written in decimal (see `decimal`).
pub fn parse_decimal(s: &str) -> (r: Option<usize>)
    ensures
        r == decimal(s@),
{
    let n = s.unicode_len();
    let mut start: usize = 0;
    if n > 0 && s.get_char(0) == '+' {
        start = 1;
    }
    let ghost d = unsigned_part(s@);
    assert(d =~= s@.subrange(start as int, n as int));
    if start == n {
        return None;
    }
    let mut v: usize = 0;
    let mut i: usize = start;
    while i < n
        invariant
            n == s@.len(),
            start <= i <= n,
            d == s@.subrange(start as int, n as int),
            d == unsigned_part(s@),
            forall|k: int| 0 <= k < i - start ==> is_digit(#[trigger] d[k]),
            v as int == digits_value(d.subrange(0, i - start)),
        decreases n - i,
    {
        let c = s.get_char(i);
        assert(d[i - start] == c);
        if !('0' <= c && c <= '9') {
            assert(!is_digit(d[i - start]));
            assert(!all_digits(d));
            return None;
        }
        let dv = (c as u32 - '0' as u32) as usize;
        proof {
            let p = d.subrange(0, i - start + 1);
            assert(p.drop_last() =~= d.subrange(0, i - start));
            assert(p.last() == c);
            assert(dv == c as int - '0' as int);
            assert(digits_value(p) == v * 10 + dv);
        }
        if v > (usize::MAX - dv) / 10 {
            proof {
                assert(v * 10 + dv > usize::MAX) by (nonlinear_arith)
                    requires
                        v > (usize::MAX - dv) / 10,
                        dv <= 9,
                ;
                if all_digits(d) {
                    lemma_digits_grow(d, i - start + 1);
                }
            }
            return None;
        }
        proof {
            assert(v * 10 + dv <= usize::MAX) by (nonlinear_arith)
                requires
                    v <= (usize::MAX - dv) / 10,
                    dv <= 9,
            ;
        }
        v = v * 10 + dv;
        i = i + 1;
    }
    assert(d.subrange(0, n - start) =~= d);
    Some(v)
}

/// What the (already trimmed) command text `t` asks for.
pub open spec fn command_of(t: Seq<char>) -> CommandModel {
    if t == "q"@ || t == "quit"@ {
        CommandModel::Quit
    } else if t == "q!"@ {
        CommandModel::ForceQuit
    } else if t == "w"@ || t == "write"@ {
        CommandModel::Write
    } else if t == "wq"@ || t == "x"@ {
        CommandModel::WriteQuit
    } else if t == "run-all"@ || t == "ra"@ {
        CommandModel::RunAll
    } else if t == "restart"@ {
        CommandModel::Restart
    } else if t == "restart!"@ {
        CommandModel::RestartAndRunAll
    } else if t == "interrupt"@ {
        CommandModel::Interrupt
    } else if t.len() > 0 && t.last() == 'c' {
        match decimal(t.drop_last()) {
            Some(n) => CommandModel::GotoCell(n),
            None => CommandModel::Unknown,
        }
    } else if decimal(t) is Some {
        CommandModel::GotoLine(decimal(t)->0)
    } else if t.len() >= 2 && t[0] == 'w' && t[1] == ' ' {
        CommandModel::WriteTo(trimmed(t.subrange(2, t.len() as int)))
    } else {
        CommandModel::Unknown
    }
}

fn is_word(t: &String, word: &str) -> (r: bool)
    ensures
        r == (t@ == word@),
{
    t.eq(&String::from_str(word))
}

/// Reads a command text that has no surrounding whitespace.
pub fn parse_trimmed(t: &str) -> (r: Command)
    ensures
        r@ == command_of(t@),
{
    let ts = String::from_str(t);
    if is_word(&ts, "q") || is_word(&ts, "quit") {
        return Command::Quit;
    }
    if is_word(&ts, "q!") {
        return Command::ForceQuit;
    }
    if is_word(&ts, "w") || is_word(&ts, "write") {
        return Command::Write;
    }
    if is_word(&ts, "wq") || is_word(&ts, "x") {
        return Command::WriteQuit;
    }
    if is_word(&ts, "run-all") || is_word(&ts, "ra") {
        return Command::RunAll;
    }
    if is_word(&ts, "restart") {
        return Command::Restart;
    }
    if is_word(&ts, "restart!") {
        return Command::RestartAndRunAll;
    }
    if is_word(&ts, "interrupt") {
        return Command::Interrupt;
    }
    let n = t.unicode_len();
    if n > 0 && t.get_char(n - 1) == 'c' {
        let rest = t.substring_char(0, n - 1);
        assert(rest@ =~= t@.drop_last());
        return match parse_decimal(rest) {
            Some(k) => Command::GotoCell(k),
            None => Command::Unknown,
        };
    }
    if let Some(k) = parse_decimal(t) {
        return Command::GotoLine(k);
    }
    if n >= 2 && t.get_char(0) == 'w' && t.get_char(1) == ' ' {
        let file = trim_text(t.substring_char(2, n));
        return Command::WriteTo(String::from_str(file));
    }
    Command::Unknown
}

/// The position of cell `n` (counted from 1) among `count` cells, if there
/// is such a cell.
pub fn cell_index(n: usize, count: usize) -> (r: Option<usize>)
    ensures
        1 <= n <= count ==> r == Some((n - 1) as usize),
        !(1 <= n <= count) ==> r is None,
{
    if n > 0 && n <= count {
        Some(n - 1)
    } else {
        None
    }
}

/// Reads a command line: the text without surrounding whitespace decides.
pub fn parse_command(cmd: &str) -> (r: Command)
    ensures
        r@ == command_of(trimmed(cmd@)),
{
    parse_trimmed(trim_text(cmd))
}

} // verus!
