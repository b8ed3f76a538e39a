use vstd::prelude::*;

verus! {

/// What one trimmed input line asks of an interactive session.
#[derive(Debug, PartialEq)]
pub enum Command {
    /// Nothing to do.
    Blank,
    /// End the session.
    Exit,
    /// `func=<expr>`: define the function from `<expr>`.
    Define(String),
    /// `f=<arg>` or `f(<arg>)`: apply the function to `<arg>`.
    Apply(String),
    /// Starts with `f` while a function is defined, in neither form.
    BadApplication,
    /// Anything else: evaluate the line.
    Evaluate(String),
}

pub enum CommandView {
    Blank,
    Exit,
    Define(Seq<char>),
    Apply(Seq<char>),
    BadApplication,
    Evaluate(Seq<char>),
}

impl View for Command {
    type V = CommandView;

    open spec fn view(&self) -> CommandView {
        match self {
            Command::Blank => CommandView::Blank,
            Command::Exit => CommandView::Exit,
            Command::Define(s) => CommandView::Define(s@),
            Command::Apply(s) => CommandView::Apply(s@),
            Command::BadApplication => CommandView::BadApplication,
            Command::Evaluate(s) => CommandView::Evaluate(s@),
        }
    }
}

pub open spec fn starts_with(s: Seq<char>, p: Seq<char>) -> bool {
    p.len() <= s.len() && s.take(p.len() as int) == p
}

/// The command that the line `s` gives; `defined` tells whether a function
/// has been defined.
pub open spec fn command_of(s: Seq<char>, defined: bool) -> CommandView {
    if s.len() == 0 {
        CommandView::Blank
    } else if s == seq!['e', 'x', 'i', 't'] {
        CommandView::Exit
    } else if starts_with(s, seq!['f', 'u', 'n', 'c', '=']) {
        CommandView::Define(s.skip(5))
    } else if defined && s[0] == 'f' {
        if starts_with(s, seq!['f', '=']) {
            CommandView::Apply(s.skip(2))
        } else if starts_with(s, seq!['f', '(']) && s.last() == ')' {
            CommandView::Apply(s.subrange(2, s.len() - 1))
        } else {
            CommandView::BadApplication
        }
    } else {
        CommandView::Evaluate(s)
    }
}

fn has_prefix(s: &str, n: usize, p: &Vec<char>) -> (r: bool)
    requires
        n == s@.len(),
    ensures
        r == starts_with(s@, p@),
{
    if p.len() > n {
        return false;
    }
    let mut i: usize = 0;
    while i < p.len()
        invariant
            n == s@.len(),
            p@.len() <= n,
            i <= p@.len(),
            forall|k: int| 0 <= k < i ==> s@[k] == p@[k],
        decreases p.len() - i,
    {
        if s.get_char(i) != p[i] {
            assert(s@.take(p@.len() as int)[i as int] == s@[i as int]);
            return false;
        }
        i = i + 1;
    }
    assert(s@.take(p@.len() as int) =~= p@);
    true
}

/// Reads a trimmed input line as a session command (see `command_of`).
pub fn parse_command(line: &str, defined: bool) -> (r: Command)
    ensures
        r@ == command_of(line@, defined),
{
    let n = line.unicode_len();
    if n == 0 {
        return Command::Blank;
    }
    let exit = vec!['e', 'x', 'i', 't'];
    if has_prefix(line, n, &exit) && n == 4 {
        assert(line@ =~= line@.take(4));
        return Command::Exit;
    }
    proof {
        if line@ == seq!['e', 'x', 'i', 't'] {
            assert(line@.take(4) =~= line@);
        }
    }
    if has_prefix(line, n, &vec!['f', 'u', 'n', 'c', '=']) {
        let rest = line.substring_char(5, n).to_owned();
        assert(rest@ =~= line@.skip(5));
        return Command::Define(rest);
    }
    if defined && line.get_char(0) == 'f' {
        if has_prefix(line, n, &vec!['f', '=']) {
            let rest = line.substring_char(2, n).to_owned();
            assert(rest@ =~= line@.skip(2));
            return Command::Apply(rest);
        }
        if has_prefix(line, n, &vec!['f', '(']) && line.get_char(n - 1) == ')' {
            let arg = line.substring_char(2, n - 1).to_owned();
            return Command::Apply(arg);
        }
        return Command::BadApplication;
    }
    Command::Evaluate(line.to_owned())
}

} // verus!
