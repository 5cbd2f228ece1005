//! Programs to run, as values.

use crate::membership::{opt_text, texts};
use vstd::prelude::*;

verus! {

/// A program with its arguments and, where it reads one, its input.
#[derive(Debug)]
pub struct CommandLine {
    pub program: String,
    pub args: Vec<String>,
    pub stdin: Option<String>,
}

pub struct CommandView {
    pub program: Seq<char>,
    pub args: Seq<Seq<char>>,
    pub stdin: Option<Seq<char>>,
}

impl View for CommandLine {
    type V = CommandView;

    open spec fn view(&self) -> CommandView {
        CommandView {
            program: self.program@,
            args: texts(self.args@),
            stdin: opt_text(self.stdin),
        }
    }
}

/// A program with no arguments yet.
pub open spec fn bare(program: Seq<char>) -> CommandView {
    CommandView { program, args: Seq::empty(), stdin: None }
}

/// The command with these arguments.
pub open spec fn with_args(c: CommandView, args: Seq<Seq<char>>) -> CommandView {
    CommandView { args: c.args + args, ..c }
}

impl CommandLine {
    pub fn new(program: &str) -> (r: CommandLine)
        ensures
            r@ == bare(program@),
    {
        let r = CommandLine { program: program.to_owned(), args: Vec::new(), stdin: None };
        proof {
            assert(r@.args =~= Seq::empty());
        }
        r
    }

    /// Adds one argument.
    pub fn arg(&mut self, arg: &str)
        ensures
            final(self)@ == with_args(old(self)@, seq![arg@]),
    {
        let ghost before = self.args@;
        self.args.push(arg.to_owned());
        proof {
            assert(texts(self.args@) =~= texts(before) + seq![arg@]);
        }
    }
}

/// A program with one argument.
pub fn command1(program: &str, a: &str) -> (r: CommandLine)
    ensures
        r@ == with_args(bare(program@), seq![a@]),
{
    let mut c = CommandLine::new(program);
    c.arg(a);
    c
}

/// A program with two arguments.
pub fn command2(program: &str, a: &str, b: &str) -> (r: CommandLine)
    ensures
        r@ == with_args(bare(program@), seq![a@, b@]),
{
    let mut c = command1(program, a);
    c.arg(b);
    proof {
        assert(c@.args =~= with_args(bare(program@), seq![a@, b@]).args);
    }
    c
}

/// A program with three arguments.
pub fn command3(program: &str, a: &str, b: &str, d: &str) -> (r: CommandLine)
    ensures
        r@ == with_args(bare(program@), seq![a@, b@, d@]),
{
    let mut c = command2(program, a, b);
    c.arg(d);
    proof {
        assert(c@.args =~= with_args(bare(program@), seq![a@, b@, d@]).args);
    }
    c
}

/// A program with four arguments.
pub fn command4(program: &str, a: &str, b: &str, d: &str, e: &str) -> (r: CommandLine)
    ensures
        r@ == with_args(bare(program@), seq![a@, b@, d@, e@]),
{
    let mut c = command3(program, a, b, d);
    c.arg(e);
    proof {
        assert(c@.args =~= with_args(bare(program@), seq![a@, b@, d@, e@]).args);
    }
    c
}

} // verus!
