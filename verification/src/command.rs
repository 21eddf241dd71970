//! The typed command representation produced by a successful parse: the
//! closed command and flag enumerations, one resolved command, and the
//! non-empty command list for a whole input line.

use vstd::prelude::*;

use crate::text::chars_to_string;
use crate::text::str_to_chars;
use crate::text::views_of;

verus! {

/// The closed set of recognized command identifiers.
#[derive(Debug, Clone, Copy, PartialEq, Eq, Structural)]
pub enum CommandType {
    Echo,
    Cd,
    Ls,
    Pwd,
    Cat,
    Cp,
    Rm,
    Mv,
    Mkdir,
    Exit,
}

/// The closed set of recognized single-character options.
#[derive(Debug, Clone, Copy, PartialEq, Eq, Structural)]
pub enum Flag {
    L,
    A,
    F,
    R,
}

/// The mathematical value of one resolved command: its kind, its flags in
/// first-seen order without duplicates, and its positional arguments in
/// input order.
pub struct CommandModel {
    pub name: CommandType,
    pub flags: Seq<Flag>,
    pub args: Seq<Seq<char>>,
}

/// One resolved command: a kind, the flags collected from its clustered
/// short-flag tokens, and its positional arguments in input order.
#[derive(Debug, Clone, PartialEq, Eq)]
pub struct Command {
    pub name: CommandType,
    pub flags: Vec<Flag>,
    pub args: Vec<String>,
}

impl View for Command {
    type V = CommandModel;

    open spec fn view(&self) -> CommandModel {
        CommandModel { name: self.name, flags: self.flags@, args: views_of(self.args@) }
    }
}

/// The argument texts joined with single spaces, in order.
pub open spec fn joined_with_spaces(args: Seq<Seq<char>>) -> Seq<char>
    decreases args.len(),
{
    if args.len() == 0 {
        Seq::empty()
    } else if args.len() == 1 {
        args[0]
    } else {
        joined_with_spaces(args.drop_last()) + seq![' '] + args.last()
    }
}

impl Command {
    /// Joins the positional arguments with single spaces, as `echo` prints
    /// them.
    pub fn joined_args(&self) -> (r: String)
        ensures
            r@ == joined_with_spaces(views_of(self.args@)),
    {
        let ghost views = views_of(self.args@);
        let mut out: Vec<char> = Vec::new();
        let n = self.args.len();
        let mut i: usize = 0;
        proof {
            assert(views.take(0) =~= Seq::<Seq<char>>::empty());
        }
        while i < n
            invariant
                i <= n,
                n == self.args@.len(),
                views == views_of(self.args@),
                out@ == joined_with_spaces(views.take(i as int)),
            decreases n - i,
        {
            if i > 0 {
                out.push(' ');
            }
            let ghost base = out@;
            let cs = str_to_chars(self.args[i].as_str());
            assert(cs@ == views[i as int]);
            let m = cs.len();
            let mut j: usize = 0;
            while j < m
                invariant
                    j <= m,
                    m == cs@.len(),
                    out@ == base + cs@.subrange(0, j as int),
                decreases m - j,
            {
                out.push(cs[j]);
                assert(out@ =~= base + cs@.subrange(0, j + 1));
                j = j + 1;
            }
            proof {
                assert(out@ =~= base + cs@);
                let next = views.take(i + 1);
                assert(next.drop_last() =~= views.take(i as int));
                assert(next.last() == views[i as int]);
                if i == 0 {
                    assert(out@ =~= next[0]);
                } else {
                    assert(next.len() >= 2);
                    assert(out@ =~= joined_with_spaces(next.drop_last()) + seq![' ']
                        + next.last());
                }
            }
            i = i + 1;
        }
        proof {
            assert(views.take(n as int) =~= views);
        }
        chars_to_string(&out)
    }
}

/// All commands parsed from one input line, in left-to-right execution
/// order; never empty when parsing succeeds.
#[derive(Debug, Clone, PartialEq, Eq)]
pub struct Commands {
    pub command: Vec<Command>,
}

/// The mathematical values of a sequence of resolved commands.
pub open spec fn models_of(cs: Seq<Command>) -> Seq<CommandModel> {
    Seq::new(cs.len(), |i: int| cs[i]@)
}

impl View for Commands {
    type V = Seq<CommandModel>;

    open spec fn view(&self) -> Seq<CommandModel> {
        models_of(self.command@)
    }
}

} // verus!
