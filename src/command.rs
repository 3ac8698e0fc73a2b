//! External commands, as the words of their command lines.
use vstd::prelude::*;

use crate::text::strs;

verus! {

/// A program and its arguments, to be run by whoever holds the process handles.
#[derive(Debug)]
pub struct CommandLine {
    pub program: String,
    pub args: Vec<String>,
}

impl View for CommandLine {
    type V = Seq<Seq<char>>;

    /// The program followed by its arguments.
    open spec fn view(&self) -> Seq<Seq<char>> {
        seq![self.program@] + strs(self.args@)
    }
}

impl CommandLine {
    pub fn new(program: &str) -> (r: CommandLine)
        ensures
            r@ == seq![program@],
    {
        let r = CommandLine { program: program.to_owned(), args: Vec::new() };
        assert(r@ =~= seq![program@]);
        r
    }

    /// Adds one argument at the end.
    pub fn arg(&mut self, a: &str)
        ensures
            final(self)@ == old(self)@.push(a@),
    {
        let ghost before = self.args@;
        self.args.push(a.to_owned());
        assert(strs(self.args@) =~= strs(before).push(a@));
        assert(final(self)@ =~= old(self)@.push(a@));
    }
}

} // verus!
