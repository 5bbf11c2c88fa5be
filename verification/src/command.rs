//! Commands that the handlers ask the system to run.
use vstd::prelude::*;

verus! {

/// A program to run with its arguments.
pub struct SystemCommand {
    pub program: String,
    pub args: Vec<String>,
}

/// What a command is: the program and its arguments.
pub struct CommandSpec {
    pub program: Seq<char>,
    pub args: Seq<Seq<char>>,
}

impl View for SystemCommand {
    type V = CommandSpec;

    open spec fn view(&self) -> CommandSpec {
        CommandSpec { program: self.program@, args: self.args@.map_values(|a: String| a@) }
    }
}

/// The command that runs `program` with `args`.
pub open spec fn cmd(program: Seq<char>, args: Seq<Seq<char>>) -> CommandSpec {
    CommandSpec { program, args }
}

/// The views of a list of commands.
pub open spec fn command_views(cs: Seq<SystemCommand>) -> Seq<CommandSpec> {
    cs.map_values(|c: SystemCommand| c@)
}

impl SystemCommand {
    /// The command that runs `program` with the arguments `args`.
    pub fn new(program: &str, args: &[&str]) -> (r: SystemCommand)
        ensures
            r@ == cmd(program@, args@.map_values(|a: &str| a@)),
    {
        let mut v: Vec<String> = Vec::new();
        let mut i: usize = 0;
        while i < args.len()
            invariant
                i <= args@.len(),
                v@.len() == i,
                forall|k: int| 0 <= k < i ==> (#[trigger] v@[k])@ == args@[k]@,
            decreases args@.len() - i,
        {
            let a: &str = args[i];
            v.push(a.to_string());
            i = i + 1;
        }
        assert(v@.map_values(|x: String| x@) =~= args@.map_values(|x: &str| x@));
        SystemCommand { program: program.to_string(), args: v }
    }
}

} // verus!
