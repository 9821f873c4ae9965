//! The configured commands and the choice of which one a transition runs.

use vstd::prelude::*;
use crate::monitor::Transition;
use crate::names::TargetSet;
use vstd::utf8::encode_utf8;

verus! {

/// The run's configuration: the command lines to run when a target starts and
/// when the last one stops (program first, then its arguments; empty for
/// none), and the executable names to watch.
pub struct Config {
    pub cmd_on_open: Vec<String>,
    pub cmd_on_close: Vec<String>,
    pub targets: Vec<String>,
}

/// A program to start and the arguments to give it.
pub struct CommandSpec {
    pub program: String,
    pub args: Vec<String>,
}

/// The command line configured for a transition.
pub open spec fn command_line(config: Config, t: Transition) -> Seq<String> {
    match t {
        Transition::Opened => config.cmd_on_open@,
        Transition::Closed => config.cmd_on_close@,
    }
}

impl Config {
    /// The names to watch for, as a target set.
    pub fn target_set(&self) -> (r: TargetSet)
        ensures
            r@ == self.targets@.map_values(|s: String| encode_utf8(s@)),
    {
        TargetSet::new(&self.targets)
    }

    /// The command that `t` runs: `None` where its command line is empty,
    /// else the line's first word as the program and the rest as arguments.
    pub fn command_for(&self, t: Transition) -> (r: Option<CommandSpec>)
        ensures
            r is None <==> command_line(*self, t).len() == 0,
            r is Some ==> r->0.program == command_line(*self, t)[0] && r->0.args@
                == command_line(*self, t).drop_first(),
    {
        let line: &Vec<String> = match t {
            Transition::Opened => &self.cmd_on_open,
            Transition::Closed => &self.cmd_on_close,
        };
        if line.len() == 0 {
            return None;
        }
        let program = line[0].clone();
        let mut args: Vec<String> = Vec::new();
        let mut i: usize = 1;
        while i < line.len()
            invariant
                1 <= i <= line@.len(),
                line@ == command_line(*self, t),
                args@ =~= line@.subrange(1, i as int),
            decreases line@.len() - i,
        {
            args.push(line[i].clone());
            i = i + 1;
        }
        assert(args@ =~= line@.drop_first());
        Some(CommandSpec { program, args })
    }
}

} // verus!
