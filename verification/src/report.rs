//! What the user is shown: one command line for each rename, and the advice
//! after a dry run.

use crate::plan::PlanEntry;
use crate::trusted::push_char;
use vstd::prelude::*;

verus! {

/// The line that shows one rename: the move command, then the source and the
/// target as they were written, each in single quotes, with a tab between
/// them so that the targets can be lined up.
pub open spec fn command_line(command: Seq<char>, source: Seq<char>, target: Seq<char>) -> Seq<
    char,
> {
    command + seq![' ', '\''] + source + seq!['\'', '\t', '\''] + target + seq!['\'']
}

impl PlanEntry {
    /// The line that shows this rename, see [`command_line`]. The paths are
    /// the display paths, not the canonical ones.
    pub fn command_line(&self, command: &str) -> (r: String)
        ensures
            r@ == command_line(command@, self@.display_source, self@.display_target),
    {
        let mut out = String::new();
        out.append(command);
        push_char(&mut out, ' ');
        push_char(&mut out, '\'');
        out.append(self.display_source.as_str());
        push_char(&mut out, '\'');
        push_char(&mut out, '\t');
        push_char(&mut out, '\'');
        out.append(self.display_target.as_str());
        push_char(&mut out, '\'');
        assert(out@ =~= command_line(command@, self@.display_source, self@.display_target));
        out
    }
}

/// The two switches that decide whether a run only shows its plan.
#[derive(Debug, Copy, Clone, PartialEq, Eq, PartialOrd, Ord, Hash)]
pub struct DryFlags {
    /// The user asked for a real run.
    pub maybe_not_dry: bool,
    /// The user asked for a dry run, which takes precedence.
    pub very_much_dry: bool,
}

impl DryFlags {
    /// A run is dry unless a real run was asked for and a dry run was not.
    pub open spec fn spec_is_dry(self) -> bool {
        self.very_much_dry || !self.maybe_not_dry
    }

    /// The advice after a dry run: a notice, and how to get a real run from
    /// the switches that were given. Nothing after a real run.
    pub open spec fn spec_advice(self) -> Seq<Seq<char>> {
        if !self.maybe_not_dry && !self.very_much_dry {
            seq![
                "NOTICE: This was a DRY RUN!!!!!"@,
                "        If you like the results, use the -D flag to DO IT!"@,
            ]
        } else if self.maybe_not_dry && self.very_much_dry {
            seq![
                "NOTICE: This was a DRY RUN!!!!!"@,
                "        If you like the results, remove the -d flag."@,
            ]
        } else if self.very_much_dry {
            seq![
                "NOTICE: This was a DRY RUN!!!!! (in fact; this is the default! Forget -d!)"@,
                "        If you like the results, replace -d with -D to DO IT!"@,
            ]
        } else {
            Seq::empty()
        }
    }

    /// Whether the run only shows its plan.
    pub fn is_dry(self) -> (r: bool)
        ensures
            r == self.spec_is_dry(),
    {
        self.very_much_dry || !self.maybe_not_dry
    }

    /// The lines of advice after a run, see [`DryFlags::spec_advice`].
    pub fn advice(self) -> (r: Vec<String>)
        ensures
            r.deep_view() == self.spec_advice(),
            r.len() > 0 <==> self.spec_is_dry(),
    {
        let mut lines: Vec<String> = Vec::new();
        if !self.maybe_not_dry && !self.very_much_dry {
            lines.push("NOTICE: This was a DRY RUN!!!!!".to_owned());
            lines.push("        If you like the results, use the -D flag to DO IT!".to_owned());
        } else if self.maybe_not_dry && self.very_much_dry {
            lines.push("NOTICE: This was a DRY RUN!!!!!".to_owned());
            lines.push("        If you like the results, remove the -d flag.".to_owned());
        } else if self.very_much_dry {
            lines.push(
                "NOTICE: This was a DRY RUN!!!!! (in fact; this is the default! Forget -d!)".to_owned(),
            );
            lines.push("        If you like the results, replace -d with -D to DO IT!".to_owned());
        }
        assert(lines.deep_view() =~= self.spec_advice());
        lines
    }
}

} // verus!
