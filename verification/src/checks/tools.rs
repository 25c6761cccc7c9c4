//! Required tools: each should be found on the `PATH`.
use vstd::prelude::*;

use crate::checks::{diagnostics_view, join2, Check, Diagnostic, Level};

verus! {

/// Checks that each required command is installed.
pub struct ToolsCheck {
    required: Vec<String>,
}

/// The finding for `tool`, given whether it was found on the `PATH`.
pub open spec fn tool_finding(tool: Seq<char>, found: bool) -> (Level, Seq<char>) {
    if found {
        (Level::Pass, tool + " is installed"@)
    } else {
        (Level::Error, tool + " is not installed"@)
    }
}

/// The finding for one tool.
pub fn tool_diagnostic(tool: &str, found: bool) -> (d: Diagnostic)
    ensures
        d.view_parts() == tool_finding(tool@, found),
{
    if found {
        Diagnostic { level: Level::Pass, message: join2(tool, " is installed") }
    } else {
        Diagnostic { level: Level::Error, message: join2(tool, " is not installed") }
    }
}

impl ToolsCheck {
    /// The required commands, in the configured order.
    pub closed spec fn tools(&self) -> Seq<Seq<char>> {
        self.required@.map_values(|t: String| t@)
    }

    pub fn new(required: Vec<String>) -> (c: Self)
        ensures
            c.tools() == required@.map_values(|t: String| t@),
    {
        Self { required }
    }

    /// The command to look up for the tool at `i`.
    pub fn tool(&self, i: usize) -> (t: &str)
        requires
            i < self.tools().len(),
        ensures
            t@ == self.tools()[i as int],
    {
        self.required[i].as_str()
    }

    /// The number of required tools.
    pub fn len(&self) -> (n: usize)
        ensures
            n == self.tools().len(),
    {
        self.required.len()
    }

    /// The findings, one per tool in order, given whether each was found.
    pub fn diagnose(&self, found: &Vec<bool>) -> (r: Vec<Diagnostic>)
        requires
            found@.len() == self.tools().len(),
        ensures
            diagnostics_view(r@) == self.tools().zip_with(found@).map_values(
                |e: (Seq<char>, bool)| tool_finding(e.0, e.1),
            ),
    {
        let n = self.required.len();
        let mut r: Vec<Diagnostic> = Vec::new();
        let mut i: usize = 0;
        while i < n
            invariant
                n == self.tools().len(),
                found@.len() == n,
                i <= n,
                r@.len() == i,
                forall|j: int|
                    0 <= j < i ==> #[trigger] r@[j].view_parts() == tool_finding(
                        self.tools()[j],
                        found@[j],
                    ),
            decreases n - i,
        {
            r.push(tool_diagnostic(self.required[i].as_str(), found[i]));
            i = i + 1;
        }
        assert(diagnostics_view(r@) =~= self.tools().zip_with(found@).map_values(
            |e: (Seq<char>, bool)| tool_finding(e.0, e.1),
        ));
        r
    }
}

impl Check for ToolsCheck {
    fn name(&self) -> (r: &str)
        ensures
            r@ == "tools"@,
    {
        "tools"
    }
}

} // verus!
