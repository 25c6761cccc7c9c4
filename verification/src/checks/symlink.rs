//! Symlinks: every configured link target should exist and be a symlink.
use vstd::prelude::*;

use crate::checks::{diagnostics_view, join2, join3, Check, Diagnostic, Level};
use crate::string_map::StringMap;
use crate::text::{starts_with, strip_prefix};

verus! {

/// What was found on disk at a link target. `exists` follows symlinks, so a
/// dangling symlink does not exist.
#[derive(Clone, Copy, Debug, PartialEq, Eq, Structural)]
pub struct PathStatus {
    pub exists: bool,
    pub is_symlink: bool,
}

/// Checks that each configured target is a symlink.
pub struct SymlinkCheck {
    /// target -> source
    symlinks: StringMap,
}

/// `path` with a leading `~/` replaced by the home directory and a slash.
pub open spec fn expanded_path(path: Seq<char>, home: Seq<char>) -> Seq<char> {
    if starts_with(path, "~/"@) {
        home + "/"@ + path.skip("~/"@.len() as int)
    } else {
        path
    }
}

/// Replaces a leading `~/` of `path` by `home` followed by a slash.
pub fn expand_tilde(path: &str, home: &str) -> (r: String)
    ensures
        r@ == expanded_path(path@, home@),
{
    match strip_prefix(path, "~/") {
        Some(rest) => join3(home, "/", rest),
        None => String::from_str(path),
    }
}

/// The finding for the link `target -> source`, given what is at `target`.
pub open spec fn symlink_finding(target: Seq<char>, source: Seq<char>, status: PathStatus) -> (
    Level,
    Seq<char>,
) {
    if !status.exists {
        (Level::Error, target + " does not exist"@)
    } else if !status.is_symlink {
        (Level::Warn, target + " exists but is not a symlink"@)
    } else {
        (Level::Pass, target + " -> "@ + source)
    }
}

/// The finding for one link.
pub fn symlink_diagnostic(target: &str, source: &str, status: PathStatus) -> (d: Diagnostic)
    ensures
        d.view_parts() == symlink_finding(target@, source@, status),
{
    if !status.exists {
        Diagnostic { level: Level::Error, message: join2(target, " does not exist") }
    } else if !status.is_symlink {
        Diagnostic { level: Level::Warn, message: join2(target, " exists but is not a symlink") }
    } else {
        Diagnostic { level: Level::Pass, message: join3(target, " -> ", source) }
    }
}


/// What a link's finding says: a target that does not exist (a missing
/// file, or a dangling symlink) is an error whatever else is known of it;
/// an existing target that is not a symlink is a warning; only an existing
/// symlink passes, and its message shows where it points.
pub proof fn lemma_symlink_finding_levels(target: Seq<char>, source: Seq<char>, status: PathStatus)
    ensures
        !status.exists ==> symlink_finding(target, source, status) == (
            Level::Error,
            target + " does not exist"@,
        ),
        symlink_finding(target, source, status).0 == Level::Error <==> !status.exists,
        symlink_finding(target, source, status).0 == Level::Warn <==> status.exists
            && !status.is_symlink,
        symlink_finding(target, source, status).0 == Level::Pass <==> status.exists
            && status.is_symlink,
        status.exists && status.is_symlink ==> symlink_finding(target, source, status).1 == target
            + " -> "@ + source,
        status.exists && !status.is_symlink ==> symlink_finding(target, source, status).1 == target
            + " exists but is not a symlink"@,
{
}

impl SymlinkCheck {
    /// The configured links, target first, in increasing target order.
    pub closed spec fn links(&self) -> Seq<(Seq<char>, Seq<char>)> {
        self.symlinks@
    }

    pub fn new(symlinks: StringMap) -> (c: Self)
        ensures
            c.links() == symlinks@,
    {
        Self { symlinks }
    }

    /// The paths to look at, one per link in order: each target with `~/`
    /// expanded against `home`.
    pub fn targets(&self, home: &str) -> (r: Vec<String>)
        ensures
            r@.len() == self.links().len(),
            forall|i: int|
                0 <= i < r@.len() ==> #[trigger] r@[i]@ == expanded_path(self.links()[i].0, home@),
    {
        let n = self.symlinks.len();
        let mut r: Vec<String> = Vec::new();
        let mut i: usize = 0;
        while i < n
            invariant
                n == self.links().len(),
                i <= n,
                r@.len() == i,
                forall|j: int|
                    0 <= j < i ==> #[trigger] r@[j]@ == expanded_path(self.links()[j].0, home@),
            decreases n - i,
        {
            r.push(expand_tilde(self.symlinks.key(i), home));
            i = i + 1;
        }
        r
    }

    /// The findings, one per link in order, given what is at each expanded target.
    pub fn diagnose(&self, statuses: &Vec<PathStatus>) -> (r: Vec<Diagnostic>)
        requires
            statuses@.len() == self.links().len(),
        ensures
            diagnostics_view(r@) == self.links().zip_with(statuses@).map_values(
                |e: ((Seq<char>, Seq<char>), PathStatus)| symlink_finding(e.0.0, e.0.1, e.1),
            ),
    {
        let n = self.symlinks.len();
        let mut r: Vec<Diagnostic> = Vec::new();
        let mut i: usize = 0;
        while i < n
            invariant
                n == self.links().len(),
                statuses@.len() == n,
                i <= n,
                r@.len() == i,
                forall|j: int|
                    0 <= j < i ==> #[trigger] r@[j].view_parts() == symlink_finding(
                        self.links()[j].0,
                        self.links()[j].1,
                        statuses@[j],
                    ),
            decreases n - i,
        {
            r.push(symlink_diagnostic(self.symlinks.key(i), self.symlinks.value(i), statuses[i]));
            i = i + 1;
        }
        assert(diagnostics_view(r@) =~= self.links().zip_with(statuses@).map_values(
            |e: ((Seq<char>, Seq<char>), PathStatus)| symlink_finding(e.0.0, e.0.1, e.1),
        ));
        r
    }
}

impl Check for SymlinkCheck {
    fn name(&self) -> (r: &str)
        ensures
            r@ == "symlink"@,
    {
        "symlink"
    }
}

} // verus!
