//! What a check reports, and the checks themselves.
use vstd::prelude::*;

use crate::text::str_eq;

pub mod clt;
pub mod symlink;
pub mod tools;
pub mod version;

verus! {

/// How serious one finding of a check is.
#[derive(Clone, Copy, Debug, PartialEq, Eq, Structural)]
pub enum Level {
    Pass,
    Warn,
    Error,
}

/// One finding of a check.
#[derive(Debug)]
pub struct Diagnostic {
    pub level: Level,
    pub message: String,
}

impl Diagnostic {
    /// The finding as plain values: its level and the characters of its message.
    pub open spec fn view_parts(self) -> (Level, Seq<char>) {
        (self.level, self.message@)
    }
}

/// The plain values of a list of findings.
pub open spec fn diagnostics_view(ds: Seq<Diagnostic>) -> Seq<(Level, Seq<char>)> {
    ds.map_values(|d: Diagnostic| d.view_parts())
}

/// What every check has: a name under which its findings are reported.
pub trait Check {
    fn name(&self) -> &str;
}

/// `a` followed by `b`, as a new `String`.
pub fn join2(a: &str, b: &str) -> (s: String)
    ensures
        s@ == a@ + b@,
{
    let mut s = String::from_str(a);
    s.append(b);
    s
}

/// `a`, `b` and `c` one after the other, as a new `String`.
pub fn join3(a: &str, b: &str, c: &str) -> (s: String)
    ensures
        s@ == a@ + b@ + c@,
{
    let mut s = String::from_str(a);
    s.append(b);
    s.append(c);
    s
}


/// The checks that can be asked for by name.
#[derive(Clone, Copy, Debug, PartialEq, Eq, Structural)]
pub enum CheckKind {
    Symlink,
    Tools,
    Version,
}

/// The checks to run when `choice` (the `--check` option) names one, or all
/// of them when it is absent; none for a name that is not a check.
pub open spec fn selected_checks(choice: Option<Seq<char>>) -> Option<Seq<CheckKind>> {
    match choice {
        None => Some(seq![CheckKind::Symlink, CheckKind::Tools, CheckKind::Version]),
        Some(c) => if c == "symlink"@ {
            Some(seq![CheckKind::Symlink])
        } else if c == "tools"@ {
            Some(seq![CheckKind::Tools])
        } else if c == "version"@ {
            Some(seq![CheckKind::Version])
        } else {
            None
        },
    }
}

/// The checks to run for the `--check` option (see `selected_checks`).
pub fn select_checks(choice: Option<&str>) -> (r: Option<Vec<CheckKind>>)
    ensures
        r is Some <==> selected_checks(
            match choice {
                Some(c) => Some(c@),
                None => None,
            },
        ) is Some,
        r matches Some(ks) ==> ks@ == selected_checks(
            match choice {
                Some(c) => Some(c@),
                None => None,
            },
        )->0,
{
    match choice {
        None => {
            let r = vec![CheckKind::Symlink, CheckKind::Tools, CheckKind::Version];
            assert(r@ =~= seq![CheckKind::Symlink, CheckKind::Tools, CheckKind::Version]);
            Some(r)
        },
        Some(c) => {
            if str_eq(c, "symlink") {
                let r = vec![CheckKind::Symlink];
                assert(r@ =~= seq![CheckKind::Symlink]);
                Some(r)
            } else if str_eq(c, "tools") {
                let r = vec![CheckKind::Tools];
                assert(r@ =~= seq![CheckKind::Tools]);
                Some(r)
            } else if str_eq(c, "version") {
                let r = vec![CheckKind::Version];
                assert(r@ =~= seq![CheckKind::Version]);
                Some(r)
            } else {
                None
            }
        },
    }
}

} // verus!
