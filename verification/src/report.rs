//! Presenting the findings of a check, and the overall result.
use vstd::prelude::*;

use crate::checks::{join3, Diagnostic, Level};

verus! {

/// The four-character mark printed before a finding of `level`.
pub open spec fn icon(level: Level) -> Seq<char> {
    match level {
        Level::Pass => "  OK"@,
        Level::Warn => "WARN"@,
        Level::Error => " ERR"@,
    }
}

/// The mark printed before a finding of `level`.
pub fn level_icon(level: Level) -> (r: &'static str)
    ensures
        r@ == icon(level),
{
    match level {
        Level::Pass => "  OK",
        Level::Warn => "WARN",
        Level::Error => " ERR",
    }
}

/// The line printed for one finding.
pub open spec fn finding_line(d: (Level, Seq<char>)) -> Seq<char> {
    "  "@ + icon(d.0) + "  "@ + d.1
}

/// The lines of the report of a check: its name in brackets, one line per
/// finding in order, then an empty line.
pub fn report_lines(check_name: &str, diagnostics: &[Diagnostic]) -> (r: Vec<String>)
    ensures
        r@.len() == diagnostics@.len() + 2,
        r@[0]@ == "["@ + check_name@ + "]"@,
        forall|i: int|
            0 <= i < diagnostics@.len() ==> #[trigger] r@[i + 1]@ == finding_line(
                diagnostics@[i].view_parts(),
            ),
        r@[diagnostics@.len() + 1 as int]@ == Seq::<char>::empty(),
{
    let mut r: Vec<String> = Vec::new();
    r.push(join3("[", check_name, "]"));
    let n = diagnostics.len();
    let mut i: usize = 0;
    while i < n
        invariant
            n == diagnostics@.len(),
            i <= n,
            r@.len() == i + 1,
            r@[0]@ == "["@ + check_name@ + "]"@,
            forall|j: int|
                0 <= j < i ==> #[trigger] r@[j + 1]@ == finding_line(diagnostics@[j].view_parts()),
        decreases n - i,
    {
        let d = &diagnostics[i];
        let mut line = join3("  ", level_icon(d.level), "  ");
        line.append(d.message.as_str());
        r.push(line);
        i = i + 1;
    }
    r.push(String::new());
    r
}

/// Whether some finding is an error.
pub open spec fn any_error(ds: Seq<Diagnostic>) -> bool {
    exists|i: int| 0 <= i < ds.len() && #[trigger] ds[i].level == Level::Error
}

/// Whether any of the findings is an error.
pub fn has_errors(diagnostics: &[Diagnostic]) -> (r: bool)
    ensures
        r == any_error(diagnostics@),
{
    let n = diagnostics.len();
    let mut i: usize = 0;
    while i < n
        invariant
            n == diagnostics@.len(),
            i <= n,
            forall|j: int| 0 <= j < i ==> diagnostics@[j].level != Level::Error,
        decreases n - i,
    {
        if diagnostics[i].level == Level::Error {
            return true;
        }
        i = i + 1;
    }
    false
}

/// The exit status of a run whose checks reported `reports`: 1 when any
/// check reported an error, 0 otherwise.
pub fn exit_code(reports: &Vec<Vec<Diagnostic>>) -> (c: i32)
    ensures
        c == 0 || c == 1,
        c == 1 <==> exists|i: int| 0 <= i < reports@.len() && any_error(#[trigger] reports@[i]@),
{
    let n = reports.len();
    let mut i: usize = 0;
    while i < n
        invariant
            n == reports@.len(),
            i <= n,
            forall|j: int| 0 <= j < i ==> !any_error(#[trigger] reports@[j]@),
        decreases n - i,
    {
        if has_errors(reports[i].as_slice()) {
            return 1;
        }
        i = i + 1;
    }
    0
}


/// The line of a finding is two spaces, the four-character mark of the
/// finding's own level (`  OK`, `WARN` or ` ERR`), two spaces and the message.
pub proof fn lemma_finding_line_marks(message: Seq<char>)
    ensures
        finding_line((Level::Pass, message)) == "  "@ + "  OK"@ + "  "@ + message,
        finding_line((Level::Warn, message)) == "  "@ + "WARN"@ + "  "@ + message,
        finding_line((Level::Error, message)) == "  "@ + " ERR"@ + "  "@ + message,
{
}

/// Findings with the same message but different levels print different lines.
pub proof fn lemma_finding_line_tells_levels_apart(a: (Level, Seq<char>), b: (Level, Seq<char>))
    requires
        a.1 == b.1,
        a.0 != b.0,
    ensures
        finding_line(a) != finding_line(b),
{
    reveal_strlit("  ");
    reveal_strlit("  OK");
    reveal_strlit("WARN");
    reveal_strlit(" ERR");
    assert(finding_line(a).subrange(2, 6) =~= icon(a.0));
    assert(finding_line(b).subrange(2, 6) =~= icon(b.0));
    assert(icon(a.0) != icon(b.0)) by {
        assert(icon(a.0)[0] != icon(b.0)[0] || icon(a.0)[2] != icon(b.0)[2]);
    }
}

/// The findings hold an error exactly when one of them, at any place, is an error.
pub proof fn lemma_any_error_somewhere(ds: Seq<Diagnostic>, i: int)
    requires
        0 <= i < ds.len(),
    ensures
        ds[i].level == Level::Error ==> any_error(ds),
        !any_error(ds) ==> ds[i].level != Level::Error,
{
}

/// Two lists of findings together hold an error exactly when one of them does.
pub proof fn lemma_any_error_concat(a: Seq<Diagnostic>, b: Seq<Diagnostic>)
    ensures
        any_error(a + b) == (any_error(a) || any_error(b)),
{
    if any_error(a) {
        let i = choose|i: int| 0 <= i < a.len() && #[trigger] a[i].level == Level::Error;
        assert((a + b)[i] == a[i]);
    }
    if any_error(b) {
        let i = choose|i: int| 0 <= i < b.len() && #[trigger] b[i].level == Level::Error;
        assert((a + b)[a.len() + i] == b[i]);
    }
    if any_error(a + b) {
        let i = choose|i: int| 0 <= i < (a + b).len() && #[trigger] (a + b)[i].level == Level::Error;
        if i < a.len() {
            assert((a + b)[i] == a[i]);
        } else {
            assert((a + b)[i] == b[i - a.len()]);
        }
    }
}

/// One error anywhere, in any check's findings, makes the run fail: the
/// condition under which `exit_code` gives 1 then holds.
pub proof fn lemma_exit_code_error_anywhere(reports: Seq<Seq<Diagnostic>>, i: int, j: int)
    requires
        0 <= i < reports.len(),
        0 <= j < reports[i].len(),
        reports[i][j].level == Level::Error,
    ensures
        exists|k: int| 0 <= k < reports.len() && any_error(#[trigger] reports[k]),
{
    assert(any_error(reports[i]));
}

} // verus!
