//! Homebrew's build environment: whether the Command Line Tools (CLT) are
//! broken or outdated, as the individual checks of `brew doctor` report it.
//!
//! After a macOS update the CLT can be left behind and source builds of
//! `brew install` fail. A state that makes builds fail is an error, an
//! advisable update is a warning. Off macOS, or without `brew`, nothing is
//! reported.
//!
//! Running `brew doctor` is left to the caller: `CltCheck::start` and
//! `CltCheck::next` say what to run next or what to report.
use vstd::prelude::*;

use crate::checks::{diagnostics_view, join2, Check, Diagnostic, Level};
use crate::text::{chars_of, lemma_trim_is_piece, lossy_utf8, range_starts_with, starts_with, trim, trim_range, utf8_lossy};

verus! {

/// Checks the Command Line Tools through `brew doctor`.
pub struct CltCheck;

/// The two rounds of `brew doctor`.
#[derive(Clone, Copy, Debug, PartialEq, Eq, Structural)]
pub enum DoctorStage {
    /// Checks whose failure makes source builds fail.
    Critical,
    /// Checks that only report a newer CLT.
    Advisory,
}

/// What one run of `brew doctor` gave.
#[derive(Debug)]
pub enum DoctorOutcome {
    /// It succeeded: no problem found.
    Clean,
    /// It failed, with this summary of its warning.
    Warning(String),
    /// It could not be run, for this reason.
    Failed(String),
}

/// What to do next.
#[derive(Debug)]
pub enum CltAction {
    /// Run `brew doctor` with the checks of this stage.
    RunDoctor(DoctorStage),
    /// Report these findings; the check is done.
    Report(Vec<Diagnostic>),
}

/// The names of the `brew doctor` checks run at `stage`.
pub open spec fn stage_checks(stage: DoctorStage) -> Seq<Seq<char>> {
    match stage {
        DoctorStage::Critical => seq![
            "check_clt_minimum_version"@,
            "check_if_supported_sdk_available"@,
        ],
        DoctorStage::Advisory => seq!["check_clt_up_to_date"@],
    }
}

/// The `brew doctor` checks to run at `stage`.
pub fn doctor_checks(stage: DoctorStage) -> (r: Vec<&'static str>)
    ensures
        r@.map_values(|c: &str| c@) == stage_checks(stage),
{
    let r = match stage {
        DoctorStage::Critical => vec!["check_clt_minimum_version", "check_if_supported_sdk_available"],
        DoctorStage::Advisory => vec!["check_clt_up_to_date"],
    };
    assert(r@.map_values(|c: &str| c@) =~= stage_checks(stage));
    r
}

/// The outcome as plain values: 0 clean, 1 a warning, 2 a failure to run, with its text.
pub open spec fn outcome_view(o: DoctorOutcome) -> (int, Seq<char>) {
    match o {
        DoctorOutcome::Clean => (0, Seq::empty()),
        DoctorOutcome::Warning(w) => (1, w@),
        DoctorOutcome::Failed(e) => (2, e@),
    }
}

/// The findings reported after the critical round, or none when the
/// advisory round is to follow.
pub open spec fn critical_findings(o: (int, Seq<char>)) -> Option<Seq<(Level, Seq<char>)>> {
    if o.0 == 1 {
        Some(seq![(Level::Error, o.1 + " (run `brew doctor` for how to fix)"@)])
    } else if o.0 == 2 {
        Some(seq![(Level::Warn, "could not run brew doctor: "@ + o.1)])
    } else {
        None
    }
}

/// The findings reported after the advisory round.
pub open spec fn advisory_findings(o: (int, Seq<char>)) -> Seq<(Level, Seq<char>)> {
    if o.0 == 1 {
        seq![(Level::Warn, o.1)]
    } else if o.0 == 2 {
        seq![(Level::Warn, "could not run brew doctor: "@ + o.1)]
    } else {
        seq![(Level::Pass, "Command Line Tools support this macOS"@)]
    }
}

/// Number of characters of `s` before its first line feed (`s.len()` when none).
pub open spec fn newline_index(s: Seq<char>) -> nat
    decreases s.len(),
{
    if s.len() == 0 || s[0] == '\n' {
        0
    } else {
        1 + newline_index(s.drop_first())
    }
}

/// The first warning in `s`: going through the lines of `s` in order, the
/// first line that, with its surrounding white space trimmed, begins with
/// `Warning: `, and what follows that prefix on it. (A `\r` before a line
/// feed is white space, so it is trimmed like the rest.)
pub open spec fn first_warning(s: Seq<char>) -> Option<Seq<char>>
    decreases s.len(),
{
    let e = newline_index(s);
    let line = trim(s.take(e as int));
    if starts_with(line, "Warning: "@) {
        Some(line.skip("Warning: "@.len() as int))
    } else if e < s.len() {
        first_warning(s.skip(e + 1 as int))
    } else {
        None
    }
}

/// The summary used when `brew doctor` prints no warning line.
pub open spec fn default_summary() -> Seq<char> {
    "Command Line Tools are outdated for this macOS"@
}

/// Sums up the standard error of `brew doctor` in one line: the text of its
/// first `Warning: ` line, or a fixed sentence when there is none.
pub fn summarize_warning(stderr: &str) -> (r: String)
    ensures
        r@ == (match first_warning(stderr@) {
            Some(w) => w,
            None => default_summary(),
        }),
{
    let v = chars_of(stderr);
    let n = v.len();
    let ghost text = stderr@;
    let prefix = "Warning: ";
    let pn = prefix.unicode_len();
    let mut pos: usize = 0;
    assert(text.skip(0) =~= text);
    loop
        invariant
            text == stderr@,
            v@ == text,
            n == text.len(),
            pos <= n,
            pn == prefix@.len(),
            prefix@ == "Warning: "@,
            first_warning(text) == first_warning(text.skip(pos as int)),
        decreases n - pos,
    {
        let ghost rest = text.skip(pos as int);
        let mut j: usize = pos;
        while j < n && v[j] != '\n'
            invariant
                v@ == text,
                n == text.len(),
                pos <= j <= n,
                rest == text.skip(pos as int),
                newline_index(rest) == (j - pos) + newline_index(text.skip(j as int)),
            decreases n - j,
        {
            assert(text.skip(j as int).drop_first() =~= text.skip(j + 1));
            j = j + 1;
        }
        assert(newline_index(text.skip(j as int)) == 0);
        let ghost e = j - pos;
        assert(rest.take(e as int) =~= v@.subrange(pos as int, j as int));
        assert(newline_index(rest) == e);
        let (a, b) = trim_range(&v, pos, j);
        assert(trim(rest.take(e as int)) == v@.subrange(a as int, b as int));
        if range_starts_with(&v, a, b, prefix) {
            let ghost line = v@.subrange(a as int, b as int);
            let r = String::from_str(stderr.substring_char(a + pn, b));
            assert(r@ =~= line.skip(pn as int));
            return r;
        }
        if j < n {
            assert(rest.skip(e + 1 as int) =~= text.skip(j + 1));
            pos = j + 1;
        } else {
            assert(newline_index(rest) == e);
            return String::from_str("Command Line Tools are outdated for this macOS");
        }
    }
}


proof fn lemma_newline_index(s: Seq<char>)
    ensures
        newline_index(s) <= s.len(),
        forall|k: int| 0 <= k < newline_index(s) ==> s[k] != '\n',
    decreases s.len(),
{
    if s.len() > 0 && s[0] != '\n' {
        lemma_newline_index(s.drop_first());
        assert forall|k: int| 0 <= k < newline_index(s) implies s[k] != '\n' by {
            if k > 0 {
                assert(s[k] == s.drop_first()[k - 1]);
            }
        }
    }
}

/// The first warning lies within one line: it holds no line feed.
pub proof fn lemma_first_warning_one_line(s: Seq<char>)
    ensures
        first_warning(s) matches Some(w) ==> forall|k: int| 0 <= k < w.len() ==> w[k] != '\n',
    decreases s.len(),
{
    let e = newline_index(s);
    lemma_newline_index(s);
    let t = s.take(e as int);
    let line = trim(t);
    if starts_with(line, "Warning: "@) {
        lemma_trim_is_piece(t);
        let (lo, hi) = choose|lo: int, hi: int|
            0 <= lo <= hi <= t.len() && #[trigger] t.subrange(lo, hi) == line;
        let w = line.skip("Warning: "@.len() as int);
        assert forall|k: int| 0 <= k < w.len() implies w[k] != '\n' by {
            let p = "Warning: "@.len() as int;
            assert(w[k] == line[p + k]);
            assert(line[p + k] == t[lo + p + k]);
            assert(t[lo + p + k] == s[lo + p + k]);
        }
    } else if e < s.len() {
        lemma_first_warning_one_line(s.skip(e + 1 as int));
    }
}

/// The summary of `brew doctor`'s output is a single line.
pub proof fn lemma_summary_one_line(s: Seq<char>)
    ensures
        ({
            let r = match first_warning(s) {
                Some(w) => w,
                None => default_summary(),
            };
            forall|k: int| 0 <= k < r.len() ==> r[k] != '\n'
        }),
{
    lemma_first_warning_one_line(s);
    reveal_strlit("Command Line Tools are outdated for this macOS");
}

/// The outcome of a run of `brew doctor` that could be started, from its
/// exit status and its standard error.
pub fn doctor_outcome(success: bool, stderr: &[u8]) -> (o: DoctorOutcome)
    ensures
        success ==> o is Clean,
        !success ==> (o matches DoctorOutcome::Warning(w) && w@ == (match first_warning(
            lossy_utf8(stderr@),
        ) {
            Some(w) => w,
            None => default_summary(),
        })),
{
    if success {
        DoctorOutcome::Clean
    } else {
        let text = utf8_lossy(stderr);
        DoctorOutcome::Warning(summarize_warning(text.as_str()))
    }
}

impl CltCheck {
    /// The first step: run the critical round on macOS with `brew` installed,
    /// else report nothing.
    pub fn start(&self, on_macos: bool, brew_found: bool) -> (a: CltAction)
        ensures
            on_macos && brew_found ==> a == CltAction::RunDoctor(DoctorStage::Critical),
            !(on_macos && brew_found) ==> (a matches CltAction::Report(ds) && ds@.len() == 0),
    {
        if !on_macos || !brew_found {
            CltAction::Report(Vec::new())
        } else {
            CltAction::RunDoctor(DoctorStage::Critical)
        }
    }

    /// The step after the round `stage` of `brew doctor` gave `outcome`: a
    /// clean critical round is followed by the advisory round; every other
    /// outcome ends the check with one finding.
    pub fn next(&self, stage: DoctorStage, outcome: DoctorOutcome) -> (a: CltAction)
        ensures
            stage == DoctorStage::Critical ==> match critical_findings(outcome_view(outcome)) {
                Some(f) => a matches CltAction::Report(ds) && diagnostics_view(ds@) == f,
                None => a == CltAction::RunDoctor(DoctorStage::Advisory),
            },
            stage == DoctorStage::Advisory ==> (a matches CltAction::Report(ds) && diagnostics_view(ds@)
                == advisory_findings(outcome_view(outcome))),
    {
        let ghost ov = outcome_view(outcome);
        let mut ds: Vec<Diagnostic> = Vec::new();
        match stage {
            DoctorStage::Critical => {
                match outcome {
                    DoctorOutcome::Clean => {
                        return CltAction::RunDoctor(DoctorStage::Advisory);
                    },
                    DoctorOutcome::Warning(w) => {
                        ds.push(
                            Diagnostic {
                                level: Level::Error,
                                message: join2(w.as_str(), " (run `brew doctor` for how to fix)"),
                            },
                        );
                    },
                    DoctorOutcome::Failed(e) => {
                        ds.push(
                            Diagnostic {
                                level: Level::Warn,
                                message: join2("could not run brew doctor: ", e.as_str()),
                            },
                        );
                    },
                }
            },
            DoctorStage::Advisory => {
                match outcome {
                    DoctorOutcome::Clean => {
                        ds.push(
                            Diagnostic {
                                level: Level::Pass,
                                message: String::from_str("Command Line Tools support this macOS"),
                            },
                        );
                    },
                    DoctorOutcome::Warning(w) => {
                        ds.push(Diagnostic { level: Level::Warn, message: w });
                    },
                    DoctorOutcome::Failed(e) => {
                        ds.push(
                            Diagnostic {
                                level: Level::Warn,
                                message: join2("could not run brew doctor: ", e.as_str()),
                            },
                        );
                    },
                }
            },
        }
        proof {
            assert(diagnostics_view(ds@) =~= (match stage {
                DoctorStage::Critical => critical_findings(ov)->0,
                DoctorStage::Advisory => advisory_findings(ov),
            }));
        }
        CltAction::Report(ds)
    }
}

impl Check for CltCheck {
    fn name(&self) -> (r: &str)
        ensures
            r@ == "clt"@,
    {
        "clt"
    }
}

} // verus!
