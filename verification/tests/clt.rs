use dotctor::checks::clt::{
    doctor_checks, doctor_outcome, summarize_warning, CltAction, CltCheck, DoctorOutcome,
    DoctorStage,
};
use dotctor::checks::{Check, Level};

#[test]
fn summarize_picks_first_warning_line() {
    let stderr = "Please note that these warnings are just used to help.\n\
                  \n\
                  Warning: Your Command Line Tools (CLT) does not support macOS 26.\n\
                  It is either outdated or was modified.\n";
    assert_eq!(
        summarize_warning(stderr),
        "Your Command Line Tools (CLT) does not support macOS 26."
    );
}

#[test]
fn summarize_falls_back_without_warning_line() {
    assert_eq!(
        summarize_warning("something unexpected"),
        "Command Line Tools are outdated for this macOS"
    );
}

#[test]
fn summarize_trims_and_takes_the_first_of_several() {
    assert_eq!(
        summarize_warning("  Warning: first one  \r\nWarning: second\n"),
        "first one"
    );
    assert_eq!(summarize_warning("x\n\tWarning: tabbed"), "tabbed");
    assert_eq!(
        summarize_warning("Warning:\nWarning:  \nwarning: lower"),
        "Command Line Tools are outdated for this macOS"
    );
    assert_eq!(
        summarize_warning(""),
        "Command Line Tools are outdated for this macOS"
    );
    assert_eq!(
        summarize_warning("Warning: "),
        "Command Line Tools are outdated for this macOS"
    );
    assert_eq!(summarize_warning("Warning:  x"), " x");
}

#[test]
fn summary_is_one_line() {
    let s = summarize_warning("a\nWarning: one line\nnext");
    assert!(!s.contains('\n'));
    assert_eq!(s, "one line");
}

#[test]
fn doctor_checks_per_stage() {
    assert_eq!(
        doctor_checks(DoctorStage::Critical),
        vec!["check_clt_minimum_version", "check_if_supported_sdk_available"]
    );
    assert_eq!(doctor_checks(DoctorStage::Advisory), vec!["check_clt_up_to_date"]);
}

#[test]
fn doctor_outcome_from_exit_status() {
    assert!(matches!(doctor_outcome(true, b"Warning: ignored"), DoctorOutcome::Clean));
    match doctor_outcome(false, b"Warning: CLT too old\n") {
        DoctorOutcome::Warning(w) => assert_eq!(w, "CLT too old"),
        other => panic!("unexpected {:?}", other),
    }
    match doctor_outcome(false, b"\xff") {
        DoctorOutcome::Warning(w) => {
            assert_eq!(w, "Command Line Tools are outdated for this macOS")
        }
        other => panic!("unexpected {:?}", other),
    }
}

#[test]
fn clt_reports_nothing_off_macos_or_without_brew() {
    let c = CltCheck;
    assert_eq!(c.name(), "clt");
    for (mac, brew) in [(false, false), (false, true), (true, false)] {
        match c.start(mac, brew) {
            CltAction::Report(ds) => assert!(ds.is_empty()),
            other => panic!("unexpected {:?}", other),
        }
    }
    assert!(matches!(
        c.start(true, true),
        CltAction::RunDoctor(DoctorStage::Critical)
    ));
}

#[test]
fn clt_critical_round() {
    let c = CltCheck;
    assert!(matches!(
        c.next(DoctorStage::Critical, DoctorOutcome::Clean),
        CltAction::RunDoctor(DoctorStage::Advisory)
    ));
    match c.next(DoctorStage::Critical, DoctorOutcome::Warning("CLT broken".to_string())) {
        CltAction::Report(ds) => {
            assert_eq!(ds.len(), 1);
            assert_eq!(ds[0].level, Level::Error);
            assert_eq!(ds[0].message, "CLT broken (run `brew doctor` for how to fix)");
        }
        other => panic!("unexpected {:?}", other),
    }
    match c.next(DoctorStage::Critical, DoctorOutcome::Failed("not found".to_string())) {
        CltAction::Report(ds) => {
            assert_eq!(ds.len(), 1);
            assert_eq!(ds[0].level, Level::Warn);
            assert_eq!(ds[0].message, "could not run brew doctor: not found");
        }
        other => panic!("unexpected {:?}", other),
    }
}

#[test]
fn clt_advisory_round() {
    let c = CltCheck;
    let cases = [
        (DoctorOutcome::Clean, Level::Pass, "Command Line Tools support this macOS"),
        (DoctorOutcome::Warning("update".to_string()), Level::Warn, "update"),
        (
            DoctorOutcome::Failed("boom".to_string()),
            Level::Warn,
            "could not run brew doctor: boom",
        ),
    ];
    for (outcome, level, message) in cases {
        match c.next(DoctorStage::Advisory, outcome) {
            CltAction::Report(ds) => {
                assert_eq!(ds.len(), 1);
                assert_eq!(ds[0].level, level);
                assert_eq!(ds[0].message, message);
            }
            other => panic!("unexpected {:?}", other),
        }
    }
}
