use dotctor::checks::{Diagnostic, Level};
use dotctor::report::{exit_code, has_errors, level_icon, report_lines};

fn diag(level: Level, message: &str) -> Diagnostic {
    Diagnostic { level, message: message.to_string() }
}

#[test]
fn icons_per_level() {
    assert_eq!(level_icon(Level::Pass), "  OK");
    assert_eq!(level_icon(Level::Warn), "WARN");
    assert_eq!(level_icon(Level::Error), " ERR");
}

#[test]
fn report_lines_frame_the_findings() {
    let ds = vec![
        diag(Level::Pass, "git is installed"),
        diag(Level::Error, "nvim is not installed"),
    ];
    assert_eq!(
        report_lines("tools", &ds),
        vec![
            "[tools]",
            "    OK  git is installed",
            "   ERR  nvim is not installed",
            "",
        ]
    );
    assert_eq!(report_lines("clt", &[]), vec!["[clt]", ""]);
}

#[test]
fn has_errors_only_for_error_level() {
    assert!(!has_errors(&[]));
    assert!(!has_errors(&[diag(Level::Pass, "a"), diag(Level::Warn, "b")]));
    assert!(has_errors(&[diag(Level::Warn, "b"), diag(Level::Error, "c")]));
}

#[test]
fn exit_code_is_one_when_any_check_errs() {
    assert_eq!(exit_code(&vec![]), 0);
    assert_eq!(
        exit_code(&vec![vec![diag(Level::Pass, "a")], vec![diag(Level::Warn, "b")]]),
        0
    );
    assert_eq!(
        exit_code(&vec![vec![diag(Level::Pass, "a")], vec![diag(Level::Error, "b")]]),
        1
    );
}
