use dotctor::checks::symlink::{expand_tilde, symlink_diagnostic, PathStatus, SymlinkCheck};
use dotctor::checks::tools::{tool_diagnostic, ToolsCheck};
use dotctor::checks::{select_checks, Check, CheckKind, Level};
use dotctor::string_map::StringMap;

#[test]
fn expand_tilde_uses_home() {
    assert_eq!(expand_tilde("~/.zshrc", "/home/me"), "/home/me/.zshrc");
    assert_eq!(expand_tilde("~/.zshrc", ""), "/.zshrc");
    assert_eq!(expand_tilde("/etc/x", "/home/me"), "/etc/x");
    assert_eq!(expand_tilde("~", "/home/me"), "~");
    assert_eq!(expand_tilde("~user/x", "/home/me"), "~user/x");
}

#[test]
fn symlink_diagnostic_levels() {
    let missing = PathStatus { exists: false, is_symlink: false };
    let plain = PathStatus { exists: true, is_symlink: false };
    let link = PathStatus { exists: true, is_symlink: true };
    let d = symlink_diagnostic("~/.zshrc", "configs/zshrc", missing);
    assert_eq!((d.level, d.message.as_str()), (Level::Error, "~/.zshrc does not exist"));
    let d = symlink_diagnostic("~/.zshrc", "configs/zshrc", plain);
    assert_eq!(
        (d.level, d.message.as_str()),
        (Level::Warn, "~/.zshrc exists but is not a symlink")
    );
    let d = symlink_diagnostic("~/.zshrc", "configs/zshrc", link);
    assert_eq!((d.level, d.message.as_str()), (Level::Pass, "~/.zshrc -> configs/zshrc"));
}

#[test]
fn symlink_check_walks_targets_in_order() {
    let mut m = StringMap::new();
    m.insert("~/.zshrc".to_string(), "configs/zshrc".to_string());
    m.insert("~/.gitconfig".to_string(), "configs/gitconfig".to_string());
    let c = SymlinkCheck::new(m);
    assert_eq!(c.name(), "symlink");
    assert_eq!(c.targets("/h"), vec!["/h/.gitconfig", "/h/.zshrc"]);
    let ds = c.diagnose(&vec![
        PathStatus { exists: true, is_symlink: true },
        PathStatus { exists: false, is_symlink: false },
    ]);
    assert_eq!(ds.len(), 2);
    assert_eq!(ds[0].message, "~/.gitconfig -> configs/gitconfig");
    assert_eq!(ds[0].level, Level::Pass);
    assert_eq!(ds[1].message, "~/.zshrc does not exist");
    assert_eq!(ds[1].level, Level::Error);
}

#[test]
fn tools_check_one_finding_per_tool() {
    let c = ToolsCheck::new(vec!["git".to_string(), "nvim".to_string(), "gh".to_string()]);
    assert_eq!(c.name(), "tools");
    assert_eq!(c.len(), 3);
    assert_eq!(c.tool(1), "nvim");
    let ds = c.diagnose(&vec![true, false, true]);
    assert_eq!(ds.len(), 3);
    assert_eq!((ds[0].level, ds[0].message.as_str()), (Level::Pass, "git is installed"));
    assert_eq!((ds[1].level, ds[1].message.as_str()), (Level::Error, "nvim is not installed"));
    assert_eq!((ds[2].level, ds[2].message.as_str()), (Level::Pass, "gh is installed"));
    let d = tool_diagnostic("x", false);
    assert_eq!(d.message, "x is not installed");
}

#[test]
fn select_checks_by_name() {
    assert_eq!(
        select_checks(None),
        Some(vec![CheckKind::Symlink, CheckKind::Tools, CheckKind::Version])
    );
    assert_eq!(select_checks(Some("symlink")), Some(vec![CheckKind::Symlink]));
    assert_eq!(select_checks(Some("tools")), Some(vec![CheckKind::Tools]));
    assert_eq!(select_checks(Some("version")), Some(vec![CheckKind::Version]));
    assert_eq!(select_checks(Some("clt")), None);
    assert_eq!(select_checks(Some("Symlink")), None);
    assert_eq!(select_checks(Some("")), None);
}
