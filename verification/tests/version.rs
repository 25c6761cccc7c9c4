use dotctor::checks::version::{
    extract_version, parse_version, requirement_minimum, version_diagnostic, version_from_output,
    version_satisfies, VersionCheck,
};
use dotctor::checks::{Check, Level};
use dotctor::string_map::StringMap;

#[test]
fn extract_version_from_node() {
    assert_eq!(extract_version("v22.12.0"), Some("22.12.0".to_string()));
}

#[test]
fn extract_version_from_git() {
    assert_eq!(
        extract_version("git version 2.53.0"),
        Some("2.53.0".to_string())
    );
}

#[test]
fn extract_version_from_nvim() {
    assert_eq!(extract_version("NVIM v0.10.4"), Some("0.10.4".to_string()));
}

#[test]
fn extract_version_empty() {
    assert_eq!(extract_version("no version here!"), None);
}

#[test]
fn satisfies_equal() {
    assert!(version_satisfies("22.12.0", "22"));
}

#[test]
fn satisfies_higher_major() {
    assert!(version_satisfies("23.0.0", "22"));
}

#[test]
fn satisfies_lower_major() {
    assert!(!version_satisfies("21.0.0", "22"));
}

#[test]
fn satisfies_minor_comparison() {
    assert!(version_satisfies("0.11.0", "0.10"));
    assert!(!version_satisfies("0.9.0", "0.10"));
}

#[test]
fn satisfies_exact_match() {
    assert!(version_satisfies("0.10", "0.10"));
}

#[test]
fn extract_version_stops_at_first_other_char() {
    assert_eq!(extract_version("tool 1.2.3-beta (x)"), Some("1.2.3".to_string()));
    assert_eq!(extract_version("a..1..2. rest"), Some("1..2.".to_string()));
    assert_eq!(extract_version("v7\n"), Some("7".to_string()));
    assert_eq!(extract_version(""), None);
    assert_eq!(extract_version("..."), None);
}

#[test]
fn extract_version_handles_multibyte_text() {
    assert_eq!(extract_version("версия 3.1 ✓"), Some("3.1".to_string()));
}

#[test]
fn parse_version_reads_parts_like_str_parse() {
    assert_eq!(parse_version("1.2.3"), vec![1, 2, 3]);
    assert_eq!(parse_version("1..x.+4.-5"), vec![1, 4]);
    assert_eq!(parse_version(""), Vec::<u32>::new());
    assert_eq!(parse_version("4294967295.4294967296"), vec![4294967295]);
    assert_eq!(parse_version("007.+"), vec![7]);
    assert_eq!(parse_version(" 1.2 "), Vec::<u32>::new());
}

#[test]
fn satisfies_is_reflexive_and_total() {
    let vs = ["1.2", "1.2.0", "0.10", "22", "", "x", "3.0.1"];
    for a in vs.iter() {
        assert!(version_satisfies(a, a));
        for b in vs.iter() {
            assert!(version_satisfies(a, b) || version_satisfies(b, a));
        }
    }
}

#[test]
fn satisfies_is_transitive() {
    assert!(version_satisfies("2.1", "2.0.5"));
    assert!(version_satisfies("2.0.5", "2"));
    assert!(version_satisfies("2.1", "2"));
}

#[test]
fn satisfies_longer_version_beats_prefix() {
    assert!(version_satisfies("1.2.0", "1.2"));
    assert!(!version_satisfies("1.2", "1.2.0"));
    assert!(version_satisfies("anything", ""));
}

#[test]
fn requirement_minimum_strips_operator() {
    assert_eq!(requirement_minimum(">= 22"), "22");
    assert_eq!(requirement_minimum("0.10"), "0.10");
    assert_eq!(requirement_minimum(">=22"), ">=22");
}

#[test]
fn version_from_output_decodes_bytes() {
    assert_eq!(
        version_from_output(b"git version 2.53.0\n"),
        Some("2.53.0".to_string())
    );
    assert_eq!(version_from_output(b"\xff\xfe v1.4"), Some("1.4".to_string()));
    assert_eq!(version_from_output(b"none"), None);
}

#[test]
fn version_diagnostic_messages() {
    let d = version_diagnostic("node", ">= 22", Some("22.12.0".to_string()));
    assert_eq!(d.level, Level::Pass);
    assert_eq!(d.message, "node 22.12.0 (>= 22)");
    let d = version_diagnostic("git", "3", Some("2.53.0".to_string()));
    assert_eq!(d.level, Level::Error);
    assert_eq!(d.message, "git 2.53.0 is below minimum 3");
    let d = version_diagnostic("nvim", ">= 0.10", None);
    assert_eq!(d.level, Level::Warn);
    assert_eq!(d.message, "nvim: could not determine version");
}

#[test]
fn version_check_diagnoses_in_command_order() {
    let mut m = StringMap::new();
    m.insert("node".to_string(), ">= 22".to_string());
    m.insert("git".to_string(), ">= 2".to_string());
    m.insert("nvim".to_string(), ">= 0.10".to_string());
    let c = VersionCheck::new(m);
    assert_eq!(c.name(), "version");
    assert_eq!(c.len(), 3);
    assert_eq!(c.command(0), "git");
    assert_eq!(c.command(1), "node");
    assert_eq!(c.command(2), "nvim");
    let outputs = vec![
        Some(b"git version 2.53.0".to_vec()),
        Some(b"v21.1.0".to_vec()),
        None,
    ];
    let ds = c.diagnose(&outputs);
    assert_eq!(ds.len(), 3);
    assert_eq!(ds[0].level, Level::Pass);
    assert_eq!(ds[0].message, "git 2.53.0 (>= 2)");
    assert_eq!(ds[1].level, Level::Error);
    assert_eq!(ds[1].message, "node 21.1.0 is below minimum 22");
    assert_eq!(ds[2].level, Level::Warn);
    assert_eq!(ds[2].message, "nvim: could not determine version");
}
