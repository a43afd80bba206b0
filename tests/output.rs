use ast_rs::fragments::join_fragments;
use ast_rs::includes::parse_include_dirs;

#[test]
fn include_dirs_from_report_line() {
    let out = "[1/1] building\n@@INCLUDE_DIRS=/usr/include; /opt/x/include ;\r\nlater\n";
    let dirs = parse_include_dirs(out).unwrap();
    assert_eq!(dirs, vec!["/usr/include".to_string(), "/opt/x/include".to_string(), "".to_string()]);
}

#[test]
fn include_dirs_first_report_line_wins() {
    let out = "@@INCLUDE_DIRS=@@INCLUDE_DIRS=a\n@@INCLUDE_DIRS=b";
    assert_eq!(parse_include_dirs(out), Some(vec!["a".to_string()]));
}

#[test]
fn include_dirs_missing_report() {
    assert_eq!(parse_include_dirs("nothing here\n  @@INCLUDE_DIRS=x\n"), None);
    assert_eq!(parse_include_dirs(""), None);
}

#[test]
fn fragments_joined_with_blank_lines() {
    let fs = vec!["a".to_string(), "b".to_string(), "c\n".to_string()];
    assert_eq!(join_fragments(&fs), "a\n\nb\n\nc\n");
    let with_empty = vec!["".to_string(), "b".to_string()];
    assert_eq!(join_fragments(&with_empty), "b");
    assert_eq!(join_fragments(&vec![]), "");
}
