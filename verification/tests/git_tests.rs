use scrutin::git::{
    changed_paths_from, classify_probe, parse_porcelain_z, GitAvailability, GitError,
    ProbeOutcome,
};

#[test]
fn parses_simple_modifications() {
    let input = b" M src/foo.rs\0?? new.txt\0";
    let got = parse_porcelain_z(input);
    assert_eq!(got, vec!["src/foo.rs", "new.txt"]);
}

#[test]
fn parses_rename_and_skips_oldpath() {
    let input = b"R  newpath\0oldpath\0 M other.rs\0";
    let got = parse_porcelain_z(input);
    assert_eq!(got, vec!["newpath", "other.rs"]);
}

#[test]
fn parses_staged_copy_and_skips_oldpath() {
    let input = b"C  newcopy\0source.rs\0?? other.txt\0";
    let got = parse_porcelain_z(input);
    assert_eq!(got, vec!["newcopy", "other.txt"]);
}

#[test]
fn parses_rm_status_without_extra_skip() {
    let input = b"RM newname\0oldname\0?? added.txt\0";
    let got = parse_porcelain_z(input);
    assert_eq!(got, vec!["newname", "added.txt"]);
}

#[test]
fn parses_filename_with_spaces() {
    let input = b" M src/foo bar.rs\0?? a b c.txt\0";
    let got = parse_porcelain_z(input);
    assert_eq!(got, vec!["src/foo bar.rs", "a b c.txt"]);
}

#[test]
fn handles_empty_input() {
    assert!(parse_porcelain_z(b"").is_empty());
}

#[test]
fn probe_failed_disabled_reason_includes_stderr() {
    let av = GitAvailability::ProbeFailed {
        stderr: "fatal: detected dubious ownership in /repo".into(),
    };
    let reason = av.disabled_reason().unwrap();
    assert!(reason.contains("dubious ownership"));
}

#[test]
fn disabled_reason_labels_each_state() {
    assert_eq!(
        GitAvailability::Available { repo_root: "/r".into() }.disabled_reason(),
        None
    );
    assert_eq!(GitAvailability::NotARepo.disabled_reason().unwrap(), "(not a git repo)");
    assert_eq!(GitAvailability::NotInstalled.disabled_reason().unwrap(), "(git not found)");
}

#[test]
fn probe_classification_covers_every_answer() {
    let ok = ProbeOutcome::Exited { success: true, stdout: b"/repo\n".to_vec(), stderr: vec![] };
    assert!(matches!(classify_probe(&ok), GitAvailability::Available { repo_root } if repo_root == "/repo"));
    let empty = ProbeOutcome::Exited { success: true, stdout: b"  \n".to_vec(), stderr: vec![] };
    assert!(matches!(classify_probe(&empty), GitAvailability::NotARepo));
    let not_repo = ProbeOutcome::Exited {
        success: false,
        stdout: vec![],
        stderr: b"fatal: not a git repository (or any parent)\nmore\n".to_vec(),
    };
    assert!(matches!(classify_probe(&not_repo), GitAvailability::NotARepo));
    let dubious = ProbeOutcome::Exited {
        success: false,
        stdout: vec![],
        stderr: b"  fatal: detected dubious ownership  \nhint\n".to_vec(),
    };
    assert!(matches!(classify_probe(&dubious),
        GitAvailability::ProbeFailed { stderr } if stderr == "fatal: detected dubious ownership"));
    assert!(matches!(classify_probe(&ProbeOutcome::NotFound), GitAvailability::NotInstalled));
    assert!(matches!(classify_probe(&ProbeOutcome::SpawnFailed("denied".into())),
        GitAvailability::ProbeFailed { stderr } if stderr == "denied"));
}

#[test]
fn changed_paths_are_joined_and_filtered_to_the_project() {
    let out = b" M pkg/a.py\0?? other/b.py\0R  pkg/c.py\0pkg/old.py\0";
    let got = changed_paths_from("/repo", "/repo/pkg", true, out, b"").unwrap();
    assert_eq!(got, vec!["/repo/pkg/a.py", "/repo/pkg/c.py"]);
}

#[test]
fn changed_paths_failure_keeps_first_stderr_line() {
    let err = changed_paths_from("/repo", "/repo", false, b"", b"fatal: index.lock exists\nx\n")
        .unwrap_err();
    assert_eq!(err.message(), "git status failed: fatal: index.lock exists");
    let err = changed_paths_from("/repo", "/repo", false, b"", b"").unwrap_err();
    assert!(matches!(err, GitError::CommandFailed(m) if m == "unknown error"));
}

#[test]
fn changed_paths_are_sorted_in_path_order_and_deduplicated() {
    let out = b" M pkg/z.py\0 M pkg/a.b\0 M pkg/a/x.py\0 M pkg//z.py\0";
    let got = changed_paths_from("/repo", "/repo/pkg", true, out, b"").unwrap();
    assert_eq!(got, vec!["/repo/pkg/a/x.py", "/repo/pkg/a.b", "/repo/pkg/z.py"]);
}
