use scrutin::metadata::{build_fields, build_run_metadata, os_version_from, probe_output, capture_provenance, detect_ci, GitFacts, HostFacts, repo_name_from_url, Provenance, RunMetadata};

#[test]
fn repo_name_from_https_url() {
    assert_eq!(
        repo_name_from_url("https://github.com/vincentarelbundock/scrutin.git"),
        Some("vincentarelbundock/scrutin".into())
    );
    assert_eq!(
        repo_name_from_url("https://github.com/vincentarelbundock/scrutin"),
        Some("vincentarelbundock/scrutin".into())
    );
}

#[test]
fn repo_name_from_ssh_url() {
    assert_eq!(
        repo_name_from_url("git@github.com:vincentarelbundock/scrutin.git"),
        Some("vincentarelbundock/scrutin".into())
    );
}

#[test]
fn repo_name_from_git_url() {
    assert_eq!(
        repo_name_from_url("git://example.com/group/subgroup/project.git"),
        Some("subgroup/project".into())
    );
}

#[test]
fn repo_name_from_invalid_url_returns_none() {
    assert_eq!(repo_name_from_url(""), None);
    assert_eq!(repo_name_from_url("not-a-url"), None);
}

#[test]
fn junit_pairs_includes_scrutin_version() {
    let p = Provenance { scrutin_version: "0.0.1".into(), ..Default::default() };
    let pairs = p.junit_pairs();
    assert!(pairs.iter().any(|(k, _)| *k == "scrutin.version"));
}

#[test]
fn run_metadata_lists_provenance_then_labels() {
    let mut md = RunMetadata::default();
    assert!(md.is_empty());
    md.provenance.scrutin_version = "1.2.3".into();
    md.labels.push(("build".into(), "4521".into()));
    let pairs = md.iter();
    assert!(!md.is_empty());
    assert_eq!(pairs.first().map(|p| p.0.as_str()), Some("scrutin.version"));
    assert_eq!(pairs.last(), Some(&("build".to_string(), "4521".to_string())));
}

fn host(env: &[(&str, &str)]) -> HostFacts {
    HostFacts {
        os_platform: "linux".into(),
        os_arch: "x86_64".into(),
        os_release: Some("6.1".into()),
        os_version: None,
        hostname: Some("box".into()),
        env: env.iter().map(|(k, v)| (k.to_string(), Some(v.to_string()))).collect(),
    }
}

#[test]
fn provenance_disabled_returns_version_only() {
    let p = capture_provenance("1.2.3", false, &host(&[]), None);
    assert_eq!(p.scrutin_version, "1.2.3");
    assert!(p.os_platform.is_none());
    assert!(p.hostname.is_none());
}

#[test]
fn provenance_enabled_populates_version_os_arch() {
    let p = capture_provenance("1.2.3", true, &host(&[]), None);
    assert_eq!(p.scrutin_version, "1.2.3");
    assert!(p.os_platform.is_some());
    assert!(p.os_arch.is_some());
    assert_eq!(p.hostname.as_deref(), Some("box"));
    assert!(p.git_commit.is_none());
}

#[test]
fn provenance_reads_git_facts() {
    let g = GitFacts {
        repo_root: "/work/proj".into(),
        head: Some("abc123\nHEAD".into()),
        status: Some(" M a.R".into()),
        remote_url: Some("git@github.com:owner/repo.git".into()),
    };
    let p = capture_provenance("1", true, &host(&[]), Some(&g));
    assert_eq!(p.git_commit.as_deref(), Some("abc123"));
    assert_eq!(p.git_branch.as_deref(), Some("(detached)"));
    assert_eq!(p.git_dirty, Some(true));
    assert_eq!(p.repo_name.as_deref(), Some("owner/repo"));
    let g2 = GitFacts { remote_url: Some(String::new()), status: Some(String::new()), head: Some("def\nmain".into()), ..g };
    let p = capture_provenance("1", true, &host(&[]), Some(&g2));
    assert_eq!(p.git_branch.as_deref(), Some("main"));
    assert_eq!(p.git_dirty, Some(false));
    assert_eq!(p.repo_url, None);
    assert_eq!(p.repo_name.as_deref(), Some("proj"));
}

#[test]
fn ci_providers_and_build_fields() {
    let env = host(&[
        ("GITHUB_ACTIONS", "true"),
        ("GITHUB_RUN_NUMBER", "7"),
        ("GITHUB_RUN_ID", "99"),
        ("GITHUB_WORKFLOW", "ci"),
        ("GITHUB_SERVER_URL", "https://github.com"),
        ("GITHUB_REPOSITORY", "o/r"),
    ]);
    let p = capture_provenance("1", true, &env, None);
    assert_eq!(p.ci.as_deref(), Some("github"));
    assert_eq!(p.build_number.as_deref(), Some("7"));
    assert_eq!(p.build_url.as_deref(), Some("https://github.com/o/r/actions/runs/99"));
    let az = host(&[
        ("TF_BUILD", "True"),
        ("BUILD_BUILDID", "5"),
        ("SYSTEM_TEAMFOUNDATIONCOLLECTIONURI", "https://dev.azure.com/org//"),
        ("SYSTEM_TEAMPROJECT", "P"),
    ]);
    assert_eq!(detect_ci(&az.env), Some("azure-pipelines"));
    let (_, id, _, url) = build_fields(&az.env);
    assert_eq!(id.as_deref(), Some("5"));
    assert_eq!(url.as_deref(), Some("https://dev.azure.com/org/P/_build/results?buildId=5"));
    assert_eq!(detect_ci(&host(&[("CI", "1")]).env), Some("ci"));
    assert_eq!(detect_ci(&host(&[("CI", "yes")]).env), None);
    assert_eq!(detect_ci(&host(&[]).env), None);
}

#[test]
fn run_metadata_stamps_tool_and_workers_when_enabled() {
    let mut cfg = scrutin::config::Config::default();
    cfg.extras = vec![("build".to_string(), "42".to_string())];
    let p = capture_provenance("1.0", true, &host(&[]), None);
    let m = build_run_metadata(&cfg, "pytest+ruff", 4, p);
    assert_eq!(m.provenance.tool.as_deref(), Some("pytest+ruff"));
    assert_eq!(m.provenance.workers, Some(4));
    assert_eq!(m.labels, vec![("build".to_string(), "42".to_string())]);
    cfg.metadata.enabled = false;
    let p = capture_provenance("1.0", false, &host(&[]), None);
    let m = build_run_metadata(&cfg, "pytest", 2, p);
    assert_eq!(m.provenance.tool, None);
    assert_eq!(m.provenance.workers, None);
    assert_eq!(m.provenance.scrutin_version, "1.0");
}

#[test]
fn os_release_pretty_name() {
    let c = "NAME=\"Debian\"\nPRETTY_NAME=\"\"\nPRETTY_NAME=\"Debian GNU/Linux 12 (bookworm)\"\nID=debian\n";
    assert_eq!(os_version_from(c).as_deref(), Some("Debian GNU/Linux 12 (bookworm)"));
    assert_eq!(os_version_from("PRETTY_NAME=Alpine\n").as_deref(), Some("Alpine"));
    assert_eq!(os_version_from("NAME=x\n"), None);
}

#[test]
fn probe_output_trims() {
    assert_eq!(probe_output(true, b"  6.1.0\n").as_deref(), Some("6.1.0"));
    assert_eq!(probe_output(true, b"\n"), None);
    assert_eq!(probe_output(false, b"6.1.0"), None);
}
