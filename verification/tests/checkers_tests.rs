use scrutin::checkers::{
    parse_jarl_output, parse_ruff_output, parse_skyspell_output, parse_typos_output, JarlOutput,
    LintDiagnostic, SkyspellError, SkyspellOutput, TyposLine, TyposTypo,
};
use scrutin::protocol::{Event, Message, Outcome};

/// Decodes typos' NDJSON output line by line, as the command runner does.
fn decode_typos(stdout: &str) -> Vec<TyposLine> {
    stdout
        .lines()
        .map(|line| match serde_json::from_str::<serde_json::Value>(line) {
            Err(e) => TyposLine::Invalid(e.to_string()),
            Ok(v) => {
                if v.get("type").and_then(|t| t.as_str()) == Some("typo") {
                    let num = |k: &str| v.get(k).and_then(|x| x.as_u64()).unwrap_or(0) as u32;
                    TyposLine::Typo(TyposTypo {
                        line_num: num("line_num"),
                        byte_offset: num("byte_offset"),
                        typo: v
                            .get("typo")
                            .and_then(|x| x.as_str())
                            .unwrap_or("")
                            .to_string(),
                        corrections: v
                            .get("corrections")
                            .and_then(|x| x.as_array())
                            .map(|a| {
                                a.iter()
                                    .filter_map(|s| s.as_str().map(|s| s.to_string()))
                                    .collect()
                            })
                            .unwrap_or_default(),
                    })
                } else {
                    TyposLine::Other
                }
            }
        })
        .collect()
}

/// Decodes skyspell's JSON report, as the command runner does.
fn decode_skyspell(stdout: &str) -> Result<SkyspellOutput, String> {
    let v: serde_json::Value = serde_json::from_str(stdout).map_err(|e| e.to_string())?;
    let mut errors = Vec::new();
    if let Some(map) = v.get("errors").and_then(|e| e.as_object()) {
        let mut keys: Vec<&String> = map.keys().collect();
        keys.sort();
        for k in keys {
            let list = map[k]
                .as_array()
                .map(|a| {
                    a.iter()
                        .map(|e| {
                            let r = &e["range"];
                            SkyspellError {
                                word: e["word"].as_str().unwrap_or("").to_string(),
                                line: r["line"].as_u64().unwrap_or(0) as u32,
                                start_column: r["start_column"].as_u64().unwrap_or(0) as u32,
                                end_column: r["end_column"].as_u64().unwrap_or(0) as u32,
                            }
                        })
                        .collect()
                })
                .unwrap_or_default();
            errors.push((k.clone(), list));
        }
    }
    let mut suggestions = Vec::new();
    if let Some(map) = v.get("suggestions").and_then(|e| e.as_object()) {
        let mut keys: Vec<&String> = map.keys().collect();
        keys.sort();
        for k in keys {
            let list: Vec<String> = map[k]
                .as_array()
                .map(|a| a.iter().filter_map(|s| s.as_str().map(|s| s.to_string())).collect())
                .unwrap_or_default();
            suggestions.push((k.clone(), list));
        }
    }
    Ok(SkyspellOutput { errors, suggestions })
}

fn typos(file: &str, stdout: &str, stderr: &str, code: Option<i32>, ms: u64) -> Vec<Message> {
    let decoded = decode_typos(stdout);
    parse_typos_output(file, stdout, stderr, code, ms, &decoded)
}

fn skyspell(file: &str, stdout: &str, stderr: &str, code: Option<i32>, ms: u64) -> Vec<Message> {
    let decoded = decode_skyspell(stdout);
    parse_skyspell_output(file, stdout, stderr, code, ms, &decoded)
}

fn events_in(msgs: &[Message]) -> Vec<&Event> {
    msgs.iter()
        .filter_map(|m| if let Message::Event(e) = m { Some(e) } else { None })
        .collect()
}

const TYPOS_SAMPLE: &str = r#"{"type":"typo","path":"/tmp/t.py","line_num":2,"byte_offset":31,"typo":"misspeled","corrections":["misspelled"]}
{"type":"typo","path":"/tmp/t.py","line_num":3,"byte_offset":14,"typo":"coment","corrections":["comment"]}
"#;

#[test]
fn parse_emits_one_warn_per_typo_with_correction() {
    let msgs = typos("t.py", TYPOS_SAMPLE, "", Some(2), 42);
    let events = events_in(&msgs);
    assert_eq!(events.len(), 2);
    let first = events[0];
    assert_eq!(first.outcome, Outcome::Warn);
    assert_eq!(first.subject.name, "misspeled");
    assert_eq!(first.line, Some(2));
    assert_eq!(first.corrections.len(), 1);
    assert_eq!(first.corrections[0].word, "misspeled");
    assert_eq!(first.corrections[0].col_start, 32);
    assert_eq!(first.corrections[0].col_end, 40);
    assert_eq!(first.corrections[0].suggestions, vec!["misspelled".to_string()]);
}

#[test]
fn plugin_parse_emits_pass_on_clean_file() {
    let msgs = typos("clean.R", "", "", Some(0), 10);
    let events = events_in(&msgs);
    assert_eq!(events.len(), 1);
    assert_eq!(events[0].outcome, Outcome::Pass);
}

#[test]
fn parse_treats_unexpected_exit_as_error() {
    let msgs = typos("x.txt", "", "some failure", Some(64), 1);
    let events = events_in(&msgs);
    assert_eq!(events.len(), 1);
    assert_eq!(events[0].outcome, Outcome::Error);
}

#[test]
fn parse_skips_non_typo_records() {
    let mixed = r#"{"type":"note","message":"something else"}
{"type":"typo","path":"t.R","line_num":1,"byte_offset":0,"typo":"recieve","corrections":["receive"]}
"#;
    let msgs = typos("t.R", mixed, "", Some(2), 1);
    let warns = events_in(&msgs).iter().filter(|e| e.outcome == Outcome::Warn).count();
    assert_eq!(warns, 1);
}

#[test]
fn typos_unexpected_exit_without_stderr_names_the_code() {
    let msgs = typos("x.txt", "", "  ", Some(64), 1);
    let events = events_in(&msgs);
    assert_eq!(events[0].message.as_deref(), Some("typos exited with code Some(64)"));
    match &msgs[1] {
        Message::Summary(s) => assert_eq!(s.counts.error, 1),
        other => panic!("expected a summary, got {other:?}"),
    }
    assert!(matches!(msgs[2], Message::Done));
    assert_eq!(msgs.len(), 3);
}

#[test]
fn typos_bad_line_stops_after_earlier_warnings() {
    let out = "{\"type\":\"typo\",\"line_num\":1,\"byte_offset\":4,\"typo\":\"teh\",\"corrections\":[\"the\"]}\nnot json\n";
    let msgs = typos("a.md", out, "", Some(2), 5);
    let events = events_in(&msgs);
    assert_eq!(events.len(), 2);
    assert_eq!(events[0].outcome, Outcome::Warn);
    assert_eq!(events[0].corrections[0].col_start, 5);
    assert_eq!(events[0].corrections[0].col_end, 7);
    assert_eq!(events[1].outcome, Outcome::Error);
    assert!(events[1]
        .message
        .as_deref()
        .unwrap()
        .starts_with("failed to parse typos output: "));
    match &msgs[2] {
        Message::Summary(s) => {
            assert_eq!(s.counts.error, 1);
            assert_eq!(s.counts.warn, 1);
            assert_eq!(s.counts.pass, 0);
        }
        other => panic!("expected a summary, got {other:?}"),
    }
}

#[test]
fn typos_columns_count_bytes_not_chars() {
    let out = "{\"type\":\"typo\",\"line_num\":3,\"byte_offset\":2,\"typo\":\"caf\u{e9}e\",\"corrections\":[]}\n";
    let msgs = typos("a.md", out, "", Some(2), 5);
    let events = events_in(&msgs);
    assert_eq!(events[0].corrections[0].col_start, 3);
    assert_eq!(events[0].corrections[0].col_end, 2 + "caf\u{e9}e".len() as u32);
    assert_eq!(events[0].message.as_deref(), Some("misspelled: caf\u{e9}e"));
}

const SKYSPELL_SAMPLE: &str = r#"{
  "errors": {
    "/tmp/sample.txt": [
      {"word": "tset", "range": {"line": 1, "start_column": 11, "end_column": 14}},
      {"word": "teh",  "range": {"line": 1, "start_column": 37, "end_column": 39}}
    ]
  },
  "suggestions": {
    "tset": ["test", "stet"],
    "teh":  ["the", "tea"]
  }
}"#;

#[test]
fn parse_emits_one_warn_per_error_with_suggestions() {
    let msgs = skyspell("sample.txt", SKYSPELL_SAMPLE, "", Some(0), 42);
    let events = events_in(&msgs);
    assert_eq!(events.len(), 2);
    let first = events[0];
    assert_eq!(first.outcome, Outcome::Warn);
    assert_eq!(first.subject.name, "tset");
    assert_eq!(first.line, Some(1));
    assert_eq!(first.corrections.len(), 1);
    assert_eq!(first.corrections[0].word, "tset");
    assert_eq!(first.corrections[0].col_start, 11);
    assert_eq!(first.corrections[0].col_end, 14);
    assert_eq!(
        first.corrections[0].suggestions,
        vec!["test".to_string(), "stet".to_string()]
    );
}

#[test]
fn parse_emits_pass_on_clean_file() {
    let msgs = skyspell("clean.txt", r#"{"errors":{},"suggestions":{}}"#, "", Some(0), 10);
    let events = events_in(&msgs);
    assert_eq!(events.len(), 1);
    assert_eq!(events[0].outcome, Outcome::Pass);
}

#[test]
fn parse_handles_malformed_json() {
    let msgs = skyspell("x.txt", "not json", "", Some(0), 1);
    let events = events_in(&msgs);
    assert_eq!(events.len(), 1);
    assert_eq!(events[0].outcome, Outcome::Error);
}

#[test]
fn skyspell_failure_exit_with_empty_stdout_reports_stderr() {
    let msgs = skyspell("x.txt", "", "  no dictionary for xx_XX \n", Some(1), 3);
    let events = events_in(&msgs);
    assert_eq!(events.len(), 1);
    assert_eq!(events[0].outcome, Outcome::Error);
    assert_eq!(events[0].message.as_deref(), Some("no dictionary for xx_XX"));
    let msgs = skyspell("x.txt", "", "", None, 3);
    assert_eq!(events_of_kind(&msgs, Outcome::Pass), 1);
    let msgs = skyspell("x.txt", "", "", Some(3), 3);
    assert_eq!(
        events_in(&msgs)[0].message.as_deref(),
        Some("skyspell exited with code Some(3)")
    );
}

#[test]
fn skyspell_word_without_suggestions_gets_none_and_counts_warn() {
    let out = r#"{"errors":{"b":[{"word":"zzq","range":{"line":4,"start_column":1,"end_column":3}}],"a":[{"word":"qqz","range":{"line":2,"start_column":5,"end_column":7}}]},"suggestions":{"qqz":["quiz"]}}"#;
    let msgs = skyspell("x.txt", out, "", Some(0), 3);
    let events = events_in(&msgs);
    assert_eq!(events.len(), 2);
    assert_eq!(events[0].subject.name, "qqz");
    assert_eq!(events[0].corrections[0].suggestions, vec!["quiz".to_string()]);
    assert_eq!(events[1].subject.name, "zzq");
    assert!(events[1].corrections[0].suggestions.is_empty());
    assert_eq!(events[1].message.as_deref(), Some("misspelled: zzq"));
    match &msgs[2] {
        Message::Summary(s) => {
            assert_eq!(s.counts.warn, 2);
            assert_eq!(s.counts.pass, 0);
        }
        other => panic!("expected a summary, got {other:?}"),
    }
}

fn events_of_kind(msgs: &[Message], o: Outcome) -> usize {
    events_in(msgs).iter().filter(|e| e.outcome == o).count()
}

#[test]
fn ruff_findings_become_warnings_and_exit_two_is_error() {
    let diags = vec![
        LintDiagnostic {
            code: Some("F401".to_string()),
            message: Some("unused import".to_string()),
            row: Some(3),
        },
        LintDiagnostic { code: None, message: None, row: None },
    ];
    let msgs = parse_ruff_output("m.py", "[...]", "", Some(1), 9, &Ok(diags));
    let events = events_in(&msgs);
    assert_eq!(events.len(), 2);
    assert_eq!(events[0].subject.name, "F401");
    assert_eq!(events[0].message.as_deref(), Some("unused import"));
    assert_eq!(events[0].line, Some(3));
    assert_eq!(events[1].subject.name, "unknown");
    assert_eq!(events[1].message, None);

    let msgs = parse_ruff_output("m.py", "", "", Some(2), 9, &Ok(Vec::new()));
    assert_eq!(events_of_kind(&msgs, Outcome::Error), 1);
    assert_eq!(
        events_in(&msgs)[0].message.as_deref(),
        Some("ruff exited with code 2")
    );

    let msgs = parse_ruff_output("m.py", "  ", "", Some(0), 9, &Err("ignored".to_string()));
    assert_eq!(events_of_kind(&msgs, Outcome::Pass), 1);

    let msgs = parse_ruff_output("m.py", "{", "", Some(1), 9, &Err("eof".to_string()));
    assert_eq!(
        events_in(&msgs)[0].message.as_deref(),
        Some("failed to parse ruff output: eof")
    );
}

#[test]
fn jarl_errors_and_findings() {
    let out = JarlOutput {
        diagnostics: vec![LintDiagnostic {
            code: Some("assignment".to_string()),
            message: Some("use <-".to_string()),
            row: Some(7),
        }],
        errors: vec![],
    };
    let msgs = parse_jarl_output("f.R", 4, &Ok(out));
    assert_eq!(events_of_kind(&msgs, Outcome::Warn), 1);
    let msgs = parse_jarl_output(
        "f.R",
        4,
        &Ok(JarlOutput { diagnostics: vec![], errors: vec![] }),
    );
    assert_eq!(events_of_kind(&msgs, Outcome::Pass), 1);
}
