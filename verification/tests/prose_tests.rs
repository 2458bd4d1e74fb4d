use scrutin::checkers::{parse_typos_output, TyposLine, TyposTypo};
use scrutin::protocol::Message;
use scrutin::prose::{add_error, add_scope, add_word_args, apply_correction, AddScope};

fn fix(content: &str, word: &str, line: u32, cs: u32, ce: u32, rep: &str) -> Result<String, String> {
    apply_correction(content, line, cs, ce, word, rep).map(|b| String::from_utf8(b).unwrap())
}

#[test]
fn apply_correction_line_1() {
    assert_eq!(fix("teh quick brown fox\n", "teh", 1, 1, 3, "the").unwrap(), "the quick brown fox\n");
}

#[test]
fn apply_correction_mid_file() {
    assert_eq!(
        fix("first line\nsecond teh line\nthird line\n", "teh", 2, 8, 10, "the").unwrap(),
        "first line\nsecond the line\nthird line\n"
    );
}

#[test]
fn apply_correction_replacement_shorter_or_longer() {
    let once = fix("aaa behaviour bbb\n", "behaviour", 1, 5, 13, "behavior").unwrap();
    assert_eq!(once, "aaa behavior bbb\n");
    assert_eq!(fix(&once, "behavior", 1, 5, 12, "behaviour").unwrap(), "aaa behaviour bbb\n");
}

#[test]
fn apply_correction_detects_word_mismatch() {
    let err = fix("teh quick\n", "foo", 1, 1, 3, "bar").expect_err("word mismatch must error");
    assert!(err.contains("word mismatch"));
    assert_eq!(err, "word mismatch at 1:1: expected \"foo\", found \"teh\"");
}

#[test]
fn apply_correction_out_of_range_line() {
    let err = fix("only one line\n", "teh", 5, 1, 3, "the").expect_err("line out of range must error");
    assert!(err.contains("line 5"));
    assert_eq!(err, "line 5 not found");
}

#[test]
fn apply_correction_out_of_range_column() {
    let err = fix("ab\n", "cd", 1, 10, 11, "de").expect_err("column beyond line length must error");
    assert!(err.contains("out of bounds"));
    assert_eq!(err, "byte range 9..11 out of bounds");
}

#[test]
fn correction_bounds_round_trip_through_apply() {
    let content = "foo <- function() {\n  # this comment has a recieve typo\n}\n";
    let record = r#"{"type":"typo","path":"x","line_num":2,"byte_offset":23,"typo":"recieve","corrections":["receive"]}"#;
    let decoded = vec![TyposLine::Typo(TyposTypo {
        line_num: 2,
        byte_offset: 23,
        typo: "recieve".to_string(),
        corrections: vec!["receive".to_string()],
    })];
    let msgs = parse_typos_output("sample.R", record, "", Some(2), 1, &decoded);
    let event = msgs
        .iter()
        .find_map(|m| if let Message::Event(e) = m { Some(e) } else { None })
        .expect("expected one typo event");
    let c = event.corrections.first().expect("correction attached");
    let out = fix(content, &c.word, c.line, c.col_start, c.col_end, &c.suggestions[0]).unwrap();
    assert!(out.contains("a receive typo"), "file is:\n{out}");
}

#[test]
fn skyspell_add_command_and_scope() {
    let args = add_word_args("/p", &["--lang".to_string(), "en_US".to_string()], &["--project".to_string()], "scrutin");
    assert_eq!(args, vec!["--project-path", "/p", "--lang", "en_US", "add", "--project", "scrutin"]);
    assert_eq!(
        add_scope("/p", &["--project".to_string()]),
        AddScope::Project("/p/skyspell-ignore.toml".to_string())
    );
    assert_eq!(add_scope("/p", &[]), AddScope::Global);
    assert_eq!(add_error(b"  boom \n", "exit status: 1"), "boom");
    assert_eq!(add_error(b"", "exit status: 1"), "skyspell add exited exit status: 1");
}
