//! The language server: positions, document state, and file URIs.

use pgsafe::finding::{Finding, Fix, FixEdit, Location, Severity};
use pgsafe::lsp::actions::ActionKind;
use pgsafe::lsp::fixall::whole_document_action;
use pgsafe::lsp::position::{LineIndex, Position, Range};
use pgsafe::lsp::server::{
    answered, hex, method, percent_decode, published, uri_to_path, Event, Method, State, Step,
};

fn line_pos(text: &str, byte: usize) -> (u32, u32) {
    let p = LineIndex::new(text).position(byte);
    (p.line, p.character)
}

#[test]
fn ascii_first_line() {
    assert_eq!(line_pos("hello", 0), (0, 0));
    assert_eq!(line_pos("hello", 5), (0, 5));
}

#[test]
fn newlines_advance_line_and_reset_column() {
    let t = "ab\ncd\nef";
    assert_eq!(line_pos(t, 3), (1, 0)); // 'c'
    assert_eq!(line_pos(t, 5), (1, 2)); // end of "cd"
    assert_eq!(line_pos(t, 6), (2, 0)); // 'e'
}

#[test]
fn multibyte_utf8_counts_utf16_units() {
    // "café" — 'é' is 2 UTF-8 bytes but 1 UTF-16 unit.
    let t = "café x";
    let byte_of_space = t.find(' ').unwrap(); // = 5 (c,a,f = 3 bytes, é = 2 bytes)
    assert_eq!(line_pos(t, byte_of_space), (0, 4)); // 4 UTF-16 units before the space
}

#[test]
fn astral_char_is_two_utf16_units() {
    // "😀" is 4 UTF-8 bytes and 2 UTF-16 units (surrogate pair).
    let t = "😀ab";
    let byte_of_a = "😀".len(); // 4
    assert_eq!(line_pos(t, byte_of_a), (0, 2));
}

#[test]
fn crlf_line_endings() {
    let t = "ab\r\ncd";
    let byte_of_c = t.find('c').unwrap(); // 4
    assert_eq!(line_pos(t, byte_of_c), (1, 0));
}

#[test]
fn byte_past_end_clamps_to_end() {
    let t = "ab";
    assert_eq!(line_pos(t, 999), (0, 2));
}

#[test]
fn range_spans_start_to_end() {
    let t = "create table t;";
    let r = LineIndex::new(t).range(0, "create".len());
    assert_eq!((r.start.line, r.start.character), (0, 0));
    assert_eq!((r.end.line, r.end.character), (0, 6));
}

#[test]
fn plain_file_uri() {
    assert_eq!(
        uri_to_path("file:///tmp/a.sql"),
        Some("/tmp/a.sql".to_string())
    );
}

#[test]
fn percent_encoded_space() {
    assert_eq!(
        uri_to_path("file:///tmp/my%20dir/a.sql"),
        Some("/tmp/my dir/a.sql".to_string())
    );
}

#[test]
fn non_file_scheme_is_none() {
    assert_eq!(uri_to_path("untitled:Untitled-1"), None);
}

#[test]
fn an_authority_is_left_out_of_the_path() {
    assert_eq!(uri_to_path("file://localhost/a.sql"), Some("/a.sql".to_string()));
    assert_eq!(uri_to_path("file://localhost"), None);
    assert_eq!(uri_to_path("file:/a.sql"), None);
}

#[test]
fn only_whole_escapes_are_decoded() {
    assert_eq!(percent_decode("a%20b%2f%2Fc"), "a b//c");
    assert_eq!(percent_decode("100%"), "100%");
    assert_eq!(percent_decode("%zz%4"), "%zz%4");
    assert_eq!(percent_decode("caf%C3%A9"), "café");
}

#[test]
fn a_path_survives_its_uri_whatever_is_escaped() {
    let paths = ["/a b/100%.sql", "/%41.sql", "/\u{e9}\u{20ac}.sql"];
    for path in paths {
        let tight: String = path.bytes().map(|b| match b {
            b'/' | b'.' => (b as char).to_string(),
            _ => format!("%{b:02X}"),
        }).collect();
        assert_eq!(uri_to_path(&format!("file://{tight}")), Some(path.to_string()));
        let loose = path.replace('%', "%25");
        assert_eq!(uri_to_path(&format!("file://{loose}")), Some(path.to_string()));
    }
}

#[test]
fn bytes_that_are_no_utf8_are_replaced() {
    assert_eq!(percent_decode("a%FFb"), "a\u{fffd}b");
}

#[test]
fn hex_digits_of_either_case() {
    assert_eq!(hex(b'7'), Some(7));
    assert_eq!(hex(b'a'), Some(10));
    assert_eq!(hex(b'F'), Some(15));
    assert_eq!(hex(b'g'), None);
}

#[test]
fn a_position_never_goes_back() {
    let index = LineIndex::new("aé\n😀b\n");
    let mut last = (0, 0);
    for byte in [0, 1, 3, 4, 8, 9, 10] {
        let p = index.position(byte);
        assert!((p.line, p.character) >= last, "byte {byte}");
        last = (p.line, p.character);
    }
    assert_eq!(last, (2, 0));
}

#[test]
fn methods_are_told_apart() {
    assert_eq!(method("exit"), Method::Exit);
    assert_eq!(method("textDocument/didOpen"), Method::DidOpen);
    assert_eq!(method("textDocument/didChange"), Method::DidChange);
    assert_eq!(method("textDocument/didSave"), Method::DidSave);
    assert_eq!(method("textDocument/didClose"), Method::DidClose);
    assert_eq!(method("initialized"), Method::Other);
}

fn opened(language: &str) -> Event {
    Event::Open { uri: "u".into(), language_id: language.into(), text: "SELECT 1".into() }
}

#[test]
fn a_document_is_linted_while_it_is_open() {
    let mut s = State::new();
    assert!(matches!(s.handle(Event::Save { uri: "u".into() }), Step::Wait));
    let step = s.handle(opened("sql"));
    assert!(matches!(step, Step::Lint { uri, text } if uri == "u" && text == "SELECT 1"));
    let step = s.handle(Event::Change { uri: "u".into(), text: Some("SELECT 2".into()) });
    assert!(matches!(step, Step::Lint { text, .. } if text == "SELECT 2"));
    assert_eq!(s.text_of("u").unwrap(), "SELECT 2");
    let step = s.handle(Event::Change { uri: "u".into(), text: None });
    assert!(matches!(step, Step::Lint { text, .. } if text == "SELECT 2"));
    let step = s.handle(Event::Save { uri: "u".into() });
    assert!(matches!(step, Step::Lint { text, .. } if text == "SELECT 2"));
    assert!(matches!(s.handle(Event::Close { uri: "u".into() }), Step::Clear { uri } if uri == "u"));
    assert!(s.text_of("u").is_none());
    assert!(matches!(s.handle(Event::Close { uri: "u".into() }), Step::Wait));
}

#[test]
fn other_languages_are_cleared_and_unknown_documents_ignored() {
    let mut s = State::new();
    assert!(matches!(s.handle(opened("rust")), Step::Clear { uri } if uri == "u"));
    let step = s.handle(Event::Change { uri: "v".into(), text: Some("x".into()) });
    assert!(matches!(step, Step::Wait));
    assert!(s.text_of("v").is_none());
    assert!(matches!(s.handle(Event::Other), Step::Wait));
    assert!(matches!(s.handle(Event::Exit), Step::Stop));
}

fn fixable() -> Finding {
    Finding {
        rule_id: "add-index-non-concurrent".into(),
        severity: Severity::Error,
        message: "m".into(),
        guidance: "g".into(),
        statement_index: 0,
        location: Location { byte: 0, line: 1, column: 1 },
        snippet: "CREATE INDEX i ON t (c)".into(),
        suppression: None,
        fix: Some(Fix {
            title: "Add CONCURRENTLY".into(),
            edits: vec![FixEdit { start: 12, end: 12, replacement: " CONCURRENTLY".into() }],
        }),
    }
}

fn cursor(line: u32, character: u32) -> Range {
    let at = Position { line, character };
    Range { start: at, end: at }
}

#[test]
fn a_parsed_document_is_published_and_answered() {
    let sql = "CREATE INDEX i ON t (c);";
    let linted = Ok(vec![fixable()]);
    let d = published(sql, &linted);
    assert_eq!(d.len(), 1);
    assert_eq!(d[0].code, "add-index-non-concurrent");
    assert_eq!(d[0].range.end.character, 23);
    let a = answered("u", sql, &linted, cursor(0, 3));
    assert_eq!(a.len(), 1);
    assert_eq!(a[0].title, "Add CONCURRENTLY");
    assert_eq!(a[0].kind, ActionKind::QuickFix);
    assert_eq!(a[0].edits[0].range, cursor(0, 12));
    assert_eq!(a[0].edits[0].new_text, " CONCURRENTLY");
}

#[test]
fn a_document_that_does_not_parse_has_no_diagnostics_and_no_actions() {
    let failed: Result<Vec<Finding>, String> = Err("syntax error".into());
    assert!(published("CREATE", &failed).is_empty());
    assert!(answered("u", "CREATE", &failed, cursor(0, 0)).is_empty());
}

#[test]
fn an_unchanged_document_has_no_whole_document_action() {
    assert!(whole_document_action("u", "SELECT 1", "SELECT 1".into()).is_none());
    let a = whole_document_action("u", "a\nb", "c".into()).unwrap();
    assert_eq!(a.kind, ActionKind::FixAll);
    assert_eq!(a.edits[0].new_text, "c");
    assert_eq!(a.edits[0].range.end, Position { line: 1, character: 1 });
}
