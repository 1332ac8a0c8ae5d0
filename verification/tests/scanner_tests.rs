use fast_search::scan_content;
use fast_search::MatcherSet;
use fast_search::SearchOptions;
use fast_search::SearchResult;

fn options_with_text(text: &str, ignore_case: bool) -> SearchOptions {
    SearchOptions {
        root: ".".to_string(),
        text_query: Some(text.to_string()),
        file_query: None,
        ignore_case,
        max_depth: 255,
        file_types: None,
    }
}

fn content_match(ev: &SearchResult) -> (String, usize, String) {
    match ev {
        SearchResult::ContentMatch { path, line_number, line_text } => {
            (path.clone(), *line_number, line_text.clone())
        }
        _ => panic!("expected a content match event"),
    }
}

#[test]
fn scenario_a_two_hello_lines() {
    let ms = MatcherSet::build(&options_with_text("hello", false)).unwrap();
    let bytes = b"hello world\nhello rust\n";
    let evs = scan_content(&ms, "a/file1.txt", bytes);
    assert_eq!(evs.len(), 2);
    let (p0, l0, t0) = content_match(&evs[0]);
    assert_eq!(p0, "a/file1.txt");
    assert_eq!(l0, 1);
    assert_eq!(t0, "hello world");
    let (p1, l1, t1) = content_match(&evs[1]);
    assert_eq!(p1, "a/file1.txt");
    assert_eq!(l1, 2);
    assert_eq!(t1, "hello rust");
}

#[test]
fn carriage_return_is_stripped() {
    let ms = MatcherSet::build(&options_with_text("needle", false)).unwrap();
    let bytes = b"first line\r\na needle here\r\nlast\r\n";
    let evs = scan_content(&ms, "crlf.txt", bytes);
    assert_eq!(evs.len(), 1);
    let (_, line, text) = content_match(&evs[0]);
    assert_eq!(line, 2);
    assert_eq!(text, "a needle here");
}

#[test]
fn two_occurrences_on_one_line() {
    let ms = MatcherSet::build(&options_with_text("ab", false)).unwrap();
    let bytes = b"ab then ab again\nnothing\n";
    let evs = scan_content(&ms, "twice.txt", bytes);
    assert_eq!(evs.len(), 2);
    let (_, l0, t0) = content_match(&evs[0]);
    let (_, l1, t1) = content_match(&evs[1]);
    assert_eq!(l0, 1);
    assert_eq!(l1, 1);
    assert_eq!(t0, "ab then ab again");
    assert_eq!(t1, "ab then ab again");
}

#[test]
fn occurrences_do_not_overlap() {
    let ms = MatcherSet::build(&options_with_text("aa", false)).unwrap();
    let evs = scan_content(&ms, "aaaa.txt", b"aaaa\n");
    assert_eq!(evs.len(), 2);
}

#[test]
fn case_insensitive_content_match() {
    let ms = MatcherSet::build(&options_with_text("Hello", true)).unwrap();
    let evs = scan_content(&ms, "hi.txt", b"say HELLO\nand hello\n");
    assert_eq!(evs.len(), 2);
    let (_, l0, _) = content_match(&evs[0]);
    let (_, l1, _) = content_match(&evs[1]);
    assert_eq!(l0, 1);
    assert_eq!(l1, 2);
}

#[test]
fn case_sensitive_content_match_misses() {
    let ms = MatcherSet::build(&options_with_text("Hello", false)).unwrap();
    let evs = scan_content(&ms, "hi.txt", b"say HELLO\nand hello\n");
    assert_eq!(evs.len(), 0);
}

#[test]
fn nul_in_probe_window_means_binary() {
    let ms = MatcherSet::build(&options_with_text("hello", false)).unwrap();
    let mut bytes = vec![0u8];
    bytes.extend_from_slice(b"hello later\n");
    let evs = scan_content(&ms, "bin.dat", &bytes);
    assert_eq!(evs.len(), 0);
}

#[test]
fn nul_beyond_probe_window_is_still_text() {
    let ms = MatcherSet::build(&options_with_text("hello", false)).unwrap();
    let mut bytes = vec![b'x'; 1500];
    bytes[1200] = 0;
    bytes.extend_from_slice(b"\nhello at the end\n");
    let evs = scan_content(&ms, "mostly_text.dat", &bytes);
    assert_eq!(evs.len(), 1);
    let (_, line, text) = content_match(&evs[0]);
    assert_eq!(line, 2);
    assert_eq!(text, "hello at the end");
}

#[test]
fn invalid_utf8_line_uses_replacement() {
    let ms = MatcherSet::build(&options_with_text("hello", false)).unwrap();
    let bytes = b"ok line\nbad \xFFhello\n";
    let evs = scan_content(&ms, "messy.txt", bytes);
    assert_eq!(evs.len(), 1);
    let (_, line, text) = content_match(&evs[0]);
    assert_eq!(line, 2);
    assert_eq!(text, "bad \u{FFFD}hello");
}

#[test]
fn match_on_last_line_without_newline() {
    let ms = MatcherSet::build(&options_with_text("end", false)).unwrap();
    let evs = scan_content(&ms, "tail.txt", b"line one\nthe end");
    assert_eq!(evs.len(), 1);
    let (_, line, text) = content_match(&evs[0]);
    assert_eq!(line, 2);
    assert_eq!(text, "the end");
}

#[test]
fn empty_file_yields_nothing() {
    let ms = MatcherSet::build(&options_with_text("x", false)).unwrap();
    let evs = scan_content(&ms, "empty.txt", b"");
    assert_eq!(evs.len(), 0);
}
