use fast_search::scan_content;
use fast_search::step_entry;
use fast_search::EntryMeta;
use fast_search::MatcherSet;
use fast_search::SearchError;
use fast_search::SearchOptions;
use fast_search::SearchResult;

fn base_options() -> SearchOptions {
    SearchOptions {
        root: ".".to_string(),
        text_query: None,
        file_query: None,
        ignore_case: false,
        max_depth: 255,
        file_types: None,
    }
}

#[test]
fn build_succeeds_without_queries() {
    let ms = MatcherSet::build(&base_options()).unwrap();
    let entry = EntryMeta {
        name: "anything.bin".to_string(),
        depth: 1,
        is_file: true,
        extension: Some("bin".to_string()),
    };
    let o = step_entry(&ms, 255, 0, false, Some(&entry));
    assert!(!o.emit_name);
    assert!(!o.want_content);
}

#[test]
fn empty_queries_compile_to_no_matchers() {
    let mut opts = base_options();
    opts.text_query = Some(String::new());
    opts.file_query = Some(String::new());
    let ms = MatcherSet::build(&opts).unwrap();
    let entry = EntryMeta {
        name: "a.txt".to_string(),
        depth: 1,
        is_file: true,
        extension: Some("txt".to_string()),
    };
    let o = step_entry(&ms, 255, 0, false, Some(&entry));
    assert!(!o.emit_name);
    assert!(!o.want_content);
}

#[test]
fn extension_tokens_are_trimmed_and_folded() {
    let mut opts = base_options();
    opts.text_query = Some("q".to_string());
    opts.file_types = Some("  TxT ,\tMd ".to_string());
    let ms = MatcherSet::build(&opts).unwrap();
    let entry = EntryMeta {
        name: "a.txt".to_string(),
        depth: 1,
        is_file: true,
        extension: Some("txt".to_string()),
    };
    assert!(step_entry(&ms, 255, 0, false, Some(&entry)).want_content);
    let entry = EntryMeta {
        name: "b.MD".to_string(),
        depth: 1,
        is_file: true,
        extension: Some("MD".to_string()),
    };
    assert!(step_entry(&ms, 255, 0, false, Some(&entry)).want_content);
}

#[test]
fn extension_list_with_empty_tokens() {
    let mut opts = base_options();
    opts.text_query = Some("q".to_string());
    opts.file_types = Some("txt,,md".to_string());
    let ms = MatcherSet::build(&opts).unwrap();
    let with_ext = EntryMeta {
        name: "a.txt".to_string(),
        depth: 1,
        is_file: true,
        extension: Some("txt".to_string()),
    };
    assert!(step_entry(&ms, 255, 0, false, Some(&with_ext)).want_content);
    let without_ext = EntryMeta {
        name: "README".to_string(),
        depth: 1,
        is_file: true,
        extension: None,
    };
    assert!(!step_entry(&ms, 255, 0, false, Some(&without_ext)).want_content);
}

#[test]
fn directories_are_not_content_scanned() {
    let mut opts = base_options();
    opts.text_query = Some("q".to_string());
    let ms = MatcherSet::build(&opts).unwrap();
    let dir = EntryMeta {
        name: "src".to_string(),
        depth: 1,
        is_file: false,
        extension: None,
    };
    assert!(!step_entry(&ms, 255, 0, false, Some(&dir)).want_content);
}

#[test]
fn search_error_variants_exist() {
    let io = SearchError::Io("denied".to_string());
    let map = SearchError::MapError("mapping failed".to_string());
    let pat = SearchError::PatternError;
    assert!(matches!(io, SearchError::Io(_)));
    assert!(matches!(map, SearchError::MapError(_)));
    assert!(matches!(pat, SearchError::PatternError));
}

#[test]
fn search_result_events_clone() {
    let ev = SearchResult::ContentMatch {
        path: "p.txt".to_string(),
        line_number: 3,
        line_text: "text".to_string(),
    };
    let copy = ev.clone();
    match copy {
        SearchResult::ContentMatch { path, line_number, line_text } => {
            assert_eq!(path, "p.txt");
            assert_eq!(line_number, 3);
            assert_eq!(line_text, "text");
        }
        _ => panic!("clone changed the variant"),
    }
    let name = SearchResult::FileNameMatch { path: "dir/x".to_string() };
    assert!(matches!(name, SearchResult::FileNameMatch { .. }));
    let progress = SearchResult::ProgressUpdate(50);
    assert!(matches!(progress, SearchResult::ProgressUpdate(50)));
}

#[test]
fn content_scan_honours_full_pipeline() {
    let mut opts = base_options();
    opts.text_query = Some("warn".to_string());
    opts.file_query = Some("log".to_string());
    opts.file_types = Some("txt".to_string());
    let ms = MatcherSet::build(&opts).unwrap();
    let entry = EntryMeta {
        name: "build.log.txt".to_string(),
        depth: 2,
        is_file: true,
        extension: Some("txt".to_string()),
    };
    let o = step_entry(&ms, 255, 0, false, Some(&entry));
    assert!(o.emit_name);
    assert!(o.want_content);
    let evs = scan_content(&ms, "build.log.txt", b"ok\nwarn: first\nok\nwarn: second\n");
    assert_eq!(evs.len(), 2);
    match &evs[0] {
        SearchResult::ContentMatch { line_number, line_text, .. } => {
            assert_eq!(*line_number, 2);
            assert_eq!(line_text, "warn: first");
        }
        _ => panic!("expected a content match event"),
    }
    match &evs[1] {
        SearchResult::ContentMatch { line_number, line_text, .. } => {
            assert_eq!(*line_number, 4);
            assert_eq!(line_text, "warn: second");
        }
        _ => panic!("expected a content match event"),
    }
}
