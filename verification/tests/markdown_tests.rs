use cache_sweep::markdown::is_markdown_extension;
use cache_sweep::markdown::make_markdown_file_info;
use cache_sweep::markdown::read_preview;
use cache_sweep::markdown::sort_markdown_files;
use cache_sweep::markdown::split_lines;
use cache_sweep::markdown::word_count;
use cache_sweep::markdown::MarkdownFileInfo;

#[test]
fn markdown_extensions_are_case_insensitive() {
    assert!(is_markdown_extension("md"));
    assert!(is_markdown_extension("MD"));
    assert!(is_markdown_extension("Markdown"));
    assert!(is_markdown_extension("mdx"));
    assert!(!is_markdown_extension("txt"));
    assert!(!is_markdown_extension(""));
    assert!(!is_markdown_extension("md "));
}

#[test]
fn preview_takes_first_three_nonblank_lines() {
    let head = b"# Title\n\nfirst paragraph\n   \nsecond paragraph\nthird\n".to_vec();
    let (preview, words) = read_preview(&head);
    assert_eq!(preview, "# Title\nfirst paragraph\nsecond paragraph");
    assert_eq!(words, 7);
}

#[test]
fn preview_is_capped_with_an_ellipsis() {
    let head = vec![b'a'; 250];
    let (preview, words) = read_preview(&head);
    let mut expected = "a".repeat(200);
    expected.push('\u{2026}');
    assert_eq!(preview, expected);
    assert_eq!(words, 1);
}

#[test]
fn empty_head_gives_empty_preview() {
    let (preview, words) = read_preview(&Vec::new());
    assert_eq!(preview, "");
    assert_eq!(words, 0);
}

#[test]
fn lines_split_at_line_feeds_and_drop_carriage_returns() {
    let lines = split_lines("a\r\nb\nc");
    assert_eq!(lines, vec!["a".to_string(), "b".to_string(), "c".to_string()]);
    let lines2 = split_lines("a\n\nb\n");
    assert_eq!(lines2, vec!["a".to_string(), "".to_string(), "b".to_string()]);
    assert!(split_lines("").is_empty());
}

#[test]
fn words_are_runs_of_non_whitespace() {
    assert_eq!(word_count("hello   world"), 2);
    assert_eq!(word_count("  \t\n  "), 0);
    assert_eq!(word_count("one\ntwo\tthree four"), 4);
    assert_eq!(word_count(""), 0);
}

#[test]
fn index_entries_sort_by_relative_path() {
    let mk = |rel: &str| -> MarkdownFileInfo {
        make_markdown_file_info(
            format!("/docs/{rel}"),
            rel.to_string(),
            rel.rsplit('/').next().unwrap_or(rel).to_string(),
            1,
            None,
            &b"x\n".to_vec(),
        )
    };
    let files = vec![mk("notes/b.md"), mk("a.md"), mk("notes/a.md")];
    let sorted = sort_markdown_files(files);
    let rels: Vec<&str> = sorted.iter().map(|f| f.relative_path.as_str()).collect();
    assert_eq!(rels, vec!["a.md", "notes/a.md", "notes/b.md"]);
}

#[test]
fn index_entry_carries_preview_and_word_count() {
    let head = b"alpha beta\n\ngamma\n".to_vec();
    let f = make_markdown_file_info(
        "/d/x.md".to_string(),
        "x.md".to_string(),
        "x.md".to_string(),
        18,
        None,
        &head,
    );
    assert_eq!(f.preview, "alpha beta\ngamma");
    assert_eq!(f.word_count, 3);
    assert_eq!(f.size, 18);
    assert_eq!(f.modified, "");
}
