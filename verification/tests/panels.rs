use forge::breadcrumb::{BreadcrumbBar, SegmentKind};
use forge::breadcrumb_dropdown::BreadcrumbDropdown;
use forge::command_palette::CommandPalette;
use forge::emmet::expand_abbreviation;
use forge::find_bar::FindBar;
use forge::markdown_preview::{parse_markdown, MarkdownNode};

#[test]
fn test_move() {
    let mut bd = BreadcrumbDropdown::new();
    bd.show(vec!["a".to_string(), "b".to_string(), "c".to_string()]);
    assert_eq!(bd.selected, 0);
    bd.move_down();
    assert_eq!(bd.selected, 1);
    bd.move_down();
    assert_eq!(bd.selected, 2);
    bd.move_down();
    assert_eq!(bd.selected, 0);
    bd.move_up();
    assert_eq!(bd.selected, 2);
}

#[test]
fn breadcrumb_dropdown_test_select() {
    let mut bd = BreadcrumbDropdown::new();
    bd.show(vec!["a".to_string()]);
    assert_eq!(bd.select(0), Some("a"));
    assert_eq!(bd.select(1), None);
}

#[test]
fn breadcrumb_dropdown_empty_and_close() {
    let mut bd = BreadcrumbDropdown::new();
    bd.move_up();
    bd.move_down();
    assert_eq!(bd.selected, 0);
    bd.show(vec!["x".to_string(), "y".to_string()]);
    bd.move_down();
    bd.move_up();
    assert_eq!(bd.selected, 0);
    bd.close();
    assert!(!bd.visible);
    assert!(bd.items.is_empty());
}

#[test]
fn breadcrumb_path_and_symbol() {
    let mut bar = BreadcrumbBar::new();
    bar.update_from_path("/home/u\\src//main.rs");
    let texts: Vec<&str> = bar.segments.iter().map(|s| s.text.as_str()).collect();
    assert_eq!(texts, vec!["home", "u", "src", "main.rs"]);
    assert_eq!(bar.segments[3].kind, SegmentKind::File);
    assert_eq!(bar.segments[0].kind, SegmentKind::Folder);
    bar.set_symbol(Some("foo".to_string()));
    bar.set_symbol(Some("bar".to_string()));
    assert_eq!(bar.segments.len(), 5);
    assert_eq!(bar.segments[4].text, "bar");
    assert_eq!(bar.segments[4].kind, SegmentKind::Symbol);
    bar.set_symbol(None);
    assert_eq!(bar.segments.len(), 4);
    // a trailing separator leaves no file segment
    bar.update_from_path("a/b/");
    assert_eq!(bar.segments.len(), 2);
    assert_eq!(bar.segments[1].kind, SegmentKind::Folder);
}

#[test]
fn test_filter_fuzzy() {
    let mut cp = CommandPalette::new();
    cp.type_char('f');
    cp.type_char('i');
    cp.type_char('l');
    assert!(!cp.filtered.is_empty());
    let first = cp.select(0).unwrap();
    assert!(first.label.to_lowercase().contains("file"));
}

#[test]
fn test_defaults() {
    let cp = CommandPalette::new();
    assert!(cp.commands.len() >= 30);
}

#[test]
fn command_palette_test_select() {
    let mut cp = CommandPalette::new();
    cp.open();
    let cmd = cp.select(0);
    assert!(cmd.is_some());
}

#[test]
fn fuzzy_scores() {
    // 'a' at 0 of "ab": 2; 'b' right after: 1 + 10
    assert_eq!(forge::command_palette::fuzzy_match("ab", "AB"), Some(13));
    // gap: 'a' at 0 (3), 'c' at 2 (1) - 1
    assert_eq!(forge::command_palette::fuzzy_match("ac", "abc"), Some(3));
    assert_eq!(forge::command_palette::fuzzy_match("z", "abc"), None);
    assert_eq!(forge::command_palette::fuzzy_match("", "abc"), Some(0));
}

#[test]
fn test_basic_tag() {
    assert_eq!(expand_abbreviation("div").unwrap(), "<div></div>");
    assert_eq!(expand_abbreviation("p").unwrap(), "<p></p>");
}

#[test]
fn test_class_id() {
    assert_eq!(expand_abbreviation("div.foo").unwrap(), "<div class=\"foo\"></div>");
    assert_eq!(expand_abbreviation("div#bar").unwrap(), "<div id=\"bar\"></div>");
    assert_eq!(expand_abbreviation("div.foo#bar").unwrap(), "<div id=\"bar\" class=\"foo\"></div>");
    assert_eq!(expand_abbreviation(".foo").unwrap(), "<div class=\"foo\"></div>");
    assert_eq!(expand_abbreviation("#bar").unwrap(), "<div id=\"bar\"></div>");
}

#[test]
fn test_child() {
    assert_eq!(expand_abbreviation("div>span").unwrap(), "<div><span></span></div>");
    assert_eq!(expand_abbreviation("ul>li").unwrap(), "<ul><li></li></ul>");
}

#[test]
fn test_sibling() {
    assert_eq!(expand_abbreviation("div+p").unwrap(), "<div></div><p></p>");
}

#[test]
fn test_multiply() {
    assert_eq!(expand_abbreviation("ul>li*3").unwrap(), "<ul><li></li><li></li><li></li></ul>");
}

#[test]
fn test_self_closing() {
    assert_eq!(expand_abbreviation("img").unwrap(), "<img />");
}

#[test]
fn test_complex() {
    assert_eq!(expand_abbreviation("div>p+span").unwrap(), "<div><p></p><span></span></div>");
}

#[test]
fn test_text() {
    assert_eq!(expand_abbreviation("p{hello}").unwrap(), "<p>hello</p>");
}

#[test]
fn emmet_errors_and_empty() {
    assert_eq!(expand_abbreviation("").unwrap(), "");
    assert!(expand_abbreviation("+p").is_err());
    assert!(expand_abbreviation("div>").is_err());
}

#[test]
fn test_headings_parsed() {
    let md = "# Heading 1\n## Heading 2";
    let nodes = parse_markdown(md);
    assert_eq!(nodes.len(), 2);
    match &nodes[0] {
        MarkdownNode::Heading { level, text } => {
            assert_eq!(*level, 1);
            assert_eq!(text, "Heading 1");
        }
        _ => panic!("Expected Heading"),
    }
    match &nodes[1] {
        MarkdownNode::Heading { level, text } => {
            assert_eq!(*level, 2);
            assert_eq!(text, "Heading 2");
        }
        _ => panic!("Expected Heading"),
    }
}

#[test]
fn test_code_blocks_parsed() {
    let md = "```rust\nfn main() {}\n```";
    let nodes = parse_markdown(md);
    assert_eq!(nodes.len(), 1);
    match &nodes[0] {
        MarkdownNode::CodeBlock { language, code } => {
            assert_eq!(language, "rust");
            assert_eq!(code, "fn main() {}\n");
        }
        _ => panic!("Expected CodeBlock"),
    }
}

#[test]
fn test_bold_italic_parsed() {
    let md = "**bold**\n*italic*";
    let nodes = parse_markdown(md);
    assert_eq!(nodes.len(), 2);
    match &nodes[0] {
        MarkdownNode::Bold(text) => assert_eq!(text, "bold"),
        _ => panic!("Expected Bold"),
    }
    match &nodes[1] {
        MarkdownNode::Italic(text) => assert_eq!(text, "italic"),
        _ => panic!("Expected Italic"),
    }
}

#[test]
fn test_list_items() {
    let md = "- item 1\n- item 2";
    let nodes = parse_markdown(md);
    assert_eq!(nodes.len(), 2);
    match &nodes[0] {
        MarkdownNode::ListItem(text) => assert_eq!(text, "item 1"),
        _ => panic!("Expected ListItem"),
    }
}

#[test]
fn markdown_rules_links_and_paragraphs() {
    let nodes = parse_markdown("---\n[site](http://x)\n####### seven\nplain");
    assert_eq!(
        nodes,
        vec![
            MarkdownNode::HorizontalRule,
            MarkdownNode::Link { text: "site".to_string(), url: "http://x".to_string() },
            MarkdownNode::Paragraph("####### seven".to_string()),
            MarkdownNode::Paragraph("plain".to_string()),
        ]
    );
}

#[test]
fn test_search_basic() {
    let mut bar = FindBar::new();
    let text = "hello world\nhello universe";
    let matches = bar.search(text, "hello");
    assert_eq!(matches.len(), 2);
    assert_eq!(matches[0].line, 0);
    assert_eq!(matches[0].start_col, 0);
    assert_eq!(matches[1].line, 1);
    assert_eq!(matches[1].start_col, 0);
}

#[test]
fn test_next_prev_match() {
    let mut bar = FindBar::new();
    let text = "a\na\na";
    bar.search(text, "a");
    assert_eq!(bar.match_count(), 3);
    assert_eq!(bar.current_match, Some(0));
    let m = bar.next_match();
    assert!(m.is_some());
    assert_eq!(bar.current_match, Some(1));
    let m = bar.next_match();
    assert!(m.is_some());
    assert_eq!(bar.current_match, Some(2));
    let m = bar.next_match();
    assert!(m.is_some());
    assert_eq!(bar.current_match, Some(0));
    let m = bar.prev_match();
    assert!(m.is_some());
    assert_eq!(bar.current_match, Some(2));
}

#[test]
fn test_case_sensitivity() {
    let mut bar = FindBar::new();
    let text = "Hello hello";
    bar.set_case_sensitive(true);
    let matches = bar.search(text, "Hello");
    assert_eq!(matches.len(), 1);
    bar.set_case_sensitive(false);
    let matches = bar.search(text, "Hello");
    assert_eq!(matches.len(), 2);
}

#[test]
fn test_whole_word() {
    let mut bar = FindBar::new();
    let text = "hello helloworld hello";
    bar.set_whole_word(true);
    let matches = bar.search(text, "hello");
    assert_eq!(matches.len(), 2);
    bar.set_whole_word(false);
    let matches = bar.search(text, "hello");
    assert_eq!(matches.len(), 3);
}

#[test]
fn test_regex() {
    let mut bar = FindBar::new();
    let text = "abc 123 def 456";
    bar.set_regex(true);
    let matches = bar.search(text, "\\d+");
    assert_eq!(matches.len(), 2);
    assert_eq!(matches[0].start_col, 4);
    assert_eq!(matches[1].start_col, 12);
}

#[test]
fn find_bar_overlaps_invalid_regex_and_try_search() {
    let mut bar = FindBar::new();
    let m = bar.search("aaa", "aa");
    assert_eq!(m.len(), 2);
    assert_eq!((m[1].start_col, m[1].end_col), (1, 3));
    bar.set_regex(true);
    assert!(bar.search("abc", "(").is_empty());
    assert_eq!(bar.current_match, None);
    bar.set_regex(false);
    // a needle that starts with a non-ASCII character and occurs is refused
    assert_eq!(bar.try_search("xéy", "é"), None);
    assert_eq!(bar.try_search("xy", "é").map(|v| v.len()), Some(0));
    assert_eq!(bar.try_search("XY", "xy").map(|v| v.len()), Some(1));
    assert!(bar.search("", "x").is_empty());
    bar.close();
    assert!(bar.query.is_empty());
    assert_eq!(bar.next_match(), None);
}
