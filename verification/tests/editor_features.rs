use forge::bracket_match::BracketMatcher;
use forge::code_folding::FoldingManager;
use forge::comment_toggle::{CommentToggler, Language};
use forge::go_to_line::GoToLine;
use forge::indent_guides::IndentGuides;

#[test]
fn test_match_basic() {
    let text = "fn foo() { }";
    assert_eq!(BracketMatcher::find_match(text, 0, 6), Some((0, 7)));
    assert_eq!(BracketMatcher::find_match(text, 0, 7), Some((0, 6)));
    assert_eq!(BracketMatcher::find_match(text, 0, 9), Some((0, 11)));
    assert_eq!(BracketMatcher::find_match(text, 0, 11), Some((0, 9)));
}

#[test]
fn test_match_nested() {
    let text = "(( ))";
    assert_eq!(BracketMatcher::find_match(text, 0, 0), Some((0, 4)));
    assert_eq!(BracketMatcher::find_match(text, 0, 1), Some((0, 3)));
}

#[test]
fn test_skip_strings() {
    let text = "let s = \"(\"; )";
    assert_eq!(BracketMatcher::find_match(text, 0, 9), None);
    let text2 = "( \" ) \" )";
    assert_eq!(BracketMatcher::find_match(text2, 0, 0), Some((0, 8)));
}

#[test]
fn test_skip_comments() {
    let text = "( // ) \n )";
    assert_eq!(BracketMatcher::find_match(text, 0, 0), Some((1, 1)));
}

#[test]
fn bracket_block_comment_and_escape() {
    let text = "( /* ) */ \"\\\")\" )";
    assert_eq!(BracketMatcher::find_match(text, 0, 0), Some((0, 16)));
    assert_eq!(BracketMatcher::find_match(text, 0, 16), Some((0, 0)));
    // a mismatched pair is not reported
    assert_eq!(BracketMatcher::find_match("(]", 0, 0), None);
    // not a bracket
    assert_eq!(BracketMatcher::find_match("abc", 0, 1), None);
}

#[test]
fn test_compute_ranges() {
    let mut fm = FoldingManager::new();
    let text = "
fn foo() {
    let x = 1;
    if x > 0 {
        print(x);
    }
}
";
    let ranges = fm.compute_ranges(text.trim());
    assert_eq!(ranges.len(), 2);
    let r1 = ranges.iter().find(|r| r.start_line == 0).unwrap();
    assert_eq!(r1.end_line, 4);
    let r2 = ranges.iter().find(|r| r.start_line == 2).unwrap();
    assert_eq!(r2.end_line, 3);
}

#[test]
fn test_toggle_fold() {
    let mut fm = FoldingManager::new();
    let text = "
block
    content
";
    fm.compute_ranges(text.trim());
    assert!(fm.is_line_visible(1));
    fm.toggle_fold(0);
    assert!(!fm.is_line_visible(1));
    assert!(fm.is_line_visible(0));
    fm.toggle_fold(0);
    assert!(fm.is_line_visible(1));
}

#[test]
fn test_fold_unfold_all() {
    let mut fm = FoldingManager::new();
    let text = "
a
    b
    c
        d
";
    fm.compute_ranges(text.trim());
    assert_eq!(fm.ranges.len(), 2);
    fm.fold_all();
    assert!(!fm.is_line_visible(1));
    assert!(!fm.is_line_visible(3));
    fm.unfold_all();
    assert!(fm.is_line_visible(1));
    assert!(fm.is_line_visible(3));
}

#[test]
fn folding_keeps_folded_state_on_recompute() {
    let mut fm = FoldingManager::new();
    fm.compute_ranges("a\n    b\nc");
    fm.toggle_fold(0);
    assert!(!fm.is_line_visible(1));
    // the same range again keeps its folded state
    fm.compute_ranges("z\n    y\nq");
    assert!(!fm.is_line_visible(1));
    // toggling a line that starts no fold changes nothing
    fm.toggle_fold(2);
    assert!(!fm.is_line_visible(1));
    // a range that changed starts unfolded
    fm.compute_ranges("a\n    b\n    b2\nc");
    assert!(fm.is_line_visible(1));
    assert!(fm.is_line_visible(2));
}

#[test]
fn test_toggle_line_rust() {
    let line = "    let x = 1;";
    let commented = CommentToggler::toggle_line(line, Language::Rust);
    assert_eq!(commented, "    // let x = 1;");
    let uncommented = CommentToggler::toggle_line(&commented, Language::Rust);
    assert_eq!(uncommented, "    let x = 1;");
}

#[test]
fn test_toggle_line_html() {
    let line = "<div>";
    let commented = CommentToggler::toggle_line(line, Language::Html);
    assert!(commented.contains("<!-- <div> -->"));
    let uncommented = CommentToggler::toggle_line(&commented, Language::Html);
    assert_eq!(uncommented, "<div>");
}

#[test]
fn test_toggle_block() {
    let lines = vec!["a", "b"];
    let commented = CommentToggler::toggle_block(&lines, Language::Rust);
    assert_eq!(commented[0], "// a");
    assert_eq!(commented[1], "// b");
    let uncommented = CommentToggler::toggle_block(
        &commented.iter().map(|s| s.as_str()).collect::<Vec<_>>(),
        Language::Rust,
    );
    assert_eq!(uncommented[0], "a");
    assert_eq!(uncommented[1], "b");
}

#[test]
fn comment_python_css_and_mixed_block() {
    assert_eq!(CommentToggler::toggle_line("x = 1", Language::Python), "# x = 1");
    assert_eq!(CommentToggler::toggle_line("# x = 1", Language::Python), "x = 1");
    assert_eq!(CommentToggler::toggle_line("a {}", Language::Css), "/* a {} */");
    assert_eq!(CommentToggler::toggle_line("/* a {} */", Language::Css), "a {}");
    // not every line commented: commented lines get commented again
    let out = CommentToggler::toggle_block(&["// a", "b", ""], Language::Go);
    assert_eq!(out, vec!["// // a", "// b", "// "]);
    // every non-blank line commented: blank lines are kept
    let out = CommentToggler::toggle_block(&["// a", "  "], Language::Go);
    assert_eq!(out, vec!["a", "  "]);
}

#[test]
fn test_parse_line() {
    let mut gtl = GoToLine::new();
    gtl.input = "10".to_string();
    let res = gtl.confirm();
    assert_eq!(res, Some((9, None)));
}

#[test]
fn test_parse_line_col() {
    let mut gtl = GoToLine::new();
    gtl.input = "10:5".to_string();
    let res = gtl.confirm();
    assert_eq!(res, Some((9, Some(4))));
}

#[test]
fn test_invalid() {
    let mut gtl = GoToLine::new();
    gtl.input = "abc".to_string();
    assert_eq!(gtl.confirm(), None);
}

#[test]
fn go_to_line_edges() {
    let mut gtl = GoToLine::new();
    gtl.open();
    for c in " 0 : x".chars() {
        gtl.type_char(c);
    }
    assert!(gtl.visible);
    assert_eq!(gtl.confirm(), Some((0, None)));
    gtl.input = "+3:+2:9".to_string();
    assert_eq!(gtl.confirm(), Some((2, Some(1))));
    gtl.input = "99999999999999999999999".to_string();
    assert_eq!(gtl.confirm(), None);
    gtl.input = String::new();
    assert_eq!(gtl.confirm(), None);
    gtl.cancel();
    assert!(!gtl.visible);
    assert!(gtl.input.is_empty());
}

#[test]
fn test_compute_guides() {
    let text = "
fn foo() {
    let x = 1;
    if x > 0 {
        print(x);
    }
}
";
    let _guides = IndentGuides::compute(text.trim(), 4, 4);
    let guides = IndentGuides::compute(text.trim(), 4, 3);
    assert_eq!(guides.len(), 2);
    let g1 = guides.iter().find(|g| g.col == 0).unwrap();
    assert_eq!(g1.start_line, 1);
    assert_eq!(g1.end_line, 5);
    let g2 = guides.iter().find(|g| g.col == 4).unwrap();
    assert_eq!(g2.start_line, 3);
    assert_eq!(g2.end_line, 4);
    assert!(!g1.active);
    assert!(g2.active);
}

#[test]
fn indent_guides_with_tabs() {
    let guides = IndentGuides::compute("a\n\tb\nc", 4, 0);
    assert_eq!(guides.len(), 1);
    assert_eq!(guides[0].col, 0);
    assert_eq!(guides[0].start_line, 1);
    assert_eq!(guides[0].end_line, 2);
    assert!(!guides[0].active);
}
