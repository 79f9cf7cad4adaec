use forge::activity_bar::{ActivityBar, ActivityItem};
use forge::context_menu::{editor_context, item_action};
use forge::diff_view::{DiffLineKind, DiffView};
use forge::extensions_panel::ExtensionsPanel;
use forge::formatter::{Formatter, Language as FormatLanguage};
use forge::git_blame::BlameView;
use forge::git_branch::BranchManager;
use forge::git_gutter::{DiffKind, GutterDiff};
use forge::git_panel::{FileStatus, GitPanel};
use forge::guard::Guard;
use forge::gutter::Gutter;
use forge::image_preview::{detect_format, info_from_header, ImageFormat};
use forge::modes::UiMode;

#[test]
fn test_detect_format_from_extension() {
    assert_eq!(detect_format("test.png"), ImageFormat::Png);
    assert_eq!(detect_format("test.jpg"), ImageFormat::Jpeg);
    assert_eq!(detect_format("test.txt"), ImageFormat::Unknown);
}

#[test]
fn image_formats_and_png_header() {
    assert_eq!(detect_format("a/B.JPEG"), ImageFormat::Jpeg);
    assert_eq!(detect_format(".gitignore"), ImageFormat::Unknown);
    assert_eq!(detect_format("x.svg"), ImageFormat::Svg);
    assert_eq!(detect_format("archive.tar.PNG"), ImageFormat::Png);
    assert_eq!(detect_format(".png"), ImageFormat::Unknown);
    assert_eq!(detect_format("dir.png/"), ImageFormat::Png);
    assert_eq!(detect_format("png"), ImageFormat::Unknown);
    let mut header = [0u8; 32];
    header[..8].copy_from_slice(&[0x89, 0x50, 0x4E, 0x47, 0x0D, 0x0A, 0x1A, 0x0A]);
    header[8..24].copy_from_slice(&[0, 0, 0, 0x0D, 0x49, 0x48, 0x44, 0x52, 0, 0, 0, 0x64, 0, 0, 0, 0xC8]);
    let info = info_from_header(ImageFormat::Png, &header, 33);
    assert_eq!((info.width, info.height, info.size_bytes), (100, 200, 33));
    let info = info_from_header(ImageFormat::Gif, &header, 1);
    assert_eq!((info.width, info.height), (0, 0));
}

#[test]
fn guard_helpers() {
    assert_eq!(Guard::clamp_usize(5, 1, 3), 3);
    assert_eq!(Guard::clamp_usize(0, 1, 3), 1);
    assert_eq!(Guard::clamp_usize(2, 5, 3), 3);
    assert_eq!(Guard::clamp_cursor(10, 10, 3, 4), (2, 4));
    assert_eq!(Guard::clamp_cursor(1, 1, 0, 4), (0, 1));
    assert_eq!(Guard::safe_substr("héllo", 2, 1), "é");
    assert_eq!(Guard::safe_substr("héllo", 1, 2), "é");
    assert_eq!(Guard::safe_substr("abc", 3, 1), "");
    assert_eq!(Guard::safe_substr("abc", 1, 10), "bc");
    let rope = ropey::Rope::from_str("one\ntwo\n");
    assert_eq!(Guard::get_line(&rope, 1), "two\n");
    assert_eq!(Guard::get_line(&rope, 2), "");
    assert_eq!(Guard::get_line(&rope, 3), "");
    // CR LF counts as one break; CR, VT, FF, NEL, LS and PS each count.
    let rope = ropey::Rope::from_str("a\r\nb\rc\u{0B}d\u{0C}e\u{85}f\u{2028}g\u{2029}h");
    assert_eq!(Guard::get_line(&rope, 0), "a\r\n");
    assert_eq!(Guard::get_line(&rope, 1), "b\r");
    assert_eq!(Guard::get_line(&rope, 2), "c\u{0B}");
    assert_eq!(Guard::get_line(&rope, 7), "h");
    assert_eq!(Guard::get_line(&rope, 8), "");
}

#[test]
fn modes_cycle() {
    assert_eq!(UiMode::all().len(), 6);
    let mut m = UiMode::Standard;
    for _ in 0..6 {
        assert_eq!(m.next().prev(), m);
        m = m.next();
    }
    assert_eq!(m, UiMode::Standard);
    assert_eq!(UiMode::Debug.shortcut(), "F5");
    assert_eq!(UiMode::Zen.label(), "🧘 Zen");
    assert!(!UiMode::Zen.layout_flags().gutter);
    assert!(UiMode::Standard.layout_flags().show_frame_time);
}

#[test]
fn activity_bar_items() {
    assert_eq!(ActivityItem::top_items().len(), 6);
    assert_eq!(ActivityItem::bottom_items(), &[ActivityItem::Account, ActivityItem::Settings]);
    assert_eq!(ActivityItem::Debug.label(), "Run and Debug");
    assert_eq!(ActivityBar::new().active_item, Some(ActivityItem::Explorer));
}

#[test]
fn gutter_breakpoints() {
    let mut g = Gutter::new();
    g.toggle_breakpoint(3);
    g.toggle_breakpoint(5);
    assert_eq!(g.breakpoints, vec![3, 5]);
    g.toggle_breakpoint(3);
    assert_eq!(g.breakpoints, vec![5]);
    g.toggle_breakpoint(5);
    assert!(g.breakpoints.is_empty());
    assert_eq!(g.total_lines, 1);
}

#[test]
fn extensions_panel_by_name() {
    let mut p = ExtensionsPanel::new();
    assert_eq!(p.installed.len(), 2);
    p.toggle_extension("Prettier");
    assert!(!p.installed[1].enabled);
    p.toggle_extension("Prettier");
    assert!(p.installed[1].enabled);
    p.uninstall_extension("Rust Analyzer");
    assert_eq!(p.installed.len(), 1);
    p.uninstall_extension("missing");
    assert_eq!(p.installed.len(), 1);
    p.toggle();
    assert!(p.visible);
    assert_eq!(forge::extensions::ExtensionRegistry::available()[1].name, "Bracket Pair Colorizer");
}

#[test]
fn context_menu_actions() {
    let items = editor_context();
    assert_eq!(items.len(), 7);
    assert_eq!(item_action(&items, 0), Some("edit.cut".to_string()));
    assert_eq!(item_action(&items, 4), None);
    assert_eq!(item_action(&items, 7), None);
}

#[test]
fn formatter_commands() {
    let c = Formatter::command_for(&FormatLanguage::Css).unwrap();
    assert_eq!(c.program, "prettier");
    assert_eq!(c.args, vec!["--parser".to_string(), "css".to_string()]);
    assert!(Formatter::command_for(&FormatLanguage::Other("x".to_string())).is_none());
    assert_eq!(Formatter::command_for(&FormatLanguage::Python).unwrap().args.len(), 2);
    assert_eq!(Formatter::formatted("a", None), "a");
    assert_eq!(Formatter::formatted("a", Some("b".to_string())), "b");
}

#[test]
fn git_status_rows() {
    let mut panel = GitPanel::new();
    let entries = vec![("a.rs".to_string(), 1 | 256), ("b.rs".to_string(), 128), ("c.rs".to_string(), 0)];
    panel.refresh_from(std::path::PathBuf::from("/repo"), &entries);
    assert_eq!(panel.files.len(), 3);
    assert_eq!((panel.files[0].status, panel.files[0].staged), (FileStatus::Added, true));
    assert_eq!((panel.files[1].status, panel.files[1].staged), (FileStatus::Modified, false));
    assert_eq!((panel.files[2].status, panel.files[2].staged), (FileStatus::Untracked, false));
}

#[test]
fn git_gutter_and_blame_and_branch() {
    let marks = GutterDiff::marks_from_lines(&vec![('+', Some(3)), (' ', Some(4)), ('-', None), ('-', Some(7))]);
    assert_eq!(marks.len(), 2);
    assert_eq!((marks[0].line, marks[0].kind), (3, DiffKind::Added));
    assert_eq!((marks[1].line, marks[1].kind), (7, DiffKind::Deleted));
    let mut blame = BlameView::new();
    blame.add_hunk("0123456789abcdef", None, -42, 10, 2);
    assert_eq!(blame.lines.len(), 2);
    assert_eq!(blame.lines[1].commit_hash, "0123456");
    assert_eq!(blame.lines[1].author, "Unknown");
    assert_eq!(blame.lines[1].date, "-42");
    assert_eq!(blame.lines[1].line_number, 11);
    assert_eq!(BranchManager::head_ref("main"), "refs/heads/main");
}

#[test]
fn diff_between_texts() {
    let hunks = DiffView::compute_diff("a\nb\nc\n", "a\nB\nc\n").unwrap();
    assert_eq!(hunks.len(), 1);
    let kinds: Vec<DiffLineKind> = hunks[0].lines.iter().map(|l| l.kind).collect();
    assert_eq!(
        kinds,
        vec![DiffLineKind::Context, DiffLineKind::Removed, DiffLineKind::Added, DiffLineKind::Context]
    );
    assert_eq!(hunks[0].lines[1].text, "b");
    assert_eq!(hunks[0].lines[2].new_lineno, Some(2));
    assert!(DiffView::compute_diff("same\n", "same\n").unwrap().is_empty());
    assert!(DiffView::new().hunks.is_empty());
}

#[test]
fn decimal_text() {
    assert_eq!(forge::text::usize_text(0), "0");
    assert_eq!(forge::text::usize_text(1234), "1234");
    assert_eq!(forge::text::i64_text(i64::MIN), "-9223372036854775808");
}
