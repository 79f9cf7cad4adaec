use forge::editor::{
    ensure_cursor_visible, line_end_offset, move_left_offset, move_right_offset, title_for_path,
    untitled_title, window_title,
};
use forge::activity_bar::{ActivityBar, ActivityItem};
use forge::gutter::Gutter;
use forge::autocomplete::{Autocomplete, CompletionItem, CompletionKind, Position};
use forge::bottom_panel::{BottomPanel, PanelTab};
use forge::context_menu::ContextMenu;
use forge::debug_ui::{Breakpoint, DebugUi, StackFrame};
use forge::debug_views::{CallStackList, DebugSession, Scope, Variable, VariablesTree};
use forge::drag_drop::{DragDrop, DragPayload};
use forge::editor_groups::{EditorLayout, SplitDir};
use forge::file_picker::FilePicker;
use forge::ghost_tabs::GhostTabsEngine;
use forge::indent_guides::IndentGuides;
use forge::inline_completion::InlineCompletionProvider;
use forge::markdown_preview::parse_markdown;
use forge::markov::MarkovChain;
use forge::render_batch::RenderBatch;

fn item(label: &str) -> CompletionItem {
    CompletionItem {
        label: label.to_string(),
        kind: CompletionKind::Function,
        detail: None,
        insert_text: label.to_string(),
    }
}

#[test]
fn test_search() {
    let mut fp = FilePicker::new();
    fp.files = vec!["src/main.rs".to_string(), "src/lib.rs".to_string(), "Cargo.toml".to_string()];

    fp.search("main");
    assert!(!fp.filtered.is_empty());
    assert_eq!(fp.select(0), Some("src/main.rs"));

    fp.search("toml");
    assert!(!fp.filtered.is_empty());
    assert_eq!(fp.select(0), Some("Cargo.toml"));
}

#[test]
fn test_open_close() {
    let mut fp = FilePicker::new();
    fp.open();
    assert!(fp.visible);

    fp.close();
    assert!(!fp.visible);
    assert!(fp.filtered.is_empty());
}

#[test]
fn file_picker_ranks_by_score_then_order() {
    let mut fp = FilePicker::new();
    fp.files = vec!["abc".to_string(), "xaxbxc".to_string(), "ABC".to_string(), "zzz".to_string()];
    fp.open();
    assert_eq!(fp.filtered, vec![(0, 0), (1, 0), (2, 0), (3, 0)]);
    fp.search("abc");
    // "abc": 3 + 2 + 1 + 10 + 10 = 26; "xaxbxc": 5 + 3 + 1 - 1 - 1 = 7
    assert_eq!(fp.filtered, vec![(0, 26), (2, 26), (1, 7)]);
    assert_eq!(fp.select(1), Some("ABC"));
    assert_eq!(fp.select(3), None);
    fp.search("q");
    assert!(fp.filtered.is_empty());
}

#[test]
fn test_toggle() {
    let mut panel = BottomPanel::new();
    assert!(!panel.visible);
    panel.toggle();
    assert!(panel.visible);
    panel.toggle();
    assert!(!panel.visible);
}

#[test]
fn test_set_tab() {
    let mut panel = BottomPanel::new();
    panel.set_tab(PanelTab::Terminal);
    assert_eq!(panel.active_tab, PanelTab::Terminal);
    assert!(panel.visible);
}

#[test]
fn test_show_hide() {
    let mut cm = ContextMenu::new();
    cm.show(ContextMenu::editor_context());

    assert!(cm.visible);
    assert_eq!(cm.items.len(), 7);

    cm.close();
    assert!(!cm.visible);
    assert!(cm.items.is_empty());
}

#[test]
fn test_handle_click() {
    let mut cm = ContextMenu::new();
    cm.show(ContextMenu::editor_context());

    assert_eq!(cm.handle_click(0), Some("edit.cut".to_string()));
    assert_eq!(cm.handle_click(4), None);
    assert_eq!(cm.handle_click(7), None);
}

#[test]
fn autocomplete_show_next_prev() {
    let mut ac = Autocomplete::new();
    assert!(ac.get_selected().is_none());
    ac.show(Position::new(5), vec![item("alpha"), item("beta"), item("gamma")]);
    assert!(ac.visible);
    assert_eq!(ac.trigger_pos, Position::new(5));
    assert_eq!(ac.get_selected().map(|i| i.label.as_str()), Some("alpha"));
    ac.next();
    ac.next();
    assert_eq!(ac.selected, 2);
    ac.next();
    assert_eq!(ac.selected, 0);
    ac.prev();
    assert_eq!(ac.selected, 2);
    ac.prev();
    assert_eq!(ac.get_selected().map(|i| i.label.as_str()), Some("beta"));
}

#[test]
fn autocomplete_empty_show_and_close() {
    let mut ac = Autocomplete::new();
    ac.show(Position::new(3), vec![item("x")]);
    ac.show(Position::new(9), Vec::new());
    assert!(!ac.visible);
    assert_eq!(ac.items.len(), 1);
    assert_eq!(ac.trigger_pos, Position::new(3));
    assert!(ac.get_selected().is_none());
    ac.next();
    assert_eq!(ac.selected, 0);
    ac.show(Position::new(1), vec![item("y")]);
    ac.close();
    assert!(!ac.visible);
    assert!(ac.items.is_empty());
    assert_eq!(Position::zero(), Position::new(0));
}

#[test]
fn debug_ui_toggle_breakpoints() {
    let mut d = DebugUi::new();
    assert_eq!(d.toggle_breakpoint("src/main.rs".to_string(), 10), vec![10]);
    assert_eq!(d.toggle_breakpoint("src/lib.rs".to_string(), 3), vec![3]);
    assert_eq!(d.toggle_breakpoint("src/main.rs".to_string(), 20), vec![10, 20]);
    assert_eq!(d.breakpoints.len(), 3);
    assert!(!d.breakpoints[0].verified);
    assert_eq!(d.toggle_breakpoint("src/main.rs".to_string(), 10), vec![20]);
    assert_eq!(d.breakpoints.len(), 2);
    assert_eq!(d.breakpoints[0].file, "src/lib.rs");
}

#[test]
fn debug_ui_render_text() {
    let mut d = DebugUi::new();
    assert_eq!(
        d.render_text(),
        "  RUN AND DEBUG\n\n  No active debug session.\n  Press F5 to start (stub).\n"
    );
    d.session_active = true;
    assert_eq!(
        d.render_text(),
        "  RUN AND DEBUG\n\n  BREAKPOINTS\n    No breakpoints.\n\n  CALL STACK\n    (Paused or Running)\n\n  VARIABLES\n    No variables.\n"
    );
    d.breakpoints.push(Breakpoint { file: "/home/u/src/main.rs".to_string(), line: 12, verified: true });
    d.breakpoints.push(Breakpoint { file: "lib.rs".to_string(), line: 7, verified: false });
    d.stack_frames.push(StackFrame { id: 1, name: "main".to_string(), line: 12, file: "main.rs".to_string() });
    d.stack_frames.push(StackFrame { id: 2, name: "run".to_string(), line: 3, file: "lib.rs".to_string() });
    d.active_frame_id = Some(2);
    d.variables.push(("x".to_string(), "42".to_string()));
    assert_eq!(
        d.render_text(),
        "  RUN AND DEBUG\n\n  BREAKPOINTS\n    ● main.rs:12\n    ○ lib.rs:7\n\n  CALL STACK\n     main\n   → run\n\n  VARIABLES\n    x: 42\n"
    );
}

#[test]
fn editor_layout_split_focus_close() {
    let mut l = EditorLayout::new();
    assert_eq!(l.groups.len(), 1);
    assert_eq!(l.active_group_id, 0);
    assert_eq!(l.split(SplitDir::Vertical), Some(0));
    assert_eq!(l.active_group_id, 1);
    assert_eq!(l.split(SplitDir::Horizontal), Some(1));
    assert_eq!(l.groups.iter().map(|g| g.id).collect::<Vec<_>>(), vec![0, 1, 2]);
    assert_eq!(l.active_group_id, 2);
    l.focus_group(7);
    assert_eq!(l.active_group_id, 2);
    l.focus_group(1);
    assert_eq!(l.active_group_ref().map(|g| g.id), Some(1));
    l.close_group(1);
    assert_eq!(l.groups.iter().map(|g| g.id).collect::<Vec<_>>(), vec![0, 2]);
    assert_eq!(l.active_group_id, 0);
    l.close_group(0);
    l.close_group(2);
    assert_eq!(l.groups.iter().map(|g| g.id).collect::<Vec<_>>(), vec![2]);
    assert_eq!(l.split_direction, SplitDir::Vertical);
}

#[test]
fn drag_drop_start_and_release() {
    let mut dd = DragDrop::new();
    assert!(!dd.is_dragging());
    dd.start_drag(DragPayload::TabDrag { group_id: 1, tab_idx: 2 });
    assert!(dd.is_dragging());
    match dd.handle_mouse_up() {
        Some(DragPayload::TabDrag { group_id, tab_idx }) => assert_eq!((group_id, tab_idx), (1, 2)),
        _ => panic!("expected the dragged tab"),
    }
    assert!(!dd.is_dragging());
    assert!(dd.handle_mouse_up().is_none());
}

#[test]
fn markov_ranked_successors() {
    let mut chain = MarkovChain::new();
    chain.record_transition("A", "C");
    chain.record_transition("A", "B");
    chain.record_transition("A", "B");
    chain.record_transition("A", "B");
    chain.record_transition("A", "D");
    chain.record_transition("B", "A");
    let (total, next) = chain.ranked_successors("A", 3);
    assert_eq!(total, 5);
    assert_eq!(next, vec![("B".to_string(), 3), ("C".to_string(), 1), ("D".to_string(), 1)]);
    let (total, next) = chain.ranked_successors("A", 1);
    assert_eq!(total, 5);
    assert_eq!(next, vec![("B".to_string(), 3)]);
    let (total, next) = chain.ranked_successors("B", 3);
    assert_eq!((total, next), (1, vec![("A".to_string(), 1)]));
    let (total, next) = chain.ranked_successors("Z", 3);
    assert_eq!((total, next.len()), (0, 0));
}

#[test]
fn editor_cursor_moves_by_characters() {
    let text = "aé€😀b";
    // byte offsets: a=0, é=1..3, €=3..6, 😀=6..10, b=10..11
    assert_eq!(move_right_offset(text, 0), 1);
    assert_eq!(move_right_offset(text, 1), 3);
    assert_eq!(move_right_offset(text, 3), 6);
    assert_eq!(move_right_offset(text, 6), 10);
    assert_eq!(move_right_offset(text, 10), 11);
    assert_eq!(move_right_offset(text, 11), 11);
    assert_eq!(move_left_offset(text, 11), 10);
    assert_eq!(move_left_offset(text, 10), 6);
    assert_eq!(move_left_offset(text, 6), 3);
    assert_eq!(move_left_offset(text, 3), 1);
    assert_eq!(move_left_offset(text, 1), 0);
    assert_eq!(move_left_offset(text, 0), 0);
}

#[test]
fn editor_line_end() {
    let text = "one\r\ntwo\nthree\r";
    assert_eq!(line_end_offset(text, 0), 3);
    assert_eq!(line_end_offset(text, 5), 8);
    assert_eq!(line_end_offset(text, 9), 15);
    assert_eq!(line_end_offset(text, 15), 15);
    assert_eq!(line_end_offset("\nx", 0), 0);
}

#[test]
fn editor_scroll_and_titles() {
    assert_eq!(ensure_cursor_visible(3, 10, 20), 3);
    assert_eq!(ensure_cursor_visible(15, 10, 20), 10);
    assert_eq!(ensure_cursor_visible(29, 10, 20), 10);
    assert_eq!(ensure_cursor_visible(30, 10, 20), 11);
    assert_eq!(ensure_cursor_visible(50, 10, 20), 31);
    assert_eq!(untitled_title(), "Forge — [untitled]");
    assert_eq!(title_for_path("/home/u/src/main.rs"), "Forge — main.rs");
    assert_eq!(title_for_path(".."), "Forge — ..");
    assert_eq!(window_title("Forge — a.rs", true), "● Forge — a.rs");
    assert_eq!(window_title("Forge — a.rs", false), "Forge — a.rs");
}

fn var(name: &str, value: &str, expanded: bool, children: Vec<Variable>) -> Variable {
    Variable { name: name.to_string(), value: value.to_string(), children, expanded }
}

#[test]
fn debug_views_render_variables_and_stack() {
    let point = var("p", "Point", true, vec![var("x", "1", false, vec![]), var("y", "2", false, vec![])]);
    let closed = var("v", "Vec", false, vec![var("0", "9", false, vec![])]);
    let session = DebugSession {
        scopes: vec![
            Scope { name: "Locals".to_string(), expanded: true, variables: vec![point, closed] },
            Scope { name: "Globals".to_string(), expanded: false, variables: vec![var("g", "0", false, vec![])] },
        ],
        stack_frames: vec![
            StackFrame { id: 1, name: "main".to_string(), line: 4, file: "main.rs".to_string() },
            StackFrame { id: 2, name: "run".to_string(), line: 17, file: "lib.rs".to_string() },
        ],
    };
    assert_eq!(
        VariablesTree::render_text(&session),
        "VARIABLES\n> Locals\n  v p: Point\n      x: 1\n      y: 2\n  > v: Vec\n> Globals\n"
    );
    assert_eq!(CallStackList::render_text(&session), "CALL STACK\n  main (main.rs:4)\n  run (lib.rs:17)\n");
    let empty = DebugSession { scopes: vec![], stack_frames: vec![] };
    assert_eq!(VariablesTree::render_text(&empty), "VARIABLES\n");
    assert_eq!(CallStackList::render_text(&empty), "CALL STACK\n");
}

#[test]
fn render_batch_push_extend_clear() {
    let mut b: RenderBatch<(i32, i32)> = RenderBatch::new();
    assert!(b.rects.is_empty());
    b.push((1, 2));
    b.extend(&[(3, 4), (5, 6)]);
    assert_eq!(b.rects, vec![(1, 2), (3, 4), (5, 6)]);
    b.extend(&[]);
    assert_eq!(b.rects.len(), 3);
    b.clear();
    assert!(b.rects.is_empty());
}

#[test]
fn activity_bar_clicks() {
    let mut bar = ActivityBar::new();
    assert_eq!(bar.click(ActivityItem::Explorer), ActivityItem::Explorer);
    assert_eq!(bar.active_item, None);
    bar.click(ActivityItem::Search);
    assert_eq!(bar.active_item, Some(ActivityItem::Search));
    bar.click(ActivityItem::Settings);
    assert_eq!(bar.active_item, Some(ActivityItem::Settings));
    bar.click(ActivityItem::Settings);
    assert_eq!(bar.active_item, Some(ActivityItem::Settings));
}

#[test]
fn gutter_click_rows() {
    let mut g = Gutter::new();
    g.total_lines = 10;
    g.scroll_top = 5;
    assert_eq!(g.click_row(2), Some(7));
    assert_eq!(g.breakpoints, vec![7]);
    assert_eq!(g.click_row(5), None);
    assert_eq!(g.click_row(2), Some(7));
    assert!(g.breakpoints.is_empty());
}

#[test]
fn markdown_preview_of_joined_texts() {
    let a = "# Title\n```rust\nlet x = 1;\n```\r";
    let b = "- item\n**bold**";
    let mut joined = parse_markdown(a);
    joined.extend(parse_markdown(b));
    assert_eq!(parse_markdown(&format!("{}\n{}", a, b)), joined);
    let a2 = "para\n";
    let mut joined2 = parse_markdown(a2);
    joined2.extend(parse_markdown(b));
    assert_eq!(parse_markdown(&format!("{}\n{}", a2, b)), joined2);
    assert_eq!(parse_markdown(&format!("{}\n{}", "", b)), parse_markdown(b));
}

#[test]
fn indent_guides_blank_text_with_zero_tab() {
    assert!(IndentGuides::compute("", 0, 0).is_empty());
    assert!(IndentGuides::compute("  \n\t\n", 0, 1).is_empty());
}

#[test]
fn ghost_tabs_reopening_the_current_file_records_nothing() {
    let mut chain = MarkovChain::new();
    chain.record_transition("a", "a");
    assert!(chain.is_empty());
    let mut engine = GhostTabsEngine::new();
    engine.on_file_open("a");
    engine.on_file_open("a");
    engine.on_file_open("a");
    assert!(engine.transitions().is_empty());
    assert_eq!(engine.current_file().map(|s| s.as_str()), Some("a"));
}

#[test]
fn inline_completion_visible_iff_held() {
    let mut p = InlineCompletionProvider::new();
    assert_eq!(p.is_visible(), p.completion.is_some());
    p.suggest("fn main() {}", 0, 3);
    assert!(p.is_visible() && p.completion.is_some());
    p.suggest("", 0, 3);
    assert!(!p.is_visible() && p.completion.is_none());
    p.suggest("x", 1, 1);
    assert_eq!(p.accept(), Some("println!(\"Hello World\");".to_string()));
    assert!(!p.is_visible() && p.completion.is_none());
    p.suggest("x", 1, 1);
    p.dismiss();
    assert!(!p.is_visible() && p.completion.is_none());
}

#[test]
fn markov_from_counts() {
    let counts = vec![
        ("a".to_string(), "b".to_string(), 3),
        ("a".to_string(), "a".to_string(), 7),
        ("a".to_string(), "c".to_string(), 1),
        ("b".to_string(), "a".to_string(), 2),
        ("a".to_string(), "b".to_string(), 1),
    ];
    let chain = MarkovChain::from_counts(&counts).expect("fits");
    let (total, next) = chain.ranked_successors("a", 5);
    assert_eq!(total, 5);
    assert_eq!(next, vec![("b".to_string(), 4), ("c".to_string(), 1)]);
    assert_eq!(chain.successors("b").0, 2);
    assert!(MarkovChain::from_counts(&vec![]).expect("empty").is_empty());
}

#[test]
fn indent_guides_wide_tabs() {
    let text = "a\n\tb\n\t\tc\nd";
    let g = IndentGuides::compute(text, 1_000_000_000, 2);
    assert_eq!(g.len(), 2);
    assert_eq!((g[0].col, g[0].start_line, g[0].end_line, g[0].active), (0, 1, 3, false));
    assert_eq!((g[1].col, g[1].start_line, g[1].end_line, g[1].active), (1_000_000_000, 2, 3, true));
}

#[test]
fn titles_follow_path_file_names() {
    assert_eq!(title_for_path("a/b/."), "Forge — b");
    assert_eq!(title_for_path("a/.."), "Forge — a/..");
    assert_eq!(title_for_path("/"), "Forge — /");
    assert_eq!(title_for_path("dir//"), "Forge — dir");
    assert_eq!(title_for_path("./x.rs"), "Forge — x.rs");
    assert_eq!(title_for_path(""), "Forge — ");
}
