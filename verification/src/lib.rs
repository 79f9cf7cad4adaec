pub mod guard;
pub mod text;
pub mod bracket_match;
pub mod code_folding;
pub mod indent_guides;
pub mod markdown_preview;
pub mod emmet;
pub mod comment_toggle;
pub mod command_palette;
pub mod go_to_line;
pub mod breadcrumb_dropdown;
pub mod breadcrumb;
pub mod file_tree_ui;
pub mod file_explorer;
pub mod gutter;
pub mod find_bar;
pub mod modes;
pub mod activity_bar;
pub mod extensions_panel;
pub mod extensions;
pub mod image_preview;
pub mod chat;
pub mod chat_panel;
pub mod inline_completion;
pub mod config;
pub mod provider;
pub mod agent;
pub mod markov;
pub mod ghost_tabs;
pub mod workspace_snapshot;
pub mod diff_view;
pub mod git_panel;
pub mod git_gutter;
pub mod git_blame;
pub mod git_branch;
pub mod autocomplete;
pub mod file_picker;
pub mod bottom_panel;
pub mod dock;
pub mod editor_groups;
pub mod drag_drop;
pub mod editor;
pub mod render_batch;
pub mod accessibility;
pub mod hover_info;
pub mod go_to_def;
pub mod debug_ui;
pub mod debug_views;
pub mod context_menu;
pub mod formatter;
