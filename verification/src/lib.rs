pub mod text;
pub mod conflict;
pub mod conflict_rows;
pub mod conflict_text;
pub mod date_time;
pub mod diff_nav;
pub mod diff_patch;
pub mod diff_view;
pub mod patch_rows;
pub mod conflict_laws;
pub mod history_graph;
pub mod slash_tree;
pub mod branch_sidebar;
pub mod menu;
pub mod conflict_passes;
pub mod token_lcs;
pub mod word_diff;
pub mod row_nav;
pub mod text_selection;
pub mod diff_text;
pub mod layout_cache;
pub mod toasts;
pub mod patch_highlights;
pub mod history_cache;
pub mod diff_target;
pub mod file_diff_cache;
pub mod worktree_preview;
pub mod history_summary;
pub mod snapshot;
pub mod commit_details;
pub mod diff_cache;
pub mod image_diff_cache;
pub mod context_menu;
pub mod desktop_entry;
pub mod view_labels;
pub mod tooltip;
