//! Verified core of a regex-driven mass renamer: the rename plan and its
//! safety checks, command-line parsing, the command history store and the
//! key-driven state machine behind the terminal interface.
pub mod cli;
pub mod cursor;
pub mod field;
pub mod history;
pub mod listing;
pub mod pattern;
pub mod safety;
mod text;
pub mod ui;

pub use cli::{parse_cli_args, CliArgs};
pub use cursor::{cursor_cell, cursor_column, next_char_boundary, prev_char_boundary};
pub use field::TextField;
pub use history::{
    escape_history_field, format_history, parse_history, record_history, unescape_history_field,
    HISTORY_CAPACITY,
};
pub use listing::{entry_label, preview_new_name, sort_listing};
pub use pattern::{InvalidPattern, Matcher};
pub use safety::{
    after_rename_attempt, calculate_rename_counts, check_preflight_safety, rename_plan,
    start_renames, RenameProgress, SafetyViolation,
};
pub use ui::{Action, AppState, ConfirmChoice, FocusedField, Key, KeyPress, Modal, Settings};
