//! Session bookkeeping for a terminal multiplexer: tab identifiers, the
//! registry of live pseudo-terminal sessions and their reader loops, the
//! focused-tab tracker and the sidebar's command buttons.

mod buttons;
mod error;
mod ids;
mod reader;
mod session;
mod spawn;
mod tabs;

pub use buttons::{
    first_with_id, has_id, is_button_id, is_lower_hex, without_id, AppState, ButtonManager, CommandButton, SidebarConfig,
    TerminalConfig,
};
pub use error::AppError;
pub use ids::{
    decimal, digit_char, distinct_texts, is_tab_name, lemma_decimal_injective,
    lemma_issued_ids_distinct, lemma_issued_in_order, lemma_sorted_distinct, lemma_tab_number,
    sorted_tab_ids, tab_name, tab_number,
};
pub use reader::{
    lemma_closed_notice_once, lossy_text, notice_count, total, ReadOutcome, ReaderEvent, SessionReader,
    TabClosed, TabData,
};
pub use session::{
    lemma_closed_stays_closed, lemma_removal_idempotent, lemma_unissued_not_live, removed_from,
    PtyError, SessionTable,
};
pub use spawn::{initial_geometry, resolve_home_dir, shell_command, PtyGeometry, ShellCommand};
pub use tabs::TabManager;
