//! Finds every file with a given exact name in a directory tree and drives the
//! interactive selection of which of the duplicates to delete.
//!
//! The library holds the verified logic: the depth-first traversal of an
//! in-memory snapshot of the tree, the trimming and parsing of console
//! answers, and the state machine of the deletion loop. Reading the real
//! filesystem, the console prompts, and the actual file removals are left to
//! the surrounding program, which hands the library plain values.

mod record;
mod scan;
mod session;
mod text;

pub use record::File;
pub use record::FileView;
pub use scan::Entry;
pub use scan::IoError;
pub use scan::MAX_CREATION_SECS;
pub use scan::utc_text_of;
pub use scan::join_path;
pub use scan::record_view;
pub use scan::file_matches;
pub use scan::sub_matches;
pub use scan::dir_matches;
pub use scan::all_readable;
pub use scan::secs_ok;
pub use scan::file_views;
pub use scan::get_dir_files;
pub use scan::tree_has_record;
pub use scan::lemma_scan_finds_exactly_matches;
pub use scan::lemma_scan_empty_when_no_match;
pub use scan::lemma_scan_empty_listing;
pub use text::is_space;
pub use text::trim_spec;
pub use text::trim_str;
pub use text::is_digit;
pub use text::digit_val;
pub use text::all_digits;
pub use text::number_body;
pub use text::is_numeric;
pub use text::digits_val;
pub use text::parse_index;
pub use session::Action;
pub use session::is_done_token;
pub use session::is_number_answer;
pub use session::answer_number;
pub use session::swap_removed;
pub use session::wants_keep_all;
pub use session::deletion_step;
