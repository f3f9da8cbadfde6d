//! Front matter extraction: splits a text document into a fenced metadata
//! block, an optional excerpt, and the remaining body content.
//!
//! A document may open with a fence line (by default `---`). Everything up to
//! the next fence line is the metadata block; a pluggable [`Engine`] decodes
//! it into a structured value. Text between the metadata block (or the start
//! of input) and an excerpt fence line becomes the excerpt. The rest, trimmed,
//! is the content.

mod engine;
mod entity;
mod laws;
mod lines;
mod matter;
mod scan;
mod strip;
mod text;

pub use engine::Engine;
pub use engine::FromValue;
pub use entity::ParsedEntity;
pub use entity::ParsedEntityStruct;
pub use entity::opt_view;
pub use laws::lemma_content_reparse;
pub use laws::lemma_empty_matter;
pub use laws::lemma_excerpt_config_independent;
pub use laws::lemma_fence_line_exact;
pub use laws::lemma_parse_fenced;
pub use laws::lemma_round_trip;
pub use laws::lemma_scan_lines_app;
pub use laws::lemma_scan_matter_no_close;
pub use laws::lemma_scan_maybe_no_close;
pub use laws::lemma_scan_past_matter;
pub use laws::lemma_short_input;
pub use lines::join_lines;
pub use lines::no_crlf;
pub use lines::spec_lines;
pub use lines::strip_cr;
pub use matter::Matter;
pub use matter::efence_of;
pub use scan::Part;
pub use scan::ScanState;
pub use scan::SpecParsed;
pub use scan::close_excerpt;
pub use scan::close_matter;
pub use scan::initial_state;
pub use scan::opens_with_fence;
pub use scan::scan_input_lines;
pub use scan::scan_lines;
pub use scan::scan_step;
pub use scan::spec_parse;
pub use strip::blank_line;
pub use strip::comment_line;
pub use strip::guards_hash;
pub use strip::hash_guarded;
pub use strip::line_at;
pub use strip::line_start;
pub use strip::strip_comments;
pub use text::is_ws_char;
pub use text::spec_trim;
pub use text::spec_trim_end;
pub use text::spec_trim_newlines;
