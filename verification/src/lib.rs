//! Extraction of documentation comments from Nix source files and their
//! rendering as CommonMark, together with a renderer for module option
//! metadata.

pub mod comment;
pub mod commonmark;
pub mod format;
pub mod legacy;
pub mod lines;
pub mod map;
pub mod options;
pub mod order;
pub mod parse;
pub mod resolve;
pub mod syntax;
pub mod text;

pub use comment::retrieve_doc_comment;
pub use commonmark::{render_manual, Argument, JsonFormat, ManualEntry, SingleArg};
pub use format::{handle_indentation, shift_headings};
pub use legacy::{parse_doc_comment, DocComment, LegacyDocItem, Locations};
pub use parse::parse_module;
pub use resolve::{collect_entries, extract_file_doc, retrieve_description};
pub use syntax::SyntaxTree;
