//! A configuration-driven XML splitter: it streams through one XML document, filters and
//! rewrites the elements found at a configured path, and sorts them into named groups.
//!
//! The heart of the library is the rewriter. [`rewriter`] says, as a function from state
//! and event to state, what it does with each event; [`transform`] holds the rewriter that
//! runs, proved to do exactly that; and [`laws`] holds what is proved of every run.
//!
//! Four crates do the work that is not proved here, each behind a few functions whose
//! contracts are taken on trust: `quick_xml` reads the events of a document and resolves
//! and writes entities, `regex` matches the patterns of the filter, `evalexpr` evaluates the
//! expressions of the rules, and `chrono` reads dates.
pub mod config;
pub mod consistency;
pub mod escape;
pub mod event;
pub mod expression;
pub mod filter;
pub mod guard;
pub mod history;
pub mod laws;
pub mod messages;
pub mod number;
pub mod original;
pub mod path;
pub mod reader;
pub mod rewriter;
pub mod serializer;
pub mod sets;
pub mod split;
pub mod table;
pub mod text;
pub mod transform;
pub mod transformer;
pub mod upload;
pub mod wrap;

pub use crate::config::{Config, Dirs, Email, EmailMessage, Mailer, Settings, Timeformat};
pub use crate::consistency::check_consistency;
pub use crate::event::{EventKind, XmlEvent};
pub use crate::expression::Warning;
pub use crate::filter::{Allowlist, Blocklist, Filter};
pub use crate::history::{day_of, update_sliding_window};
pub use crate::messages::{compile_warnings, format_warning, get_msg};
pub use crate::original::{select_original, OriginalError};
pub use crate::path::{superordinate, PathTracker};
pub use crate::reader::read_events;
pub use crate::serializer::{serialize, serialize_text, write_event};
pub use crate::sets::{get_difference, get_intersection};
pub use crate::split::Split;
pub use crate::text::{join_strings, split_text};
pub use crate::transform::{
    check_rules, compile_rules, rewrite_events, transform, ConfigError, Ending, Outcome,
    Rewriter,
};
pub use crate::transformer::{Side, Source, Transformation, Transformer};
pub use crate::upload::{due_uploads, prefix_of, Upload};
pub use crate::wrap::embed;
