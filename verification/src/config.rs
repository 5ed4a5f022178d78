//! The configuration of one run, as plain values.
//!
//! Tables are lists of `(key, value)` pairs in the order in which they were written; where
//! a key stands twice, the first pair counts.
use vstd::prelude::*;
use crate::filter::Filter;
use crate::split::Split;
use crate::transformer::Transformation;
use crate::upload::Upload;

verus! {

/// The directories that a run reads from and writes to.
#[derive(Clone, Debug)]
pub struct Dirs {
    pub original: String,
    pub transformed: String,
    pub history: String,
}

/// The formats in which time stamps are written.
#[derive(Clone, Debug)]
pub struct Timeformat {
    pub history_folder: String,
    pub files: String,
}

/// The mail server.
#[derive(Clone, Debug)]
pub struct Mailer {
    pub smtp: String,
    pub port: u16,
    pub auth: bool,
}

/// The header fields of a notification.
#[derive(Clone, Debug)]
pub struct EmailMessage {
    pub from: String,
    pub reply_to: Vec<String>,
    pub to: Vec<String>,
    pub subject: String,
}

/// How notifications are sent.
#[derive(Clone, Debug)]
pub struct Email {
    pub mailer: Mailer,
    pub message: EmailMessage,
}

/// The settings that surround the transformation.
#[derive(Clone, Debug)]
pub struct Settings {
    pub lang: String,
    pub history_size: usize,
    pub consistency_check: bool,
    pub inconsistency_notification: bool,
    pub dirs: Dirs,
    pub timeformats: Timeformat,
    pub email: Email,
}

/// The whole configuration.
#[derive(Clone, Debug)]
pub struct Config {
    /// The slash-separated path of the element at which the document is split.
    pub element: String,
    pub filter: Filter,
    pub split: Split,
    pub transformations: Vec<Transformation>,
    pub uploads: Vec<Upload>,
    pub settings: Settings,
}

} // verus!
