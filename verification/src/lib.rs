//! The rules of a local registry of source-controlled projects, verified
//! with Verus.
//!
//! - `source`, `project`: the identifier model. A shorthand such as
//!   `gh:alice/repo1` is read into a `Project`; its canonical path key, its
//!   directory under a root and its remote address follow from it.
//! - `address`: remote addresses, which the `url` crate parses and resolves.
//! - `search`, `ranking`: looking projects up by a piece of the repository's
//!   name, by author, and by fuzzy match, best match first.
//! - `reconcile`: the state machine that holds the registry against the
//!   directories on disk and has what is missing cloned.
//! - `text`: the operations on text that the others share.
//!
//! Nothing here reads a file, asks a user or touches the network: whoever
//! uses the library does that, and hands in plain values.

pub mod address;
pub mod project;
pub mod ranking;
pub mod reconcile;
pub mod search;
pub mod source;
pub mod text;

pub use address::{ToUrl, UrlRejected};
pub use project::{set_name, CloneRequest, Project, ProjectView, ToPath};
pub use ranking::rank_matches;
pub use reconcile::{plan_for, Action, Event, Outcome, Plan, Reconciler};
pub use search::{find, fuzzy_search, select_author, Entry};
pub use source::{ParseError, Source};
