//! Structured, queryable access to a religious text corpus organised as
//! Book, Chapter and Verse, across a closed set of textual editions.
//!
//! The crate covers the whole pipeline: a markup importer that turns one
//! source document into the in-memory tree, a binary codec that writes the
//! tree to a compact snapshot and reads it back, a query engine for exact
//! reference lookups and substring search, and a loader that rebuilds the
//! tree from an embedded snapshot at process start.

pub mod codec;
pub mod importer;
pub mod loader;
pub mod model;
pub mod queries;
pub mod registry;

pub use codec::DecodeError;
pub use importer::MalformedSource;
pub use loader::LoadError;
pub use model::Bible;
pub use model::BibleView;
pub use model::Book;
pub use model::BookView;
pub use model::Chapter;
pub use model::ChapterReference;
pub use model::ChapterView;
pub use model::Edition;
pub use model::SearchResults;
pub use model::Verse;
pub use model::VerseReference;
pub use model::VerseView;
pub use registry::BookName;
