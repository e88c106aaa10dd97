//! Catalogues media files: classifies them by extension, resolves a creation
//! time from embedded metadata or the file system, derives destination names,
//! and walks a directory tree with cooperative cancellation.
pub mod text;
pub mod media;
pub mod path;
pub mod timestamp;
pub mod walk;
pub mod import;
