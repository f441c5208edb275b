//! Incremental static-site build core: classifies filesystem paths into
//! typed entities (article groups, article files, asset files, asset-root
//! directories), keeps identifier semantics consistent between full and
//! partial builds, and decides the work a change batch requires.

pub mod tasks;
pub mod watch;
pub mod content;
pub mod model;
pub mod report;
pub mod structure;
pub mod text;
