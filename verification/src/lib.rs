//! Keep every pinned dependency in a repository in step with upstream: the
//! verified core of the updater (version keys, pin rewriting, per-ecosystem
//! decisions, report text).

pub mod text;
pub mod cli;
pub mod scan;
pub mod context;
pub mod registry;
pub mod version;
pub mod report;
pub mod session;
pub mod updaters;
