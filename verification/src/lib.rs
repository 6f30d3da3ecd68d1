//! Audits source texts for downloads that are not pinned to an immutable
//! revision.
//!
//! A risky call is a call that fetches a model, a tokenizer, a dataset or a
//! file by name. Each such call in a text falls into one of three tiers: safe
//! if it names a revision that is an immutable identifier, or takes a local
//! path as its first argument, or a stored credential; partially safe if it
//! names any other revision; unsafe if it names none. The counts of the files add up to
//! totals, and the worst tier among the files of a project is the tier of
//! the project.
//!
//! - [`identifier`]: what an immutable identifier is.
//! - [`classify`]: the tier of one call.
//! - [`scan`]: the calls of a text and their counts by tier.
//! - [`project`]: the project of a file, read off its path.
//! - [`summary`]: what a scan adds up to, and the laws of adding up.
//! - [`aggregate`]: the summary kept while the files come in.
//! - [`csv`] and [`report`]: the tables and the lines that a scan reports.
//! - [`walk`]: which entries of a directory tree a scan looks at.
//! - [`status`] and [`text`]: tiers, and searches in texts.

pub mod aggregate;
pub mod classify;
pub mod csv;
pub mod identifier;
pub mod project;
pub mod report;
pub mod scan;
pub mod status;
pub mod summary;
pub mod text;
pub mod walk;
