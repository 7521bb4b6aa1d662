//! A configuration-driven directory auditor's core: rule sets built from
//! structured configuration, and a recursive scanner that judges every
//! entry of a directory-tree snapshot against them, reporting the entries
//! that satisfy no rule.

pub mod config;
pub mod rules;
pub mod scan;
