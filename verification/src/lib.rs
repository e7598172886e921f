//! parfit — paragraph fit.
//!
//! Reflow prose in code comments to a target width using optimal-fit
//! line breaking. Lines that look like directives (`//go:generate`,
//! `// eslint-disable`, `#!/usr/bin/env bash`, `#[derive(…)]`, …)
//! pass through unchanged. Words that look like URLs never split.
//!
//! Two entry points:
//!
//! - [`reflow`]: treat the whole input as prose and wrap each
//!   paragraph.
//! - [`reflow_source`]: given a source file and a [`Language`],
//!   reflow only the comment blocks and leave the code untouched.

pub mod cli;
pub mod directives;
pub mod filter;
pub mod lang;
pub mod laws;
pub mod options;
pub mod prefix;
pub mod reflow;
pub mod source;
pub mod text;

pub use lang::Language;
pub use options::Options;
pub use reflow::reflow;
pub use source::reflow_source;
