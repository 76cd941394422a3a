//! pidx: a project index over GitHub repositories. The library holds what
//! the tool decides and computes — commit classification, time spans, the
//! records kept from GitHub, the documents exported for LLM analysis and the
//! analysis read back, the status and report views, and where its files
//! live — with contracts checked by Verus.
pub mod activity;
pub mod classify;
pub mod config;
pub mod dates;
pub mod docs;
pub mod github;
pub mod health;
pub mod ingest;
pub mod records;
pub mod report;
pub mod span;
pub mod text;
