//! Build-time helper that turns an XML resource-bundle manifest into a
//! linkable native object.
//!
//! The crate has three verified parts: a configuration builder that
//! validates the source directory and manifest path, a manifest scanner that
//! extracts the `file` entries from the XML manifest, and a compilation
//! planner that derives artifact names, dependency-registration lines, the
//! argument lists for the two external tools, and the scoped override of the
//! ambient compiler-flags variable.  The unverified shell that reads files,
//! spawns the tools and touches the process environment lives outside this
//! library and only hands plain values in and out.

pub mod config;
pub mod orchestrate;
pub mod scanner;
