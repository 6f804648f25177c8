//! Register an AppImage executable as a launchable desktop application.
//!
//! The library holds the decision logic of the tool: deriving the
//! application name from the source file name, parsing and merging an
//! existing desktop-entry descriptor, resolving the icon value, and
//! planning the filesystem steps (copy, permission bits, descriptor
//! write).  The surrounding program performs the actual filesystem
//! calls and feeds their results back in.

pub mod app_state;
pub mod appname;
pub mod descriptor;
pub mod laws;
pub mod sync;
