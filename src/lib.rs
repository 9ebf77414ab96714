//! Decision logic of a small process launcher: decoding the trailer that is
//! appended to the launcher's executable, quoting paths and splitting the
//! launcher's own command line, building the command line of the child, and
//! the choices made around starting it.
pub mod cmdline;
pub mod kind;
pub mod launch;
pub mod trailer;
