//! Verified core of a tool that frees a network port: it decides which
//! processes and containers own the port and in which order they are
//! terminated. Observing and signalling the operating system is left to
//! the caller; everything here works on plain snapshots of that state.
//!
//! The resolvers, one for each way a system tells who owns a port:
//! - [`linux`] correlates the inodes of the kernel's socket tables with the
//!   descriptor tables of the processes;
//! - [`macos`] looks through the sockets the system lists for each process;
//! - [`windows`] walks the extended tables that name the owner of each
//!   port, and looks names and parents up in a process snapshot;
//! - [`docker`] matches the containers that publish the port.
//!
//! How far termination reaches beyond a matched process is chosen for each
//! of them. On the unix-like systems a child that inherited the socket shows
//! in its own descriptor table, so every holder is a candidate itself and
//! nothing is added. The plan of [`port::kill_port`] terminates a holder
//! together with all its descendants, which [`process`] collects. On
//! Windows a candidate takes its direct parent with it, and no further
//! ancestor.
//!
//! [`killport`] holds the engine: it gathers the candidates of one port as
//! the mode admits them and says, step by step, what its caller is to do.

pub mod cli;
pub mod docker;
pub mod error;
pub mod killport;
pub mod linux;
pub mod macos;
pub mod port;
pub mod process;
pub mod signal;
pub mod unix;
pub mod windows;
