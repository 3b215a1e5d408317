//! Finds which process owns each listening TCP socket and terminates
//! processes safely.
//!
//! The engine parses the kernel's socket tables and the processes'
//! descriptor links, resolves socket inodes to process ids, merges them with
//! a process snapshot into a sorted port directory, ranks processes, and
//! decides each step of an escalating termination. Reading the machine and
//! sending signals is left to the caller, which hands the engine plain values.
use vstd::prelude::*;

pub mod digits;
pub mod scan;
pub mod socket_table;
pub mod owners;
pub mod processes;
pub mod ranking;
pub mod termination;
pub mod directory;
pub mod ports;
pub mod ss_listing;

pub use directory::{build_port_directory, PortInfo};
pub use owners::{inode_set, parse_pid, parse_socket_link, resolve_owners, ProcessFds};
pub use ports::{get_ports_list, kill_all_ports};
pub use processes::{get_processes_list, memory_tenths, tenths_string, top_processes, ProcessInfo, ProcessRecord};
pub use socket_table::{parse_row, scan_listening_sockets, Family, SocketEntry};
pub use ss_listing::{parse_ss_row, ss_listing};
pub use termination::{KillAction, KillEvent, Mechanism, Phase, Signal, Termination};

verus! {

} // verus!
