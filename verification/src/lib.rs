//! Marshalling of system calls from an isolated guest to an untrusted host
//! through one fixed shared buffer: requests are staged into the buffer,
//! committed to a fixed-width argument vector, and the host's answer is
//! collected back only after every length it reports has been validated.

pub mod arena;
pub mod argv;
pub mod error;
pub mod output;
pub mod recvfrom;
pub mod sockaddr;
pub mod syscall;
