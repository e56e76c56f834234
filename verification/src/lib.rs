//! Client-side session establishment and pipe-multiplexing core for a
//! circumvention tunnel: endpoint parsing, bridge selection, dial planning,
//! session assembly and the pipe-healing state machine.

pub mod chars;
pub mod num;
pub mod addr;
pub mod endpoint;
pub mod bridge;
pub mod dial;
pub mod rng;
pub mod session;
