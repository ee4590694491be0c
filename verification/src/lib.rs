//! Management of AmneziaWG servers and their clients: address and port
//! allocation, name and DNS validation, and the listings that the command
//! line tool prints.
use vstd::prelude::*;

pub mod amnezia;
pub mod client;
pub mod commands;
pub mod errors;
pub mod export;
pub mod ip_text;
pub mod net;
pub mod new_server;
pub mod server;
pub mod store;
pub mod text;
pub mod util;
pub mod wg_types;

verus! {

} // verus!
