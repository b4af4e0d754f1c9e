//! Verified core of a desktop launcher for `llama-server`: recipe validation,
//! command construction, GPU report parsing, model scanning decisions and the
//! server process state machine.

pub mod text;
pub mod shell;
pub mod validate;
pub mod gpu;
pub mod server_info;
pub mod db;
pub mod process;
pub mod paths;
pub mod models;
pub mod order;
pub mod units;
