//! Scanning IPv4 subnets for reachable ports: the parsing of scan
//! requests, the per-subnet scan workers, the fan-in of their results and
//! the progress bookkeeping, with an unrelated in-order tree traversal.

pub mod app;
pub mod arg_helpers;
pub mod errors;
pub mod models;
pub mod port_range;
pub mod progress_helper;
pub mod scan_stream;
pub mod scan_worker;
pub mod subnet_helpers;
pub mod text;
pub mod traversal;
