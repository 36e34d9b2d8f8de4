//! `mtbctl`: control of a Qualcomm modem's NV items through `mtb`, with
//! every rule that decides what is read, written, refused or rolled back
//! stated and proved.
pub mod text;
pub mod util;
pub mod bandlock;
pub mod json;
pub mod importer;
pub mod rpc;
pub mod backup;
pub mod features;
pub mod feature_payloads;
pub mod nv;
pub mod cells;
pub mod config;
pub mod cli;
pub mod txn;
