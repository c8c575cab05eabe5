//! Decoding of binary event streams from data-acquisition digitizers into
//! channel-resolved hit records.

pub mod bitmasks;
pub mod error;
pub mod mdpp16_scp;
pub mod mdpp_bank;
pub mod mdpp_lemmas;
pub mod sis3820;
pub mod v1730_bank;
pub mod v785_bank;
pub mod module_config;
pub mod sort;
pub mod midas_structs;
pub mod diagnostics;
