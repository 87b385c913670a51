//! What a machine is run with: its advice tape and the configuration of
//! its proof system.

pub mod advice;
pub mod config;
