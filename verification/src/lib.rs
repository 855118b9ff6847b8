//! Converges a MikroTik RouterOS device into a mesh's desired state.

pub mod addr;
pub mod allocation;
pub mod apply;
pub mod cidr;
pub mod cli;
pub mod config;
pub mod converge;
pub mod credentials;
pub mod desired_rows;
pub mod device;
pub mod diff;
pub mod documents;
pub mod error;
pub mod keys;
pub mod mikrotik;
pub mod number;
pub mod output;
pub mod patch;
pub mod plan;
pub mod quote;
pub mod read_rows;
pub mod report;
pub mod request;
pub mod right_plan;
pub mod row;
pub mod rows;
pub mod sanitize;
pub mod second_run;
pub mod settle;
pub mod sorted;
pub mod stages;
pub mod text;
pub mod told_rows;
pub mod whole_run;
pub mod written_rows;
