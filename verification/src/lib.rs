use vstd::prelude::*;

pub mod text;
pub mod time;
pub mod manifest;
pub mod compare;
pub mod firewall;
pub mod capture;
pub mod vm;
pub mod guest;
pub mod qemu;
pub mod container;
pub mod testargs;
pub mod serve;
pub mod balancer;
pub mod matrix;
pub mod sim;
pub mod dns;
pub mod cli;
pub mod cache;
pub mod upload;
pub mod lifecycle;

verus! {
} // verus!
