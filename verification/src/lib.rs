//! Verified decision cores of three small systems programs: a ptrace debugger, an HTTP load
//! balancer and a parallel map.

pub mod balancebeam;
pub mod deet;
pub mod parallel_map;
pub mod text;
