use vstd::prelude::*;

pub mod text;
pub mod json;
pub mod protocol;
pub mod config;
pub mod channels;
pub mod feishu;
pub mod gateway;
pub mod agent;

verus! {
} // verus!
