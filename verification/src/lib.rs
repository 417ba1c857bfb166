pub mod adapter;
pub mod agent;
pub mod assemble;
pub mod command;
pub mod common;
pub mod config;
pub mod detect;
pub mod diag;
pub mod env;
pub mod events;
pub mod hash;
pub mod hashing;
pub mod json;
pub mod kernel;
pub mod membership;
pub mod mock_pipeline;
pub mod observe;
pub mod order;
pub mod reconcile;
pub mod resolve;
pub mod runrecord;
pub mod scope;
pub mod strmap;
pub mod submit;
pub mod text;
pub mod time;
pub mod xtask;
