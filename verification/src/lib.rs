use vstd::prelude::*;

pub mod captcha;
pub mod config;
pub mod crypto;
pub mod dept;
pub mod dict;
pub mod error;
pub mod export;
pub mod grants;
pub mod idset;
pub mod job;
pub mod logs;
pub mod menu;
pub mod message;
pub mod notice;
pub mod online_user;
pub mod permission;
pub mod post;
pub mod product;
pub mod product_change;
pub mod profile;
pub mod retention;
pub mod role;
pub mod service_account;
pub mod service_views;
pub mod strset;
pub mod text;
pub mod transfer;
pub mod upload;

verus! {

} // verus!
