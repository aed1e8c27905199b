//! Tenant configuration transfer: keys, catalogs, plans and the transfer lifecycle.
pub mod keys;
pub mod paths;
pub mod closure;
pub mod catalog;
pub mod select;
pub mod keyclosure;
pub mod portable;
pub mod lifecycle;
pub mod plan;
pub mod execute;
pub mod assemble;
pub mod apply;
pub mod upsert;
pub mod views;
pub mod simple;
