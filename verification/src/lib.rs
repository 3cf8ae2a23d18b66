//! Context-aware notes: the verified core of the `nt` terminal notes tool.
pub mod text;
pub mod model;
pub mod scope;
pub mod search;
pub mod app;
pub mod event;
pub mod display;
pub mod storage;
