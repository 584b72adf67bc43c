//! The search pipeline: queries composing a primary lookup with fallback
//! extensions, and tasks merging several queries under one budget.

pub mod extension;
pub mod query;
pub mod task;
