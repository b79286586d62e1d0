//! Markup that stands for control flow.

pub mod conditions;
pub mod loops;
