//! Query planning.

pub mod logical_plan_v2;

pub use logical_plan_v2::LogicalPlanV2;
