pub mod capability;
pub mod lifecycle;
pub mod manifest;
pub mod optimizer;
pub mod planner;
pub mod planning;
pub mod reorder;
pub mod registry;
pub mod runtime;
pub mod scheduler;
pub mod scoring;
pub mod context;
pub mod approval;
