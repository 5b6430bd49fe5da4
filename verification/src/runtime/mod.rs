pub mod execution_plan;
pub mod planner_result;
