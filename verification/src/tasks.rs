pub mod new_task;
pub mod task;
