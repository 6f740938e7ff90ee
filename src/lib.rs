//! A terminal task list: tasks with deadlines and a three-step status, edited by
//! one-line commands and shown with absolute or remaining times.
pub mod clock;
pub mod command;
pub mod render;
pub mod storage;
pub mod task;
pub mod text;
