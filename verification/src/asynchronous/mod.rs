//! Processes, threads and tasks: memory regions, thread stacks, the thread
//! table and task ids.
pub mod process;
pub mod task;
pub mod thread;
pub mod threads_array;
