pub mod app;
pub mod event;
pub mod monitor;
pub mod orchestrator;
pub mod single_threaded_calculator;
pub mod task;
pub mod text;
pub mod timer;
pub mod worker;
pub mod summa;
