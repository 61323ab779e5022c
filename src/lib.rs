pub mod cell;
pub mod cli;
pub mod observers;
pub mod record;
pub mod tracer;
