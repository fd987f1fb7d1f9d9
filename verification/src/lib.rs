//! Run a command behind an input lock, so a stray key cannot interrupt it.

pub mod cli;
pub mod cli_laws;
pub mod control;
pub mod control_laws;
pub mod fault;
pub mod gate;
pub mod gate_laws;
pub mod order;
pub mod relay;
pub mod relay_laws;
pub mod report;
pub mod text;
pub mod text_laws;
pub mod title;
pub mod title_laws;
