//! A little computer of one accumulator and a hundred memory cells, with the
//! assembler that turns a program for it into machine words.
//!
//! Every cell and register holds a [`value::Value`], an integer from -999 to
//! 999; sums and differences wrap round that domain. [`Computer`] carries out
//! machine words one clock cycle at a time, [`assembler::assemble`] makes them
//! from a program text, and [`machine::Machine`] says in mathematical terms
//! what a clock cycle does.

pub mod assembler;
pub mod cli;
pub mod computer;
pub mod machine;
pub mod output;
pub mod text;
pub mod value;

pub use cli::Args;
pub use cli::Command;
pub use cli::ExecuteArgs;
pub use computer::run;
pub use computer::Computer;
pub use computer::ComputerConfig;
pub use machine::RuntimeFault;
pub use output::Output;
pub use output::OutputConfig;
