pub mod instr;
pub mod machine;
pub mod translate;

pub use instr::Instr;
pub use instr::RuntimeError;
pub use instr::SyntaxError;
pub use machine::Machine;
pub use translate::Program;
