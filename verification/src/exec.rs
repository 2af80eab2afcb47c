//! What applying a module does to the system, as far as it is decided rather
//! than performed: the operations, their descriptions and the edits they make.
pub mod block;
pub mod environment;
pub mod shell;
pub mod package;
pub mod dir;
pub mod file;
pub mod command;
