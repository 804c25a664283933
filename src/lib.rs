//! Archive index reports for threaded discussion pages: mask expansion,
//! thread extraction and template rendering, with their contracts.
pub mod error;
pub mod text;
pub mod calendar;
pub mod thread;
pub mod mask;
pub mod parser;
pub mod template;
pub mod report;
