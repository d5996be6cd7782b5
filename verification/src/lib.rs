//! A task list kept as lines of text, `- [ ] entry` or `- [x] entry`.
//!
//! [`task`] holds a single task and the format of its line, [`text`] the
//! lines of a text and numbers in decimal, and [`storage`] the operations on
//! a whole file of tasks. The library reads and writes no file: an
//! operation takes the text that the file holds and answers with the write
//! that brings the file up to date. The one thing it asks of the machine is
//! the user's data directory, for the place of the default file.

pub mod storage;
pub mod task;
pub mod text;
