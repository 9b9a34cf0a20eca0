//! Code execution and result streaming for an orchestrating agent.
//!
//! An agent hands over a snippet in some language and gets back what the
//! snippet printed. The library holds everything of that which is decided
//! and computed; spawning processes, talking to a kernel and painting on the
//! terminal are left to the caller, who passes plain values in and out.
//!
//! - [`text`]: the algorithms on characters that the rest is built on.
//! - [`protocol`]: progress markers and the end-of-execution sentinel, and
//!   how they are found again in raw output; [`emitted`] proves what a
//!   marked snippet consists of.
//! - [`code_interpreters`]: one adapter per language, behind one interface.
//! - [`execution`] and [`interpreter`]: requests, command lines, results,
//!   and the plan that picks a backend by language.
//! - [`kernel`] and [`session`]: the events of a stateful kernel and the
//!   state machine that collects them until a submission is complete.
//! - [`render`]: from an image payload to what is painted.
//! - [`rag`] and [`utils`]: paragraphs of the prompt.

pub mod code_interpreters;
pub mod emitted;
pub mod execution;
pub mod interpreter;
pub mod kernel;
pub mod protocol;
pub mod rag;
pub mod render;
pub mod session;
pub mod text;
pub mod utils;
