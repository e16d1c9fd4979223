//! Verified core of the libvala bindings: the `.vapi` reader and the emitter
//! of the wrapper class hierarchy, together with the plain value types of the
//! safe layer (token kinds, source positions, diagnostic counts, context
//! settings, list positions).

use vstd::prelude::*;

pub mod codegen;
pub mod collections;
pub mod context;
pub mod order;
pub mod report;
pub mod scanner;
pub mod source;
pub mod symbol;
pub mod text;
pub mod vapi;

pub use codegen::Model;
pub use collections::{checked_index, clamp_size, ListCursor};
pub use context::{CurrentState, Enter, Profile, SourceFileType};
pub use report::{Report, ReportLevel};
pub use scanner::{tokens_from_reads, Token, TokenType};
pub use source::SourceLocation;
pub use symbol::Accessibility;
pub use vapi::{parse, Class, ClassMap};

verus! {

/// The libvala API version this crate was built against (e.g. `"0.56"`).
pub const API_VERSION: &'static str = "0.56";

} // verus!
