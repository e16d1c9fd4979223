//! Compilation-context settings and the bookkeeping that keeps a thread from
//! making a context current twice.

use vstd::prelude::*;

verus! {

/// The kind of a source file added to a compilation context.
#[derive(Debug, Clone, Copy, PartialEq, Eq, Structural)]
pub enum SourceFileType {
    /// Unspecified.
    Unspecified,
    /// A `.vala`/`.gs` source file to compile.
    Source,
    /// A `.vapi` package file providing declarations only.
    Package,
    /// A fast (declaration-only) vapi.
    Fast,
}

impl SourceFileType {
    /// The libvala `ValaSourceFileType` value.
    pub fn to_ffi(self) -> (r: u32)
        ensures
            r == match self {
                SourceFileType::Unspecified => 0u32,
                SourceFileType::Source => 1u32,
                SourceFileType::Package => 2u32,
                SourceFileType::Fast => 3u32,
            },
    {
        match self {
            SourceFileType::Unspecified => 0,
            SourceFileType::Source => 1,
            SourceFileType::Package => 2,
            SourceFileType::Fast => 3,
        }
    }
}

/// The target runtime profile, which determines the implicit standard packages
/// (and hence which base types like `int`/`string` resolve).
#[derive(Debug, Clone, Copy, PartialEq, Eq, Structural)]
pub enum Profile {
    /// The default GObject profile (`glib-2.0`, `gobject-2.0`).
    GObject,
    /// The minimal POSIX/libc profile.
    Posix,
}

impl Profile {
    /// The libvala `ValaProfile` value.
    pub fn to_ffi(self) -> (r: u32)
        ensures
            r == match self {
                Profile::Posix => 0u32,
                Profile::GObject => 1u32,
            },
    {
        match self {
            Profile::Posix => 0,
            Profile::GObject => 1,
        }
    }
}

/// Whether the current thread is inside a compilation that made a context
/// current. libvala keeps the current context on one process-global stack, so
/// a thread may make a context current only when it has not already done so.
pub struct CurrentState {
    held: bool,
}

/// The outcome of asking to make a context current.
#[derive(Debug, Clone, Copy, PartialEq, Eq, Structural)]
pub enum Enter {
    /// The context may be pushed; the thread now holds it.
    Proceed,
    /// The thread already holds a context: the request is refused (the caller
    /// panics rather than block on a lock it holds itself).
    Reentrant,
}

impl CurrentState {
    /// Whether the thread holds a current context.
    pub closed spec fn holds(&self) -> bool {
        self.held
    }

    /// The state of a thread that holds no context.
    pub fn new() -> (r: Self)
        ensures
            !r.holds(),
    {
        CurrentState { held: false }
    }

    /// Whether the thread holds a current context.
    pub fn is_current(&self) -> (r: bool)
        ensures
            r == self.holds(),
    {
        self.held
    }

    /// Asks to make a context current: granted only when none is held.
    pub fn enter(&mut self) -> (r: Enter)
        ensures
            old(self).holds() ==> r == Enter::Reentrant && final(self).holds() == old(
                self,
            ).holds(),
            !old(self).holds() ==> r == Enter::Proceed && final(self).holds(),
    {
        if self.held {
            Enter::Reentrant
        } else {
            self.held = true;
            Enter::Proceed
        }
    }

    /// Records that the context was popped, normally or while unwinding.
    pub fn leave(&mut self)
        ensures
            !final(self).holds(),
    {
        self.held = false;
    }
}

} // verus!
