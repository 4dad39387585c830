//! Error taxonomy of the control plane.
//!
//! Every fallible operation of the crate reports one of these variants;
//! the contracts of the operations say exactly which variant comes on
//! which input.

use vstd::prelude::*;

verus! {

/// The engine subsystem whose mode reset was rejected.
#[derive(Clone, Copy, Debug, PartialEq, Eq, Structural)]
pub enum Subsystem {
    Video,
    Audio,
}

/// What a failed lookup was looking for.
#[derive(Clone, Copy, Debug, PartialEq, Eq, Structural)]
pub enum LookupKind {
    /// A named live pipeline node.
    Source,
    /// An array-valued key of a settings value.
    Array,
}

/// The engine object whose creation returned nothing.
#[derive(Clone, Copy, Debug, PartialEq, Eq, Structural)]
pub enum ObjectKind {
    Service,
    Output,
    AudioEncoder,
    VideoEncoder,
}

/// Every failure the control plane can report.
#[derive(Clone, Debug, PartialEq, Eq)]
pub enum Error {
    /// The engine returned a null object from a creation call.
    AllocationError { object: ObjectKind },
    /// A key or string value holds an embedded NUL and cannot cross the
    /// native boundary.
    EncodingError,
    /// A video or audio mode reset was rejected; `code` is the status the
    /// engine reported.
    ResetError { subsystem: Subsystem, code: i32 },
    /// The plugin module at position `module` of the fixed list failed to
    /// load; later modules were never attempted.
    ModuleLoadError { module: usize },
    /// A named source, or an array-valued key, was absent.
    LookupError { kind: LookupKind, name: String },
    /// Malformed configuration text.
    ParseError,
    /// The designated root scene was not resolvable after the scene load.
    SceneNotFoundError,
    /// The engine rejected the start of the output.
    OutputStartError,
    /// The display's graphics extension is unsupported, so no context could
    /// be acquired.
    GraphicsError,
    /// The engine did not report itself initialized after startup, or a
    /// second session was constructed while one is active (engine
    /// initialization is one-shot per process).
    InitError,
}

} // verus!
