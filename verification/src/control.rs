//! The remote-control surface.
//!
//! Each handler validates its request, forwards it to the source registry,
//! and maps every internal failure to a transport-level outcome with a
//! descriptive message.  A bad request never unwinds into shared session
//! state: every handler returns, with the registry either updated exactly
//! as its contract says or left exactly as found.
//!
//! The transport itself (sockets, framing, the accept loop that restarts
//! serving after a fault) is an external collaborator driven by the
//! process around the library.

use vstd::prelude::*;
use vstd::string::StringExecFns;

use crate::errors::{Error, LookupKind};
use crate::registry::{reg_has, spec_set_stream, spec_set_volume, Registry, SourceStatus};
use crate::settings::nul_free;

verus! {

/// Health-check request: text to echo.
#[derive(Debug)]
pub struct TestRequest {
    pub text: String,
}

/// Health-check reply: the echoed text.
#[derive(Debug)]
pub struct TestReply {
    pub text: String,
}

/// Redirect a source's stream target.
#[derive(Debug)]
pub struct SetStreamRequest {
    pub source: String,
    pub url: String,
}

/// Empty acknowledgement of a stream redirect or volume change.
#[derive(Debug)]
pub struct SetStreamReply {}

/// Change a source's volume, in thousandths of unit gain; the wire
/// carries a binary32 that the transport edge converts.
#[derive(Debug)]
pub struct SetSourceVolumeRequest {
    pub source: String,
    pub volume_mil: i64,
}

/// Ask for the live source table.
#[derive(Debug)]
pub struct GetSourceStatusRequest {}

/// The live source table, one row per source.
#[derive(Debug)]
pub struct GetSourceStatusReply {
    pub sources: Vec<SourceStatus>,
}

/// Transport-level outcome classes.
#[derive(Clone, Copy, Debug, PartialEq, Eq, Structural)]
pub enum RpcCode {
    /// The named thing does not exist.
    NotFound,
    /// The request itself is unusable.
    InvalidArgument,
    /// Any other internal failure.
    Unknown,
}

/// A transport-level failure: an outcome class and a descriptive message.
#[derive(Clone, Debug, PartialEq)]
pub struct RpcFailure {
    pub code: RpcCode,
    pub message: String,
}

/// Map an internal failure to its transport-level outcome: a lookup
/// failure surfaces as not-found naming what was missed, an encoding
/// failure as an invalid argument, everything else as unknown.
pub fn to_rpc_failure(e: &Error) -> (r: RpcFailure)
    ensures
        match e {
            Error::LookupError { kind, name } => r.code == RpcCode::NotFound && r.message@ == name@
                + " not found"@,
            Error::EncodingError => r.code == RpcCode::InvalidArgument && r.message@
                == "embedded NUL in string"@,
            _ => r.code == RpcCode::Unknown,
        },
{
    match e {
        Error::LookupError { kind, name } => {
            let mut message = name.clone();
            message.append(" not found");
            RpcFailure { code: RpcCode::NotFound, message }
        },
        Error::EncodingError => RpcFailure {
            code: RpcCode::InvalidArgument,
            message: String::from_str("embedded NUL in string"),
        },
        _ => RpcFailure {
            code: RpcCode::Unknown,
            message: String::from_str("internal failure"),
        },
    }
}

/// The remote-control server: dispatches each inbound request to the
/// source registry.
pub struct ThisServer {}

impl Default for ThisServer {
    /// A fresh server value.
    fn default() -> (r: ThisServer) {
        ThisServer {  }
    }
}

impl ThisServer {
    /// A fresh server value.
    pub fn new() -> (r: ThisServer) {
        ThisServer {  }
    }

    /// Health check: a pure echo, always successful.
    pub fn test(&self, req: TestRequest) -> (r: TestReply)
        ensures
            r.text@ == req.text@,
    {
        TestReply { text: req.text }
    }

    /// Redirect a source's stream target, wholesale.  An unknown source
    /// surfaces as not-found; a target with an embedded NUL as an invalid
    /// argument; either failure leaves the whole table as found.
    pub fn set_stream(&self, reg: &mut Registry, req: SetStreamRequest) -> (r: Result<
        SetStreamReply,
        RpcFailure,
    >)
        requires
            old(reg).wf(),
        ensures
            final(reg).wf(),
            reg_has(old(reg).model(), req.source@) && nul_free(req.url@) ==> r is Ok
                && final(reg).model() == spec_set_stream(old(reg).model(), req.source@, req.url@),
            !reg_has(old(reg).model(), req.source@) ==> final(reg).model() == old(reg).model() && (
            r matches Err(f) && f.code == RpcCode::NotFound && f.message@ == req.source@
                + " not found"@),
            reg_has(old(reg).model(), req.source@) && !nul_free(req.url@) ==> final(reg).model()
                == old(reg).model() && (r matches Err(f) && f.code == RpcCode::InvalidArgument),
    {
        match reg.set_stream_url(req.source.as_str(), req.url.as_str()) {
            Ok(_) => Ok(SetStreamReply {  }),
            Err(e) => Err(to_rpc_failure(&e)),
        }
    }

    /// Change a source's volume.  An unknown source surfaces as
    /// not-found and leaves the whole table as found.
    pub fn set_source_volume(&self, reg: &mut Registry, req: SetSourceVolumeRequest) -> (r: Result<
        SetStreamReply,
        RpcFailure,
    >)
        requires
            old(reg).wf(),
        ensures
            final(reg).wf(),
            reg_has(old(reg).model(), req.source@) ==> r is Ok && final(reg).model()
                == spec_set_volume(old(reg).model(), req.source@, req.volume_mil as int),
            !reg_has(old(reg).model(), req.source@) ==> final(reg).model() == old(reg).model() && (
            r matches Err(f) && f.code == RpcCode::NotFound && f.message@ == req.source@
                + " not found"@),
    {
        match reg.set_volume(req.source.as_str(), req.volume_mil) {
            Ok(_) => Ok(SetStreamReply {  }),
            Err(e) => Err(to_rpc_failure(&e)),
        }
    }

    /// Snapshot the live source table: exactly the currently registered
    /// sources, in registry order, with their declared capability flags
    /// and volumes.
    pub fn get_source_status(&self, reg: &Registry, _req: GetSourceStatusRequest) -> (r:
        GetSourceStatusReply)
        ensures
            r.sources@.len() == reg.model().len(),
            forall|i: int|
                0 <= i < r.sources@.len() ==> {
                    &&& (#[trigger] r.sources@[i]).name@ == reg.model()[i].name
                    &&& r.sources@[i].has_video == reg.model()[i].has_video
                    &&& r.sources@[i].has_audio == reg.model()[i].has_audio
                    &&& r.sources@[i].is_composite == reg.model()[i].is_composite
                    &&& r.sources@[i].volume_mil == reg.model()[i].volume_mil
                },
    {
        GetSourceStatusReply { sources: reg.snapshot() }
    }
}

} // verus!
