//! Control plane for a single long-lived capture-encode-broadcast pipeline.
//!
//! The crate models the three pillars of such a control plane and proves
//! their behaviour:
//!
//! * [`settings`] / [`json`]: the nested key-value configuration values that
//!   both the pipeline bring-up and per-source updates are expressed in,
//!   together with a serializer and parser whose round trip is proved;
//! * [`session`]: the strictly ordered bring-up state machine that wires the
//!   engine's resources together (video, audio, modules, objects, scene,
//!   start), with its all-or-nothing failure rules;
//! * [`registry`] / [`control`]: the live source table and the remote-control
//!   handlers that mutate it while the broadcast runs.
//!
//! The native engine itself (graphics context, module loading, encoders,
//! network output) is an external collaborator: the session state machine
//! decides what must happen next and judges each outcome, while an
//! unverified driver performs the actual engine calls.

pub mod control;
pub mod errors;
pub mod json;
pub mod registry;
pub mod session;
pub mod settings;
