//! The messages that the browser add-on and the bridge exchange over the
//! WebSocket, as plain values (the JSON form belongs to the application).

use vstd::prelude::*;

verus! {

/// A fragment of page text that the add-on streams to the bridge.
#[derive(Debug, Clone)]
pub struct StreamFragmentPayload {
    pub conversation_id: String,
    pub sequence_number: u64,
    pub url: String,
    pub selector: String,
    pub fragment: String,
    pub context: StreamContext,
}

/// The page that a fragment comes from.
#[derive(Debug, Clone)]
pub struct StreamContext {
    pub page_title: String,
    pub locale: String,
}

/// The verdict on a claim, from `Smoke` (false) to `White` (verified).
#[derive(Debug, Clone, Copy, PartialEq, Eq, Structural)]
pub enum VerificationStatus {
    Smoke,
    GrayBlack,
    GrayMid,
    GrayWhite,
    White,
}

/// An order to stop or resume the output, and why.
#[derive(Debug, Clone)]
pub struct ControlCommandPayload {
    pub command: ControlCommand,
    pub trigger: ControlTrigger,
    pub detail: String,
    pub manual_override: Option<ManualOverrideMeta>,
}

/// Stop or resume the output.
#[derive(Debug, Clone, Copy, PartialEq, Eq, Structural)]
pub enum ControlCommand {
    Stop,
    Continue,
}

/// What set a control command off.
#[derive(Debug, Clone, Copy, PartialEq, Eq, Structural)]
pub enum ControlTrigger {
    SmokeDetected,
    LowConfidence,
    ManualOverride,
}

/// What a user gives when overriding a stop by hand.
#[derive(Debug, Clone)]
pub struct ManualOverrideMeta {
    pub conversation_id: Option<String>,
    pub abstract_id: Option<String>,
    pub note: Option<String>,
}

/// A token that the add-on authenticates with.
#[derive(Debug, Clone)]
pub struct AuthPayload {
    pub token: String,
}

/// A fact that a user proposes for the meaning database.
#[derive(Debug, Clone)]
pub struct ProposeFactPayload {
    pub tag: String,
    pub value: String,
}

/// The approval of a proposed fact, by its id.
#[derive(Debug, Clone)]
pub struct ApproveFactPayload {
    pub id: String,
}

} // verus!
