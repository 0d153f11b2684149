//! The decisions that the bridge takes: which API keys it uses, what it
//! answers each incoming message with, and how it turns the verdict of the
//! fast path or of the pipeline into a judgement and, where due, a STOP.
//! The bridge's loop performs the actions that these functions return.

use crate::message::{
    ApproveFactPayload, ControlCommand, ControlCommandPayload, ControlTrigger, ManualOverrideMeta,
    ProposeFactPayload, StreamFragmentPayload, VerificationStatus as ProtoStatus,
};
use crate::models::VerificationStatus;
use crate::text::{
    chars_of, contains_str, contains_text, is_white_space, lemma_trim_empty_iff_blank, string_of, trim,
    trim_range,
};
use vstd::prelude::*;
use vstd::string::StringExecFns;

verus! {

/// Whether an API key can be used: not blank, and not an elided example
/// such as `sk-...`.
pub fn valid_api_key(key: &str) -> (ok: bool)
    ensures
        ok == (trim(key@).len() > 0 && !contains_text(trim(key@), "..."@)),
{
    let v = chars_of(key);
    let (a, b) = trim_range(&v, 0, v.len());
    assert(v@.subrange(0, v.len() as int) =~= v@);
    if a == b {
        return false;
    }
    let trimmed = string_of(&v, a, b);
    !contains_str(trimmed.as_str(), "...")
}

/// The protocol's name for a verdict of the pipeline.
pub open spec fn proto_status(s: VerificationStatus) -> ProtoStatus {
    match s {
        VerificationStatus::Smoke => ProtoStatus::Smoke,
        VerificationStatus::GrayBlack => ProtoStatus::GrayBlack,
        VerificationStatus::GrayMid => ProtoStatus::GrayMid,
        VerificationStatus::GrayWhite => ProtoStatus::GrayWhite,
        VerificationStatus::White => ProtoStatus::White,
    }
}

/// Converts a verdict of the pipeline to the protocol's verdict.
pub fn to_proto_status(status: VerificationStatus) -> (r: ProtoStatus)
    ensures
        r == proto_status(status),
{
    match status {
        VerificationStatus::Smoke => ProtoStatus::Smoke,
        VerificationStatus::GrayBlack => ProtoStatus::GrayBlack,
        VerificationStatus::GrayMid => ProtoStatus::GrayMid,
        VerificationStatus::GrayWhite => ProtoStatus::GrayWhite,
        VerificationStatus::White => ProtoStatus::White,
    }
}

/// What the fast path found for a fragment.
#[derive(Debug, Clone, Copy, PartialEq, Eq, Structural)]
pub enum LightweightCheckStatus {
    Hit,
    Mismatch,
    Unknown,
}

/// How a fragment matched its meaning.
#[derive(Debug, Clone, Copy, PartialEq, Eq, Structural)]
pub enum MeaningMatchMode {
    Exact,
    Contains,
}

/// The tag of a fragment that the fast path confirmed, and how it matched.
#[derive(Debug, Clone)]
pub struct MeaningHit {
    pub tag: String,
    pub mode: MeaningMatchMode,
}

/// The name of a match mode in a judgement's reason.
pub open spec fn mode_text(m: MeaningMatchMode) -> Seq<char> {
    match m {
        MeaningMatchMode::Exact => "exact"@,
        MeaningMatchMode::Contains => "contains"@,
    }
}

/// A judgement on a claim, all but the confidence (which the caller adds).
#[derive(Debug, Clone)]
pub struct JudgeDraft {
    pub status: ProtoStatus,
    pub reason: String,
    pub claim: String,
    pub evidence_count: u32,
    pub abstract_id: Option<String>,
}

/// The judgement has these parts.
pub open spec fn judge_is(
    j: JudgeDraft,
    status: ProtoStatus,
    reason: Seq<char>,
    claim: Seq<char>,
    evidence_count: u32,
    abstract_id: Option<String>,
) -> bool {
    &&& j.status == status
    &&& j.reason@ == reason
    &&& j.claim@ == claim
    &&& j.evidence_count == evidence_count
    &&& j.abstract_id == abstract_id
}

/// A STOP with this trigger and detail, and no override.
pub open spec fn stop_is(c: ControlCommandPayload, trigger: ControlTrigger, detail: Seq<char>) -> bool {
    &&& c.command == ControlCommand::Stop
    &&& c.trigger == trigger
    &&& c.detail@ == detail
    &&& c.manual_override is None
}

/// The reason given for a fragment that the fast path confirmed.
pub open spec fn cache_hit_reason(tag: Seq<char>, mode: MeaningMatchMode) -> Seq<char> {
    "source=Cache tag="@ + tag + " mode="@ + mode_text(mode)
}

/// What to do with a fragment before the pipeline sees it.
#[derive(Debug, Clone)]
pub enum IngestAction {
    /// Nothing: the fragment is empty.
    Skip,
    /// Send this judgement (and this STOP after it) and go no further.
    Reply { judge: JudgeDraft, stop: Option<ControlCommandPayload> },
    /// Hand the fragment to the pipeline.
    RunPipeline,
}

/// The fast path's decision on `fragment`: `check` is what the fast path
/// found (`None` where it is off), `hit` what it confirmed on a hit.  An
/// empty fragment is skipped; a confirmed hit is judged `White`; a mismatch
/// is judged `Smoke` and stopped; anything else goes to the pipeline.
pub fn plan_ingest(
    fragment: &str,
    check: Option<LightweightCheckStatus>,
    hit: Option<MeaningHit>,
) -> (r: IngestAction)
    ensures
        fragment@.len() == 0 ==> r is Skip,
        fragment@.len() > 0 && check == Some(LightweightCheckStatus::Hit) && hit is Some ==> {
            &&& r matches IngestAction::Reply { judge, stop }
            &&& judge_is(
                judge,
                ProtoStatus::White,
                cache_hit_reason(hit->0.tag@, hit->0.mode),
                fragment@,
                0,
                None,
            )
            &&& stop is None
            &&& hit->0.mode == MeaningMatchMode::Exact ==> judge.reason@ == "source=Cache tag="@
                + hit->0.tag@ + " mode=exact"@
            &&& hit->0.mode == MeaningMatchMode::Contains ==> judge.reason@ == "source=Cache tag="@
                + hit->0.tag@ + " mode=contains"@
            &&& judge.status == ProtoStatus::White
            &&& judge.claim@ == fragment@
        },
        fragment@.len() > 0 && check == Some(LightweightCheckStatus::Mismatch) ==> {
            &&& r matches IngestAction::Reply { judge, stop }
            &&& judge_is(judge, ProtoStatus::Smoke, "source=Cache mismatch"@, fragment@, 0, None)
            &&& (stop matches Some(c) && stop_is(
                c,
                ControlTrigger::SmokeDetected,
                "FastPath mismatch detected"@,
            ))
            &&& judge.status == ProtoStatus::Smoke
            &&& (stop matches Some(c) && c.command == ControlCommand::Stop && c.trigger
                == ControlTrigger::SmokeDetected)
        },
        fragment@.len() > 0 && !(check == Some(LightweightCheckStatus::Hit) && hit is Some)
            && check != Some(LightweightCheckStatus::Mismatch) ==> r is RunPipeline,
{
    if fragment.is_empty() {
        return IngestAction::Skip;
    }
    match check {
        Some(LightweightCheckStatus::Hit) => {
            match hit {
                Some(h) => {
                    let mut reason = String::new();
                    reason.append("source=Cache tag=");
                    reason.append(h.tag.as_str());
                    reason.append(" mode=");
                    reason.append(mode_name(h.mode));
                    proof {
                        lemma_reply_shapes_reason(h.tag@);
                    }
                    let judge = JudgeDraft {
                        status: ProtoStatus::White,
                        reason,
                        claim: fragment.to_owned(),
                        evidence_count: 0,
                        abstract_id: None,
                    };
                    IngestAction::Reply { judge, stop: None }
                },
                None => IngestAction::RunPipeline,
            }
        },
        Some(LightweightCheckStatus::Mismatch) => {
            let mut reason = String::new();
            reason.append("source=Cache mismatch");
            let mut detail = String::new();
            detail.append("FastPath mismatch detected");
            let judge = JudgeDraft {
                status: ProtoStatus::Smoke,
                reason,
                claim: fragment.to_owned(),
                evidence_count: 0,
                abstract_id: None,
            };
            let stop = ControlCommandPayload {
                command: ControlCommand::Stop,
                trigger: ControlTrigger::SmokeDetected,
                detail,
                manual_override: None,
            };
            IngestAction::Reply { judge, stop: Some(stop) }
        },
        _ => IngestAction::RunPipeline,
    }
}

/// The reason for a confirmed hit, with the mode's name spelled out.
proof fn lemma_reply_shapes_reason(tag: Seq<char>)
    ensures
        cache_hit_reason(tag, MeaningMatchMode::Exact) == "source=Cache tag="@ + tag
            + " mode=exact"@,
        cache_hit_reason(tag, MeaningMatchMode::Contains) == "source=Cache tag="@ + tag
            + " mode=contains"@,
{
    reveal_strlit(" mode=");
    reveal_strlit("exact");
    reveal_strlit("contains");
    reveal_strlit(" mode=exact");
    reveal_strlit(" mode=contains");
    assert(cache_hit_reason(tag, MeaningMatchMode::Exact) =~= "source=Cache tag="@ + tag
        + " mode=exact"@);
    assert(cache_hit_reason(tag, MeaningMatchMode::Contains) =~= "source=Cache tag="@ + tag
        + " mode=contains"@);
}

/// The name of a match mode.
fn mode_name(m: MeaningMatchMode) -> (s: &'static str)
    ensures
        s@ == mode_text(m),
{
    match m {
        MeaningMatchMode::Exact => "exact",
        MeaningMatchMode::Contains => "contains",
    }
}

/// What the pipeline concluded on a fragment.
#[derive(Debug, Clone)]
pub struct PipelineOutcome {
    pub status: VerificationStatus,
    pub reason: String,
    pub evidence_count: usize,
    pub abstract_id: Option<String>,
}

/// The trigger of the STOP that a verdict calls for: smoke always stops the
/// output, and so does a confidence below the threshold.
pub open spec fn stop_trigger(status: VerificationStatus, below_threshold: bool) -> Option<
    ControlTrigger,
> {
    if status == VerificationStatus::Smoke {
        Some(ControlTrigger::SmokeDetected)
    } else if below_threshold {
        Some(ControlTrigger::LowConfidence)
    } else {
        None
    }
}

/// The bridge stops the output after the pipeline exactly where the verdict
/// is smoke or the confidence is below the threshold.
pub proof fn lemma_stop_iff(status: VerificationStatus, below_threshold: bool)
    ensures
        stop_trigger(status, below_threshold) is Some <==> (status == VerificationStatus::Smoke
            || below_threshold),
        stop_trigger(status, below_threshold) == Some(ControlTrigger::SmokeDetected) <==> status
            == VerificationStatus::Smoke,
{
}

/// The verdict on a fragment after the pipeline: its judgement and the
/// trigger of the STOP that follows it, where one does.
#[derive(Debug, Clone)]
pub struct Verdict {
    pub judge: JudgeDraft,
    pub stop: Option<ControlTrigger>,
}

/// The status that the bridge reports after the pipeline: the pipeline's
/// verdict on the fragment, or `GrayMid` where it reached none.
pub open spec fn reported_status(outcome: Option<PipelineOutcome>) -> VerificationStatus {
    match outcome {
        Some(o) => o.status,
        None => VerificationStatus::GrayMid,
    }
}

/// Turns what the pipeline concluded on `fragment` into the judgement that
/// the bridge sends, and decides whether a STOP follows.  `below_threshold`
/// tells whether the confidence (the pipeline's, or 0.4 where it reached no
/// verdict) is below the stop threshold.
pub fn plan_verdict(fragment: &str, outcome: Option<PipelineOutcome>, below_threshold: bool) -> (r:
    Verdict)
    ensures
        r.judge.status == proto_status(reported_status(outcome)),
        r.judge.reason@ == match outcome {
            Some(o) => "source=LLM "@ + o.reason@,
            None => "source=LLM ok"@,
        },
        r.judge.claim@ == fragment@,
        r.judge.evidence_count == match outcome {
            Some(o) => o.evidence_count as u32,
            None => 0u32,
        },
        r.judge.abstract_id == match outcome {
            Some(o) => o.abstract_id,
            None => None,
        },
        r.stop == stop_trigger(reported_status(outcome), below_threshold),
        outcome matches Some(o) ==> r.judge.status == proto_status(o.status),
        outcome is None ==> r.judge.status == ProtoStatus::GrayMid,
        r.stop is Some <==> ((outcome matches Some(o) && o.status == VerificationStatus::Smoke)
            || below_threshold),
        r.stop == Some(ControlTrigger::SmokeDetected) <==> (outcome matches Some(o) && o.status
            == VerificationStatus::Smoke),
        r.stop is Some && r.stop != Some(ControlTrigger::SmokeDetected) ==> r.stop == Some(
            ControlTrigger::LowConfidence,
        ),
{
    let mut reason = String::new();
    let (status, evidence_count, abstract_id) = match outcome {
        Some(o) => {
            reason.append("source=LLM ");
            reason.append(o.reason.as_str());
            (o.status, o.evidence_count as u32, o.abstract_id)
        },
        None => {
            reason.append("source=LLM ok");
            (VerificationStatus::GrayMid, 0u32, None)
        },
    };
    let stop = if status == VerificationStatus::Smoke {
        Some(ControlTrigger::SmokeDetected)
    } else if below_threshold {
        Some(ControlTrigger::LowConfidence)
    } else {
        None
    };
    let judge = JudgeDraft {
        status: to_proto_status(status),
        reason,
        claim: fragment.to_owned(),
        evidence_count,
        abstract_id,
    };
    Verdict { judge, stop }
}

/// An incoming message, once the bridge has read it.
#[derive(Debug, Clone)]
pub enum Inbound {
    /// A text frame that is not a message of the protocol.
    Unparsable,
    StreamFragment(StreamFragmentPayload),
    ControlCommand(ControlCommandPayload),
    ProposeFact(ProposeFactPayload),
    ApproveFact(ApproveFactPayload),
    /// A message that the bridge does not act on.
    Other,
}

/// A manual override to record: who resumed the output, and why.
#[derive(Debug, Clone)]
pub struct OverrideRecord {
    pub conversation_id: Option<String>,
    pub abstract_id: Option<String>,
    pub note: String,
}

/// What the bridge does with an incoming message.
#[derive(Debug, Clone)]
pub enum InboundAction {
    /// Send this control command back.
    Reply(ControlCommandPayload),
    /// Record this manual override.
    RecordOverride(OverrideRecord),
    /// Store this proposed fact as pending.
    Propose(ProposeFactPayload),
    /// Approve the pending fact with this id.
    Approve(String),
    /// Hand this fragment to the ingest worker.
    Forward(String),
    /// Nothing.
    Ignore,
}

/// The note recorded for a manual override: the user's note where it is
/// not blank, else `No reason provided`.
pub open spec fn override_note(meta: Option<ManualOverrideMeta>) -> Seq<char> {
    match meta {
        Some(m) => match m.note {
            Some(n) => if trim(n@).len() > 0 {
                n@
            } else {
                "No reason provided"@
            },
            None => "No reason provided"@,
        },
        None => "No reason provided"@,
    }
}

/// Whether a control command resumes the output by hand.
pub open spec fn is_manual_resume(c: ControlCommandPayload) -> bool {
    c.command == ControlCommand::Continue && c.trigger == ControlTrigger::ManualOverride
}

/// The bridge's answer to an incoming message: a text that is no message is
/// answered with a STOP that names the parse error; a manual CONTINUE is
/// recorded as an override, other control commands are ignored; proposals and
/// approvals go to the pending facts; a fragment goes to the ingest worker.
pub fn plan_inbound(msg: Inbound) -> (r: InboundAction)
    ensures
        msg is Unparsable ==> (r matches InboundAction::Reply(c) && stop_is(
            c,
            ControlTrigger::ManualOverride,
            "JSON parse error"@,
        )),
        msg matches Inbound::ControlCommand(c) ==> if is_manual_resume(c) {
            &&& r matches InboundAction::RecordOverride(o)
            &&& o.note@ == override_note(c.manual_override)
            &&& o.conversation_id == match c.manual_override {
                Some(m) => m.conversation_id,
                None => None,
            }
            &&& o.abstract_id == match c.manual_override {
                Some(m) => m.abstract_id,
                None => None,
            }
        } else {
            r is Ignore
        },
        msg matches Inbound::ControlCommand(c) ==> ((r is RecordOverride) <==> (c.command
            == ControlCommand::Continue && c.trigger == ControlTrigger::ManualOverride)),
        msg matches Inbound::ControlCommand(c) ==> (r is RecordOverride || r is Ignore),
        msg matches Inbound::ProposeFact(p) ==> r == InboundAction::Propose(p),
        msg matches Inbound::ApproveFact(p) ==> r == InboundAction::Approve(p.id),
        msg matches Inbound::StreamFragment(p) ==> r == InboundAction::Forward(p.fragment),
        msg is Other ==> r is Ignore,
{
    match msg {
        Inbound::Unparsable => {
            let mut detail = String::new();
            detail.append("JSON parse error");
            InboundAction::Reply(
                ControlCommandPayload {
                    command: ControlCommand::Stop,
                    trigger: ControlTrigger::ManualOverride,
                    detail,
                    manual_override: None,
                },
            )
        },
        Inbound::ControlCommand(c) => {
            if c.command == ControlCommand::Continue && c.trigger == ControlTrigger::ManualOverride {
                let ghost meta = c.manual_override;
                let (conversation_id, abstract_id, given) = match c.manual_override {
                    Some(m) => (m.conversation_id, m.abstract_id, m.note),
                    None => (None, None, None),
                };
                let note = match given {
                    Some(n) => {
                        if note_is_blank(n.as_str()) {
                            default_note()
                        } else {
                            n
                        }
                    },
                    None => default_note(),
                };
                InboundAction::RecordOverride(OverrideRecord { conversation_id, abstract_id, note })
            } else {
                InboundAction::Ignore
            }
        },
        Inbound::ProposeFact(p) => InboundAction::Propose(p),
        Inbound::ApproveFact(p) => InboundAction::Approve(p.id),
        Inbound::StreamFragment(p) => InboundAction::Forward(p.fragment),
        Inbound::Other => InboundAction::Ignore,
    }
}

/// Whether a note is blank.
fn note_is_blank(note: &str) -> (b: bool)
    ensures
        b == (trim(note@).len() == 0),
{
    let v = chars_of(note);
    let (a, b) = trim_range(&v, 0, v.len());
    assert(v@.subrange(0, v.len() as int) =~= v@);
    a == b
}

/// The note recorded where the user gave none.
fn default_note() -> (s: String)
    ensures
        s@ == "No reason provided"@,
{
    let mut s = String::new();
    s.append("No reason provided");
    s
}

/// The protocol reports each verdict of the pipeline under its own name, and
/// where the pipeline reached a verdict, the bridge reports that one.
pub proof fn lemma_verdict_names(o: PipelineOutcome)
    ensures
        proto_status(VerificationStatus::Smoke) == ProtoStatus::Smoke,
        proto_status(VerificationStatus::GrayBlack) == ProtoStatus::GrayBlack,
        proto_status(VerificationStatus::GrayMid) == ProtoStatus::GrayMid,
        proto_status(VerificationStatus::GrayWhite) == ProtoStatus::GrayWhite,
        proto_status(VerificationStatus::White) == ProtoStatus::White,
        reported_status(Some(o)) == o.status,
        reported_status(None) == VerificationStatus::GrayMid,
        forall|a: VerificationStatus, b: VerificationStatus|
            proto_status(a) == proto_status(b) ==> a == b,
{
}

/// Only a CONTINUE by hand is recorded as an override; its note is the
/// user's note where that holds anything but white space, else the default.
pub proof fn lemma_override_rules(c: ControlCommandPayload, note: String)
    ensures
        is_manual_resume(c) <==> (c.command == ControlCommand::Continue && c.trigger
            == ControlTrigger::ManualOverride),
        (exists|i: int| 0 <= i < note@.len() && !is_white_space(#[trigger] note@[i]))
            ==> override_note(
            Some(ManualOverrideMeta { conversation_id: None, abstract_id: None, note: Some(note) }),
        ) == note@,
        (forall|i: int| 0 <= i < note@.len() ==> is_white_space(#[trigger] note@[i]))
            ==> override_note(
            Some(ManualOverrideMeta { conversation_id: None, abstract_id: None, note: Some(note) }),
        ) == "No reason provided"@,
        override_note(None) == "No reason provided"@,
        override_note(Some(ManualOverrideMeta { conversation_id: None, abstract_id: None, note: None }))
            == "No reason provided"@,
{
    lemma_trim_empty_iff_blank(note@);
}

/// The answer to a message that cannot be read is a STOP by manual override
/// that names the parse error, with nothing else in it; judgements and STOPs
/// have exactly the parts they are made with.
pub proof fn lemma_reply_shapes(
    c: ControlCommandPayload,
    j: JudgeDraft,
    status: ProtoStatus,
    reason: Seq<char>,
    claim: Seq<char>,
    evidence_count: u32,
    abstract_id: Option<String>,
    trigger: ControlTrigger,
    detail: Seq<char>,
)
    ensures
        stop_is(c, trigger, detail) <==> (c.command == ControlCommand::Stop && c.trigger == trigger
            && c.detail@ == detail && c.manual_override is None),
        judge_is(j, status, reason, claim, evidence_count, abstract_id) <==> (j.status == status
            && j.reason@ == reason && j.claim@ == claim && j.evidence_count == evidence_count
            && j.abstract_id == abstract_id),
        cache_hit_reason(claim, MeaningMatchMode::Exact) == "source=Cache tag="@ + claim
            + " mode=exact"@,
        cache_hit_reason(claim, MeaningMatchMode::Contains) == "source=Cache tag="@ + claim
            + " mode=contains"@,
{
    lemma_reply_shapes_reason(claim);
}

} // verus!
