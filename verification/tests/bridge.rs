use tuff_brg::bridge::{
    plan_inbound, plan_ingest, plan_verdict, to_proto_status, valid_api_key, Inbound,
    InboundAction, IngestAction, LightweightCheckStatus, MeaningHit, MeaningMatchMode,
    PipelineOutcome,
};
use tuff_brg::message::{
    ApproveFactPayload, ControlCommand, ControlCommandPayload, ControlTrigger, ManualOverrideMeta,
    ProposeFactPayload, StreamContext, StreamFragmentPayload, VerificationStatus as Proto,
};
use tuff_brg::models::VerificationStatus;

#[test]
fn api_keys() {
    assert!(!valid_api_key(""));
    assert!(!valid_api_key("   \n"));
    assert!(!valid_api_key("sk-..."));
    assert!(!valid_api_key("  sk-...abc "));
    assert!(valid_api_key("sk-abc123"));
    assert!(valid_api_key("  sk-abc123\n"));
    assert!(valid_api_key("sk-a.b..c"));
}

#[test]
fn proto_status_names_each_verdict() {
    assert_eq!(to_proto_status(VerificationStatus::Smoke), Proto::Smoke);
    assert_eq!(to_proto_status(VerificationStatus::GrayBlack), Proto::GrayBlack);
    assert_eq!(to_proto_status(VerificationStatus::GrayMid), Proto::GrayMid);
    assert_eq!(to_proto_status(VerificationStatus::GrayWhite), Proto::GrayWhite);
    assert_eq!(to_proto_status(VerificationStatus::White), Proto::White);
}

#[test]
fn empty_fragment_is_skipped() {
    assert!(matches!(plan_ingest("", Some(LightweightCheckStatus::Mismatch), None), IngestAction::Skip));
    assert!(matches!(plan_ingest("", None, None), IngestAction::Skip));
}

#[test]
fn confirmed_hit_is_judged_white() {
    let hit = MeaningHit { tag: "prime-minister".to_string(), mode: MeaningMatchMode::Contains };
    match plan_ingest("frag", Some(LightweightCheckStatus::Hit), Some(hit)) {
        IngestAction::Reply { judge, stop } => {
            assert_eq!(judge.status, Proto::White);
            assert_eq!(judge.reason, "source=Cache tag=prime-minister mode=contains");
            assert_eq!(judge.claim, "frag");
            assert_eq!(judge.evidence_count, 0);
            assert_eq!(judge.abstract_id, None);
            assert!(stop.is_none());
        }
        other => panic!("unexpected {:?}", other),
    }
    let exact = MeaningHit { tag: "t".to_string(), mode: MeaningMatchMode::Exact };
    match plan_ingest("f", Some(LightweightCheckStatus::Hit), Some(exact)) {
        IngestAction::Reply { judge, .. } => assert_eq!(judge.reason, "source=Cache tag=t mode=exact"),
        other => panic!("unexpected {:?}", other),
    }
}

#[test]
fn unconfirmed_hit_goes_to_the_pipeline() {
    assert!(matches!(
        plan_ingest("frag", Some(LightweightCheckStatus::Hit), None),
        IngestAction::RunPipeline
    ));
}

#[test]
fn mismatch_is_smoke_and_stops() {
    match plan_ingest("prime-minister\t...Shigeru Ishiba...", Some(LightweightCheckStatus::Mismatch), None) {
        IngestAction::Reply { judge, stop } => {
            assert_eq!(judge.status, Proto::Smoke);
            assert_eq!(judge.reason, "source=Cache mismatch");
            assert_eq!(judge.claim, "prime-minister\t...Shigeru Ishiba...");
            let stop = stop.expect("a STOP follows a mismatch");
            assert_eq!(stop.command, ControlCommand::Stop);
            assert_eq!(stop.trigger, ControlTrigger::SmokeDetected);
            assert_eq!(stop.detail, "FastPath mismatch detected");
            assert!(stop.manual_override.is_none());
        }
        other => panic!("unexpected {:?}", other),
    }
}

#[test]
fn unknown_or_disabled_goes_to_the_pipeline() {
    assert!(matches!(plan_ingest("x", Some(LightweightCheckStatus::Unknown), None), IngestAction::RunPipeline));
    assert!(matches!(plan_ingest("x", None, None), IngestAction::RunPipeline));
}

fn outcome(status: VerificationStatus, reason: &str, evidence: usize) -> PipelineOutcome {
    PipelineOutcome {
        status,
        reason: reason.to_string(),
        evidence_count: evidence,
        abstract_id: Some("abs-1".to_string()),
    }
}

#[test]
fn no_outcome_is_gray_mid() {
    let v = plan_verdict("claim", None, false);
    assert_eq!(v.judge.status, Proto::GrayMid);
    assert_eq!(v.judge.reason, "source=LLM ok");
    assert_eq!(v.judge.claim, "claim");
    assert_eq!(v.judge.evidence_count, 0);
    assert_eq!(v.judge.abstract_id, None);
    assert_eq!(v.stop, None);
    assert_eq!(plan_verdict("claim", None, true).stop, Some(ControlTrigger::LowConfidence));
}

#[test]
fn smoke_always_stops() {
    let v = plan_verdict("c", Some(outcome(VerificationStatus::Smoke, "contradicted", 3)), false);
    assert_eq!(v.judge.status, Proto::Smoke);
    assert_eq!(v.judge.reason, "source=LLM contradicted");
    assert_eq!(v.judge.evidence_count, 3);
    assert_eq!(v.judge.abstract_id, Some("abs-1".to_string()));
    assert_eq!(v.stop, Some(ControlTrigger::SmokeDetected));
    let v = plan_verdict("c", Some(outcome(VerificationStatus::Smoke, "x", 0)), true);
    assert_eq!(v.stop, Some(ControlTrigger::SmokeDetected));
}

#[test]
fn low_confidence_stops() {
    let v = plan_verdict("c", Some(outcome(VerificationStatus::White, "ok", 1)), true);
    assert_eq!(v.judge.status, Proto::White);
    assert_eq!(v.stop, Some(ControlTrigger::LowConfidence));
    let v = plan_verdict("c", Some(outcome(VerificationStatus::GrayWhite, "ok", 1)), false);
    assert_eq!(v.stop, None);
}

#[test]
fn evidence_count_is_cut_to_u32() {
    let big = (u32::MAX as usize).wrapping_add(6);
    let v = plan_verdict("c", Some(outcome(VerificationStatus::White, "ok", big)), false);
    assert_eq!(v.judge.evidence_count, big as u32);
}

fn control(command: ControlCommand, trigger: ControlTrigger, meta: Option<ManualOverrideMeta>) -> Inbound {
    Inbound::ControlCommand(ControlCommandPayload {
        command,
        trigger,
        detail: "d".to_string(),
        manual_override: meta,
    })
}

#[test]
fn unparsable_text_is_answered_with_stop() {
    match plan_inbound(Inbound::Unparsable) {
        InboundAction::Reply(c) => {
            assert_eq!(c.command, ControlCommand::Stop);
            assert_eq!(c.trigger, ControlTrigger::ManualOverride);
            assert_eq!(c.detail, "JSON parse error");
            assert!(c.manual_override.is_none());
        }
        other => panic!("unexpected {:?}", other),
    }
}

#[test]
fn manual_continue_records_an_override() {
    let meta = ManualOverrideMeta {
        conversation_id: Some("conv".to_string()),
        abstract_id: Some("abs".to_string()),
        note: Some("checked by hand".to_string()),
    };
    match plan_inbound(control(ControlCommand::Continue, ControlTrigger::ManualOverride, Some(meta))) {
        InboundAction::RecordOverride(o) => {
            assert_eq!(o.note, "checked by hand");
            assert_eq!(o.conversation_id, Some("conv".to_string()));
            assert_eq!(o.abstract_id, Some("abs".to_string()));
        }
        other => panic!("unexpected {:?}", other),
    }
}

#[test]
fn blank_or_missing_note_gets_the_default() {
    let blank = ManualOverrideMeta { conversation_id: None, abstract_id: None, note: Some("  \t".to_string()) };
    for meta in [Some(blank), None] {
        match plan_inbound(control(ControlCommand::Continue, ControlTrigger::ManualOverride, meta)) {
            InboundAction::RecordOverride(o) => {
                assert_eq!(o.note, "No reason provided");
                assert_eq!(o.conversation_id, None);
                assert_eq!(o.abstract_id, None);
            }
            other => panic!("unexpected {:?}", other),
        }
    }
    let unpadded = ManualOverrideMeta { conversation_id: None, abstract_id: None, note: Some(" why ".to_string()) };
    match plan_inbound(control(ControlCommand::Continue, ControlTrigger::ManualOverride, Some(unpadded))) {
        InboundAction::RecordOverride(o) => assert_eq!(o.note, " why "),
        other => panic!("unexpected {:?}", other),
    }
}

#[test]
fn other_control_commands_are_ignored() {
    assert!(matches!(plan_inbound(control(ControlCommand::Stop, ControlTrigger::ManualOverride, None)), InboundAction::Ignore));
    assert!(matches!(plan_inbound(control(ControlCommand::Continue, ControlTrigger::LowConfidence, None)), InboundAction::Ignore));
    assert!(matches!(plan_inbound(Inbound::Other), InboundAction::Ignore));
}

#[test]
fn fragments_proposals_and_approvals_are_passed_on() {
    let frag = StreamFragmentPayload {
        conversation_id: "c".to_string(),
        sequence_number: 7,
        url: "https://example.com".to_string(),
        selector: "#chat".to_string(),
        fragment: "...DOM text...".to_string(),
        context: StreamContext { page_title: "t".to_string(), locale: "ja-JP".to_string() },
    };
    match plan_inbound(Inbound::StreamFragment(frag)) {
        InboundAction::Forward(f) => assert_eq!(f, "...DOM text..."),
        other => panic!("unexpected {:?}", other),
    }
    match plan_inbound(Inbound::ProposeFact(ProposeFactPayload { tag: "t".to_string(), value: "v".to_string() })) {
        InboundAction::Propose(p) => {
            assert_eq!(p.tag, "t");
            assert_eq!(p.value, "v");
        }
        other => panic!("unexpected {:?}", other),
    }
    match plan_inbound(Inbound::ApproveFact(ApproveFactPayload { id: "42".to_string() })) {
        InboundAction::Approve(id) => assert_eq!(id, "42"),
        other => panic!("unexpected {:?}", other),
    }
}
