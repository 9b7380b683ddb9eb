use statussentinel::probe::{
    classify_response, handshake_step, outcome_of_latency, status_code_string, HandshakeStage,
    ProbeOutcome, ProbeStep, ResponseResult,
};

#[test]
fn status_code_string_is_decimal() {
    assert_eq!(status_code_string(200), "200");
    assert_eq!(status_code_string(404), "404");
    assert_eq!(status_code_string(503), "503");
    assert_eq!(status_code_string(0), "0");
    assert_eq!(status_code_string(65535), "65535");
}

#[test]
fn classify_response_success_range() {
    match classify_response(200, 42) {
        ResponseResult::Success(ms) => assert_eq!(ms, 42),
        ResponseResult::StatusError(_) => panic!("200 must classify as a success"),
    }
    match classify_response(299, 7) {
        ResponseResult::Success(ms) => assert_eq!(ms, 7),
        ResponseResult::StatusError(_) => panic!("299 must classify as a success"),
    }
}

#[test]
fn classify_response_error_carries_the_code() {
    match classify_response(404, 42) {
        ResponseResult::Success(_) => panic!("404 must not classify as a success"),
        ResponseResult::StatusError(s) => assert_eq!(s, "404"),
    }
    match classify_response(199, 1) {
        ResponseResult::Success(_) => panic!("199 must not classify as a success"),
        ResponseResult::StatusError(s) => assert_eq!(s, "199"),
    }
}

#[test]
fn outcome_of_latency_maps_zero_to_failure() {
    assert_eq!(outcome_of_latency(0), ProbeOutcome::Failure);
    assert_eq!(outcome_of_latency(-3), ProbeOutcome::Failure);
    assert_eq!(outcome_of_latency(5), ProbeOutcome::Success(5));
}

#[test]
fn handshake_walks_its_stages_in_order() {
    assert_eq!(
        handshake_step(HandshakeStage::Connect, true, 0),
        ProbeStep::Continue(HandshakeStage::SendHandshake)
    );
    assert_eq!(
        handshake_step(HandshakeStage::SendHandshake, true, 0),
        ProbeStep::Continue(HandshakeStage::SendStatusRequest)
    );
    assert_eq!(
        handshake_step(HandshakeStage::SendStatusRequest, true, 0),
        ProbeStep::Continue(HandshakeStage::ReadLength)
    );
    assert_eq!(
        handshake_step(HandshakeStage::ReadLength, true, 23),
        ProbeStep::Finished(ProbeOutcome::Success(23))
    );
}

#[test]
fn handshake_error_at_any_stage_is_a_failure_with_latency_zero() {
    let stages = [
        HandshakeStage::Connect,
        HandshakeStage::SendHandshake,
        HandshakeStage::SendStatusRequest,
        HandshakeStage::ReadLength,
    ];
    for &stage in stages.iter() {
        let step = handshake_step(stage, false, 1500);
        assert_eq!(step, ProbeStep::Finished(ProbeOutcome::Failure));
    }
}
