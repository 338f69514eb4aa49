use canister_gateway::forward::{
    is_healthcheck, on_call_outcome, CallOutcome, CanisterResponse, ForwardContext,
    ForwardDecision, Phase, StreamLoop, StreamStep, MAX_STREAM_CALLBACK_CALLS,
};
use canister_gateway::headers::extract_header_cert_data;
use canister_gateway::identity::Identity;
use canister_gateway::path::skip_validation;
use canister_gateway::validate::{HeaderCertData, ValidationError};

const CANISTER_TEXT: &str = "r5m5i-tiaaa-aaaaj-acgaq-cai";

fn canister() -> Identity {
    Identity::from_text(CANISTER_TEXT.as_bytes()).unwrap()
}

fn ctx(skip: bool) -> ForwardContext {
    ForwardContext {
        canister: canister(),
        request_path: b"/p".to_vec(),
        skip_validation: skip,
        phase: Phase::Query,
        hops: 0,
    }
}

fn no_data() -> HeaderCertData {
    HeaderCertData { certificate: None, tree: None, encoding: None, key: None }
}

fn plain_reply(status: u16, body: &[u8]) -> CanisterResponse {
    CanisterResponse {
        status_code: status,
        headers: vec![],
        body: body.to_vec(),
        upgrade: false,
        has_streaming: false,
    }
}

#[test]
fn rejection_becomes_a_500_with_the_message() {
    let d = on_call_outcome(
        &ctx(false),
        CallOutcome::Reject { code: 5, message: b"not allowed".to_vec() },
        &no_data(),
        true,
    );
    match d {
        ForwardDecision::Respond(rep) => {
            assert_eq!(rep.status, 500);
            assert_eq!(rep.body, b"Replica Error (5): \"not allowed\"".to_vec());
        }
        _ => panic!("a rejection must become a response"),
    }
}

#[test]
fn rejection_codes_format_in_decimal() {
    let d = on_call_outcome(
        &ctx(false),
        CallOutcome::Reject { code: 65004, message: b"".to_vec() },
        &no_data(),
        true,
    );
    match d {
        ForwardDecision::Respond(rep) => {
            assert_eq!(rep.body, b"Replica Error (65004): \"\"".to_vec());
        }
        _ => panic!("a rejection must become a response"),
    }
}

#[test]
fn validation_errors_describe_themselves() {
    assert_eq!(ValidationError::BodyDecode.describe(), "Body could not be decoded");
    assert_eq!(ValidationError::Mismatch.describe(), "Body does not pass verification");
    assert_eq!(
        ValidationError::CertificateParse.describe(),
        "Certificate validation failed"
    );
}

#[test]
fn transport_failure_is_an_internal_error() {
    let d = on_call_outcome(&ctx(false), CallOutcome::Transport, &no_data(), true);
    assert!(matches!(d, ForwardDecision::InternalError));
}

#[test]
fn upgrade_flag_reissues_as_update() {
    let mut resp = plain_reply(200, b"x");
    resp.upgrade = true;
    let d = on_call_outcome(&ctx(false), CallOutcome::Reply(resp), &no_data(), true);
    assert!(matches!(d, ForwardDecision::Upgrade));

    // After the update call the flag is not honoured again.
    let mut resp = plain_reply(200, b"x");
    resp.upgrade = true;
    let mut c = ctx(false);
    c.phase = Phase::Update;
    let d = on_call_outcome(&c, CallOutcome::Reply(resp), &no_data(), true);
    assert!(matches!(d, ForwardDecision::Respond(_)));
}

#[test]
fn redirect_is_followed_up_to_the_hop_ceiling() {
    let resp = CanisterResponse {
        status_code: 307,
        headers: vec![(b"Location".to_vec(), b"/-/other/-/x".to_vec())],
        body: vec![],
        upgrade: false,
        has_streaming: false,
    };
    let d = on_call_outcome(&ctx(false), CallOutcome::Reply(resp), &no_data(), true);
    match d {
        ForwardDecision::FollowRedirect(loc) => assert_eq!(loc, b"/-/other/-/x".to_vec()),
        _ => panic!("a well-formed redirect must be followed"),
    }

    let resp = CanisterResponse {
        status_code: 307,
        headers: vec![(b"Location".to_vec(), b"/-/other/-/x".to_vec())],
        body: vec![],
        upgrade: false,
        has_streaming: false,
    };
    let mut c = ctx(false);
    c.hops = 10;
    let d = on_call_outcome(&c, CallOutcome::Reply(resp), &no_data(), true);
    assert!(matches!(d, ForwardDecision::InternalError));
}

#[test]
fn redirect_with_extra_headers_is_not_followed() {
    let resp = CanisterResponse {
        status_code: 307,
        headers: vec![
            (b"Location".to_vec(), b"/x".to_vec()),
            (b"X-Extra".to_vec(), b"y".to_vec()),
        ],
        body: vec![],
        upgrade: false,
        has_streaming: false,
    };
    let d = on_call_outcome(&ctx(false), CallOutcome::Reply(resp), &no_data(), true);
    assert!(matches!(d, ForwardDecision::Respond(_)));
}

#[test]
fn valid_reply_passes_through() {
    let d = on_call_outcome(
        &ctx(false),
        CallOutcome::Reply(plain_reply(200, b"uncertified legacy body")),
        &no_data(),
        true,
    );
    match d {
        ForwardDecision::Respond(rep) => {
            assert_eq!(rep.status, 200);
            assert_eq!(rep.body, b"uncertified legacy body".to_vec());
        }
        _ => panic!("a plain reply must be responded"),
    }
}

#[test]
fn failing_validation_becomes_a_500() {
    // A reply that announces a certificate but no tree always fails.
    let data = HeaderCertData {
        certificate: Some(Ok(b"anything".to_vec())),
        tree: None,
        encoding: None,
        key: None,
    };
    let d = on_call_outcome(
        &ctx(false),
        CallOutcome::Reply(plain_reply(200, b"body")),
        &data,
        true,
    );
    match d {
        ForwardDecision::Respond(rep) => {
            assert_eq!(rep.status, 500);
            assert_eq!(rep.body, b"Body does not pass verification".to_vec());
        }
        _ => panic!("failed validation must become a 500"),
    }
}

#[test]
fn raw_bypass_skips_validation() {
    // The same failing reply passes untouched when the caller asked for raw.
    assert!(skip_validation(Some(b"a=1&_raw")));
    assert!(skip_validation(Some(b"_rawhere")));
    assert!(!skip_validation(Some(b"a=1")));
    assert!(!skip_validation(None));

    let data = HeaderCertData {
        certificate: Some(Ok(b"anything".to_vec())),
        tree: None,
        encoding: None,
        key: None,
    };
    let d = on_call_outcome(
        &ctx(true),
        CallOutcome::Reply(plain_reply(200, b"body")),
        &data,
        true,
    );
    match d {
        ForwardDecision::Respond(rep) => {
            assert_eq!(rep.status, 200);
            assert_eq!(rep.body, b"body".to_vec());
        }
        _ => panic!("raw bypass must pass the body through"),
    }
}

#[test]
fn streaming_reply_opens_a_stream() {
    let mut resp = plain_reply(200, b"first chunk");
    resp.has_streaming = true;
    let d = on_call_outcome(&ctx(false), CallOutcome::Reply(resp), &no_data(), true);
    match d {
        ForwardDecision::BeginStream(rep) => {
            assert_eq!(rep.status, 200);
            assert_eq!(rep.body, b"first chunk".to_vec());
        }
        _ => panic!("a streaming reply must open a stream"),
    }
}

#[test]
fn pull_loop_issues_at_most_1000_calls() {
    let mut stream = StreamLoop::begin(canister(), b"/p".to_vec(), false);
    let mut granted: u64 = 0;
    for _ in 0..1500 {
        if stream.next_call() {
            granted += 1;
        }
    }
    assert_eq!(granted, MAX_STREAM_CALLBACK_CALLS);
    assert_eq!(granted, 1000);
    assert!(!stream.next_call());
}

#[test]
fn chunks_flow_until_the_token_ends() {
    let stream = StreamLoop::begin(canister(), b"/p".to_vec(), false);
    let no_fields: Vec<(u32, Vec<u8>)> = vec![];
    assert!(matches!(
        stream.on_chunk(&no_fields, b"chunk", true),
        StreamStep::SendAndContinue
    ));
    assert!(matches!(
        stream.on_chunk(&no_fields, b"chunk", false),
        StreamStep::SendAndFinish
    ));
}

#[test]
fn invalid_chunk_aborts_the_stream() {
    let stream = StreamLoop::begin(canister(), b"/p".to_vec(), false);
    let fields = vec![
        (1102915300u32, b"!!!".to_vec()),
        (1292081502u32, b"!!!".to_vec()),
        (3577787238u32, b"/x".to_vec()),
    ];
    assert!(matches!(stream.on_chunk(&fields, b"chunk", true), StreamStep::Abort));
    // With the raw bypass the same chunk flows.
    let raw = StreamLoop::begin(canister(), b"/p".to_vec(), true);
    assert!(matches!(raw.on_chunk(&fields, b"chunk", true), StreamStep::SendAndContinue));
}

#[test]
fn healthcheck_path_short_circuits() {
    assert!(is_healthcheck(b"/healthcheck"));
    assert!(is_healthcheck(b"/healthcheck/deep"));
    assert!(!is_healthcheck(b"/health"));
    assert!(!is_healthcheck(b"/-/x/-/y"));
}

fn b64(data: &[u8]) -> String {
    base64::Engine::encode(&base64::engine::general_purpose::STANDARD, data)
}

#[test]
fn certificate_header_is_extracted() {
    let value = format!("certificate={}, tree={}", b64(b"CERTBYTES"), b64(b"TREEBYTES"));
    let headers = vec![
        (b"X-Other".to_vec(), b"1".to_vec()),
        (b"IC-Certificate".to_vec(), value.into_bytes()),
        (b"Content-Encoding".to_vec(), b" gzip ".to_vec()),
    ];
    let data = extract_header_cert_data(&headers);
    assert_eq!(data.certificate, Some(Ok(b"CERTBYTES".to_vec())));
    assert_eq!(data.tree, Some(Ok(b"TREEBYTES".to_vec())));
    assert_eq!(data.encoding, Some(b"gzip".to_vec()));
    assert_eq!(data.key, None);
}

#[test]
fn duplicate_certificate_fields_keep_the_first_valid() {
    let value = format!(
        "certificate={}, certificate={}",
        b64(b"FIRST"),
        b64(b"SECOND")
    );
    let headers = vec![(b"ic-certificate".to_vec(), value.into_bytes())];
    let data = extract_header_cert_data(&headers);
    assert_eq!(data.certificate, Some(Ok(b"FIRST".to_vec())));
    assert_eq!(data.tree, None);

    // An undecodable field is displaced by a later valid one.
    let value = format!("certificate=###, certificate={}", b64(b"GOOD"));
    let headers = vec![(b"IC-CERTIFICATE".to_vec(), value.into_bytes())];
    let data = extract_header_cert_data(&headers);
    assert_eq!(data.certificate, Some(Ok(b"GOOD".to_vec())));
}

#[test]
fn headers_without_certification_extract_nothing() {
    let headers = vec![(b"Content-Type".to_vec(), b"text/html".to_vec())];
    let data = extract_header_cert_data(&headers);
    assert_eq!(data.certificate, None);
    assert_eq!(data.tree, None);
    assert_eq!(data.encoding, None);
}
