//! The request forwarder's decisions. The remote calls themselves are
//! performed by the caller; this module decides, from each call's outcome,
//! what happens next: translate a canister-level rejection into a 500 reply
//! carrying the rejection verbatim, propagate transport failure as a
//! generic internal error, re-issue an upgraded request as an update call,
//! follow a well-formed redirect up to a fixed hop ceiling, and gate every
//! body behind the content validator unless the caller requested the raw
//! bypass. The streaming pull loop is driven the same way, with a hard
//! ceiling on continuation calls.

use vstd::prelude::*;

use crate::bytes_util::lower;
use crate::identity::Identity;
use crate::validate::{
    validate, validate_chunk, validate_chunk_spec, validate_spec, HeaderCertData, ValidationError,
};

verus! {

/// Ceiling on continuation calls in one streaming pull loop.
pub const MAX_STREAM_CALLBACK_CALLS: u64 = 1000;

/// Ceiling on redirect hops followed for one request. The redirect restart
/// is a loop with an enforced bound, never unbounded recursion.
pub const MAX_REDIRECT_HOPS: u32 = 10;

/// Throttle between polls while waiting for an update call, milliseconds.
pub const UPGRADE_POLL_THROTTLE_MS: u64 = 500;

/// Overall timeout for the update-call poll, seconds.
pub const UPGRADE_POLL_TIMEOUT_S: u64 = 15;

/// The canister's structured reply to an HTTP-entry-point call.
pub struct CanisterResponse {
    pub status_code: u16,
    pub headers: Vec<(Vec<u8>, Vec<u8>)>,
    pub body: Vec<u8>,
    pub upgrade: bool,
    pub has_streaming: bool,
}

/// How a call into the canister ended.
pub enum CallOutcome {
    /// A well-formed reply.
    Reply(CanisterResponse),
    /// A canister-level rejection, with its code and message.
    Reject { code: u64, message: Vec<u8> },
    /// A transport or protocol failure.
    Transport,
}

/// An HTTP reply for the client.
pub struct HttpReply {
    pub status: u16,
    pub headers: Vec<(Vec<u8>, Vec<u8>)>,
    pub body: Vec<u8>,
}

/// What the forwarder decides after one call.
pub enum ForwardDecision {
    /// Send this reply to the client.
    Respond(HttpReply),
    /// Re-issue the request as a state-changing update call, polled with
    /// the fixed throttle and timeout.
    Upgrade,
    /// Restart the whole pipeline (resolution, then forwarding) against
    /// this location, with the original method, headers and body.
    FollowRedirect(Vec<u8>),
    /// Open a stream to the client with this first reply, then drive the
    /// pull loop.
    BeginStream(HttpReply),
    /// Fail with a generic internal error.
    InternalError,
}

/// Which call the forwarder is waiting on.
#[derive(Clone, Copy, Debug, PartialEq, Eq, Structural)]
pub enum Phase {
    Query,
    Update,
}

/// Per-request forwarding state.
pub struct ForwardContext {
    /// The resolved target.
    pub canister: Identity,
    /// The original request path (for the validator's tree key).
    pub request_path: Vec<u8>,
    /// The caller asked for the raw bypass: skip content verification.
    pub skip_validation: bool,
    /// Which call the forwarder is waiting on.
    pub phase: Phase,
    /// How many redirect hops this request has followed.
    pub hops: u32,
}

/// The decimal digits of a non-negative number.
pub open spec fn dec_digits(n: int) -> Seq<u8>
    decreases n,
{
    if n < 10 {
        seq![(48 + if n >= 0 {
            n
        } else {
            0
        }) as u8]
    } else {
        dec_digits(n / 10).push((48 + n % 10) as u8)
    }
}

/// Append a number's decimal digits.
fn push_decimal(out: &mut Vec<u8>, n: u64)
    ensures
        final(out)@ == old(out)@ + dec_digits(n as int),
    decreases n,
{
    if n < 10 {
        out.push(48 + (n as u8));
        proof {
            assert(final(out)@ =~= old(out)@ + dec_digits(n as int));
        }
    } else {
        push_decimal(out, n / 10);
        out.push(48 + ((n % 10) as u8));
        proof {
            assert(final(out)@ =~= old(out)@ + dec_digits(n as int));
        }
    }
}

/// The body of the reply that echoes a canister-level rejection:
/// `Replica Error (<code>): "<message>"`.
pub open spec fn reject_text(code: int, message: Seq<u8>) -> Seq<u8> {
    seq![82u8, 101u8, 112u8, 108u8, 105u8, 99u8, 97u8, 32u8, 69u8, 114u8, 114u8, 111u8, 114u8, 32u8, 40u8]
        + dec_digits(code) + seq![41u8, 58u8, 32u8, 34u8] + message + seq![34u8]
}

/// Build the reply body for a canister-level rejection.
fn reject_body(code: u64, message: &[u8]) -> (r: Vec<u8>)
    ensures
        r@ == reject_text(code as int, message@),
{
    let prefix: [u8; 15] = [82, 101, 112, 108, 105, 99, 97, 32, 69, 114, 114, 111, 114, 32, 40];
    let mid: [u8; 4] = [41, 58, 32, 34];
    let mut out: Vec<u8> = Vec::new();
    out.extend_from_slice(prefix.as_slice());
    push_decimal(&mut out, code);
    out.extend_from_slice(mid.as_slice());
    out.extend_from_slice(message);
    out.push(34);
    proof {
        assert(out@ =~= reject_text(code as int, message@));
    }
    out
}

/// The reply echoing a canister-level rejection: a 500 whose body carries
/// the rejection code and message verbatim. No information is disclosed
/// beyond what a direct caller of the canister would see.
pub fn reject_reply(code: u64, message: &[u8]) -> (r: HttpReply)
    ensures
        r.status == 500,
        r.headers@.len() == 0,
        r.body@ == reject_text(code as int, message@),
{
    HttpReply { status: 500, headers: Vec::new(), body: reject_body(code, message) }
}

/// The reply body that names a validation failure's class.
pub open spec fn error_body(e: ValidationError) -> Seq<u8> {
    match e {
        ValidationError::BodyDecode => seq![66u8, 111u8, 100u8, 121u8, 32u8, 99u8, 111u8, 117u8, 108u8, 100u8, 32u8, 110u8, 111u8, 116u8, 32u8, 98u8, 101u8, 32u8, 100u8, 101u8, 99u8, 111u8, 100u8, 101u8, 100u8],
        ValidationError::Mismatch => seq![66u8, 111u8, 100u8, 121u8, 32u8, 100u8, 111u8, 101u8, 115u8, 32u8, 110u8, 111u8, 116u8, 32u8, 112u8, 97u8, 115u8, 115u8, 32u8, 118u8, 101u8, 114u8, 105u8, 102u8, 105u8, 99u8, 97u8, 116u8, 105u8, 111u8, 110u8],
        ValidationError::CertificateParse => seq![67u8, 101u8, 114u8, 116u8, 105u8, 102u8, 105u8, 99u8, 97u8, 116u8, 101u8, 32u8, 118u8, 97u8, 108u8, 105u8, 100u8, 97u8, 116u8, 105u8, 111u8, 110u8, 32u8, 102u8, 97u8, 105u8, 108u8, 101u8, 100u8],
    }
}

/// The reply for a failed validation: a single 500 outcome whose body names
/// the failure class; the cause is never detailed to the client.
pub fn validation_failure_reply(e: ValidationError) -> (r: HttpReply)
    ensures
        r.status == 500,
        r.body@ == error_body(e),
{
    let mut body: Vec<u8> = Vec::new();
    match e {
        ValidationError::BodyDecode => {
            let text: [u8; 25] = [66, 111, 100, 121, 32, 99, 111, 117, 108, 100, 32, 110, 111, 116,
                32, 98, 101, 32, 100, 101, 99, 111, 100, 101, 100];
            body.extend_from_slice(text.as_slice());
        },
        ValidationError::Mismatch => {
            let text: [u8; 31] = [66, 111, 100, 121, 32, 100, 111, 101, 115, 32, 110, 111, 116, 32,
                112, 97, 115, 115, 32, 118, 101, 114, 105, 102, 105, 99, 97, 116, 105, 111, 110];
            body.extend_from_slice(text.as_slice());
        },
        ValidationError::CertificateParse => {
            let text: [u8; 29] = [67, 101, 114, 116, 105, 102, 105, 99, 97, 116, 101, 32, 118, 97,
                108, 105, 100, 97, 116, 105, 111, 110, 32, 102, 97, 105, 108, 101, 100];
            body.extend_from_slice(text.as_slice());
        },
    }
    proof {
        assert(body@ =~= error_body(e));
    }
    HttpReply { status: 500, headers: Vec::new(), body }
}

/// A reply is a well-formed redirect: status 307 with a single header,
/// which is `Location`.
pub open spec fn is_redirect(resp: CanisterResponse) -> bool {
    &&& resp.status_code == 307
    &&& resp.headers@.len() == 1
    &&& lower(resp.headers@[0].0@) == seq![108u8, 111u8, 99u8, 97u8, 116u8, 105u8, 111u8, 110u8]
}

/// Is this reply a well-formed redirect?
fn check_redirect(resp: &CanisterResponse) -> (r: bool)
    ensures
        r == is_redirect(*resp),
{
    if resp.status_code != 307 || resp.headers.len() != 1 {
        return false;
    }
    let name = crate::bytes_util::to_lower(resp.headers[0].0.as_slice());
    let pat: [u8; 8] = [108, 111, 99, 97, 116, 105, 111, 110];
    let eq = crate::bytes_util::slices_equal(name.as_slice(), pat.as_slice());
    proof {
        assert(pat@ =~= seq![108u8, 111u8, 99u8, 97u8, 116u8, 105u8, 111u8, 110u8]);
    }
    eq
}

/// Decide what follows one call into the canister. `data` is the
/// certification material extracted from the reply's headers and `sig_ok`
/// the certificate-signature verdict the caller computed for it; both are
/// consulted only when a body is about to leave the system and the raw
/// bypass was not requested.
pub fn on_call_outcome(
    ctx: &ForwardContext,
    outcome: CallOutcome,
    data: &HeaderCertData,
    sig_ok: bool,
) -> (r: ForwardDecision)
    requires
        ctx.canister.wf(),
    ensures
        match outcome {
            CallOutcome::Reject { code, message } => r matches ForwardDecision::Respond(rep)
                && rep.status == 500 && rep.body@ == reject_text(code as int, message@),
            CallOutcome::Transport => r is InternalError,
            CallOutcome::Reply(resp) => ({
                let verdict = validate_spec(
                    *data,
                    ctx.canister@,
                    ctx.request_path@,
                    sig_ok,
                    resp.body@,
                );
                if resp.upgrade && ctx.phase == Phase::Query {
                    r is Upgrade
                } else if is_redirect(resp) {
                    if ctx.hops < MAX_REDIRECT_HOPS {
                        r matches ForwardDecision::FollowRedirect(loc) && loc@ == resp.headers@[0].1@
                    } else {
                        r is InternalError
                    }
                } else if !ctx.skip_validation && verdict is Err {
                    r matches ForwardDecision::Respond(rep) && rep.status == 500 && rep.body@
                        == error_body(verdict->Err_0)
                } else if resp.has_streaming {
                    r matches ForwardDecision::BeginStream(rep) && rep.status == resp.status_code
                        && rep.headers@ == resp.headers@ && rep.body@ == resp.body@
                } else {
                    r matches ForwardDecision::Respond(rep) && rep.status == resp.status_code
                        && rep.headers@ == resp.headers@ && rep.body@ == resp.body@
                }
            }),
        },
{
    match outcome {
        CallOutcome::Reject { code, message } => ForwardDecision::Respond(
            reject_reply(code, message.as_slice()),
        ),
        CallOutcome::Transport => ForwardDecision::InternalError,
        CallOutcome::Reply(resp) => {
            if resp.upgrade && ctx.phase == Phase::Query {
                return ForwardDecision::Upgrade;
            }
            if check_redirect(&resp) {
                if ctx.hops < MAX_REDIRECT_HOPS {
                    let CanisterResponse { mut headers, .. } = resp;
                    let header = headers.remove(0);
                    return ForwardDecision::FollowRedirect(header.1);
                } else {
                    return ForwardDecision::InternalError;
                }
            }
            if !ctx.skip_validation {
                match validate(
                    data,
                    &ctx.canister,
                    ctx.request_path.as_slice(),
                    sig_ok,
                    resp.body.as_slice(),
                ) {
                    Ok(()) => {},
                    Err(e) => {
                        return ForwardDecision::Respond(validation_failure_reply(e));
                    },
                }
            }
            let streaming = resp.has_streaming;
            let reply = HttpReply {
                status: resp.status_code,
                headers: resp.headers,
                body: resp.body,
            };
            if streaming {
                ForwardDecision::BeginStream(reply)
            } else {
                ForwardDecision::Respond(reply)
            }
        },
    }
}

/// One streaming pull loop in flight: how many continuation calls have been
/// issued, and what each chunk is validated against.
pub struct StreamLoop {
    pub canister: Identity,
    pub request_path: Vec<u8>,
    pub skip_validation: bool,
    pub calls: u64,
}

/// What happens to one received chunk.
pub enum StreamStep {
    /// Send the chunk to the client and keep pulling.
    SendAndContinue,
    /// Send the chunk; the canister returned no further continuation.
    SendAndFinish,
    /// Abort the stream without sending the chunk.
    Abort,
}

impl StreamLoop {
    /// The call counter never passes the ceiling.
    pub open spec fn wf(&self) -> bool {
        self.calls <= MAX_STREAM_CALLBACK_CALLS
    }

    /// Open a pull loop.
    pub fn begin(canister: Identity, request_path: Vec<u8>, skip_validation: bool) -> (r:
        StreamLoop)
        requires
            canister.wf(),
        ensures
            r.wf(),
            r.calls == 0,
            r.canister@ == canister@,
            r.canister.wf(),
            r.request_path@ == request_path@,
            r.skip_validation == skip_validation,
    {
        StreamLoop { canister, request_path, skip_validation, calls: 0 }
    }

    /// Law (call ceiling): authorize the next continuation call. A call is
    /// granted exactly while fewer than `MAX_STREAM_CALLBACK_CALLS` have
    /// been issued, so no pull loop ever issues more than 1000 calls,
    /// however long the canister keeps returning continuation tokens.
    pub fn next_call(&mut self) -> (r: bool)
        requires
            old(self).wf(),
        ensures
            final(self).wf(),
            r == (old(self).calls < MAX_STREAM_CALLBACK_CALLS),
            r ==> final(self).calls == old(self).calls + 1,
            !r ==> final(self).calls == old(self).calls,
            final(self).canister == old(self).canister,
            final(self).request_path == old(self).request_path,
            final(self).skip_validation == old(self).skip_validation,
    {
        if self.calls < MAX_STREAM_CALLBACK_CALLS {
            self.calls = self.calls + 1;
            true
        } else {
            false
        }
    }

    /// Decide what happens to one received chunk: validate it against the
    /// certification fields of its continuation token (unless the raw
    /// bypass was requested), then send and either keep pulling or finish
    /// with it; a chunk that fails validation aborts the stream unsent.
    pub fn on_chunk(&self, token_fields: &Vec<(u32, Vec<u8>)>, body: &[u8], has_next: bool) -> (r:
        StreamStep)
        requires
            self.canister.wf(),
        ensures
            ({
                let valid = self.skip_validation || validate_chunk_spec(
                    token_fields@,
                    self.canister@,
                    self.request_path@,
                    body@,
                ) is Ok;
                if !valid {
                    r == StreamStep::Abort
                } else if has_next {
                    r == StreamStep::SendAndContinue
                } else {
                    r == StreamStep::SendAndFinish
                }
            }),
    {
        if !self.skip_validation {
            match validate_chunk(
                token_fields,
                &self.canister,
                self.request_path.as_slice(),
                body,
            ) {
                Ok(()) => {},
                Err(_) => {
                    return StreamStep::Abort;
                },
            }
        }
        if has_next {
            StreamStep::SendAndContinue
        } else {
            StreamStep::SendAndFinish
        }
    }
}

/// How many continuation calls a pull loop is granted, starting from a
/// given counter, over a number of authorization attempts — the trace of
/// `next_call` under its contract: each grant raises the counter by one,
/// and the loop stops at the first refusal.
pub open spec fn calls_granted(calls: int, attempts: nat) -> int
    decreases attempts,
{
    if attempts == 0 {
        0
    } else if calls < MAX_STREAM_CALLBACK_CALLS {
        1 + calls_granted(calls + 1, (attempts - 1) as nat)
    } else {
        0
    }
}

proof fn lemma_calls_granted_bound(calls: int, attempts: nat)
    requires
        0 <= calls <= MAX_STREAM_CALLBACK_CALLS,
    ensures
        calls_granted(calls, attempts) <= MAX_STREAM_CALLBACK_CALLS - calls,
    decreases attempts,
{
    if attempts > 0 && calls < MAX_STREAM_CALLBACK_CALLS {
        lemma_calls_granted_bound(calls + 1, (attempts - 1) as nat);
    }
}

/// Law (pull-loop ceiling): however long a canister keeps returning
/// continuation tokens — whatever finite number of attempts the loop makes
/// — a pull loop opened fresh is granted at most 1000 continuation calls,
/// and the first refusal ends it.
pub proof fn lemma_pull_loop_ceiling(attempts: nat)
    ensures
        calls_granted(0, attempts) <= MAX_STREAM_CALLBACK_CALLS,
{
    lemma_calls_granted_bound(0, attempts);
}

/// The healthcheck path prefix `/healthcheck`.
pub open spec fn healthcheck_prefix() -> Seq<u8> {
    seq![47u8, 104u8, 101u8, 97u8, 108u8, 116u8, 104u8, 99u8, 104u8, 101u8, 99u8, 107u8]
}

/// A dedicated healthcheck path short-circuits to a fixed 200 `OK` reply
/// without touching resolution or forwarding.
pub fn is_healthcheck(path: &[u8]) -> (r: bool)
    ensures
        r == (path@.len() >= 12 && path@.take(12) == healthcheck_prefix()),
{
    let pat: [u8; 12] = [47, 104, 101, 97, 108, 116, 104, 99, 104, 101, 99, 107];
    if path.len() < 12 {
        return false;
    }
    let head = crate::bytes_util::bytes_subrange(path, 0, 12);
    let eq = crate::bytes_util::slices_equal(head.as_slice(), pat.as_slice());
    proof {
        assert(pat@ =~= healthcheck_prefix());
        assert(head@ =~= path@.take(12));
    }
    eq
}

} // verus!
