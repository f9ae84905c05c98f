//! What giving a relay session back comes to.
use vstd::prelude::*;

use crate::error::ErrorKind;
use crate::shutdown::ShutdownReason;
use crate::text::dec;
use crate::text_laws::{law_first_text_is_found, occurs_at};
use crate::transport::course_laws::{gets, lemma_gets};
use crate::transport::handshake::{Event, RelayLease};
use crate::transport::message_laws::{has_line, law_requests_are_signed};
use crate::transport::ptcp::text_of;
use crate::transport::release::{Noted, ReleaseStage, ReleaseStep, Stepped};
use crate::transport::request::{request_text, Stamp};
use crate::transport::response::{error_response_text, response_of};

verus! {

/// The message says 403 somewhere.
pub open spec fn says_403(message: Seq<char>) -> bool {
    exists|i: int| #[trigger] occurs_at(message, "403"@, i)
}

/// To give a session back its relay is asked to unbind its token, and nothing else. What stands in
/// the way of that is a failure.
pub proof fn law_a_session_is_unbound_by_its_token(
    lease: &RelayLease,
    reason: ShutdownReason,
    event: Event,
    stamp: &Stamp,
    s: ReleaseStep,
)
    requires
        call_ensures(
            RelayLease::release,
            (lease, ReleaseStage::Connect, reason, event, stamp),
            s,
        ),
    ensures
        event matches Event::Failed(e) ==> (s matches ReleaseStep::Fail(f) && f@ == e@),
        event is TimedOut ==> (s matches ReleaseStep::Fail(f) && f.kind == ErrorKind::TimedOut),
        event is Done ==> (s matches ReleaseStep::Request(text) && gets(
            text@,
            "/relay/unbind/"@ + lease.token@,
        ) && has_line(text@, "CSeq: "@ + dec(1))),
{
    if event is Done {
        let path = "/relay/unbind/"@ + lease.token@;
        lemma_gets(path, stamp@, 1);
        law_requests_are_signed(path, None, stamp@, 1);
        assert(s@ == Stepped::Request(request_text(path, None, stamp@, 1)));
    }
}

/// Once the request is on its way an answer is waited for, and whatever comes of that the session is
/// given back.
pub proof fn law_a_session_is_given_back(
    lease: &RelayLease,
    reason: ShutdownReason,
    event: Event,
    stamp: &Stamp,
    sent: ReleaseStep,
    s: ReleaseStep,
)
    requires
        call_ensures(RelayLease::release, (lease, ReleaseStage::Send, reason, event, stamp), sent),
        call_ensures(RelayLease::release, (lease, ReleaseStage::Read, reason, event, stamp), s),
    ensures
        event is Done ==> sent is Read,
        event matches Event::Failed(e) ==> (sent matches ReleaseStep::Fail(f) && f@ == e@),
        event is TimedOut ==> (sent matches ReleaseStep::Fail(f) && f.kind
            == ErrorKind::TimedOut),
        s is Done,
        event is TimedOut ==> s@ == Stepped::Done(Noted::Silence),
        event matches Event::Failed(e) ==> s@ == Stepped::Done(
            if reason == ShutdownReason::RestartPtcpSendRefused && says_403(e.message@) {
                Noted::AlreadyExpired
            } else {
                Noted::Complaint(e.message@)
            },
        ),
        event matches Event::Data(d) ==> match response_of(text_of(d@)) {
            Ok(res) => {
                &&& res.code < 300 ==> s@ == Stepped::Done(Noted::Acknowledged)
                &&& res.code >= 300 && reason != ShutdownReason::RestartPtcpSendRefused ==> (
                s@ matches Stepped::Done(note) && note is Complaint)
                &&& res.code == 403 && reason == ShutdownReason::RestartPtcpSendRefused ==> s@
                    == Stepped::Done(Noted::AlreadyExpired)
                &&& res.code >= 300 ==> s@ != Stepped::Done(Noted::Acknowledged) && s@
                    != Stepped::Done(Noted::Silence)
            },
            Err(_) => s@ != Stepped::Done(Noted::Acknowledged) && s@ != Stepped::Done(
                Noted::Silence,
            ),
        },
{
    match event {
        Event::Failed(e) => {
            law_first_text_is_found(e.message@, "403"@);
        },
        Event::Data(d) => {
            if let Ok(res) = response_of(text_of(d@)) {
                if res.code == 403 {
                    lemma_says_403(res.status);
                    let message = error_response_text(res.status, 403);
                    law_first_text_is_found(message, "403"@);
                }
            }
        },
        _ => {},
    }
}

proof fn lemma_says_403(status: Seq<char>)
    ensures
        says_403(error_response_text(status, 403)),
{
    reveal_strlit("403");
    reveal_with_fuel(dec, 4);
    let number = dec(403);
    assert(number =~= "403"@);
    let front = "error response: "@ + status + " ("@;
    let message = error_response_text(status, 403);
    assert(message =~= front + number + ")"@);
    let n = front.len() as int;
    assert(message.subrange(n, n + 3) =~= "403"@);
    assert(occurs_at(message, "403"@, n));
}

} // verus!
