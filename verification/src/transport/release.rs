//! How a relay session is given back.
use vstd::prelude::*;

use crate::error::{Error, ErrorKind, Failure};
use crate::shutdown::ShutdownReason;
use crate::text::{copy, find_pattern, find_text, to_chars};
use crate::transport::handshake::{good_response, Came, Event, RelayLease};
use crate::transport::request::{
    build_request, relay_unbind_path, request_text, Stamp, Stamped,
};
use crate::transport::response::{check_response, DHResponse};

verus! {

/// What giving a relay session back is waiting for.
#[derive(Clone, Copy, Debug, PartialEq, Eq, Structural)]
pub enum ReleaseStage {
    /// That the socket is connected to the relay.
    Connect,
    /// That the request is sent.
    Send,
    /// The answer.
    Read,
}

/// What became of it.
pub enum ReleaseNote {
    Acknowledged,
    /// The relay had dropped the session before.
    AlreadyExpired,
    /// The relay complained; nothing more can be done.
    Complaint(String),
    /// No answer came; none is needed.
    Silence,
}

/// What to do next.
pub enum ReleaseStep {
    Request(String),
    Read,
    Done(ReleaseNote),
    Fail(Error),
}

/// What became of it, as contracts speak of it.
pub enum Noted {
    Acknowledged,
    AlreadyExpired,
    Complaint(Seq<char>),
    Silence,
}

/// What to do next, as contracts speak of it.
pub enum Stepped {
    Request(Seq<char>),
    Read,
    Done(Noted),
    Fail(Failure),
}

impl View for ReleaseNote {
    type V = Noted;

    open spec fn view(&self) -> Noted {
        match *self {
            ReleaseNote::Acknowledged => Noted::Acknowledged,
            ReleaseNote::AlreadyExpired => Noted::AlreadyExpired,
            ReleaseNote::Complaint(m) => Noted::Complaint(m@),
            ReleaseNote::Silence => Noted::Silence,
        }
    }
}

impl View for ReleaseStep {
    type V = Stepped;

    open spec fn view(&self) -> Stepped {
        match *self {
            ReleaseStep::Request(text) => Stepped::Request(text@),
            ReleaseStep::Read => Stepped::Read,
            ReleaseStep::Done(note) => Stepped::Done(note@),
            ReleaseStep::Fail(e) => Stepped::Fail(e@),
        }
    }
}

/// A complaint of the relay. After the camera refused what was sent, a 403 only says that the
/// session had expired.
pub open spec fn complained(reason: ShutdownReason, message: Seq<char>) -> Noted {
    if reason == ShutdownReason::RestartPtcpSendRefused && find_text(message, "403"@) is Some {
        Noted::AlreadyExpired
    } else {
        Noted::Complaint(message)
    }
}

/// What to do next, after `came` in a stage.
pub open spec fn released(
    token: Seq<char>,
    stage: ReleaseStage,
    reason: ShutdownReason,
    came: Came,
    stamp: Stamped,
) -> Stepped {
    match stage {
        ReleaseStage::Connect => match came {
            Came::TimedOut => Stepped::Fail(
                Failure {
                    kind: ErrorKind::TimedOut,
                    message: "timed out connecting to relay server"@,
                },
            ),
            Came::Failed(f) => Stepped::Fail(f),
            _ => Stepped::Request(request_text("/relay/unbind/"@ + token, None, stamp, 1)),
        },
        ReleaseStage::Send => match came {
            Came::TimedOut => Stepped::Fail(
                Failure { kind: ErrorKind::TimedOut, message: "timed out sending /relay/unbind"@ },
            ),
            Came::Failed(f) => Stepped::Fail(f),
            _ => Stepped::Read,
        },
        ReleaseStage::Read => Stepped::Done(
            match came {
                Came::Data(d) => match good_response(d) {
                    Ok(_) => Noted::Acknowledged,
                    Err(e) => complained(reason, e),
                },
                Came::Failed(f) => complained(reason, f.message),
                _ => Noted::Silence,
            },
        ),
    }
}

fn complain(reason: ShutdownReason, message: String) -> (n: ReleaseNote)
    ensures
        n@ == complained(reason, message@),
{
    let text = to_chars(message.as_str());
    let code = to_chars("403");
    if reason.is_ptcp_send_refused() && find_pattern(text.as_slice(), code.as_slice()).is_some() {
        ReleaseNote::AlreadyExpired
    } else {
        ReleaseNote::Complaint(message)
    }
}

impl RelayLease {
    /// What to do next to give the session back, after `event` in a stage. A relay that does not
    /// answer, or that complains, is left alone: only a failure to send is one.
    pub fn release(
        &self,
        stage: ReleaseStage,
        reason: ShutdownReason,
        event: Event,
        stamp: &Stamp,
    ) -> (s: ReleaseStep)
        ensures
            s@ == released(self.token@, stage, reason, event@, stamp@),
    {
        match stage {
            ReleaseStage::Connect => match event {
                Event::TimedOut => ReleaseStep::Fail(
                    Error {
                        kind: ErrorKind::TimedOut,
                        message: copy("timed out connecting to relay server"),
                    },
                ),
                Event::Failed(e) => ReleaseStep::Fail(e),
                _ => {
                    let path = relay_unbind_path(self.token.as_str());
                    ReleaseStep::Request(build_request(path.as_str(), None, stamp, 1))
                },
            },
            ReleaseStage::Send => match event {
                Event::TimedOut => ReleaseStep::Fail(
                    Error {
                        kind: ErrorKind::TimedOut,
                        message: copy("timed out sending /relay/unbind"),
                    },
                ),
                Event::Failed(e) => ReleaseStep::Fail(e),
                _ => ReleaseStep::Read,
            },
            ReleaseStage::Read => ReleaseStep::Done(
                match event {
                    Event::Data(d) => match DHResponse::parse_datagram(d.as_slice()) {
                        Ok(res) => match check_response(res) {
                            Ok(_) => ReleaseNote::Acknowledged,
                            Err(e) => complain(reason, e.message),
                        },
                        Err(e) => complain(reason, e.message),
                    },
                    Event::Failed(e) => complain(reason, e.message),
                    _ => ReleaseNote::Silence,
                },
            ),
        }
    }
}

/// Once the request is sent, giving a session back succeeds whatever the relay answers, or if it
/// does not answer.
pub proof fn law_release_needs_no_answer(
    token: Seq<char>,
    reason: ShutdownReason,
    came: Came,
    stamp: Stamped,
)
    ensures
        released(token, ReleaseStage::Read, reason, came, stamp) is Done,
{
}

} // verus!
