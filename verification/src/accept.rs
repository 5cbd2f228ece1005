//! What becomes of a connection that another endpoint opened, by the protocol
//! that it asks for.

use crate::buffers::{be, lemma_be_limits, read_be, from_be};
use crate::membership::opt_text;
use crate::text::same_text;
use vstd::prelude::*;

verus! {

/// The longest request that is read.
pub const MAX_CONNECT_REQUEST: usize = 65536;

/// How a connection is closed.
#[derive(Clone, Copy, Debug, PartialEq, Eq, Structural)]
pub enum AcceptClose {
    DataplaneDown,
    NotDirect,
    AuthFailed,
    NotCoordinator,
    JoinDone,
    JoinFailed,
    ConnectFailed,
    BadRequest,
    TooLarge,
    MissingGrant,
    GrantDenied,
    UnknownNetwork,
    Served,
}

/// The code and the text that the other end sees.
pub open spec fn close_words(c: AcceptClose) -> (u32, Seq<char>) {
    match c {
        AcceptClose::DataplaneDown => (1, "dataplane_down"@),
        AcceptClose::NotDirect => (0, "not_direct"@),
        AcceptClose::AuthFailed => (401, "auth_failed"@),
        AcceptClose::NotCoordinator => (0, "not_coordinator"@),
        AcceptClose::JoinDone => (0, "join_done"@),
        AcceptClose::JoinFailed => (401, "join_failed"@),
        AcceptClose::ConnectFailed => (1, "connect_failed"@),
        AcceptClose::BadRequest => (1, "bad_request"@),
        AcceptClose::TooLarge => (1, "too_large"@),
        AcceptClose::MissingGrant => (401, "missing_grant"@),
        AcceptClose::GrantDenied => (401, "grant_denied"@),
        AcceptClose::UnknownNetwork => (401, "unknown_network"@),
        AcceptClose::Served => (0, "ok"@),
    }
}

impl AcceptClose {
    pub fn words(&self) -> (r: (u32, &'static str))
        ensures
            (r.0, r.1@) == close_words(*self),
    {
        match *self {
            AcceptClose::DataplaneDown => (1, "dataplane_down"),
            AcceptClose::NotDirect => (0, "not_direct"),
            AcceptClose::AuthFailed => (401, "auth_failed"),
            AcceptClose::NotCoordinator => (0, "not_coordinator"),
            AcceptClose::JoinDone => (0, "join_done"),
            AcceptClose::JoinFailed => (401, "join_failed"),
            AcceptClose::ConnectFailed => (1, "connect_failed"),
            AcceptClose::BadRequest => (1, "bad_request"),
            AcceptClose::TooLarge => (1, "too_large"),
            AcceptClose::MissingGrant => (401, "missing_grant"),
            AcceptClose::GrantDenied => (401, "grant_denied"),
            AcceptClose::UnknownNetwork => (401, "unknown_network"),
            AcceptClose::Served => (0, "ok"),
        }
    }
}

/// A tunnel connection is taken while a data plane is in view that was not
/// cancelled, and closed otherwise.
pub fn tunnel_accept(published: bool, cancelled: bool) -> (r: Option<AcceptClose>)
    ensures
        r == if published && !cancelled {
            None
        } else {
            Some(AcceptClose::DataplaneDown)
        },
{
    if published && !cancelled {
        None
    } else {
        Some(AcceptClose::DataplaneDown)
    }
}

/// An authorisation is served by a direct node only. The outcome is there once
/// the handshake was run; only a failure closes the connection.
pub fn auth_accept(is_direct: bool, outcome: Option<bool>) -> (r: Option<AcceptClose>)
    ensures
        r == if !is_direct {
            Some(AcceptClose::NotDirect)
        } else if outcome == Some(false) {
            Some(AcceptClose::AuthFailed)
        } else {
            None
        },
{
    if !is_direct {
        return Some(AcceptClose::NotDirect);
    }
    match outcome {
        Some(ok) => if ok {
            None
        } else {
            Some(AcceptClose::AuthFailed)
        },
        None => None,
    }
}

/// How a request to join ended.
#[derive(Clone, Copy, Debug, PartialEq, Eq, Structural)]
pub enum JoinOutcome {
    /// The endpoint was admitted to this network, where it is named.
    Admitted(Option<u128>),
    /// Someone has to decide; of which network, where it is named.
    Pending(Option<u128>),
    Other,
    Failed,
}

/// What follows a request to join.
#[derive(Clone, Copy, Debug, PartialEq, Eq, Structural)]
pub struct JoinEnd {
    /// Bring the running node in line with this network's members.
    pub project: Option<u128>,
    /// Tell the user that someone asks to join this network.
    pub announce: Option<u128>,
    pub close: AcceptClose,
}

/// What follows a request to join. Members are brought in line only where
/// authorisations are kept and the network is one that is coordinated here.
pub fn join_ended(outcome: JoinOutcome, keeps_auth: bool, coordinated_here: bool) -> (r: JoinEnd)
    ensures
        r == (JoinEnd {
            project: match outcome {
                JoinOutcome::Admitted(network) => if keeps_auth && coordinated_here {
                    network
                } else {
                    None
                },
                _ => None,
            },
            announce: match outcome {
                JoinOutcome::Pending(network) => network,
                _ => None,
            },
            close: if outcome == JoinOutcome::Failed {
                AcceptClose::JoinFailed
            } else {
                AcceptClose::JoinDone
            },
        }),
{
    let project = match outcome {
        JoinOutcome::Admitted(network) => if keeps_auth && coordinated_here {
            network
        } else {
            None
        },
        _ => None,
    };
    let announce = match outcome {
        JoinOutcome::Pending(network) => network,
        _ => None,
    };
    let close = if outcome == JoinOutcome::Failed {
        AcceptClose::JoinFailed
    } else {
        AcceptClose::JoinDone
    };
    JoinEnd { project, announce, close }
}

/// A node that coordinates no network answers no request to join.
pub fn join_accept(coordinates_any: bool) -> (r: Option<AcceptClose>)
    ensures
        r == if coordinates_any {
            None
        } else {
            Some(AcceptClose::NotCoordinator)
        },
{
    if coordinates_any {
        None
    } else {
        Some(AcceptClose::NotCoordinator)
    }
}

/// What a recording that is offered comes to.
#[derive(Clone, Copy, Debug, PartialEq, Eq, Structural)]
pub enum RecordingStep {
    Ignore,
    /// There is nowhere to keep it, which should not be.
    NoStore,
    Take,
}

/// Recordings are taken where that is switched on and there is a store.
pub fn recording_accept(enabled: bool, has_store: bool) -> (r: RecordingStep)
    ensures
        r == if !enabled {
            RecordingStep::Ignore
        } else if has_store {
            RecordingStep::Take
        } else {
            RecordingStep::NoStore
        },
{
    if !enabled {
        RecordingStep::Ignore
    } else if has_store {
        RecordingStep::Take
    } else {
        RecordingStep::NoStore
    }
}

/// The text under a key of a JSON object, where the bytes are one and hold a
/// text there.
pub uninterp spec fn json_text_at(body: Seq<u8>, key: Seq<char>) -> Option<Seq<char>>;

/// Calls `serde_json::from_slice`, `Value::get` and `Value::as_str`. The
/// outcome depends on the bytes and the key alone.
#[verifier::external_body]
fn json_text(body: &[u8], key: &str) -> (r: Option<String>)
    ensures
        opt_text(r) == json_text_at(body@, key@),
{
    let value: serde_json::Value = serde_json::from_slice(body).ok()?;
    value.get(key)?.as_str().map(|s| s.to_string())
}

/// Whether a request only says that an earlier one was accepted.
pub open spec fn is_acknowledgement(kind: Option<Seq<char>>) -> bool {
    kind == Some("connect_accepted"@)
}

/// Whether a request only says that an earlier one was accepted.
pub fn acknowledges(kind: &Option<String>) -> (r: bool)
    ensures
        r == is_acknowledgement(opt_text(*kind)),
{
    match kind {
        Some(k) => same_text(k.as_str(), "connect_accepted"),
        None => false,
    }
}

/// Who a grant is for.
#[derive(Debug)]
pub struct GrantClaim {
    pub endpoint_id: String,
    pub network_id: u128,
}

/// What is waited for.
#[derive(Clone, Copy, Debug, PartialEq, Eq, Structural)]
pub enum ConnectStage {
    OpenStream,
    ReadLength,
    ReadBody,
    ReadGrant,
    CheckRevoked,
    FindKey,
    VerifyGrant,
    FindNetwork,
    Handle,
    Closed,
}

/// What is asked for, or how the connection ends.
#[derive(Debug)]
pub enum ConnectAsk {
    OpenStream,
    ReadLength,
    /// Read this many bytes.
    ReadBody(usize),
    /// Read the grant out of the body.
    ReadGrant,
    /// Ask whether the other end's grant for this network is revoked.
    CheckRevoked(u128),
    /// Look the key of this network's coordinator up.
    FindKey(u128),
    /// Check the grant with that key, and that it is not too old for this
    /// network.
    VerifyGrant(u128),
    /// Look up what is stored of this network.
    FindNetwork(u128),
    /// Serve the request.
    Handle,
    /// Write these bytes, where there are any, and close.
    Close { reply: Option<Vec<u8>>, close: AcceptClose },
}

pub enum ConnectAskView {
    OpenStream,
    ReadLength,
    ReadBody(usize),
    ReadGrant,
    CheckRevoked(u128),
    FindKey(u128),
    VerifyGrant(u128),
    FindNetwork(u128),
    Handle,
    Close(Option<Seq<u8>>, AcceptClose),
}

impl View for ConnectAsk {
    type V = ConnectAskView;

    open spec fn view(&self) -> ConnectAskView {
        match *self {
            ConnectAsk::OpenStream => ConnectAskView::OpenStream,
            ConnectAsk::ReadLength => ConnectAskView::ReadLength,
            ConnectAsk::ReadBody(n) => ConnectAskView::ReadBody(n),
            ConnectAsk::ReadGrant => ConnectAskView::ReadGrant,
            ConnectAsk::CheckRevoked(id) => ConnectAskView::CheckRevoked(id),
            ConnectAsk::FindKey(id) => ConnectAskView::FindKey(id),
            ConnectAsk::VerifyGrant(id) => ConnectAskView::VerifyGrant(id),
            ConnectAsk::FindNetwork(id) => ConnectAskView::FindNetwork(id),
            ConnectAsk::Handle => ConnectAskView::Handle,
            ConnectAsk::Close { reply: Some(b), close } => ConnectAskView::Close(Some(b@), close),
            ConnectAsk::Close { reply: None, close } => ConnectAskView::Close(None, close),
        }
    }
}

/// An answer. `Ready` is the answer where there is nothing but yes or no.
#[derive(Debug)]
pub enum ConnectReply {
    /// Whether the stream opened, the key or the network is known, the grant is
    /// not revoked or the grant is valid.
    Ready(bool),
    /// The four bytes of the length, where they could be read.
    Length(Option<Vec<u8>>),
    /// The request, where it could be read.
    Body(Option<Vec<u8>>),
    /// Who the grant is for, where there is one.
    Grant(Option<GrantClaim>),
    /// The response, where there is one.
    Handled(Option<Vec<u8>>),
}

pub open spec fn connect_fits(stage: ConnectStage, reply: ConnectReply) -> bool {
    match reply {
        ConnectReply::Ready(_) => stage == ConnectStage::OpenStream || stage
            == ConnectStage::CheckRevoked || stage == ConnectStage::FindKey || stage
            == ConnectStage::VerifyGrant || stage == ConnectStage::FindNetwork,
        ConnectReply::Body(_) => stage == ConnectStage::ReadBody,
        ConnectReply::Length(b) => stage == ConnectStage::ReadLength && (b matches Some(v)
            ==> v@.len() == 4),
        ConnectReply::Grant(_) => stage == ConnectStage::ReadGrant,
        ConnectReply::Handled(b) => stage == ConnectStage::Handle && (b matches Some(v)
            ==> v@.len() <= u32::MAX),
    }
}

/// A response with its length in front, in four bytes.
pub open spec fn framed(response: Seq<u8>) -> Seq<u8> {
    be(response.len(), 4) + response
}

pub open spec fn refuses(close: AcceptClose) -> (ConnectStage, ConnectAskView) {
    (ConnectStage::Closed, ConnectAskView::Close(None, close))
}

/// Where an answer leads. `remote` is the other end's id, `network` the one
/// that its grant is for and `kind` the kind of the request.
pub open spec fn next_connect(
    stage: ConnectStage,
    remote: Seq<char>,
    network: u128,
    kind: Option<Seq<char>>,
    reply: ConnectReply,
) -> (ConnectStage, ConnectAskView) {
    match reply {
        ConnectReply::Length(None) => refuses(AcceptClose::BadRequest),
        ConnectReply::Length(Some(b)) => {
            let n = from_be(b@);
            if n > MAX_CONNECT_REQUEST {
                refuses(AcceptClose::TooLarge)
            } else {
                (ConnectStage::ReadBody, ConnectAskView::ReadBody(n as usize))
            }
        },
        ConnectReply::Body(None) => refuses(AcceptClose::BadRequest),
        ConnectReply::Body(Some(_)) => (ConnectStage::ReadGrant, ConnectAskView::ReadGrant),
        ConnectReply::Grant(None) => refuses(AcceptClose::MissingGrant),
        ConnectReply::Grant(Some(g)) => if g.endpoint_id@ != remote {
            refuses(AcceptClose::GrantDenied)
        } else {
            (ConnectStage::CheckRevoked, ConnectAskView::CheckRevoked(g.network_id))
        },
        ConnectReply::Handled(Some(response)) => (
            ConnectStage::Closed,
            ConnectAskView::Close(Some(framed(response@)), AcceptClose::Served),
        ),
        ConnectReply::Handled(None) => refuses(AcceptClose::ConnectFailed),
        ConnectReply::Ready(yes) => match stage {
            ConnectStage::OpenStream => if yes {
                (ConnectStage::ReadLength, ConnectAskView::ReadLength)
            } else {
                refuses(AcceptClose::ConnectFailed)
            },
            ConnectStage::CheckRevoked => if yes {
                (ConnectStage::FindKey, ConnectAskView::FindKey(network))
            } else {
                refuses(AcceptClose::GrantDenied)
            },
            ConnectStage::FindKey => if yes {
                (ConnectStage::VerifyGrant, ConnectAskView::VerifyGrant(network))
            } else {
                refuses(AcceptClose::UnknownNetwork)
            },
            ConnectStage::VerifyGrant => if yes {
                (ConnectStage::FindNetwork, ConnectAskView::FindNetwork(network))
            } else {
                refuses(AcceptClose::GrantDenied)
            },
            ConnectStage::FindNetwork => if !yes {
                refuses(AcceptClose::UnknownNetwork)
            } else if is_acknowledgement(kind) {
                refuses(AcceptClose::Served)
            } else {
                (ConnectStage::Handle, ConnectAskView::Handle)
            },
            _ => refuses(AcceptClose::ConnectFailed),
        },
    }
}

/// A request to connect, as it is served.
#[derive(Debug)]
pub struct ConnectRun {
    pub remote: String,
    pub stage: ConnectStage,
    /// The network that the grant is for, once it was read.
    pub network_id: u128,
    pub kind: Option<String>,
}

fn close_with(close: AcceptClose) -> (r: ConnectAsk)
    ensures
        r@ == ConnectAskView::Close(None, close),
{
    ConnectAsk::Close { reply: None, close }
}

fn frame_response(response: Vec<u8>) -> (r: Vec<u8>)
    requires
        response@.len() <= u32::MAX,
    ensures
        r@ == framed(response@),
{
    let n: u32 = response.len() as u32;
    let mut out: Vec<u8> = Vec::new();
    let b0: u8 = (n / 0x100_0000) as u8;
    let b1: u8 = ((n / 0x1_0000) % 0x100) as u8;
    let b2: u8 = ((n / 0x100) % 0x100) as u8;
    let b3: u8 = (n % 0x100) as u8;
    out.push(b0);
    out.push(b1);
    out.push(b2);
    out.push(b3);
    proof {
        reveal_with_fuel(be, 5);
        let m = n as nat;
        assert(m / 256 / 256 == m / 0x1_0000) by (nonlinear_arith);
        assert(m / 256 / 256 / 256 == m / 0x100_0000) by (nonlinear_arith);
        assert(out@ =~= be(m, 4));
    }
    let mut response = response;
    out.append(&mut response);
    out
}

impl ConnectRun {
    /// Begins to serve the other end, where requests are served at all.
    pub fn new(remote: &str, is_direct: bool) -> (r: (ConnectRun, ConnectAsk))
        ensures
            r.0.remote@ == remote@,
            r.0.kind is None,
            r.0.stage == if is_direct {
                ConnectStage::OpenStream
            } else {
                ConnectStage::Closed
            },
            r.1@ == if is_direct {
                ConnectAskView::OpenStream
            } else {
                ConnectAskView::Close(None, AcceptClose::NotDirect)
            },
    {
        if is_direct {
            (
                ConnectRun {
                    remote: remote.to_owned(),
                    stage: ConnectStage::OpenStream,
                    network_id: 0,
                    kind: None,
                },
                ConnectAsk::OpenStream,
            )
        } else {
            (
                ConnectRun {
                    remote: remote.to_owned(),
                    stage: ConnectStage::Closed,
                    network_id: 0,
                    kind: None,
                },
                close_with(AcceptClose::NotDirect),
            )
        }
    }

    /// Takes an answer in. The request says of which kind it is.
    pub fn answer(&mut self, reply: ConnectReply) -> (r: ConnectAsk)
        requires
            connect_fits(old(self).stage, reply),
        ensures
            (final(self).stage, r@) == next_connect(
                old(self).stage,
                old(self).remote@,
                old(self).network_id,
                opt_text(old(self).kind),
                reply,
            ),
            final(self).remote == old(self).remote,
            final(self).network_id == match reply {
                ConnectReply::Grant(Some(g)) => if g.endpoint_id@ == old(self).remote@ {
                    g.network_id
                } else {
                    old(self).network_id
                },
                _ => old(self).network_id,
            },
            match reply {
                ConnectReply::Body(Some(body)) => opt_text(final(self).kind) == json_text_at(
                    body@,
                    "type"@,
                ),
                _ => final(self).kind == old(self).kind,
            },
    {
        let (stage, ask): (ConnectStage, ConnectAsk) = match reply {
            ConnectReply::Length(bytes) => match bytes {
                None => (ConnectStage::Closed, close_with(AcceptClose::BadRequest)),
                Some(b) => {
                    proof {
                        lemma_be_limits();
                    }
                    let n: u128 = read_be(b.as_slice(), 0, 4);
                    proof {
                        assert(b@.subrange(0, 4) =~= b@);
                    }
                    if n > 65536 {
                        (ConnectStage::Closed, close_with(AcceptClose::TooLarge))
                    } else {
                        (ConnectStage::ReadBody, ConnectAsk::ReadBody(n as usize))
                    }
                },
            },
            ConnectReply::Body(body) => match body {
                None => (ConnectStage::Closed, close_with(AcceptClose::BadRequest)),
                Some(body) => {
                    self.kind = json_text(body.as_slice(), "type");
                    (ConnectStage::ReadGrant, ConnectAsk::ReadGrant)
                },
            },
            ConnectReply::Grant(grant) => match grant {
                None => (ConnectStage::Closed, close_with(AcceptClose::MissingGrant)),
                Some(g) => if same_text(g.endpoint_id.as_str(), self.remote.as_str()) {
                    self.network_id = g.network_id;
                    (ConnectStage::CheckRevoked, ConnectAsk::CheckRevoked(g.network_id))
                } else {
                    (ConnectStage::Closed, close_with(AcceptClose::GrantDenied))
                },
            },
            ConnectReply::Handled(response) => match response {
                Some(bytes) => (
                    ConnectStage::Closed,
                    ConnectAsk::Close {
                        reply: Some(frame_response(bytes)),
                        close: AcceptClose::Served,
                    },
                ),
                None => (ConnectStage::Closed, close_with(AcceptClose::ConnectFailed)),
            },
            ConnectReply::Ready(yes) => match self.stage {
                ConnectStage::OpenStream => if yes {
                    (ConnectStage::ReadLength, ConnectAsk::ReadLength)
                } else {
                    (ConnectStage::Closed, close_with(AcceptClose::ConnectFailed))
                },
                ConnectStage::CheckRevoked => if yes {
                    (ConnectStage::FindKey, ConnectAsk::FindKey(self.network_id))
                } else {
                    (ConnectStage::Closed, close_with(AcceptClose::GrantDenied))
                },
                ConnectStage::FindKey => if yes {
                    (ConnectStage::VerifyGrant, ConnectAsk::VerifyGrant(self.network_id))
                } else {
                    (ConnectStage::Closed, close_with(AcceptClose::UnknownNetwork))
                },
                ConnectStage::VerifyGrant => if yes {
                    (ConnectStage::FindNetwork, ConnectAsk::FindNetwork(self.network_id))
                } else {
                    (ConnectStage::Closed, close_with(AcceptClose::GrantDenied))
                },
                ConnectStage::FindNetwork => if !yes {
                    (ConnectStage::Closed, close_with(AcceptClose::UnknownNetwork))
                } else if acknowledges(&self.kind) {
                    (ConnectStage::Closed, close_with(AcceptClose::Served))
                } else {
                    (ConnectStage::Handle, ConnectAsk::Handle)
                },
                _ => (ConnectStage::Closed, close_with(AcceptClose::ConnectFailed)),
            },
        };
        self.stage = stage;
        ask
    }
}

/// A request is served only after the grant was found to be the other end's
/// own, was not revoked, its network's key was known, the grant was valid and
/// the network was known: each of these stages is entered only by a yes to
/// the one before.
pub proof fn law_only_granted_requests_are_served(
    stage: ConnectStage,
    remote: Seq<char>,
    network: u128,
    kind: Option<Seq<char>>,
    reply: ConnectReply,
)
    requires
        connect_fits(stage, reply),
    ensures
        next_connect(stage, remote, network, kind, reply).0 == ConnectStage::Handle ==> stage
            == ConnectStage::FindNetwork && reply == ConnectReply::Ready(true),
        next_connect(stage, remote, network, kind, reply).0 == ConnectStage::FindNetwork ==> stage
            == ConnectStage::VerifyGrant && reply == ConnectReply::Ready(true),
        next_connect(stage, remote, network, kind, reply).0 == ConnectStage::VerifyGrant ==> stage
            == ConnectStage::FindKey && reply == ConnectReply::Ready(true),
        next_connect(stage, remote, network, kind, reply).0 == ConnectStage::FindKey ==> stage
            == ConnectStage::CheckRevoked && reply == ConnectReply::Ready(true),
        next_connect(stage, remote, network, kind, reply).0 == ConnectStage::CheckRevoked ==> (
        reply matches ConnectReply::Grant(Some(g)) && g.endpoint_id@ == remote),
{
}

} // verus!
