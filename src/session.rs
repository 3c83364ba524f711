use crate::resolve::{resolve, resolve_spec};
use crate::sniff::{ascii_eq_ignore_case, eq_ignore_case, sniff, sniff_spec, AddressError, ProxyMode};
use crate::table::AddressTable;
use crate::text::copy_range;
use vstd::prelude::*;
use vstd::slice::slice_to_vec;
use vstd::string::StringSliceAdditionalSpecFns;

verus! {

/// The reply that acknowledges a tunnel.
pub const TUNNEL_REPLY: &'static str =
    "HTTP/1.1 200 Connection established\r\nHost: Rust Proxy\r\nConnection: keep-alive\r\nContent-Length: 0\r\n\r\n";

/// The bytes of the tunnel acknowledgement.
pub open spec fn tunnel_reply() -> Seq<u8> {
    TUNNEL_REPLY.spec_bytes()
}

/// The target that asks for each connection's request to be sniffed.
pub open spec fn sniff_word() -> Seq<u8> {
    seq!['p' as u8, 'r' as u8, 'o' as u8, 'x' as u8, 'y' as u8]
}

/// What to do for one connection once its destination is known.
pub struct Plan {
    /// Where to dial.
    pub destination: Vec<u8>,
    /// What the client gets once the dial succeeded.
    pub reply: Vec<u8>,
    /// What the destination gets first.
    pub forward: Vec<u8>,
}

/// The destination, the reply to the client and the bytes for the
/// destination that a connection's first bytes call for.
pub open spec fn plan_spec(t: Map<Seq<u8>, Seq<u8>>, data: Seq<u8>) -> Result<
    (Seq<u8>, Seq<u8>, Seq<u8>),
    AddressError,
> {
    match sniff_spec(data) {
        Err(e) => Err(e),
        Ok(s) => Ok(
            (
                resolve_spec(t, s.1),
                if s.0 == ProxyMode::Tunnel {
                    tunnel_reply()
                } else {
                    Seq::empty()
                },
                s.2,
            ),
        ),
    }
}

/// The bytes of the tunnel acknowledgement.
pub fn tunnel_reply_bytes() -> (r: Vec<u8>)
    ensures
        r@ == tunnel_reply(),
{
    slice_to_vec(TUNNEL_REPLY.as_bytes())
}

/// Whether a configured target asks for sniffing rather than naming a
/// fixed address.
pub fn is_sniff_target(target: &[u8]) -> (r: bool)
    ensures
        r == eq_ignore_case(target@, sniff_word()),
{
    let w = vec!['p' as u8, 'r' as u8, 'o' as u8, 'x' as u8, 'y' as u8];
    assert(w@ =~= sniff_word());
    ascii_eq_ignore_case(target, &w)
}

/// What a connection's first bytes call for: the destination after the
/// overrides, the acknowledgement for a tunnel, and the request to
/// forward.
pub fn plan_request(data: &[u8], table: &AddressTable) -> (r: Result<Plan, AddressError>)
    ensures
        match r {
            Ok(p) => plan_spec(table@, data@) == Ok::<_, AddressError>(
                (p.destination@, p.reply@, p.forward@),
            ),
            Err(e) => plan_spec(table@, data@) == Err::<(Seq<u8>, Seq<u8>, Seq<u8>), _>(e),
        },
{
    match sniff(data) {
        Err(e) => Err(e),
        Ok(s) => {
            let destination = resolve(&s.destination, table);
            let reply = match s.mode {
                ProxyMode::Tunnel => tunnel_reply_bytes(),
                ProxyMode::Rewrite => Vec::new(),
            };
            assert(s.mode == ProxyMode::Rewrite ==> reply@ =~= Seq::<u8>::empty());
            Ok(Plan { destination, reply, forward: s.request })
        },
    }
}

/// Which relay direction ended first.
#[derive(Debug, Clone, Copy, PartialEq, Eq, Structural)]
pub enum Side {
    /// The copy from the destination to the client.
    Upstream,
    /// The copy from the client to the destination.
    Client,
}

/// How a connection ended.
#[derive(Debug, Clone, Copy, PartialEq, Eq, Structural)]
pub enum Outcome {
    ServerClosed,
    ClientClosed,
    TargetUnreachable(AddressError),
}

/// The short tag that reports an outcome.
pub open spec fn outcome_tag_spec(o: Outcome) -> Seq<char> {
    match o {
        Outcome::ServerClosed => "server closed"@,
        Outcome::ClientClosed => "client closed"@,
        Outcome::TargetUnreachable(_) => "target unreachable"@,
    }
}

/// The short tag that reports an outcome.
pub fn outcome_tag(o: Outcome) -> (r: &'static str)
    ensures
        r@ == outcome_tag_spec(o),
{
    match o {
        Outcome::ServerClosed => "server closed",
        Outcome::ClientClosed => "client closed",
        Outcome::TargetUnreachable(_) => "target unreachable",
    }
}

/// The outcome of a relay whose `first` direction ended first.
pub open spec fn relay_outcome(first: Side) -> Outcome {
    match first {
        Side::Upstream => Outcome::ServerClosed,
        Side::Client => Outcome::ClientClosed,
    }
}

/// Where a connection stands.
#[derive(Debug, Clone, Copy, PartialEq, Eq, Structural)]
pub enum Phase {
    Accepted,
    Sniffing,
    Dialing,
    Relaying,
    Closed,
}

/// What happened to a connection.
pub enum Event {
    /// The connection was accepted.
    Opened,
    /// The first bytes arrived from the client.
    Received(Vec<u8>),
    /// The outbound connection is open.
    Dialed,
    /// The outbound connection could not be opened.
    DialFailed(AddressError),
    /// One relay direction ended.
    Finished(Side),
}

/// What the connection's driver does next.
pub enum Action {
    /// Read the client's first bytes.
    ReadRequest,
    /// Open an outbound connection to this destination.
    Dial(Vec<u8>),
    /// Send `to_client` to the client and `to_upstream` to the destination,
    /// then relay in both directions.
    Relay { to_client: Vec<u8>, to_upstream: Vec<u8> },
    /// Drop the connection, reporting the outcome.
    Close(Outcome),
    /// Nothing: the event does not belong to the current phase.
    Wait,
}

/// The decisions of one connection, from acceptance to closing.
pub struct Connection {
    pub phase: Phase,
    /// The fixed target, or the word that asks for sniffing.
    pub target: Vec<u8>,
    /// The reply and request owed once the dial succeeds.
    pub reply: Vec<u8>,
    pub forward: Vec<u8>,
}

impl Connection {
    /// A connection just accepted, for the configured target.
    pub fn new(target: &[u8]) -> (r: Connection)
        ensures
            r.phase == Phase::Accepted,
            r.target@ == target@,
            r.reply@ == Seq::<u8>::empty(),
            r.forward@ == Seq::<u8>::empty(),
    {
        assert(target@.subrange(0, target@.len() as int) =~= target@);
        Connection {
            phase: Phase::Accepted,
            target: copy_range(target, 0, target.len()),
            reply: Vec::new(),
            forward: Vec::new(),
        }
    }

    /// Takes one event and says what to do.
    pub fn step(&mut self, event: Event, table: &AddressTable) -> (r: Action)
        ensures
            final(self).target@ == old(self).target@,
            match (old(self).phase, event) {
                (Phase::Accepted, Event::Opened) => if eq_ignore_case(
                    old(self).target@,
                    sniff_word(),
                ) {
                    final(self).phase == Phase::Sniffing && r == Action::ReadRequest
                } else {
                    &&& final(self).phase == Phase::Dialing
                    &&& r matches Action::Dial(d) && d@ == old(self).target@
                    &&& final(self).reply@ == Seq::<u8>::empty()
                    &&& final(self).forward@ == Seq::<u8>::empty()
                },
                (Phase::Sniffing, Event::Received(data)) => match plan_spec(table@, data@) {
                    Ok(p) => {
                        &&& final(self).phase == Phase::Dialing
                        &&& r matches Action::Dial(d) && d@ == p.0
                        &&& final(self).reply@ == p.1
                        &&& final(self).forward@ == p.2
                    },
                    Err(e) => final(self).phase == Phase::Closed && r == Action::Close(
                        Outcome::TargetUnreachable(e),
                    ),
                },
                (Phase::Dialing, Event::Dialed) => {
                    &&& final(self).phase == Phase::Relaying
                    &&& r matches Action::Relay { to_client, to_upstream }
                    &&& to_client@ == old(self).reply@
                    &&& to_upstream@ == old(self).forward@
                },
                (Phase::Dialing, Event::DialFailed(e)) => final(self).phase == Phase::Closed && r
                    == Action::Close(Outcome::TargetUnreachable(e)),
                (Phase::Relaying, Event::Finished(side)) => final(self).phase == Phase::Closed && r
                    == Action::Close(relay_outcome(side)),
                _ => final(self).phase == old(self).phase && r == Action::Wait,
            },
    {
        match (self.phase, event) {
            (Phase::Accepted, Event::Opened) => {
                if is_sniff_target(&self.target) {
                    self.phase = Phase::Sniffing;
                    Action::ReadRequest
                } else {
                    self.phase = Phase::Dialing;
                    self.reply = Vec::new();
                    self.forward = Vec::new();
                    let t = copy_range(&self.target, 0, self.target.len());
                    assert(self.target@.subrange(0, self.target@.len() as int) =~= self.target@);
                    Action::Dial(t)
                }
            },
            (Phase::Sniffing, Event::Received(data)) => {
                match plan_request(&data, table) {
                    Ok(p) => {
                        self.phase = Phase::Dialing;
                        self.reply = p.reply;
                        self.forward = p.forward;
                        Action::Dial(p.destination)
                    },
                    Err(e) => {
                        self.phase = Phase::Closed;
                        Action::Close(Outcome::TargetUnreachable(e))
                    },
                }
            },
            (Phase::Dialing, Event::Dialed) => {
                self.phase = Phase::Relaying;
                let mut to_client: Vec<u8> = Vec::new();
                let mut to_upstream: Vec<u8> = Vec::new();
                std::mem::swap(&mut to_client, &mut self.reply);
                std::mem::swap(&mut to_upstream, &mut self.forward);
                Action::Relay { to_client, to_upstream }
            },
            (Phase::Dialing, Event::DialFailed(e)) => {
                self.phase = Phase::Closed;
                Action::Close(Outcome::TargetUnreachable(e))
            },
            (Phase::Relaying, Event::Finished(side)) => {
                self.phase = Phase::Closed;
                match side {
                    Side::Upstream => Action::Close(Outcome::ServerClosed),
                    Side::Client => Action::Close(Outcome::ClientClosed),
                }
            },
            _ => Action::Wait,
        }
    }
}

/// A connection's first bytes earn the client the tunnel acknowledgement
/// exactly when they are a `CONNECT` request; an absolute-form request gets
/// no reply at all.
pub proof fn lemma_reply_only_for_tunnel(t: Map<Seq<u8>, Seq<u8>>, data: Seq<u8>)
    requires
        sniff_spec(data) is Ok,
    ensures
        plan_spec(t, data) is Ok,
        sniff_spec(data)->Ok_0.0 == ProxyMode::Tunnel ==> plan_spec(t, data)->Ok_0.1
            == tunnel_reply(),
        sniff_spec(data)->Ok_0.0 == ProxyMode::Rewrite ==> plan_spec(t, data)->Ok_0.1
            == Seq::<u8>::empty(),
{
}

} // verus!
