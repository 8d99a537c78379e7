//! The state of one connection: what the VM has told about itself so far, and which
//! requests still wait for their reply.

use crate::jdwp::capabilities::{merge_legacy, Capabilities};
use crate::jdwp::codec::IDSizes;
use crate::jdwp::error::Error;
use crate::jdwp::packet::{lemma_packet_round_trip, take_packet, Packet, PacketView};
use crate::jdwp::protocol::{Command, Reply, ReplyView};
use std::collections::HashMap;
use vstd::prelude::*;
use vstd::slice::{slice_subrange, slice_to_vec};

verus! {

broadcast use vstd::std_specs::hash::group_hash_axioms;

/// A packet whose payload has been understood.
#[derive(Debug, PartialEq, Eq)]
pub enum DeserializedPacket {
    /// A command that the peer sent on its own, with its request id.
    Command(u32, Command),
    /// The reply to the request with this id.
    Reply(u32, Reply),
    /// The error with which the peer answered the request with this id.
    Error(u32, Error),
}

/// A deserialized packet as a mathematical value.
pub enum DeserializedPacketView {
    Command(u32, Command),
    Reply(u32, ReplyView),
    Error(u32, Error),
}

impl View for DeserializedPacket {
    type V = DeserializedPacketView;

    open spec fn view(&self) -> DeserializedPacketView {
        match self {
            DeserializedPacket::Command(id, c) => DeserializedPacketView::Command(*id, *c),
            DeserializedPacket::Reply(id, r) => DeserializedPacketView::Reply(*id, r@),
            DeserializedPacket::Error(id, e) => DeserializedPacketView::Error(*id, *e),
        }
    }
}

/// The state of a connection as a mathematical value.
pub struct StateView {
    /// The id that the next command will carry.
    pub id: u32,
    pub idsizes: IDSizes,
    pub name: Seq<char>,
    pub version: Seq<char>,
    pub description: Seq<char>,
    pub major: i32,
    pub minor: i32,
    pub capabilities: Capabilities,
    /// The requests in flight: for each id, the command set and command that it carried.
    pub pending: Map<u32, (u8, u8)>,
    /// Whether a version reply has been cached.
    pub version_known: bool,
    /// Whether a capability reply, legacy or extended, has been cached.
    pub capabilities_known: bool,
    /// Whether an identifier-size reply has been cached.
    pub idsizes_known: bool,
}

impl StateView {
    /// The state of a connection on which nothing has happened yet.
    pub open spec fn initial() -> StateView {
        StateView {
            id: 0,
            idsizes: IDSizes { field: 0, method: 0, object: 0, reference_type: 0, frame: 0 },
            name: Seq::empty(),
            version: Seq::empty(),
            description: Seq::empty(),
            major: 0,
            minor: 0,
            capabilities: Capabilities { bits: 0 },
            pending: Map::empty(),
            version_known: false,
            capabilities_known: false,
            idsizes_known: false,
        }
    }

    /// Request ids are handed out in order and never twice: every request in flight
    /// has an id below the next one.
    pub open spec fn consistent(self) -> bool {
        &&& self.pending.dom().finite()
        &&& forall|k: u32| self.pending.contains_key(k) ==> k < self.id
    }

    /// Whether the cached version is `major.minor` or later.
    pub open spec fn supports_version(self, major: i32, minor: i32) -> bool {
        self.major > major || (self.major == major && self.minor >= minor)
    }

    /// The command that asks for the capabilities: the extended one from version 1.4
    /// on, the legacy one before.
    pub open spec fn capabilities_command(self) -> Command {
        if self.supports_version(1, 4) {
            Command::CapabilitiesNew
        } else {
            Command::Capabilities
        }
    }

    /// Whether version, capabilities and identifier sizes are all known.
    pub open spec fn ready(self) -> bool {
        self.version_known && self.capabilities_known && self.idsizes_known
    }

    /// The packet that carries `cmd` as the next request.
    pub open spec fn command_packet(self, cmd: Command) -> PacketView {
        PacketView::Command {
            id: self.id,
            set: cmd.selector().0,
            cmd: cmd.selector().1,
            data: Seq::empty(),
        }
    }

    /// The state after `cmd` has been written in full: it is in flight under the id
    /// that was next, and the next id is one higher.
    pub open spec fn sent(self, cmd: Command) -> StateView
        recommends
            self.id < u32::MAX,
    {
        StateView {
            id: (self.id + 1) as u32,
            pending: self.pending.insert(self.id, cmd.selector()),
            ..self
        }
    }

    /// The state after a decoded reply has been cached. A legacy capability reply
    /// overwrites the first seven flags only; every other reply replaces its fields.
    pub open spec fn cache(self, reply: ReplyView) -> StateView {
        match reply {
            ReplyView::Version { description, major, minor, version, name } => StateView {
                name,
                description,
                version,
                major,
                minor,
                version_known: true,
                ..self
            },
            ReplyView::Capabilities(c) => StateView {
                capabilities: Capabilities { bits: merge_legacy(self.capabilities.bits, c.bits) },
                capabilities_known: true,
                ..self
            },
            ReplyView::CapabilitiesNew(c) => StateView {
                capabilities: c,
                capabilities_known: true,
                ..self
            },
            ReplyView::IDSizes { field, method, object, reference_type, frame } => StateView {
                idsizes: IDSizes { field, method, object, reference_type, frame },
                idsizes_known: true,
                ..self
            },
        }
    }

    /// The state without the request `id` in flight.
    pub open spec fn answered(self, id: u32) -> StateView {
        StateView { pending: self.pending.remove(id), ..self }
    }

    /// What a received packet does to the state, and what it is understood as.
    ///
    /// A command of the peer is recognised by its set and number and changes nothing.
    /// A reply without error must answer a request in flight, else it is turned down
    /// as `IllegalArgument` and changes nothing; the request is no longer in flight
    /// afterwards, the payload is decoded as the reply to the command that the request
    /// carried, and what it says is cached. A reply with an error code takes its
    /// request, if there is one, out of flight; a code outside the table is
    /// `Unimplemented`.
    pub open spec fn receive(self, packet: PacketView) -> (
        StateView,
        Result<DeserializedPacketView, Error>,
    ) {
        match packet {
            PacketView::Command { id, set, cmd, data } => match Command::from_selector(set, cmd) {
                Some(c) => (self, Ok(DeserializedPacketView::Command(id, c))),
                None => (self, Err(Error::Unimplemented)),
            },
            PacketView::Reply { id, error, data } => {
                if error == 0 {
                    if self.pending.contains_key(id) {
                        let (set, cmd) = self.pending[id];
                        match ReplyView::parse(set, cmd, data) {
                            Ok(reply) => (
                                self.answered(id).cache(reply),
                                Ok(DeserializedPacketView::Reply(id, reply)),
                            ),
                            Err(e) => (self.answered(id), Err(e)),
                        }
                    } else {
                        (self, Err(Error::IllegalArgument))
                    }
                } else {
                    match Error::from_code(error) {
                        Some(e) => (self.answered(id), Ok(DeserializedPacketView::Error(id, e))),
                        None => (self.answered(id), Err(Error::Unimplemented)),
                    }
                }
            },
        }
    }
}

/// The state of one connection. It is made empty when the connection is, filled as
/// replies arrive, and dropped with the connection.
pub struct State {
    id: u32,
    idsizes: IDSizes,
    name: String,
    version: String,
    description: String,
    major: i32,
    minor: i32,
    capabilities: Capabilities,
    pending: HashMap<u32, (u8, u8)>,
    version_known: bool,
    capabilities_known: bool,
    idsizes_known: bool,
}

impl View for State {
    type V = StateView;

    closed spec fn view(&self) -> StateView {
        StateView {
            id: self.id,
            idsizes: self.idsizes,
            name: self.name@,
            version: self.version@,
            description: self.description@,
            major: self.major,
            minor: self.minor,
            capabilities: self.capabilities,
            pending: self.pending@,
            version_known: self.version_known,
            capabilities_known: self.capabilities_known,
            idsizes_known: self.idsizes_known,
        }
    }
}

impl Default for State {
    /// The state of a fresh connection.
    fn default() -> (state: State)
        ensures
            state@ == StateView::initial(),
            state@.consistent(),
    {
        State::new()
    }
}

impl State {
    /// The state of a fresh connection.
    pub fn new() -> (state: State)
        ensures
            state@ == StateView::initial(),
            state@.consistent(),
    {
        State {
            id: 0,
            idsizes: IDSizes { field: 0, method: 0, object: 0, reference_type: 0, frame: 0 },
            name: String::new(),
            version: String::new(),
            description: String::new(),
            major: 0,
            minor: 0,
            capabilities: Capabilities { bits: 0 },
            pending: HashMap::new(),
            version_known: false,
            capabilities_known: false,
            idsizes_known: false,
        }
    }

    /// The id that the next command will carry.
    pub fn next_id(&self) -> (id: u32)
        ensures
            id == self@.id,
    {
        self.id
    }

    /// The identifier widths that the VM reported; all zero before it did.
    pub fn idsizes(&self) -> (sizes: IDSizes)
        ensures
            sizes == self@.idsizes,
    {
        self.idsizes
    }

    /// The name of the VM; empty before a version reply.
    pub fn name(&self) -> (name: &String)
        ensures
            name@ == self@.name,
    {
        &self.name
    }

    /// The version string of the VM; empty before a version reply.
    pub fn version(&self) -> (version: &String)
        ensures
            version@ == self@.version,
    {
        &self.version
    }

    /// The description of the VM; empty before a version reply.
    pub fn description(&self) -> (description: &String)
        ensures
            description@ == self@.description,
    {
        &self.description
    }

    /// The major protocol version of the VM; zero before a version reply.
    pub fn major(&self) -> (major: i32)
        ensures
            major == self@.major,
    {
        self.major
    }

    /// The minor protocol version of the VM; zero before a version reply.
    pub fn minor(&self) -> (minor: i32)
        ensures
            minor == self@.minor,
    {
        self.minor
    }

    /// The capabilities that the VM reported; none before it did.
    pub fn capabilities(&self) -> (capabilities: Capabilities)
        ensures
            capabilities == self@.capabilities,
    {
        self.capabilities
    }

    /// Whether the request `id` is in flight.
    pub fn is_pending(&self, id: u32) -> (waiting: bool)
        ensures
            waiting == self@.pending.contains_key(id),
    {
        self.pending.contains_key(&id)
    }

    /// The number of requests in flight.
    pub fn replies_left(&self) -> (left: usize)
        ensures
            left == self@.pending.len(),
    {
        self.pending.len()
    }

    /// Whether the VM speaks version `major.minor` of the protocol or a later one,
    /// going by the version reply that was cached.
    pub fn supports_version(&self, major: i32, minor: i32) -> (supported: bool)
        ensures
            supported == self@.supports_version(major, minor),
    {
        self.major > major || (self.major == major && self.minor >= minor)
    }

    /// Chooses the command that asks for the capabilities: the extended one if the VM
    /// speaks version 1.4 or later, the legacy one otherwise.
    pub fn capabilities_command(&self) -> (cmd: Command)
        ensures
            cmd == self@.capabilities_command(),
    {
        if self.supports_version(1, 4) {
            Command::CapabilitiesNew
        } else {
            Command::Capabilities
        }
    }

    /// Whether the bootstrap is over: version, capabilities and identifier sizes
    /// have all been reported.
    pub fn is_ready(&self) -> (ready: bool)
        ensures
            ready == self@.ready(),
    {
        self.version_known && self.capabilities_known && self.idsizes_known
    }

    /// Builds the packet that carries `cmd` as the next request. The state is not
    /// touched: the request counts as sent only when `send_command` is told so.
    pub fn command_packet(&self, cmd: &Command) -> (packet: Packet)
        ensures
            packet@ == self@.command_packet(*cmd),
            packet@.fits_wire(),
    {
        let (set, cmd, data) = cmd.serialize(self.idsizes);
        Packet::Command { id: self.id, set, cmd, data }
    }

    /// Records the outcome of writing `command_packet(cmd)` to the peer. If it was
    /// written in full, the request is in flight from now on, the next id is one higher,
    /// and the id that the request went out under is returned; if not, nothing is
    /// registered.
    pub fn send_command(&mut self, cmd: &Command, written: bool) -> (sent: Option<u32>)
        requires
            written ==> old(self)@.id < u32::MAX,
        ensures
            sent == if written {
                Some(old(self)@.id)
            } else {
                None
            },
            final(self)@ == if written {
                old(self)@.sent(*cmd)
            } else {
                old(self)@
            },
            old(self)@.consistent() ==> final(self)@.consistent(),
    {
        if written {
            let (set, cmd, _) = cmd.serialize(self.idsizes);
            let id = self.id;
            self.id = id + 1;
            self.pending.insert(id, (set, cmd));
            Some(id)
        } else {
            None
        }
    }

    /// Appends to `writer` the reply packet that answers request `id`: with the
    /// encoded reply and error code zero, or with the code of the error and no payload.
    pub fn send_reply(&self, id: u32, r: &Result<Reply, Error>, writer: &mut Vec<u8>)
        ensures
            final(writer)@ == old(writer)@ + reply_packet(id, result_view(*r)).frame(),
    {
        match r {
            Ok(reply) => {
                let data = reply.serialize(self.idsizes);
                let packet = Packet::Reply { id, error: 0, data };
                packet.write(writer);
            },
            Err(e) => {
                let packet = Packet::Reply { id, error: e.serialize(), data: Vec::with_capacity(0) };
                packet.write(writer);
            },
        }
    }

    /// Caches what a decoded reply says.
    fn cache(&mut self, reply: &Reply)
        ensures
            final(self)@ == old(self)@.cache(reply@),
    {
        match reply {
            Reply::Version { description, major, minor, version, name } => {
                self.name = name.clone();
                self.description = description.clone();
                self.version = version.clone();
                self.major = *major;
                self.minor = *minor;
                self.version_known = true;
            },
            Reply::Capabilities(capabilities) => {
                self.capabilities = self.capabilities.with_legacy(*capabilities);
                self.capabilities_known = true;
            },
            Reply::CapabilitiesNew(capabilities) => {
                self.capabilities = *capabilities;
                self.capabilities_known = true;
            },
            Reply::IDSizes { field, method, object, reference_type, frame } => {
                self.idsizes = IDSizes {
                    field: *field,
                    method: *method,
                    object: *object,
                    reference_type: *reference_type,
                    frame: *frame,
                };
                self.idsizes_known = true;
            },
        }
    }

    /// Takes a received packet in: matches a reply with the request that it answers,
    /// decodes the payload, and caches what a bootstrap reply says.
    pub fn deserialize_packet(&mut self, packet: &Packet) -> (r: Result<DeserializedPacket, Error>)
        ensures
            final(self)@ == old(self)@.receive(packet@).0,
            match old(self)@.receive(packet@).1 {
                Ok(p) => r is Ok && r->Ok_0@ == p,
                Err(e) => r == Err::<DeserializedPacket, Error>(e),
            },
            old(self)@.consistent() ==> final(self)@.consistent(),
    {
        match packet {
            Packet::Command { id, set, cmd, data } => {
                match Command::deserialize(*set, *cmd, data.as_slice(), self.idsizes) {
                    Ok(c) => Ok(DeserializedPacket::Command(*id, c)),
                    Err(e) => Err(e),
                }
            },
            Packet::Reply { id, error, data } => {
                if *error == 0u16 {
                    match self.pending.remove(id) {
                        Some((set, cmd)) => {
                            match Reply::deserialize(set, cmd, data.as_slice(), self.idsizes) {
                                Ok(reply) => {
                                    self.cache(&reply);
                                    Ok(DeserializedPacket::Reply(*id, reply))
                                },
                                Err(e) => Err(e),
                            }
                        },
                        None => {
                            assert(self.pending@ =~= old(self).pending@);
                            Err(Error::IllegalArgument)
                        },
                    }
                } else {
                    self.pending.remove(id);
                    match Error::deserialize(*error) {
                        Some(e) => Ok(DeserializedPacket::Error(*id, e)),
                        None => Err(Error::Unimplemented),
                    }
                }
            },
        }
    }
}

/// A result as a mathematical value.
pub open spec fn result_view(r: Result<Reply, Error>) -> Result<ReplyView, Error> {
    match r {
        Ok(reply) => Ok(reply@),
        Err(e) => Err(e),
    }
}

/// The packet that answers request `id` with `r`.
pub open spec fn reply_packet(id: u32, r: Result<ReplyView, Error>) -> PacketView {
    match r {
        Ok(reply) => PacketView::Reply { id, error: 0, data: reply.payload() },
        Err(e) => PacketView::Reply { id, error: e.code(), data: Seq::empty() },
    }
}

/// The packets of a queue as mathematical values, in order.
pub open spec fn packet_views(queue: Seq<Packet>) -> Seq<PacketView> {
    Seq::new(queue.len(), |i: int| queue[i]@)
}

/// Deserialized packets as mathematical values, in order.
pub open spec fn deserialized_views(packets: Seq<DeserializedPacket>) -> Seq<
    DeserializedPacketView,
> {
    Seq::new(packets.len(), |i: int| packets[i]@)
}

/// What reading a byte stream to its end gives: the packets at its front, one after
/// the other, the bytes that are left when no further packet can be read, and the
/// reason why none can. At the end of a stream that reason is `TransportFailure`,
/// with nothing left if the stream ended between two packets.
pub open spec fn take_packets(input: Seq<u8>) -> (Seq<PacketView>, Seq<u8>, crate::Error)
    decreases input.len(),
{
    match take_packet(input) {
        Ok((packet, rest)) => {
            let (more, left, reason) = take_packets(rest);
            (seq![packet] + more, left, reason)
        },
        Err(reason) => (Seq::empty(), input, reason),
    }
}

/// Reads packets from the front of `conn_data` for as long as there is a whole
/// well-formed packet, appends them to `vm_channel` in order, and moves `conn_data`
/// past them. Gives the reason why reading stopped.
pub fn read_packets<'a>(conn_data: &mut &'a [u8], vm_channel: &mut Vec<Packet>) -> (reason:
    crate::Error)
    ensures
        packet_views(final(vm_channel)@) == packet_views(old(vm_channel)@) + take_packets(
            old(conn_data)@,
        ).0,
        final(conn_data)@ == take_packets(old(conn_data)@).1,
        reason == take_packets(old(conn_data)@).2,
        reason == crate::Error::TransportFailure || reason == crate::Error::MalformedPacket,
{
    let ghost input = conn_data@;
    let ghost queued = packet_views(vm_channel@);
    loop
        invariant
            input == old(conn_data)@,
            queued == packet_views(old(vm_channel)@),
            queued + take_packets(input).0 == packet_views(vm_channel@) + take_packets(
                conn_data@,
            ).0,
            take_packets(input).1 == take_packets(conn_data@).1,
            take_packets(input).2 == take_packets(conn_data@).2,
        decreases conn_data@.len(),
    {
        match Packet::read(conn_data) {
            Ok(packet) => {
                vm_channel.push(packet);
            },
            Err(reason) => {
                return reason;
            },
        }
    }
}

/// What draining a queue does: packets are taken in from the front, one by one, for as
/// long as a request is in flight and the queue has a packet. The result is the state
/// at the end, the packets that were understood, in order, and the number of packets
/// that were taken from the queue. A packet that is not understood is skipped.
pub open spec fn drain(state: StateView, queue: Seq<PacketView>) -> (
    StateView,
    Seq<DeserializedPacketView>,
    nat,
)
    decreases queue.len(),
{
    if state.pending.len() == 0 || queue.len() == 0 {
        (state, Seq::empty(), 0)
    } else {
        let (next, outcome) = state.receive(queue[0]);
        let (last, understood, taken) = drain(next, queue.skip(1));
        (
            last,
            match outcome {
                Ok(p) => seq![p] + understood,
                Err(_) => understood,
            },
            taken + 1,
        )
    }
}

/// Takes the packets at the front of `vm_channel` in until no request is in flight
/// any more, or the channel has run dry, and moves `vm_channel` past them. Gives the
/// packets that were understood; one that was not is skipped.
pub fn recv_until_all_replied<'a>(vm_channel: &mut &'a [Packet], state: &mut State) -> (packets:
    Vec<DeserializedPacket>)
    ensures
        final(state)@ == drain(old(state)@, packet_views(old(vm_channel)@)).0,
        deserialized_views(packets@) == drain(old(state)@, packet_views(old(vm_channel)@)).1,
        final(vm_channel)@ == old(vm_channel)@.skip(
            drain(old(state)@, packet_views(old(vm_channel)@)).2 as int,
        ),
        final(state)@.pending.len() == 0 || final(vm_channel)@.len() == 0,
        old(state)@.consistent() ==> final(state)@.consistent(),
{
    let queue: &'a [Packet] = *vm_channel;
    let ghost views = packet_views(queue@);
    let ghost total = drain(state@, views);
    let mut packets: Vec<DeserializedPacket> = Vec::new();
    let mut i: usize = 0;
    proof {
        assert(views.skip(0) =~= views);
    }
    while i < queue.len() && state.replies_left() > 0
        invariant
            i <= queue@.len(),
            views == packet_views(queue@),
            total == drain(old(state)@, views),
            total.0 == drain(state@, views.skip(i as int)).0,
            total.1 == deserialized_views(packets@) + drain(state@, views.skip(i as int)).1,
            total.2 == i + drain(state@, views.skip(i as int)).2,
            old(state)@.consistent() ==> state@.consistent(),
        decreases queue@.len() - i,
    {
        proof {
            assert(views.skip(i as int).skip(1) =~= views.skip(i + 1));
        }
        match state.deserialize_packet(&queue[i]) {
            Ok(p) => {
                packets.push(p);
            },
            Err(_) => {},
        }
        i = i + 1;
    }
    *vm_channel = slice_subrange(queue, i, queue.len());
    packets
}

/// The fourteen bytes that each peer sends before any packet: `JDWP-Handshake` in ASCII.
pub open spec fn handshake_token() -> Seq<u8> {
    seq![74u8, 68u8, 87u8, 80u8, 45u8, 72u8, 97u8, 110u8, 100u8, 115u8, 104u8, 97u8, 107u8, 101u8]
}

/// The handshake token is the text `JDWP-Handshake`, one byte per character.
pub proof fn lemma_handshake_token_text()
    ensures
        handshake_token().len() == 14,
        handshake_token() == Seq::new(14, |i: int| "JDWP-Handshake"@[i] as u8),
{
    reveal_strlit("JDWP-Handshake");
}

/// Gives the handshake token to send.
pub fn handshake_bytes() -> (token: Vec<u8>)
    ensures
        token@ == handshake_token(),
{
    let token: Vec<u8> = vec![
        74u8,
        68u8,
        87u8,
        80u8,
        45u8,
        72u8,
        97u8,
        110u8,
        100u8,
        115u8,
        104u8,
        97u8,
        107u8,
        101u8,
    ];
    token
}

/// Judges what the peer sent in answer to the handshake: the token and nothing else
/// is accepted; anything else fails with `HandshakeFailed`, which carries the bytes
/// that were received.
pub fn check_handshake(received: &[u8]) -> (r: Result<(), crate::Error>)
    ensures
        received@ == handshake_token() ==> r is Ok,
        received@ != handshake_token() ==> (r matches Err(crate::Error::HandshakeFailed(bytes))
            && bytes@ == received@),
{
    let token = handshake_bytes();
    let mut same: bool = received.len() == token.len();
    let mut i: usize = 0;
    while same && i < token.len()
        invariant
            token@ == handshake_token(),
            same ==> received@.len() == token@.len(),
            i <= token@.len(),
            same ==> received@.take(i as int) == token@.take(i as int),
            !same ==> received@ != token@,
        decreases token@.len() - i, same as int,
    {
        if received[i] != token[i] {
            same = false;
        } else {
            i = i + 1;
        }
    }
    if same {
        proof {
            assert(received@.take(i as int) =~= received@);
            assert(token@.take(i as int) =~= token@);
        }
        Ok(())
    } else {
        Err(crate::Error::HandshakeFailed(slice_to_vec(received)))
    }
}

/// A state in which ids are in order stays so when a command is sent, and the
/// command is then in flight exactly once, under the id that was next; no other
/// request is touched.
pub proof fn lemma_sent_registers_once(state: StateView, cmd: Command)
    requires
        state.consistent(),
        state.id < u32::MAX,
    ensures
        state.sent(cmd).consistent(),
        state.sent(cmd).id == state.id + 1,
        !state.pending.contains_key(state.id),
        state.sent(cmd).pending.contains_key(state.id),
        state.sent(cmd).pending[state.id] == cmd.selector(),
        state.sent(cmd).pending.len() == state.pending.len() + 1,
        state.sent(cmd).pending.remove(state.id) == state.pending,
{
}

/// A reply, with or without error, that answers a request in flight takes exactly that
/// request out of flight.
pub proof fn lemma_reply_clears_request(state: StateView, packet: PacketView)
    requires
        state.consistent(),
        packet is Reply,
        state.pending.contains_key(packet.id()),
    ensures
        !state.receive(packet).0.pending.contains_key(packet.id()),
        state.receive(packet).0.pending == state.pending.remove(packet.id()),
        state.receive(packet).0.pending.len() == state.pending.len() - 1,
{
}

/// A reply that answers no request in flight leaves the state as it was, and with it
/// every request in flight.
pub proof fn lemma_unmatched_reply_changes_nothing(state: StateView, packet: PacketView)
    requires
        packet is Reply,
        !state.pending.contains_key(packet.id()),
    ensures
        state.receive(packet).0 == state,
        packet->Reply_error == 0 ==> state.receive(packet).1 == Err::<
            DeserializedPacketView,
            Error,
        >(Error::IllegalArgument),
{
    assert(state.pending.remove(packet.id()) =~= state.pending);
}

/// A command of the peer leaves the state as it was.
pub proof fn lemma_command_changes_nothing(state: StateView, packet: PacketView)
    requires
        packet is Command,
    ensures
        state.receive(packet).0 == state,
{
}

/// Whatever is received, the next id stays, no request comes into flight, and ids
/// stay in order.
pub proof fn lemma_receive_keeps_order(state: StateView, packet: PacketView)
    requires
        state.consistent(),
    ensures
        state.receive(packet).0.consistent(),
        state.receive(packet).0.id == state.id,
        state.receive(packet).0.pending.submap_of(state.pending),
{
}

/// A reply without error is turned down as `IllegalArgument` exactly when it answers
/// no request in flight: decoding never fails that way.
pub proof fn lemma_illegal_argument_means_unmatched(state: StateView, packet: PacketView)
    ensures
        state.receive(packet).1 == Err::<DeserializedPacketView, Error>(Error::IllegalArgument)
            <==> (packet matches PacketView::Reply { id, error, .. } && error == 0
            && !state.pending.contains_key(id)),
{
}

/// A legacy capability reply overwrites flags 0 to 6 of the cached capabilities and
/// leaves every other flag as it was.
pub proof fn lemma_legacy_reply_merges(state: StateView, reply: Capabilities)
    ensures
        forall|i: nat|
            i < 7 ==> #[trigger] state.cache(ReplyView::Capabilities(reply)).capabilities.has(i)
                == reply.has(i),
        forall|i: nat|
            7 <= i ==> #[trigger] state.cache(ReplyView::Capabilities(reply)).capabilities.has(i)
                == state.capabilities.has(i),
{
    crate::jdwp::capabilities::lemma_merge_legacy_positions(state.capabilities.bits, reply.bits);
}

/// An extended capability reply replaces the cached capabilities altogether.
pub proof fn lemma_extended_reply_replaces(state: StateView, reply: Capabilities)
    ensures
        state.cache(ReplyView::CapabilitiesNew(reply)).capabilities == reply,
{
}

/// A reply that the peer encodes for a request in flight is understood as that reply:
/// it is handed on under the id of the request, the request is out of flight, and what
/// the reply says is cached. This holds for every reply that the wire can carry without
/// loss and that answers the command which the request carried.
pub proof fn lemma_answer_is_understood(state: StateView, id: u32, reply: ReplyView)
    requires
        state.pending.contains_key(id),
        state.pending[id] == reply.selector(),
        reply.fits_wire(),
    ensures
        state.receive(reply_packet(id, Ok(reply))) == (
            state.answered(id).cache(reply),
            Ok::<DeserializedPacketView, Error>(DeserializedPacketView::Reply(id, reply)),
        ),
{
    crate::jdwp::protocol::lemma_reply_round_trip(reply);
}

/// An error that the peer sends for a request is understood as that error, and the
/// request is out of flight.
pub proof fn lemma_error_is_understood(state: StateView, id: u32, e: Error)
    ensures
        state.receive(reply_packet(id, Err(e))) == (
            state.answered(id),
            Ok::<DeserializedPacketView, Error>(DeserializedPacketView::Error(id, e)),
        ),
{
}

/// Draining takes no more packets than the queue has, keeps the next id, brings no
/// request into flight, keeps ids in order, and ends with nothing in flight or with
/// the whole queue taken.
pub proof fn lemma_drain_keeps_order(state: StateView, queue: Seq<PacketView>)
    requires
        state.consistent(),
    ensures
        drain(state, queue).2 <= queue.len(),
        drain(state, queue).1.len() <= drain(state, queue).2,
        drain(state, queue).0.id == state.id,
        drain(state, queue).0.pending.submap_of(state.pending),
        drain(state, queue).0.consistent(),
        drain(state, queue).0.pending.len() == 0 || drain(state, queue).2 == queue.len(),
    decreases queue.len(),
{
    if state.pending.len() == 0 || queue.len() == 0 {
    } else {
        let next = state.receive(queue[0]).0;
        let last = drain(next, queue.skip(1)).0;
        lemma_receive_keeps_order(state, queue[0]);
        lemma_drain_keeps_order(next, queue.skip(1));
        assert forall|k: u32| #[trigger] last.pending.dom().contains(k) implies state.pending.dom().contains(
            k,
        ) && last.pending[k] == state.pending[k] by {
            assert(next.pending.dom().contains(k));
        }
    }
}

/// Packets that were written one after the other are read back one after the other:
/// a stream that starts with the frame of `packet` gives `packet` first, then what the
/// rest of the stream gives.
pub proof fn lemma_take_packets_of_written(packet: PacketView, rest: Seq<u8>)
    requires
        packet.fits_wire(),
    ensures
        take_packets(packet.frame() + rest) == (
            seq![packet] + take_packets(rest).0,
            take_packets(rest).1,
            take_packets(rest).2,
        ),
{
    lemma_packet_round_trip(packet, rest);
}

} // verus!
