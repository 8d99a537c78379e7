//! The commands of the bootstrap sequence and the replies that answer them.

use super::bytes::{be_bytes, unsigned32};
use super::capabilities::{
    bit, bits_to_flags, bytes_to_flags, flags_to_bits, flags_to_bytes, lemma_bits_extensional,
    lemma_flags_of_bits, lemma_mask_positions, Capabilities, EXTENDED_FLAGS, LEGACY_FLAGS,
};
use super::codec::{
    lemma_take_byte_first, lemma_take_int_of_written, lemma_take_string_of_written, string_bytes,
    take_int, take_string, Deserializer, IDSizes, Serializer,
};
use vstd::utf8::encode_utf8;
use super::error::Error;
use vstd::prelude::*;

verus! {

/// The command set of the virtual machine itself.
pub const VIRTUAL_MACHINE: u8 = 1;

/// Asks for the VM's name and version.
pub const VERSION: u8 = 1;

/// Asks for the widths of the identifiers.
pub const ID_SIZES: u8 = 7;

/// Asks for the first seven capabilities.
pub const CAPABILITIES: u8 = 12;

/// Asks for all twenty-one capabilities.
pub const CAPABILITIES_NEW: u8 = 17;

/// A request to the VM.
#[derive(Clone, Copy, Debug, PartialEq, Eq, Structural)]
pub enum Command {
    Version,
    Capabilities,
    CapabilitiesNew,
    IDSizes,
}

impl Command {
    /// The command set and the command number under which this command travels.
    pub open spec fn selector(self) -> (u8, u8) {
        match self {
            Command::Version => (VIRTUAL_MACHINE, VERSION),
            Command::Capabilities => (VIRTUAL_MACHINE, CAPABILITIES),
            Command::CapabilitiesNew => (VIRTUAL_MACHINE, CAPABILITIES_NEW),
            Command::IDSizes => (VIRTUAL_MACHINE, ID_SIZES),
        }
    }

    /// The command that travels under `set` and `cmd`, if this engine knows one.
    pub open spec fn from_selector(set: u8, cmd: u8) -> Option<Command> {
        if set == VIRTUAL_MACHINE && cmd == VERSION {
            Some(Command::Version)
        } else if set == VIRTUAL_MACHINE && cmd == CAPABILITIES {
            Some(Command::Capabilities)
        } else if set == VIRTUAL_MACHINE && cmd == CAPABILITIES_NEW {
            Some(Command::CapabilitiesNew)
        } else if set == VIRTUAL_MACHINE && cmd == ID_SIZES {
            Some(Command::IDSizes)
        } else {
            None
        }
    }

    /// Recognises a command by its set and number. The bootstrap commands carry no
    /// payload, so `data` is not looked at; an unknown pair is `Unimplemented`.
    pub fn deserialize(set: u8, cmd: u8, data: &[u8], sizes: IDSizes) -> (r: Result<
        Command,
        Error,
    >)
        ensures
            r == match Command::from_selector(set, cmd) {
                Some(c) => Ok::<Command, Error>(c),
                None => Err::<Command, Error>(Error::Unimplemented),
            },
    {
        if set != VIRTUAL_MACHINE {
            Err(Error::Unimplemented)
        } else if cmd == VERSION {
            Ok(Command::Version)
        } else if cmd == CAPABILITIES {
            Ok(Command::Capabilities)
        } else if cmd == CAPABILITIES_NEW {
            Ok(Command::CapabilitiesNew)
        } else if cmd == ID_SIZES {
            Ok(Command::IDSizes)
        } else {
            Err(Error::Unimplemented)
        }
    }

    /// Gives the command set, the command number and the payload, which is empty for
    /// each bootstrap command.
    pub fn serialize(&self, sizes: IDSizes) -> (r: (u8, u8, Vec<u8>))
        ensures
            (r.0, r.1) == self.selector(),
            r.2@ == Seq::<u8>::empty(),
    {
        let serializer = Serializer(Vec::new(), sizes);
        let (set, cmd): (u8, u8) = match self {
            Command::Version => (VIRTUAL_MACHINE, VERSION),
            Command::Capabilities => (VIRTUAL_MACHINE, CAPABILITIES),
            Command::CapabilitiesNew => (VIRTUAL_MACHINE, CAPABILITIES_NEW),
            Command::IDSizes => (VIRTUAL_MACHINE, ID_SIZES),
        };
        (set, cmd, serializer.0)
    }
}

/// A command is recognised again under its own set and number.
pub proof fn lemma_command_round_trip(c: Command)
    ensures
        Command::from_selector(c.selector().0, c.selector().1) == Some(c),
{
}

/// The answer of the VM to a command.
#[derive(Debug, PartialEq, Eq)]
pub enum Reply {
    Version { description: String, major: i32, minor: i32, version: String, name: String },
    Capabilities(Capabilities),
    CapabilitiesNew(Capabilities),
    IDSizes { field: i32, method: i32, object: i32, reference_type: i32, frame: i32 },
}

/// A reply as a mathematical value: strings are sequences of characters.
pub enum ReplyView {
    Version {
        description: Seq<char>,
        major: i32,
        minor: i32,
        version: Seq<char>,
        name: Seq<char>,
    },
    Capabilities(Capabilities),
    CapabilitiesNew(Capabilities),
    IDSizes { field: i32, method: i32, object: i32, reference_type: i32, frame: i32 },
}

impl View for Reply {
    type V = ReplyView;

    open spec fn view(&self) -> ReplyView {
        match self {
            Reply::Version { description, major, minor, version, name } => ReplyView::Version {
                description: description@,
                major: *major,
                minor: *minor,
                version: version@,
                name: name@,
            },
            Reply::Capabilities(c) => ReplyView::Capabilities(*c),
            Reply::CapabilitiesNew(c) => ReplyView::CapabilitiesNew(*c),
            Reply::IDSizes { field, method, object, reference_type, frame } => ReplyView::IDSizes {
                field: *field,
                method: *method,
                object: *object,
                reference_type: *reference_type,
                frame: *frame,
            },
        }
    }
}

impl Clone for Reply {
    fn clone(&self) -> (copy: Reply)
        ensures
            copy@ == self@,
    {
        match self {
            Reply::Version { description, major, minor, version, name } => Reply::Version {
                description: description.clone(),
                major: *major,
                minor: *minor,
                version: version.clone(),
                name: name.clone(),
            },
            Reply::Capabilities(c) => Reply::Capabilities(*c),
            Reply::CapabilitiesNew(c) => Reply::CapabilitiesNew(*c),
            Reply::IDSizes { field, method, object, reference_type, frame } => Reply::IDSizes {
                field: *field,
                method: *method,
                object: *object,
                reference_type: *reference_type,
                frame: *frame,
            },
        }
    }
}

/// A signed 32-bit integer on the wire.
pub open spec fn int_bytes(value: i32) -> Seq<u8> {
    be_bytes(unsigned32(value as int), 4)
}

/// The first `count` capabilities of `bits` on the wire, one byte each.
pub open spec fn capability_bytes(bits: u32, count: nat) -> Seq<u8> {
    flags_to_bytes(bits_to_flags(bits, count))
}

/// What reading `count` capability flags from the front of `input` gives: the bit
/// vector with exactly those flags, and the input that is left.
pub open spec fn take_capabilities(input: Seq<u8>, count: nat) -> Result<(u32, Seq<u8>), Error> {
    if input.len() < count {
        Err(Error::AbsentInformation)
    } else {
        Ok((flags_to_bits(bytes_to_flags(input.take(count as int))), input.skip(count as int)))
    }
}

impl ReplyView {
    /// The command set and the command number of the command that this reply answers.
    pub open spec fn selector(self) -> (u8, u8) {
        match self {
            ReplyView::Version { .. } => (VIRTUAL_MACHINE, VERSION),
            ReplyView::Capabilities(_) => (VIRTUAL_MACHINE, CAPABILITIES),
            ReplyView::CapabilitiesNew(_) => (VIRTUAL_MACHINE, CAPABILITIES_NEW),
            ReplyView::IDSizes { .. } => (VIRTUAL_MACHINE, ID_SIZES),
        }
    }

    /// The payload that carries this reply.
    pub open spec fn payload(self) -> Seq<u8> {
        match self {
            ReplyView::Version { description, major, minor, version, name } => string_bytes(
                description,
            ) + int_bytes(major) + int_bytes(minor) + string_bytes(version) + string_bytes(name),
            ReplyView::Capabilities(c) => capability_bytes(c.bits, LEGACY_FLAGS as nat),
            ReplyView::CapabilitiesNew(c) => capability_bytes(c.bits, EXTENDED_FLAGS as nat),
            ReplyView::IDSizes { field, method, object, reference_type, frame } => int_bytes(field)
                + int_bytes(method) + int_bytes(object) + int_bytes(reference_type) + int_bytes(
                frame,
            ),
        }
    }

    /// The reply to the version command that `data` carries: three strings and two
    /// integers, in wire order. Bytes after them are ignored.
    pub open spec fn parse_version(data: Seq<u8>) -> Result<ReplyView, Error> {
        match take_string(data) {
            Err(e) => Err(e),
            Ok((description, after_description)) => match take_int(after_description) {
                Err(e) => Err(e),
                Ok((major, after_major)) => match take_int(after_major) {
                    Err(e) => Err(e),
                    Ok((minor, after_minor)) => match take_string(after_minor) {
                        Err(e) => Err(e),
                        Ok((version, after_version)) => match take_string(after_version) {
                            Err(e) => Err(e),
                            Ok((name, _)) => Ok(
                                ReplyView::Version { description, major, minor, version, name },
                            ),
                        },
                    },
                },
            },
        }
    }

    /// The reply to the identifier-size command that `data` carries: five integers.
    pub open spec fn parse_id_sizes(data: Seq<u8>) -> Result<ReplyView, Error> {
        match take_int(data) {
            Err(e) => Err(e),
            Ok((field, after_field)) => match take_int(after_field) {
                Err(e) => Err(e),
                Ok((method, after_method)) => match take_int(after_method) {
                    Err(e) => Err(e),
                    Ok((object, after_object)) => match take_int(after_object) {
                        Err(e) => Err(e),
                        Ok((reference_type, after_reference_type)) => match take_int(
                            after_reference_type,
                        ) {
                            Err(e) => Err(e),
                            Ok((frame, _)) => Ok(
                                ReplyView::IDSizes { field, method, object, reference_type, frame },
                            ),
                        },
                    },
                },
            },
        }
    }

    /// The reply that `data` carries when it answers the command `(set, cmd)`.
    /// A pair without a known reply shape is `Unimplemented`.
    pub open spec fn parse(set: u8, cmd: u8, data: Seq<u8>) -> Result<ReplyView, Error> {
        if set == VIRTUAL_MACHINE && cmd == VERSION {
            ReplyView::parse_version(data)
        } else if set == VIRTUAL_MACHINE && cmd == CAPABILITIES {
            match take_capabilities(data, LEGACY_FLAGS as nat) {
                Err(e) => Err(e),
                Ok((bits, _)) => Ok(ReplyView::Capabilities(Capabilities { bits })),
            }
        } else if set == VIRTUAL_MACHINE && cmd == CAPABILITIES_NEW {
            match take_capabilities(data, EXTENDED_FLAGS as nat) {
                Err(e) => Err(e),
                Ok((bits, _)) => Ok(ReplyView::CapabilitiesNew(Capabilities { bits })),
            }
        } else if set == VIRTUAL_MACHINE && cmd == ID_SIZES {
            ReplyView::parse_id_sizes(data)
        } else {
            Err(Error::Unimplemented)
        }
    }
}

/// Appends the first `count` capabilities of `bits`, one byte each.
fn write_flags(serializer: &mut Serializer, bits: u32, count: u32)
    requires
        count <= 32,
    ensures
        final(serializer).0@ == old(serializer).0@ + capability_bytes(bits, count as nat),
        final(serializer).1 == old(serializer).1,
{
    let mut i: u32 = 0;
    while i < count
        invariant
            i <= count <= 32,
            serializer.0@ == old(serializer).0@ + capability_bytes(bits, i as nat),
            serializer.1 == old(serializer).1,
        decreases count - i,
    {
        proof {
            assert(((bits >> i) & 1) == 0 || ((bits >> i) & 1) == 1) by (bit_vector);
        }
        serializer.serialize_byte(((bits >> i) & 1) as u8);
        i = i + 1;
    }
}

/// Reads `count` capability flags into a bit vector, the first flag into position zero.
fn read_flags(deserializer: &mut Deserializer, count: u32) -> (r: Result<u32, Error>)
    requires
        count <= 32,
    ensures
        match take_capabilities(old(deserializer).0@, count as nat) {
            Ok((bits, rest)) => r == Ok::<u32, Error>(bits) && final(deserializer).0@ == rest,
            Err(e) => r == Err::<u32, Error>(e),
        },
        final(deserializer).1 == old(deserializer).1,
{
    let ghost input = deserializer.0@;
    let mut capabilities: u32 = 0;
    let mut i: u32 = 0;
    while i < count
        invariant
            i <= count <= 32,
            i <= input.len(),
            input == old(deserializer).0@,
            deserializer.0@ == input.skip(i as int),
            deserializer.1 == old(deserializer).1,
            capabilities == flags_to_bits(bytes_to_flags(input.take(i as int))),
        decreases count - i,
    {
        proof {
            if i < input.len() {
                lemma_take_byte_first(input.skip(i as int));
                assert(bytes_to_flags(input.take(i + 1)).drop_last() =~= bytes_to_flags(
                    input.take(i as int),
                ));
            }
        }
        match deserializer.deserialize_boolean() {
            Ok(flag) => {
                if flag {
                    capabilities = capabilities | (1u32 << i);
                }
            },
            Err(e) => {
                return Err(e);
            },
        }
        i = i + 1;
    }
    Ok(capabilities)
}

impl Reply {
    /// Encodes the reply as a payload.
    pub fn serialize(&self, sizes: IDSizes) -> (payload: Vec<u8>)
        ensures
            payload@ == self@.payload(),
    {
        let mut serializer = Serializer(Vec::new(), sizes);
        match self {
            Reply::Version { description, major, minor, version, name } => {
                serializer.serialize_string(description);
                serializer.serialize_int(*major);
                serializer.serialize_int(*minor);
                serializer.serialize_string(version);
                serializer.serialize_string(name);
            },
            Reply::Capabilities(capabilities) => {
                write_flags(&mut serializer, capabilities.bits(), LEGACY_FLAGS);
            },
            Reply::CapabilitiesNew(capabilities) => {
                write_flags(&mut serializer, capabilities.bits(), EXTENDED_FLAGS);
            },
            Reply::IDSizes { field, method, object, reference_type, frame } => {
                serializer.serialize_int(*field);
                serializer.serialize_int(*method);
                serializer.serialize_int(*object);
                serializer.serialize_int(*reference_type);
                serializer.serialize_int(*frame);
            },
        }
        serializer.0
    }

    /// Decodes the payload of a reply to the command `(set, cmd)`.
    pub fn deserialize(set: u8, cmd: u8, data: &[u8], sizes: IDSizes) -> (r: Result<Reply, Error>)
        ensures
            match ReplyView::parse(set, cmd, data@) {
                Ok(reply) => r is Ok && r->Ok_0@ == reply,
                Err(e) => r == Err::<Reply, Error>(e),
            },
    {
        let mut deserializer = Deserializer(data, sizes);
        if set != VIRTUAL_MACHINE {
            return Err(Error::Unimplemented);
        }
        if cmd == VERSION {
            let description = match deserializer.deserialize_string() {
                Ok(v) => v,
                Err(e) => {
                    return Err(e);
                },
            };
            let major = match deserializer.deserialize_int() {
                Ok(v) => v,
                Err(e) => {
                    return Err(e);
                },
            };
            let minor = match deserializer.deserialize_int() {
                Ok(v) => v,
                Err(e) => {
                    return Err(e);
                },
            };
            let version = match deserializer.deserialize_string() {
                Ok(v) => v,
                Err(e) => {
                    return Err(e);
                },
            };
            let name = match deserializer.deserialize_string() {
                Ok(v) => v,
                Err(e) => {
                    return Err(e);
                },
            };
            Ok(Reply::Version { description, major, minor, version, name })
        } else if cmd == CAPABILITIES {
            match read_flags(&mut deserializer, LEGACY_FLAGS) {
                Ok(bits) => Ok(Reply::Capabilities(Capabilities { bits })),
                Err(e) => Err(e),
            }
        } else if cmd == CAPABILITIES_NEW {
            match read_flags(&mut deserializer, EXTENDED_FLAGS) {
                Ok(bits) => Ok(Reply::CapabilitiesNew(Capabilities { bits })),
                Err(e) => Err(e),
            }
        } else if cmd == ID_SIZES {
            let field = match deserializer.deserialize_int() {
                Ok(v) => v,
                Err(e) => {
                    return Err(e);
                },
            };
            let method = match deserializer.deserialize_int() {
                Ok(v) => v,
                Err(e) => {
                    return Err(e);
                },
            };
            let object = match deserializer.deserialize_int() {
                Ok(v) => v,
                Err(e) => {
                    return Err(e);
                },
            };
            let reference_type = match deserializer.deserialize_int() {
                Ok(v) => v,
                Err(e) => {
                    return Err(e);
                },
            };
            let frame = match deserializer.deserialize_int() {
                Ok(v) => v,
                Err(e) => {
                    return Err(e);
                },
            };
            Ok(Reply::IDSizes { field, method, object, reference_type, frame })
        } else {
            Err(Error::Unimplemented)
        }
    }
}

impl ReplyView {
    /// Whether the wire can carry this reply without loss: each string is short enough
    /// for a non-negative 32-bit length, and a capability reply sets no flag beyond
    /// those that its encoding has room for.
    pub open spec fn fits_wire(self) -> bool {
        match self {
            ReplyView::Version { description, major, minor, version, name } => {
                &&& encode_utf8(description).len() <= i32::MAX
                &&& encode_utf8(version).len() <= i32::MAX
                &&& encode_utf8(name).len() <= i32::MAX
            },
            ReplyView::Capabilities(c) => c.bits & 0x7fu32 == c.bits,
            ReplyView::CapabilitiesNew(c) => c.bits & 0x1f_ffffu32 == c.bits,
            ReplyView::IDSizes { .. } => true,
        }
    }
}

/// Seven capability flags that were written are read back as the seven lowest bits;
/// the higher bits of the set do not travel.
pub proof fn lemma_take_legacy_capabilities_of_written(bits: u32, rest: Seq<u8>)
    ensures
        take_capabilities(capability_bytes(bits, 7) + rest, 7) == Ok::<(u32, Seq<u8>), Error>(
            (bits & 0x7fu32, rest),
        ),
{
    let written = capability_bytes(bits, 7);
    assert((written + rest).take(7) =~= written);
    assert((written + rest).skip(7) =~= rest);
    assert(bytes_to_flags(written) =~= bits_to_flags(bits, 7));
    lemma_flags_of_bits(bits, 7);
    lemma_mask_positions(bits);
    lemma_bits_extensional(flags_to_bits(bits_to_flags(bits, 7)), bits & 0x7fu32);
}

/// Twenty-one capability flags that were written are read back as the twenty-one
/// lowest bits; the higher bits of the set do not travel.
pub proof fn lemma_take_extended_capabilities_of_written(bits: u32, rest: Seq<u8>)
    ensures
        take_capabilities(capability_bytes(bits, 21) + rest, 21) == Ok::<(u32, Seq<u8>), Error>(
            (bits & 0x1f_ffffu32, rest),
        ),
{
    let written = capability_bytes(bits, 21);
    assert((written + rest).take(21) =~= written);
    assert((written + rest).skip(21) =~= rest);
    assert(bytes_to_flags(written) =~= bits_to_flags(bits, 21));
    lemma_flags_of_bits(bits, 21);
    lemma_mask_positions(bits);
    lemma_bits_extensional(flags_to_bits(bits_to_flags(bits, 21)), bits & 0x1f_ffffu32);
}

/// A version reply that is encoded and decoded comes back as it was.
proof fn lemma_version_round_trip(
    description: Seq<char>,
    major: i32,
    minor: i32,
    version: Seq<char>,
    name: Seq<char>,
)
    requires
        encode_utf8(description).len() <= i32::MAX,
        encode_utf8(version).len() <= i32::MAX,
        encode_utf8(name).len() <= i32::MAX,
    ensures
        ReplyView::parse_version(
            (ReplyView::Version { description, major, minor, version, name }).payload(),
        ) == Ok::<ReplyView, Error>(
            ReplyView::Version { description, major, minor, version, name },
        ),
{
    let empty = Seq::<u8>::empty();
    let payload = (ReplyView::Version { description, major, minor, version, name }).payload();
    let after_version = string_bytes(name) + empty;
    let after_minor = string_bytes(version) + after_version;
    let after_major = int_bytes(minor) + after_minor;
    let after_description = int_bytes(major) + after_major;
    assert(payload =~= string_bytes(description) + after_description);
    lemma_take_string_of_written(description, after_description);
    lemma_take_int_of_written(major, after_major);
    lemma_take_int_of_written(minor, after_minor);
    lemma_take_string_of_written(version, after_version);
    lemma_take_string_of_written(name, empty);
}

/// An identifier-size reply that is encoded and decoded comes back as it was.
proof fn lemma_id_sizes_round_trip(
    field: i32,
    method: i32,
    object: i32,
    reference_type: i32,
    frame: i32,
)
    ensures
        ReplyView::parse_id_sizes(
            (ReplyView::IDSizes { field, method, object, reference_type, frame }).payload(),
        ) == Ok::<ReplyView, Error>(
            ReplyView::IDSizes { field, method, object, reference_type, frame },
        ),
{
    let empty = Seq::<u8>::empty();
    let payload = (ReplyView::IDSizes { field, method, object, reference_type, frame }).payload();
    let after_reference_type = int_bytes(frame) + empty;
    let after_object = int_bytes(reference_type) + after_reference_type;
    let after_method = int_bytes(object) + after_object;
    let after_field = int_bytes(method) + after_method;
    assert(payload =~= int_bytes(field) + after_field);
    lemma_take_int_of_written(field, after_field);
    lemma_take_int_of_written(method, after_method);
    lemma_take_int_of_written(object, after_object);
    lemma_take_int_of_written(reference_type, after_reference_type);
    lemma_take_int_of_written(frame, empty);
}

/// Encoding a reply and decoding the payload under the reply's own command gives the
/// reply back, for every reply that the wire can carry without loss.
pub proof fn lemma_reply_round_trip(reply: ReplyView)
    requires
        reply.fits_wire(),
    ensures
        ReplyView::parse(reply.selector().0, reply.selector().1, reply.payload()) == Ok::<
            ReplyView,
            Error,
        >(reply),
{
    let empty = Seq::<u8>::empty();
    match reply {
        ReplyView::Version { description, major, minor, version, name } => {
            lemma_version_round_trip(description, major, minor, version, name);
        },
        ReplyView::Capabilities(c) => {
            lemma_take_legacy_capabilities_of_written(c.bits, empty);
        },
        ReplyView::CapabilitiesNew(c) => {
            lemma_take_extended_capabilities_of_written(c.bits, empty);
        },
        ReplyView::IDSizes { field, method, object, reference_type, frame } => {
            lemma_id_sizes_round_trip(field, method, object, reference_type, frame);
        },
    }
}

/// A decoded legacy reply has no flag outside positions 0 to 6.
pub proof fn lemma_legacy_reply_positions(data: Seq<u8>)
    ensures
        ReplyView::parse(VIRTUAL_MACHINE, CAPABILITIES, data) matches Ok(ReplyView::Capabilities(c)) ==> forall|i: nat|
            7 <= i ==> !#[trigger] c.has(i),
{
    if data.len() >= 7 {
        super::capabilities::lemma_flags_to_bits_positions(bytes_to_flags(data.take(7)));
    }
}

} // verus!
