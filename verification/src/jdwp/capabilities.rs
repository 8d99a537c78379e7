//! The set of optional features that a VM reports, as a vector of named bits.

use vstd::prelude::*;

verus! {

/// Can watch writes to a field.
pub const WATCH_FIELD_MODIFICATION: u32 = 0x1;

/// Can watch reads of a field.
pub const WATCH_FIELD_ACCESS: u32 = 0x2;

/// Can hand out the bytecodes of a method.
pub const GET_BYTECODES: u32 = 0x4;

/// Can tell whether a field or method is synthetic.
pub const GET_SYNTHETIC_ATTRIBUTE: u32 = 0x8;

/// Can list the monitors that a thread owns.
pub const GET_OWNED_MONITOR_INFO: u32 = 0x10;

/// Can name the monitor that a thread waits for.
pub const GET_CURRENT_CONTENDED_MONITOR: u32 = 0x20;

/// Can describe a monitor.
pub const GET_MONITOR_INFO: u32 = 0x40;

/// Can redefine classes.
pub const REDEFINE_CLASSES: u32 = 0x80;

/// Can add methods when it redefines a class.
pub const ADD_METHOD: u32 = 0x100;

/// Can redefine classes in any way.
pub const UNRESTRICTEDLY_REDEFINE_CLASSES: u32 = 0x200;

/// Can pop stack frames.
pub const POP_FRAMES: u32 = 0x400;

/// Can filter events by instance.
pub const USE_INSTANCE_FILTERS: u32 = 0x800;

/// Can hand out the source debug extension.
pub const GET_SOURCE_DEBUG_EXTENSION: u32 = 0x1000;

/// Can announce its own death as an event.
pub const REQUEST_VM_DEATH_EVENT: u32 = 0x2000;

/// Can set a default stratum.
pub const SET_DEFAULT_STRATUM: u32 = 0x4000;

/// Can list instances, and referrers of an instance.
pub const GET_INSTANCE_INFO: u32 = 0x8000;

/// Can report monitor events.
pub const REQUEST_MONITOR_EVENTS: u32 = 0x10000;

/// Can tell at which stack depth a monitor was taken.
pub const GET_MONITOR_FRAME_INFO: u32 = 0x20000;

/// Can filter class-prepare events by source name.
pub const USE_SOURCE_NAME_FILTERS: u32 = 0x40000;

/// Can hand out the constant pool of a class.
pub const GET_CONSTANT_POOL: u32 = 0x80000;

/// Can force a method to return early.
pub const FORCE_EARLY_RETURN: u32 = 0x100000;

/// The positions that have no name yet.
pub const RESERVED: u32 = 0xffe00000;

/// The number of flags in the legacy encoding: positions 0 to 6.
pub const LEGACY_FLAGS: u32 = 7;

/// The number of flags in the extended encoding: positions 0 to 20.
pub const EXTENDED_FLAGS: u32 = 21;

/// Whether the bit at `position` is set in `bits`.
pub open spec fn bit(bits: u32, position: nat) -> bool {
    position < 32 && (bits >> (position as u32)) & 1 == 1
}

/// The bit vector that has the flags of `flags` in its lowest positions, the first flag
/// in position zero, and nothing above them.
pub open spec fn flags_to_bits(flags: Seq<bool>) -> u32
    decreases flags.len(),
{
    if flags.len() == 0 {
        0
    } else if flags.last() {
        flags_to_bits(flags.drop_last()) | (1u32 << ((flags.len() - 1) as u32))
    } else {
        flags_to_bits(flags.drop_last())
    }
}

/// The `count` lowest bits of `bits` as flags, position zero first.
pub open spec fn bits_to_flags(bits: u32, count: nat) -> Seq<bool> {
    Seq::new(count, |i: int| bit(bits, i as nat))
}

/// The flags that a wire encoding holds: one per byte, set unless the byte is zero.
pub open spec fn bytes_to_flags(bytes: Seq<u8>) -> Seq<bool> {
    Seq::new(bytes.len(), |i: int| bytes[i] != 0)
}

/// The wire encoding of flags: one byte each, `1` for a set flag and `0` for a clear one.
pub open spec fn flags_to_bytes(flags: Seq<bool>) -> Seq<u8> {
    Seq::new(flags.len(), |i: int| if flags[i] { 1u8 } else { 0u8 })
}

/// What the legacy reply merges into cached capabilities: positions 0 to 6 come from
/// `reply`, every other position stays as `cached` has it.
pub open spec fn merge_legacy(cached: u32, reply: u32) -> u32 {
    (cached & !0x7fu32) | (reply & 0x7fu32)
}

/// A set of capabilities; each of the 32 positions is a named flag or reserved.
#[derive(Clone, Copy, Debug, PartialEq, Eq, Structural)]
pub struct Capabilities {
    pub bits: u32,
}

impl Default for Capabilities {
    /// No capability at all.
    fn default() -> (caps: Capabilities)
        ensures
            caps.bits == 0,
    {
        Capabilities { bits: 0 }
    }
}

impl Capabilities {
    /// Whether the flag at `position` is in the set.
    pub open spec fn has(self, position: nat) -> bool {
        bit(self.bits, position)
    }

    /// The set without any capability.
    pub fn empty() -> (caps: Capabilities)
        ensures
            caps.bits == 0,
    {
        Capabilities { bits: 0 }
    }

    /// The set as a bit vector.
    pub fn bits(&self) -> (bits: u32)
        ensures
            bits == self.bits,
    {
        self.bits
    }

    /// The set that a bit vector stands for. Every position has a meaning, so every
    /// vector is accepted.
    pub fn from_bits(bits: u32) -> (caps: Option<Capabilities>)
        ensures
            caps == Some(Capabilities { bits }),
    {
        Some(Capabilities { bits })
    }

    /// Whether every flag of `mask` is in the set.
    pub fn contains(&self, mask: u32) -> (all: bool)
        ensures
            all == (self.bits & mask == mask),
    {
        self.bits & mask == mask
    }

    /// The set after a legacy reply: its first seven flags replace those of `self`,
    /// the others stay.
    pub fn with_legacy(&self, reply: Capabilities) -> (merged: Capabilities)
        ensures
            merged.bits == merge_legacy(self.bits, reply.bits),
    {
        Capabilities { bits: (self.bits & !0x7fu32) | (reply.bits & 0x7fu32) }
    }
}

/// Setting one more bit changes that position and no other.
proof fn lemma_set_bit(bits: u32, n: u32)
    requires
        n < 32,
    ensures
        forall|i: u32| i < 32 ==> (#[trigger] (((bits | (1u32 << n)) >> i) & 1) == 1) == (((bits
            >> i) & 1) == 1 || i == n),
{
    assert(forall|i: u32|
        #![trigger (((bits | (1u32 << n)) >> i) & 1)]
        n < 32 && i < 32 ==> ((((bits | (1u32 << n)) >> i) & 1) == 1) == (((bits >> i) & 1) == 1
            || i == n)) by (bit_vector);
}

/// The bits that flags turn into are the flags: position `i` is set exactly when
/// flag `i` exists and is set.
pub proof fn lemma_flags_to_bits_positions(flags: Seq<bool>)
    requires
        flags.len() <= 32,
    ensures
        forall|i: nat| #[trigger]
            bit(flags_to_bits(flags), i) == (i < flags.len() && flags[i as int]),
    decreases flags.len(),
{
    if flags.len() == 0 {
        assert(forall|i: u32| i < 32 ==> #[trigger] ((0u32 >> i) & 1) == 0) by (bit_vector);
    } else {
        let front = flags.drop_last();
        let n = (flags.len() - 1) as u32;
        lemma_flags_to_bits_positions(front);
        lemma_set_bit(flags_to_bits(front), n);
        assert forall|i: nat| #[trigger]
            bit(flags_to_bits(flags), i) == (i < flags.len() && flags[i as int]) by {
            assert(bit(flags_to_bits(front), i) == (i < front.len() && front[i as int]));
            if i < 32 {
                let j = i as u32;
                assert(((((flags_to_bits(front) | (1u32 << n)) >> j) & 1) == 1) == (((
                flags_to_bits(front) >> j) & 1) == 1 || j == n));
            }
        }
    }
}

/// Two bit vectors that agree in every position are the same vector.
pub proof fn lemma_bits_extensional(a: u32, b: u32)
    requires
        forall|i: nat| i < 32 ==> bit(a, i) == bit(b, i),
    ensures
        a == b,
{
    assert forall|i: u32| i < 32 implies #[trigger] ((a >> i) & 1) == ((b >> i) & 1) by {
        assert(bit(a, i as nat) == bit(b, i as nat));
        assert(((a >> i) & 1) == 0 || ((a >> i) & 1) == 1) by (bit_vector);
        assert(((b >> i) & 1) == 0 || ((b >> i) & 1) == 1) by (bit_vector);
    }
    assert(a == b) by (bit_vector)
        requires
            ((a >> 0u32) & 1) == ((b >> 0u32) & 1),
            ((a >> 1u32) & 1) == ((b >> 1u32) & 1),
            ((a >> 2u32) & 1) == ((b >> 2u32) & 1),
            ((a >> 3u32) & 1) == ((b >> 3u32) & 1),
            ((a >> 4u32) & 1) == ((b >> 4u32) & 1),
            ((a >> 5u32) & 1) == ((b >> 5u32) & 1),
            ((a >> 6u32) & 1) == ((b >> 6u32) & 1),
            ((a >> 7u32) & 1) == ((b >> 7u32) & 1),
            ((a >> 8u32) & 1) == ((b >> 8u32) & 1),
            ((a >> 9u32) & 1) == ((b >> 9u32) & 1),
            ((a >> 10u32) & 1) == ((b >> 10u32) & 1),
            ((a >> 11u32) & 1) == ((b >> 11u32) & 1),
            ((a >> 12u32) & 1) == ((b >> 12u32) & 1),
            ((a >> 13u32) & 1) == ((b >> 13u32) & 1),
            ((a >> 14u32) & 1) == ((b >> 14u32) & 1),
            ((a >> 15u32) & 1) == ((b >> 15u32) & 1),
            ((a >> 16u32) & 1) == ((b >> 16u32) & 1),
            ((a >> 17u32) & 1) == ((b >> 17u32) & 1),
            ((a >> 18u32) & 1) == ((b >> 18u32) & 1),
            ((a >> 19u32) & 1) == ((b >> 19u32) & 1),
            ((a >> 20u32) & 1) == ((b >> 20u32) & 1),
            ((a >> 21u32) & 1) == ((b >> 21u32) & 1),
            ((a >> 22u32) & 1) == ((b >> 22u32) & 1),
            ((a >> 23u32) & 1) == ((b >> 23u32) & 1),
            ((a >> 24u32) & 1) == ((b >> 24u32) & 1),
            ((a >> 25u32) & 1) == ((b >> 25u32) & 1),
            ((a >> 26u32) & 1) == ((b >> 26u32) & 1),
            ((a >> 27u32) & 1) == ((b >> 27u32) & 1),
            ((a >> 28u32) & 1) == ((b >> 28u32) & 1),
            ((a >> 29u32) & 1) == ((b >> 29u32) & 1),
            ((a >> 30u32) & 1) == ((b >> 30u32) & 1),
            ((a >> 31u32) & 1) == ((b >> 31u32) & 1),
    ;
}

/// Masking keeps the positions of the mask and clears the others.
pub proof fn lemma_mask_positions(bits: u32)
    ensures
        forall|i: nat| #[trigger] bit(bits & 0x7fu32, i) == (i < 7 && bit(bits, i)),
        forall|i: nat| #[trigger] bit(bits & 0x1f_ffffu32, i) == (i < 21 && bit(bits, i)),
{
    assert(forall|i: u32|
        i < 32 ==> (#[trigger] (((bits & 0x7fu32) >> i) & 1) == 1) == (i < 7 && ((bits >> i) & 1)
            == 1)) by (bit_vector);
    assert(forall|i: u32|
        i < 32 ==> (#[trigger] (((bits & 0x1f_ffffu32) >> i) & 1) == 1) == (i < 21 && ((bits >> i)
            & 1) == 1)) by (bit_vector);
    assert forall|i: nat| #[trigger] bit(bits & 0x7fu32, i) == (i < 7 && bit(bits, i)) by {
        if i < 32 {
            let j = i as u32;
            assert(((((bits & 0x7fu32) >> j) & 1) == 1) == (j < 7 && ((bits >> j) & 1) == 1));
        }
    }
    assert forall|i: nat| #[trigger]
        bit(bits & 0x1f_ffffu32, i) == (i < 21 && bit(bits, i)) by {
        if i < 32 {
            let j = i as u32;
            assert(((((bits & 0x1f_ffffu32) >> j) & 1) == 1) == (j < 21 && ((bits >> j) & 1)
                == 1));
        }
    }
}

/// A legacy reply overwrites positions 0 to 6 of the cached set and leaves every
/// other position as it was.
pub proof fn lemma_merge_legacy_positions(cached: u32, reply: u32)
    ensures
        forall|i: nat| i < 7 ==> #[trigger] bit(merge_legacy(cached, reply), i) == bit(reply, i),
        forall|i: nat|
            7 <= i ==> #[trigger] bit(merge_legacy(cached, reply), i) == bit(cached, i),
{
    let merged = merge_legacy(cached, reply);
    assert(forall|i: u32|
        i < 32 ==> (#[trigger] ((((cached & !0x7fu32) | (reply & 0x7fu32)) >> i) & 1) == 1) == (if i
            < 7 {
            ((reply >> i) & 1) == 1
        } else {
            ((cached >> i) & 1) == 1
        })) by (bit_vector);
    assert forall|i: nat| i < 7 implies #[trigger] bit(merged, i) == bit(reply, i) by {
        let j = i as u32;
        assert((((((cached & !0x7fu32) | (reply & 0x7fu32)) >> j) & 1) == 1) == (((reply >> j) & 1)
            == 1));
    }
    assert forall|i: nat| 7 <= i implies #[trigger] bit(merged, i) == bit(cached, i) by {
        if i < 32 {
            let j = i as u32;
            assert((((((cached & !0x7fu32) | (reply & 0x7fu32)) >> j) & 1) == 1) == (((cached >> j)
                & 1) == 1));
        }
    }
}

/// Turning the lowest `count` bits into flags and back gives those bits again.
pub proof fn lemma_flags_of_bits(bits: u32, count: nat)
    requires
        count <= 32,
    ensures
        forall|i: nat| #[trigger]
            bit(flags_to_bits(bits_to_flags(bits, count)), i) == (i < count && bit(bits, i)),
{
    lemma_flags_to_bits_positions(bits_to_flags(bits, count));
}

} // verus!
