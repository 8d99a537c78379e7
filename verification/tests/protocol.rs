use jdwp_client::jdwp::capabilities::{
    ADD_METHOD, FORCE_EARLY_RETURN, GET_BYTECODES, GET_MONITOR_INFO, REDEFINE_CLASSES, RESERVED,
    WATCH_FIELD_ACCESS, WATCH_FIELD_MODIFICATION,
};
use jdwp_client::jdwp::{Capabilities, Command, Error, IDSizes, Reply};

fn sizes() -> IDSizes {
    IDSizes { field: 8, method: 8, object: 8, reference_type: 8, frame: 8 }
}

fn caps(bits: u32) -> Capabilities {
    Capabilities::from_bits(bits).unwrap()
}

fn version(description: &str, major: i32, minor: i32, version: &str, name: &str) -> Reply {
    Reply::Version {
        description: String::from(description),
        major,
        minor,
        version: String::from(version),
        name: String::from(name),
    }
}

fn round_trip(set: u8, cmd: u8, reply: &Reply) -> Result<Reply, Error> {
    Reply::deserialize(set, cmd, &reply.serialize(sizes()), sizes())
}

#[test]
fn commands_have_their_numbers() {
    assert_eq!(Command::Version.serialize(sizes()), (1, 1, vec![]));
    assert_eq!(Command::IDSizes.serialize(sizes()), (1, 7, vec![]));
    assert_eq!(Command::Capabilities.serialize(sizes()), (1, 12, vec![]));
    assert_eq!(Command::CapabilitiesNew.serialize(sizes()), (1, 17, vec![]));
}

#[test]
fn commands_round_trip() {
    for c in [Command::Version, Command::Capabilities, Command::CapabilitiesNew, Command::IDSizes] {
        let (set, cmd, data) = c.serialize(sizes());
        assert_eq!(Command::deserialize(set, cmd, &data, sizes()), Ok(c));
    }
}

#[test]
fn unknown_commands_are_unimplemented() {
    for set in 0..=u8::MAX {
        for cmd in 0..=u8::MAX {
            let known = set == 1 && [1u8, 7, 12, 17].contains(&cmd);
            let got = Command::deserialize(set, cmd, &[], sizes());
            assert_eq!(got.is_ok(), known);
            if !known {
                assert_eq!(got, Err(Error::Unimplemented));
                assert_eq!(
                    Reply::deserialize(set, cmd, &[0; 64], sizes()),
                    Err(Error::Unimplemented)
                );
            }
        }
    }
}

#[test]
fn command_payload_is_not_looked_at() {
    assert_eq!(Command::deserialize(1, 1, &[1, 2, 3], sizes()), Ok(Command::Version));
}

#[test]
fn version_reply_encoding_is_exact() {
    let reply = version("demo", 1, 6, "1.0", "DemoVM");
    assert_eq!(
        reply.serialize(sizes()),
        vec![
            0, 0, 0, 4, b'd', b'e', b'm', b'o', 0, 0, 0, 1, 0, 0, 0, 6, 0, 0, 0, 3, b'1', b'.',
            b'0', 0, 0, 0, 6, b'D', b'e', b'm', b'o', b'V', b'M',
        ]
    );
}

#[test]
fn version_reply_round_trips() {
    for reply in [
        version("demo", 1, 6, "1.0", "DemoVM"),
        version("", 0, 0, "", ""),
        version("", i32::MIN, i32::MAX, "\u{1f600}", "\u{e9}"),
        version("a\nb", -1, 1, "x", ""),
    ] {
        assert_eq!(round_trip(1, 1, &reply), Ok(reply));
    }
}

#[test]
fn version_reply_cut_short_is_absent_information() {
    let full = version("demo", 1, 6, "1.0", "DemoVM").serialize(sizes());
    for cut in 0..full.len() {
        assert_eq!(
            Reply::deserialize(1, 1, &full[..cut], sizes()),
            Err(Error::AbsentInformation)
        );
    }
}

#[test]
fn version_reply_with_bad_string_fails() {
    let mut payload = version("demo", 1, 6, "1.0", "DemoVM").serialize(sizes());
    payload[4] = 0xff;
    assert_eq!(Reply::deserialize(1, 1, &payload, sizes()), Err(Error::InvalidString));
    payload[0] = 0x80;
    assert_eq!(Reply::deserialize(1, 1, &payload, sizes()), Err(Error::InvalidLength));
}

#[test]
fn bytes_after_a_reply_are_ignored() {
    let reply = version("demo", 1, 6, "1.0", "DemoVM");
    let mut payload = reply.serialize(sizes());
    payload.extend_from_slice(&[1, 2, 3]);
    assert_eq!(Reply::deserialize(1, 1, &payload, sizes()), Ok(reply));
    assert_eq!(
        Reply::deserialize(1, 12, &[1; 9], sizes()),
        Ok(Reply::Capabilities(caps(0x7f)))
    );
}

#[test]
fn id_sizes_reply_round_trips() {
    let reply = Reply::IDSizes { field: 8, method: 4, object: 2, reference_type: 1, frame: 0 };
    assert_eq!(
        reply.serialize(sizes()),
        vec![0, 0, 0, 8, 0, 0, 0, 4, 0, 0, 0, 2, 0, 0, 0, 1, 0, 0, 0, 0]
    );
    assert_eq!(round_trip(1, 7, &reply), Ok(reply));
    let extreme = Reply::IDSizes {
        field: i32::MAX,
        method: i32::MIN,
        object: -1,
        reference_type: 0,
        frame: 1,
    };
    assert_eq!(round_trip(1, 7, &extreme), Ok(extreme));
    assert_eq!(Reply::deserialize(1, 7, &[0; 19], sizes()), Err(Error::AbsentInformation));
}

#[test]
fn legacy_capabilities_take_seven_bytes() {
    let reply = Reply::Capabilities(caps(0b001_0101));
    assert_eq!(reply.serialize(sizes()), vec![1, 0, 1, 0, 1, 0, 0]);
    assert_eq!(round_trip(1, 12, &reply), Ok(reply));
}

#[test]
fn legacy_capabilities_round_trip_all_clear_and_all_set() {
    let clear = Reply::Capabilities(caps(0));
    assert_eq!(clear.serialize(sizes()), vec![0; 7]);
    assert_eq!(round_trip(1, 12, &clear), Ok(clear));
    let set = Reply::Capabilities(caps(0x7f));
    assert_eq!(set.serialize(sizes()), vec![1; 7]);
    assert_eq!(round_trip(1, 12, &set), Ok(set));
}

#[test]
fn extended_capabilities_round_trip_all_clear_and_all_set() {
    let clear = Reply::CapabilitiesNew(caps(0));
    assert_eq!(clear.serialize(sizes()), vec![0; 21]);
    assert_eq!(round_trip(1, 17, &clear), Ok(clear));
    let set = Reply::CapabilitiesNew(caps(0x1f_ffff));
    assert_eq!(set.serialize(sizes()), vec![1; 21]);
    assert_eq!(round_trip(1, 17, &set), Ok(set));
    let some = Reply::CapabilitiesNew(caps(FORCE_EARLY_RETURN | ADD_METHOD | GET_BYTECODES));
    assert_eq!(round_trip(1, 17, &some), Ok(some));
}

#[test]
fn flags_beyond_the_encoding_do_not_travel() {
    let legacy = Reply::Capabilities(caps(0xffff_ffff));
    assert_eq!(round_trip(1, 12, &legacy), Ok(Reply::Capabilities(caps(0x7f))));
    let extended = Reply::CapabilitiesNew(caps(0xffff_ffff));
    assert_eq!(round_trip(1, 17, &extended), Ok(Reply::CapabilitiesNew(caps(0x1f_ffff))));
}

#[test]
fn legacy_decode_sets_no_flag_above_six() {
    let got = Reply::deserialize(1, 12, &[0xff; 32], sizes());
    assert_eq!(got, Ok(Reply::Capabilities(caps(0x7f))));
    let got = Reply::deserialize(1, 12, &[0, 0, 0, 0, 0, 0, 2, 1, 1, 1], sizes());
    assert_eq!(got, Ok(Reply::Capabilities(caps(GET_MONITOR_INFO))));
}

#[test]
fn capability_position_is_the_byte_position() {
    for i in 0..21 {
        let mut payload = vec![0u8; 21];
        payload[i] = 1;
        assert_eq!(
            Reply::deserialize(1, 17, &payload, sizes()),
            Ok(Reply::CapabilitiesNew(caps(1 << i)))
        );
        assert_eq!(Reply::CapabilitiesNew(caps(1 << i)).serialize(sizes()), payload);
    }
}

#[test]
fn capabilities_cut_short_are_absent_information() {
    assert_eq!(Reply::deserialize(1, 12, &[1; 6], sizes()), Err(Error::AbsentInformation));
    assert_eq!(Reply::deserialize(1, 12, &[], sizes()), Err(Error::AbsentInformation));
    assert_eq!(Reply::deserialize(1, 17, &[1; 20], sizes()), Err(Error::AbsentInformation));
}

#[test]
fn capabilities_are_named_bits() {
    let c = caps(WATCH_FIELD_MODIFICATION | GET_BYTECODES | REDEFINE_CLASSES);
    assert_eq!(c.bits(), 0x85);
    assert!(c.contains(WATCH_FIELD_MODIFICATION));
    assert!(c.contains(GET_BYTECODES | REDEFINE_CLASSES));
    assert!(!c.contains(WATCH_FIELD_ACCESS));
    assert!(!c.contains(GET_BYTECODES | WATCH_FIELD_ACCESS));
    assert!(c.contains(0));
    assert_eq!(Capabilities::empty().bits(), 0);
    assert_eq!(Capabilities::default(), Capabilities::empty());
    assert_eq!(Capabilities::from_bits(RESERVED | 1).map(|c| c.bits()), Some(0xffe0_0001));
}

#[test]
fn legacy_merge_overwrites_the_first_seven_flags_only() {
    let cached = caps(0x1f_ffff);
    assert_eq!(cached.with_legacy(caps(0b001_0101)), caps(0x1f_ff80 | 0b001_0101));
    assert_eq!(caps(0).with_legacy(caps(0xffff_ffff)), caps(0x7f));
    assert_eq!(caps(0xffff_ffff).with_legacy(caps(0)), caps(0xffff_ff80));
}

#[test]
fn replies_can_be_cloned() {
    let reply = version("demo", 1, 6, "1.0", "DemoVM");
    assert_eq!(reply.clone(), reply);
}
