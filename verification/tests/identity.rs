use x0x_compute::{
    encode_agent_id, encode_machine_id, encode_user_id, parse_agent_id_hex, parse_machine_id_hex,
    AgentIdentitySnapshot, ComputeError, IdentityEncodingIssue,
};

fn id(seed: u8) -> [u8; 32] {
    let mut out = [0u8; 32];
    for (i, byte) in out.iter_mut().enumerate() {
        *byte = seed.wrapping_mul(31).wrapping_add(i as u8 * 7);
    }
    out
}

#[test]
fn identity_snapshot_uses_full_hex_identifiers() {
    let snapshot = AgentIdentitySnapshot {
        machine_id: encode_machine_id(&id(1)),
        agent_id: encode_agent_id(&id(2)),
        user_id: None,
    };

    assert_eq!(snapshot.machine_id.len(), 64);
    assert_eq!(snapshot.agent_id.len(), 64);
}

#[test]
fn parse_agent_id_round_trips_full_hex() {
    let id_bytes = id(3);
    let encoded = encode_agent_id(&id_bytes);
    let parsed = parse_agent_id_hex(&encoded).expect("parse agent id");
    assert_eq!(parsed, id_bytes);
}

#[test]
fn parse_machine_id_rejects_wrong_length() {
    let error = parse_machine_id_hex("abcd").expect_err("expected wrong length to fail");
    assert!(matches!(
        error,
        ComputeError::InvalidIdentityEncoding {
            field: "machine_id",
            ..
        }
    ));
    assert!(matches!(
        error,
        ComputeError::InvalidIdentityEncoding {
            details: IdentityEncodingIssue::WrongByteLength { got: 2 },
            ..
        }
    ));
}

#[test]
fn encoding_is_lowercase_hex_high_nibble_first() {
    let mut bytes = [0u8; 32];
    bytes[0] = 0xab;
    bytes[1] = 0x01;
    bytes[31] = 0xff;
    let encoded = encode_user_id(&bytes);
    assert!(encoded.starts_with("ab01"));
    assert!(encoded.ends_with("ff"));
    assert_eq!(encoded.len(), 64);
}

#[test]
fn parse_accepts_uppercase_digits() {
    let id_bytes = id(9);
    let upper = encode_machine_id(&id_bytes).to_uppercase();
    assert_eq!(parse_machine_id_hex(&upper).expect("parse"), id_bytes);
}

#[test]
fn parse_reports_odd_length_first() {
    let error = parse_agent_id_hex("abc").expect_err("odd");
    assert!(matches!(
        error,
        ComputeError::InvalidIdentityEncoding {
            field: "agent_id",
            details: IdentityEncodingIssue::OddLength
        }
    ));
}

#[test]
fn parse_reports_first_invalid_character() {
    let error = parse_agent_id_hex("00g0zz").expect_err("invalid");
    assert!(matches!(
        error,
        ComputeError::InvalidIdentityEncoding {
            details: IdentityEncodingIssue::InvalidHexCharacter { c: 'g', index: 2 },
            ..
        }
    ));
}

#[test]
fn snapshot_from_ids_encodes_each_identifier() {
    let machine = id(4);
    let agent = id(5);
    let user = id(6);
    let snapshot = AgentIdentitySnapshot::from_ids(&machine, &agent, Some(&user));
    assert_eq!(snapshot.machine_id, encode_machine_id(&machine));
    assert_eq!(snapshot.agent_id, encode_agent_id(&agent));
    assert_eq!(snapshot.user_id, Some(encode_user_id(&user)));
    let without_user = AgentIdentitySnapshot::from_ids(&machine, &agent, None);
    assert_eq!(without_user.user_id, None);
}

#[test]
fn full_lowercase_hex_parses_and_encodes_back() {
    let text = "00ff10a9b8c7d6e5f4030201fedcba98765432100123456789abcdef0a1b2c3d";
    let parsed = parse_agent_id_hex(text).expect("valid agent id");
    assert_eq!(encode_agent_id(&parsed), text);
}

#[test]
fn issue_details_read_as_messages() {
    assert_eq!(
        IdentityEncodingIssue::WrongByteLength { got: 31 }.details_text(),
        "expected 32 bytes, got 31"
    );
    assert_eq!(IdentityEncodingIssue::WrongByteLength { got: 0 }.details_text(), "expected 32 bytes, got 0");
    assert_eq!(IdentityEncodingIssue::OddLength.details_text(), "Odd number of digits");
    assert_eq!(IdentityEncodingIssue::InvalidStringLength.details_text(), "Invalid string length");
    assert_eq!(
        IdentityEncodingIssue::InvalidHexCharacter { c: 'g', index: 3 }.details_text(),
        "Invalid character 'g' at position 3"
    );
}

#[test]
fn wrong_length_error_carries_its_message() {
    let error = parse_machine_id_hex("abcd").expect_err("two bytes are too few");
    match error {
        ComputeError::InvalidIdentityEncoding { field, details } => {
            assert_eq!(field, "machine_id");
            assert_eq!(details.details_text(), "expected 32 bytes, got 2");
        }
        other => panic!("unexpected error {other:?}"),
    }
}
