use contracts::bytemap::ByteMap;
use contracts::host::{
    chain_length_command, chain_length_response, contract_command, contract_response, node_change,
    oracle_command, parse_state_file, response_payload, state_command, StateFileError,
};

#[test]
fn commands_follow_the_console_protocol() {
    assert_eq!(contract_command(12), "readSmartContract 12");
    assert_eq!(state_command(&"abc1".to_string()), "sync;getFromState abc1");
    assert_eq!(chain_length_command(), "sync;getBlockchainLen");
    assert_eq!(oracle_command(3, &vec![0x0a, 0xff]), "queryOracle 3 0aff");
}

#[test]
fn answers_are_read_from_their_last_line() {
    let output = "diagnostic line\nother\nValue:0a0b0c\n\n";
    assert_eq!(response_payload(output), Some(vec![0x0a, 0x0b, 0x0c]));
    assert_eq!(response_payload("  short "), Some(vec![]));
    assert_eq!(response_payload("prefix:zz"), None);
    assert_eq!(chain_length_response("syncing\n17\n"), Some(17));
    assert_eq!(chain_length_response("seventeen"), None);
    assert_eq!(contract_response("\n  Exit 1\n"), "Exit 1");
}

#[test]
fn state_files_hold_located_hex_values() {
    let state: ByteMap = parse_state_file("a>0102*bc> ff \n*a>03").unwrap();
    assert_eq!(state.len(), 2);
    assert_eq!(state.get(&"a".to_string()), Some(&vec![3]));
    assert_eq!(state.get(&"bc".to_string()), Some(&vec![0xff]));
    assert_eq!(parse_state_file("").unwrap().len(), 0);
    assert_eq!(parse_state_file("a>01*b").err(), Some(StateFileError::MissingValue));
    assert_eq!(parse_state_file("a>0g").err(), Some(StateFileError::InvalidHex));
}

#[test]
fn node_state_changes_tell_internal_from_external() {
    let prefix = "abc".to_string();
    assert_eq!(
        node_change(&prefix, &"abc5".to_string(), b"hi".to_vec()),
        Some("State change: abc5|hi".to_string())
    );
    assert_eq!(
        node_change(&prefix, &"7".to_string(), b"x".to_vec()),
        Some("External state change: 7|x".to_string())
    );
    assert_eq!(node_change(&prefix, &"abc5".to_string(), vec![0xff]), None);
}
