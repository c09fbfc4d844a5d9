use contracts::sanitization::sanitize_node_console_command;

#[test]
fn ordinary_commands_pass() {
    assert!(sanitize_node_console_command(&"sync;getFromState abc".to_string()));
    assert!(sanitize_node_console_command(&"readSmartContract 12".to_string()));
    assert!(sanitize_node_console_command(&"queryOracle 1 0a0b".to_string()));
}

#[test]
fn injected_commands_are_refused() {
    assert!(!sanitize_node_console_command(&"sync;getFromState a;send x".to_string()));
    assert!(!sanitize_node_console_command(&"x;savestate".to_string()));
    assert!(!sanitize_node_console_command(&";keygen".to_string()));
}
