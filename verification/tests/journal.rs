use stead::journal::{is_journal_file, replay_order, session_file_name};
use stead::mqtt::{parse_port, MqttConfig};

#[test]
fn session_files_are_numbered_and_replayed_in_name_order() {
    assert_eq!(session_file_name(1, "server"), "000001-server.jsonl");
    assert_eq!(session_file_name(1234567, "ha-sync"), "1234567-ha-sync.jsonl");
    assert!(is_journal_file("000002-mcp.jsonl"));
    assert!(!is_journal_file(".jsonl"));
    assert!(!is_journal_file("notes.txt"));
    assert!(!is_journal_file("000003-x.jsonl.gz"));
    let names = vec![
        "000010-b.jsonl".to_string(),
        "README".to_string(),
        "000002-a.jsonl".to_string(),
        "000001-z.jsonl".to_string(),
    ];
    assert_eq!(replay_order(&names), vec!["000001-z.jsonl", "000002-a.jsonl", "000010-b.jsonl"]);
}

#[test]
fn mqtt_settings_default_like_the_environment_reader() {
    assert!(MqttConfig::from_settings(None, None, None, None, None, None).is_none());
    let c = MqttConfig::from_settings(Some("broker".into()), Some("nope".into()), None, None, None, None).unwrap();
    assert_eq!(c.host, "broker");
    assert_eq!(c.port, 1883);
    assert_eq!(c.topic, "stead/events/#");
    assert_eq!(c.client_id, "stead-ingest");
    let c = MqttConfig::from_settings(
        Some("b".into()),
        Some("8883".into()),
        Some("u".into()),
        Some("p".into()),
        Some("t/#".into()),
        Some("id".into()),
    )
    .unwrap();
    assert_eq!(c.port, 8883);
    assert_eq!(c.username.as_deref(), Some("u"));
    assert_eq!(c.topic, "t/#");
}

#[test]
fn ports_parse_like_u16_from_str() {
    assert_eq!(parse_port("1883"), Some(1883));
    assert_eq!(parse_port("+80"), Some(80));
    assert_eq!(parse_port("65535"), Some(65535));
    assert_eq!(parse_port("65536"), None);
    assert_eq!(parse_port(""), None);
    assert_eq!(parse_port("+"), None);
    assert_eq!(parse_port("-1"), None);
    assert_eq!(parse_port(" 80"), None);
    assert_eq!(parse_port("0080"), Some(80));
}
