use zellij_ext::dict::Dict;
use zellij_ext::readmodel::{
    collect_seen, default_true, in_state_dir, is_record_file, locate_snapshot, AgentStatus,
    SeenRecord,
};

fn env(pairs: &[(&str, &str)]) -> Dict<String, String> {
    let mut d = Dict::new();
    for (k, v) in pairs {
        d.insert(k.to_string(), v.to_string());
    }
    d
}

#[test]
fn words_for_statuses() {
    assert_eq!(AgentStatus::from_text("busy".to_string()), AgentStatus::Busy);
    assert_eq!(AgentStatus::from_text("idle".to_string()), AgentStatus::Idle);
    assert_eq!(AgentStatus::from_text("waiting".to_string()), AgentStatus::Waiting);
    assert_eq!(
        AgentStatus::from_text("shell".to_string()),
        AgentStatus::Unknown("shell".to_string())
    );
    assert_eq!(AgentStatus::from_text("Busy".to_string()), AgentStatus::Unknown("Busy".to_string()));
}

#[test]
fn home_goes_before_userprofile() {
    let loc = locate_snapshot(&env(&[("HOME", "/h"), ("USERPROFILE", "C:\\u")]), "d/state").unwrap();
    assert_eq!(loc.host_root, "/h");
    assert_eq!(loc.wasi_path, "/host/d/state/agent-readmodel.json");
    assert_eq!(loc.seen_events_dir, "/host/d/state/agent-seen-events");
    let loc = locate_snapshot(&env(&[("USERPROFILE", "C:\\u")]), "d/state").unwrap();
    assert_eq!(loc.host_root, "C:\\u");
    assert!(locate_snapshot(&env(&[("PATH", "/bin")]), "d/state").is_none());
    assert_eq!(in_state_dir("s", "x"), "/host/s/x");
}

#[test]
fn only_json_files_are_records_and_the_later_one_counts() {
    assert!(is_record_file(&Some("json".to_string())));
    assert!(!is_record_file(&Some("tmp".to_string())));
    assert!(!is_record_file(&None));
    let rec = |id: &str, at: i64| SeenRecord { session_id: id.to_string(), seen_at_ms: at };
    let seen = collect_seen(vec![rec("a", 5), rec("b", 7), rec("a", 3)]);
    assert_eq!(seen.get(&"a".to_string()), Some(&3));
    assert_eq!(seen.get(&"b".to_string()), Some(&7));
    assert_eq!(seen.len(), 2);
    assert!(default_true());
}

#[test]
fn a_dictionary_keeps_one_value_to_a_key() {
    let mut d: Dict<String, i64> = Dict::new();
    assert!(d.is_empty());
    d.insert("a".to_string(), 1);
    d.insert("b".to_string(), 2);
    d.insert("a".to_string(), 3);
    assert_eq!(d.len(), 2);
    assert_eq!(d.get(&"a".to_string()), Some(&3));
    let mut e: Dict<String, i64> = Dict::new();
    e.insert("b".to_string(), 2);
    e.insert("a".to_string(), 3);
    assert!(d.same_as(&e));
    assert!(e.remove(&"b".to_string()));
    assert!(!e.remove(&"b".to_string()));
    assert!(!d.same_as(&e));
    assert!(!e.same_as(&d));
    assert!(!e.contains(&"b".to_string()));
    assert_eq!(e.key_at(0), "a");
    assert_eq!(*e.value_at(0), 3);
}
