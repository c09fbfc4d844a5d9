use contracts::state::{CachedState, PendingState, State, StateManager};

struct Committed {
    values: Vec<(String, Vec<u8>)>,
    reads: usize,
}

impl State for Committed {
    fn write(&mut self, location: String, contents: Vec<u8>, out: &mut String) {
        out.push_str(&format!("{}={:?};", location, contents));
    }

    fn get(&mut self, location: String) -> Result<Vec<u8>, String> {
        self.reads += 1;
        for (k, v) in &self.values {
            if *k == location {
                return Ok(v.clone());
            }
        }
        Err("absent".to_string())
    }
}

fn manager(values: Vec<(String, Vec<u8>)>, pending: PendingState) -> StateManager<Committed> {
    StateManager::new(Committed { values, reads: 0 }, pending)
}

#[test]
fn get_after_write_reads_the_cache() {
    let mut sm = manager(Vec::new(), PendingState::new());
    let mut out = String::new();
    sm.write("loc".to_string(), vec![4, 5], &mut out);
    assert_eq!(sm.get("loc".to_string()), Ok(vec![4, 5]));
    assert_eq!(sm.onchain_state.reads, 0);
    assert!(out.is_empty());
}

#[test]
fn committed_reads_are_cached() {
    let mut sm = manager(vec![("k".to_string(), vec![1])], PendingState::new());
    assert_eq!(sm.get("k".to_string()), Ok(vec![1]));
    assert_eq!(sm.get("k".to_string()), Ok(vec![1]));
    assert_eq!(sm.onchain_state.reads, 1);
    assert_eq!(sm.cached_state.get(&"k".to_string()), Some(vec![1]));
    assert!(sm.get("other".to_string()).is_err());
}

#[test]
fn sync_reads_prefer_the_pending_overlay() {
    let mut pending = PendingState::new();
    pending.write("k".to_string(), vec![9]);
    let mut sm = manager(vec![("k".to_string(), vec![1])], pending);
    assert_eq!(sm.get_sync("k".to_string()), Ok(vec![9]));
    assert_eq!(sm.get("k".to_string()), Ok(vec![1]));
    assert_eq!(sm.get_sync("j".to_string()), Err("Could not get from onchain state".to_string()));
}

#[test]
fn flush_commits_every_entry_and_can_repeat() {
    let mut sm = manager(Vec::new(), PendingState::new());
    let mut out = String::new();
    sm.write("a".to_string(), vec![1], &mut out);
    sm.write("b".to_string(), vec![2], &mut out);
    sm.write("a".to_string(), vec![3], &mut out);
    let mut first = String::new();
    sm.flush(&mut first);
    assert_eq!(first, "a=[3];b=[2];");
    let mut second = String::new();
    sm.flush(&mut second);
    assert_eq!(first, second);
}

#[test]
fn cache_dump_keeps_entries() {
    let mut cache = CachedState::new();
    cache.write("x".to_string(), vec![1]);
    let dump = cache.dump();
    assert_eq!(dump.len(), 1);
    assert_eq!(dump.get(&"x".to_string()), Some(&vec![1]));
}

fn msgpack(pairs: Vec<(rmpv::Value, rmpv::Value)>) -> Vec<u8> {
    let mut bytes = Vec::new();
    rmpv::encode::write_value(&mut bytes, &rmpv::Value::Map(pairs)).unwrap();
    bytes
}

#[test]
fn pending_state_decodes_from_messagepack() {
    let bytes = msgpack(vec![
        (rmpv::Value::from("loc1"), rmpv::Value::from("abc")),
        (rmpv::Value::from("loc2"), rmpv::Value::from("")),
    ]);
    let pending = contracts::state::decode_pending_state(&bytes).unwrap();
    assert_eq!(pending.get(&"loc1".to_string()), Some(b"abc".to_vec()));
    assert_eq!(pending.get(&"loc2".to_string()), Some(Vec::new()));
    assert_eq!(pending.get(&"loc3".to_string()), None);
}

#[test]
fn pending_state_needs_a_map_of_strings() {
    let bytes = msgpack(vec![(rmpv::Value::from("loc1"), rmpv::Value::from(5))]);
    assert!(contracts::state::decode_pending_state(&bytes).is_none());
    let mut bytes = Vec::new();
    rmpv::encode::write_value(&mut bytes, &rmpv::Value::from(3)).unwrap();
    assert!(contracts::state::decode_pending_state(&bytes).is_none());
}
