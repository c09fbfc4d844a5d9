use contracts::bytemap::ByteMap;
use contracts::merkle::{merklize, MerkleContainer};
use contracts::merkle::MerkleNode;
use contracts::zk::{run_batch, HostVector, LazyVector, NodeSource, VmRunDetails};
use contracts::vm::VmFault;
use sha2::{Digest, Sha256};

fn state() -> ByteMap {
    let mut m = ByteMap::new();
    m.insert("a".to_string(), b"Exit 3".to_vec());
    m.insert("hh5".to_string(), vec![0]);
    m.insert("7".to_string(), b"ExternalStateWriteableValue".to_vec());
    m
}

fn details(contracts: Vec<&str>, hashes: Vec<&str>) -> VmRunDetails {
    VmRunDetails {
        contract_contents: contracts.iter().map(|c| c.to_string()).collect(),
        contract_hash: hashes.iter().map(|h| h.to_string()).collect(),
        gas_limits: vec![100; contracts.len()],
        senders: vec![b"me".to_vec(); contracts.len()],
        lazy_len: 0,
        blockchain_len: 12,
    }
}

#[test]
fn a_batch_records_results_and_hashes() {
    let program = "InitBfr 00000005 00000000
SetCnst 00000005 0000000000000005 00000000
InitBfr 00000006 00000000
SetCnst 00000006 01 00000000
UpdateState 00000005 00000006 00000000
Invoke 10
Exit 4";
    let d = details(vec![program], vec!["hh"]);
    let info = run_batch(&d, merklize(&state()), merklize(&state())).unwrap();
    assert_eq!(info.results.len(), 1);
    assert_eq!(info.results[0].exit_code, 4);
    assert_eq!(info.merkle_root, merklize(&state())[0].hash);
    assert_eq!(info.out, "State change: hh5|01");
    let mut input = Vec::new();
    input.extend_from_slice(program.as_bytes());
    input.extend_from_slice(b"hh");
    input.extend_from_slice(b"100");
    input.extend_from_slice(b"me");
    input.extend_from_slice(b"12");
    assert_eq!(info.input_hash, hex::encode(Sha256::digest(&input)));
    let mut transition = ByteMap::new();
    transition.insert("hh5".to_string(), vec![1]);
    assert_eq!(info.state_transition_root, merklize(&transition)[0].hash);
}

#[test]
fn external_writes_need_the_writable_marker() {
    let program = "InitBfr 00000005 00000000
SetCnst 00000005 0000000000000005 00000000
InitBfr 00000006 00000000
SetCnst 00000006 02 00000000
UpdateStateExternal 00000005 00000006 00000000
Exit 0";
    let d = details(vec![program], vec!["zz"]);
    let info = run_batch(&d, merklize(&state()), merklize(&state())).unwrap();
    assert_eq!(info.out, "");
    let marked = program.replace("0000000000000005", "0000000000000007");
    let d = details(vec![marked.as_str()], vec!["zz"]);
    let info = run_batch(&d, merklize(&state()), merklize(&state())).unwrap();
    assert_eq!(info.out, "State change: 7|02");
}

#[test]
fn mismatched_batches_are_refused() {
    let mut d = details(vec!["Exit 0"], vec!["hh"]);
    d.gas_limits.clear();
    assert_eq!(run_batch(&d, merklize(&state()), merklize(&state())).err(), Some(VmFault::MalformedBatch));
}

#[test]
fn host_vector_serves_nodes_by_index() {
    let tree = merklize(&state());
    let n = tree.len();
    let mut host = HostVector::new(tree);
    assert!(host.get_wrapper(0).is_some());
    assert!(host.get_wrapper(n).is_none());
}

#[test]
fn lazy_vector_keeps_fetched_nodes() {
    let mut lazy = LazyVector::new(3);
    assert_eq!(lazy.len(), 3);
    assert!(lazy.cached(1).is_none());
    let mut tree = merklize(&state());
    let node = tree.remove(0);
    let hash = node.hash.clone();
    lazy.store(1, node);
    assert_eq!(lazy.cached(1).unwrap().hash, hash);
    assert!(lazy.cached(0).is_none());
    assert!(lazy.cached(5).is_none());
}

struct CountingSource {
    nodes: Vec<MerkleNode>,
    fetches: usize,
}

impl NodeSource for CountingSource {
    fn fetch(&mut self, index: usize) -> MerkleNode {
        self.fetches += 1;
        let n = &self.nodes[index];
        MerkleNode {
            hash: n.hash.clone(),
            value: n.value.clone(),
            children: n.children.clone(),
            parent: n.parent,
        }
    }
}

#[test]
fn lazy_vector_fetches_each_node_once() {
    let nodes = merklize(&state());
    let len = nodes.len();
    let root_hash = nodes[0].hash.clone();
    let mut source = CountingSource { nodes, fetches: 0 };
    let mut lazy = LazyVector::new(len);
    assert_eq!(lazy.get(0, &mut source).unwrap().hash, root_hash);
    assert_eq!(lazy.get(0, &mut source).unwrap().hash, root_hash);
    assert_eq!(source.fetches, 1);
    assert!(lazy.get(len, &mut source).is_none());
    assert_eq!(source.fetches, 1);
}
