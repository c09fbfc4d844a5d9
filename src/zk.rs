//! Proof execution: a batch of contracts run against merkle-proven state,
//! and the public record of the run.
use crate::blockutil::BlockUtilInterface;
use crate::bytemap::{copy_bytes, ByteMap};
use crate::codec::{hex_encode, hex_encoding, sha256, sha256_of};
use crate::merkle::{
    get_from_merkle, merkle_tree_of, key_chars, merklize, same_node, total_key_chars, MerkleContainer, MerkleNode,
};
use crate::merkle_state::MerkleState;
use crate::state::{PendingState, StateManager};
use crate::text::{
    append_string, decimal, decimal_string, lower_hex_string, signed_decimal,
    signed_decimal_string, utf8_string,
};
use crate::syntax_tree::decode;
use crate::vm::{
    initial_machine, report_spec, run_failure, run_outcome, run_vm, Halt, MachineModel, VmFault,
    STEP_LIMIT,
};
use vstd::prelude::*;
use vstd::utf8::encode_utf8;

verus! {

/// The host interface of proof execution: contract sources come from the
/// merkle-proven state, and there is no oracle.
pub struct ZkBlockutilInterface<A: MerkleContainer> {
    pub blockchain_len: u64,
    pub lazy_vec: A,
}

impl<A: MerkleContainer> ZkBlockutilInterface<A> {
    /// An interface over a chain of `blockchain_len` blocks and a merkle
    /// container of state.
    pub fn new(blockchain_len: u64, lazy_vec: A) -> (r: ZkBlockutilInterface<A>)
        ensures
            r.blockchain_len == blockchain_len,
            r.lazy_vec == lazy_vec,
    {
        ZkBlockutilInterface { blockchain_len, lazy_vec }
    }
}

impl<A: MerkleContainer> BlockUtilInterface for ZkBlockutilInterface<A> {
    fn read_contract(&mut self, location: u64) -> Result<String, String> {
        let key = lower_hex_string(location);
        match get_from_merkle(&mut self.lazy_vec, key) {
            Ok(bytes) => match utf8_string(bytes) {
                Some(text) => Ok(text),
                None => Err("Contract source is not valid UTF-8".to_owned()),
            },
            Err(_) => Err("Contract not found in merkle state".to_owned()),
        }
    }

    fn get_blockchain_len(&mut self) -> u64 {
        self.blockchain_len
    }

    fn query_oracle(&mut self, query_type: u64, query_body: Vec<u8>) -> (Vec<u8>, bool) {
        (Vec::new(), false)
    }
}

/// Where the nodes of a lazily fetched tree come from.
pub trait NodeSource {
    /// The node at `index`, fetched from outside.
    fn fetch(&mut self, index: usize) -> MerkleNode;
}

/// Merkle nodes fetched on demand, each kept once fetched.
pub struct LazyVector {
    len: usize,
    elements: Vec<Option<MerkleNode>>,
}

impl LazyVector {
    /// The number of nodes.
    pub closed spec fn spec_len(&self) -> usize {
        self.len
    }

    /// The node fetched at `i`, if any.
    pub closed spec fn fetched(&self, i: int) -> Option<MerkleNode> {
        self.elements@[i]
    }

    /// Well formed: one slot per node.
    pub closed spec fn wf(&self) -> bool {
        self.elements@.len() == self.len
    }

    /// A vector of `len` nodes, none fetched yet.
    pub fn new(len: usize) -> (r: LazyVector)
        ensures
            r.wf(),
            r.spec_len() == len,
            forall|i: int| 0 <= i < len ==> #[trigger] r.fetched(i) is None,
    {
        let mut elements: Vec<Option<MerkleNode>> = Vec::new();
        let mut i: usize = 0;
        while i < len
            invariant
                i <= len,
                elements@.len() == i,
                forall|j: int| 0 <= j < i ==> (#[trigger] elements@[j]) is None,
            decreases len - i,
        {
            elements.push(None);
            i = i + 1;
        }
        LazyVector { len, elements }
    }

    /// The number of nodes.
    pub fn len(&self) -> (r: usize)
        ensures
            r == self.spec_len(),
    {
        self.len
    }

    /// A copy of the node fetched at `index`, if it has been fetched.
    pub fn cached(&self, index: usize) -> (r: Option<MerkleNode>)
        requires
            self.wf(),
        ensures
            index >= self.spec_len() ==> r is None,
            index < self.spec_len() ==> match self.fetched(index as int) {
                Some(n) => r is Some && same_node(r->0, n),
                None => r is None,
            },
    {
        if index >= self.len {
            return None;
        }
        match &self.elements[index] {
            Some(n) => Some(crate::merkle::copy_node(n)),
            None => None,
        }
    }

    /// The node at `index`: the one kept from an earlier fetch, or else one
    /// fetched from `source` now and kept; none past the end.
    pub fn get<S: NodeSource>(&mut self, index: usize, source: &mut S) -> (r: Option<MerkleNode>)
        requires
            old(self).wf(),
        ensures
            final(self).wf(),
            final(self).spec_len() == old(self).spec_len(),
            index >= old(self).spec_len() ==> r is None && *final(self) == *old(self),
            index < old(self).spec_len() && old(self).fetched(index as int) is Some ==> r is Some
                && same_node(r->0, old(self).fetched(index as int)->0) && *final(self) == *old(self),
            index < old(self).spec_len() && old(self).fetched(index as int) is None ==> r is Some
                && final(self).fetched(index as int) is Some && same_node(
                r->0,
                final(self).fetched(index as int)->0,
            ),
            forall|i: int|
                0 <= i < old(self).spec_len() && i != index ==> #[trigger] final(self).fetched(i)
                    == old(self).fetched(i),
    {
        if index >= self.len {
            return None;
        }
        match self.cached(index) {
            Some(n) => Some(n),
            None => {
                let node = source.fetch(index);
                let copy = crate::merkle::copy_node(&node);
                self.store(index, node);
                Some(copy)
            },
        }
    }

    /// Keeps a node fetched at `index`.
    pub fn store(&mut self, index: usize, node: MerkleNode)
        requires
            old(self).wf(),
            index < old(self).spec_len(),
        ensures
            final(self).wf(),
            final(self).spec_len() == old(self).spec_len(),
            final(self).fetched(index as int) == Some(node),
            forall|i: int|
                0 <= i < old(self).spec_len() && i != index ==> #[trigger] final(self).fetched(i)
                    == old(self).fetched(i),
    {
        self.elements.set(index, Some(node));
    }
}

/// The host's copy of the merkle nodes, served to the guest by index.
pub struct HostVector {
    elements: Vec<MerkleNode>,
}

impl HostVector {
    /// A vector serving `elements`.
    pub fn new(elements: Vec<MerkleNode>) -> (r: HostVector)
        ensures
            r.nodes() == elements@,
    {
        HostVector { elements }
    }
}

impl MerkleContainer for HostVector {
    closed spec fn nodes(&self) -> Seq<MerkleNode> {
        self.elements@
    }

    fn get_wrapper(&mut self, index: usize) -> (r: Option<MerkleNode>) {
        if index < self.elements.len() {
            Some(crate::merkle::copy_node(&self.elements[index]))
        } else {
            None
        }
    }
}

/// The inputs of a batch: contracts with their hashes, gas limits and
/// senders, the size of the merkle tree, and the chain length.
pub struct VmRunDetails {
    pub contract_contents: Vec<String>,
    pub contract_hash: Vec<String>,
    pub gas_limits: Vec<i64>,
    pub senders: Vec<Vec<u8>>,
    pub lazy_len: usize,
    pub blockchain_len: u64,
}

/// The outcome of one contract of a batch.
pub struct ZkContractResult {
    pub exit_code: i64,
    pub gas_used: i64,
}

/// The public record of a batch.
pub struct ZkInfo {
    pub results: Vec<ZkContractResult>,
    pub out: String,
    pub merkle_root: String,
    pub state_transition_root: String,
    pub input_hash: String,
}

/// The UTF-8 bytes of a list of texts, concatenated.
pub open spec fn texts_bytes(v: Seq<Seq<char>>) -> Seq<u8>
    decreases v.len(),
{
    if v.len() == 0 {
        Seq::empty()
    } else {
        texts_bytes(v.drop_last()) + encode_utf8(v.last())
    }
}

/// A list of byte strings, concatenated.
pub open spec fn bytes_concat(v: Seq<Seq<u8>>) -> Seq<u8>
    decreases v.len(),
{
    if v.len() == 0 {
        Seq::empty()
    } else {
        bytes_concat(v.drop_last()) + v.last()
    }
}

/// The bytes a batch's input hash covers: the contracts, their hashes, the
/// decimal gas limits, the senders, then the decimal chain length.
pub open spec fn batch_input(d: VmRunDetails) -> Seq<u8> {
    texts_bytes(d.contract_contents@.map_values(|s: String| s@)) + texts_bytes(
        d.contract_hash@.map_values(|s: String| s@),
    ) + texts_bytes(d.gas_limits@.map_values(|g: i64| signed_decimal(g))) + bytes_concat(
        d.senders@.map_values(|s: Vec<u8>| s@),
    ) + encode_utf8(decimal(d.blockchain_len as nat))
}

/// Appends the bytes of `b` to `data`.
fn extend_bytes(data: &mut Vec<u8>, b: &[u8])
    ensures
        final(data)@ == old(data)@ + b@,
{
    let mut i: usize = 0;
    while i < b.len()
        invariant
            i <= b@.len(),
            data@ == old(data)@ + b@.subrange(0, i as int),
        decreases b@.len() - i,
    {
        data.push(b[i]);
        i = i + 1;
        assert(data@ =~= old(data)@ + b@.subrange(0, i as int));
    }
    assert(b@.subrange(0, b@.len() as int) =~= b@);
}

/// Appends the UTF-8 bytes of each text in turn.
fn extend_texts(data: &mut Vec<u8>, v: &Vec<String>)
    ensures
        final(data)@ == old(data)@ + texts_bytes(v@.map_values(|s: String| s@)),
{
    let ghost tv = v@.map_values(|s: String| s@);
    let mut i: usize = 0;
    assert(tv.subrange(0, 0) =~= Seq::<Seq<char>>::empty());
    while i < v.len()
        invariant
            i <= v@.len(),
            tv == v@.map_values(|s: String| s@),
            data@ == old(data)@ + texts_bytes(tv.subrange(0, i as int)),
        decreases v@.len() - i,
    {
        extend_bytes(data, v[i].as_str().as_bytes());
        assert(tv.subrange(0, i as int + 1).drop_last() =~= tv.subrange(0, i as int));
        i = i + 1;
        assert(data@ =~= old(data)@ + texts_bytes(tv.subrange(0, i as int)));
    }
    assert(tv.subrange(0, v@.len() as int) =~= tv);
}

/// The bytes a batch's input hash covers.
pub fn batch_input_bytes(d: &VmRunDetails) -> (r: Vec<u8>)
    ensures
        r@ == batch_input(*d),
{
    let mut data: Vec<u8> = Vec::new();
    extend_texts(&mut data, &d.contract_contents);
    extend_texts(&mut data, &d.contract_hash);
    let ghost gv = d.gas_limits@.map_values(|g: i64| signed_decimal(g));
    let ghost start = data@;
    let mut i: usize = 0;
    assert(gv.subrange(0, 0) =~= Seq::<Seq<char>>::empty());
    while i < d.gas_limits.len()
        invariant
            i <= d.gas_limits@.len(),
            gv == d.gas_limits@.map_values(|g: i64| signed_decimal(g)),
            data@ == start + texts_bytes(gv.subrange(0, i as int)),
        decreases d.gas_limits@.len() - i,
    {
        let t = signed_decimal_string(d.gas_limits[i]);
        extend_bytes(&mut data, t.as_str().as_bytes());
        assert(gv.subrange(0, i as int + 1).drop_last() =~= gv.subrange(0, i as int));
        i = i + 1;
        assert(data@ =~= start + texts_bytes(gv.subrange(0, i as int)));
    }
    assert(gv.subrange(0, d.gas_limits@.len() as int) =~= gv);
    let ghost sv = d.senders@.map_values(|s: Vec<u8>| s@);
    let ghost start2 = data@;
    let mut j: usize = 0;
    assert(sv.subrange(0, 0) =~= Seq::<Seq<u8>>::empty());
    while j < d.senders.len()
        invariant
            j <= d.senders@.len(),
            sv == d.senders@.map_values(|s: Vec<u8>| s@),
            data@ == start2 + bytes_concat(sv.subrange(0, j as int)),
        decreases d.senders@.len() - j,
    {
        extend_bytes(&mut data, d.senders[j].as_slice());
        assert(sv.subrange(0, j as int + 1).drop_last() =~= sv.subrange(0, j as int));
        j = j + 1;
        assert(data@ =~= start2 + bytes_concat(sv.subrange(0, j as int)));
    }
    assert(sv.subrange(0, d.senders@.len() as int) =~= sv);
    let len_text = decimal_string(d.blockchain_len);
    extend_bytes(&mut data, len_text.as_str().as_bytes());
    data
}

/// Whether the keys of a map are short enough to build its merkle tree.
pub fn fits_in_merkle_tree(state: &ByteMap) -> (r: bool)
    requires
        state.wf(),
    ensures
        r == (total_key_chars(*state) + 2 < usize::MAX),
{
    let n = state.len();
    let mut total: usize = 0;
    let mut i: usize = 0;
    while i < n
        invariant
            state.wf(),
            n == state.spec_len(),
            i <= n,
            total == key_chars(*state, i as int),
            total + 2 < usize::MAX,
        decreases n - i,
    {
        let (k, _) = state.entry_at(i);
        let kl = k.as_str().unicode_len();
        assert(kl == state.key_at(i as int).len());
        if kl >= usize::MAX - 2 - total {
            proof {
                lemma_key_chars_grow(*state, i as int + 1, n as int);
            }
            return false;
        }
        total = total + kl;
        i = i + 1;
    }
    true
}

proof fn lemma_key_chars_grow(state: ByteMap, a: int, b: int)
    requires
        0 <= a <= b,
    ensures
        key_chars(state, a) <= key_chars(state, b),
    decreases b - a,
{
    if a < b {
        lemma_key_chars_grow(state, a, b - 1);
    }
}

/// Result `j` of a batch is what running contract `j` on a fresh machine
/// reports, over some pending overlay of the batch's earlier writes.
pub open spec fn batch_result(d: VmRunDetails, results: Seq<ZkContractResult>, j: int) -> bool {
    exists|pending: Map<Seq<char>, Seq<u8>>, h: Halt, fin: MachineModel, fin_pc: usize|
        #[trigger] run_outcome(
            decode(d.contract_contents@[j]@),
            d.contract_hash@[j]@,
            d.senders@[j]@,
            pending,
            d.gas_limits@[j],
            initial_machine(Map::empty()),
            0,
            h,
            fin,
            fin_pc,
        ) && (results[j].exit_code, results[j].gas_used) == report_spec(
            h,
            fin.gas,
            d.gas_limits@[j],
        )
}

/// Contract `j` of a batch fails with `f` on a fresh machine, over some
/// pending overlay of the batch's earlier writes.
pub open spec fn contract_fails(d: VmRunDetails, j: int, f: VmFault) -> bool {
    exists|pending: Map<Seq<char>, Seq<u8>>, fin: MachineModel|
        #[trigger] run_failure(
            decode(d.contract_contents@[j]@),
            d.contract_hash@[j]@,
            d.senders@[j]@,
            pending,
            d.gas_limits@[j],
            initial_machine(Map::empty()),
            0,
            f,
            STEP_LIMIT,
            fin,
        )
}

/// Whether the lists of a batch's inputs have one entry per contract.
pub open spec fn batch_well_formed(d: VmRunDetails) -> bool {
    d.contract_hash@.len() == d.contract_contents@.len() && d.gas_limits@.len()
        == d.contract_contents@.len() && d.senders@.len() == d.contract_contents@.len()
}

/// The results of the first `j` contracts of a batch.
pub open spec fn batch_prefix_ran(d: VmRunDetails, results: Seq<ZkContractResult>, j: int) -> bool {
    results.len() == j && forall|k: int| 0 <= k < j ==> #[trigger] batch_result(d, results, k)
}

/// The results of every contract of a batch.
pub open spec fn batch_ran(d: VmRunDetails, results: Seq<ZkContractResult>) -> bool {
    results.len() == d.contract_contents@.len() && forall|j: int|
        0 <= j < results.len() ==> #[trigger] batch_result(d, results, j)
}

/// Why a batch fails with `f`: its inputs do not fit together; the state
/// tree has no root; a contract fails, all before it having run; or the
/// state transition is too large for its merkle tree, all contracts having
/// run.
pub open spec fn batch_error(d: VmRunDetails, nodes: Seq<MerkleNode>, f: VmFault) -> bool {
    ||| (!batch_well_formed(d) && f == VmFault::MalformedBatch)
    ||| (batch_well_formed(d) && nodes.len() == 0 && f == VmFault::StateUnavailable)
    ||| (batch_well_formed(d) && nodes.len() > 0 && exists|j: int, results: Seq<ZkContractResult>|
        0 <= j < d.contract_contents@.len() && #[trigger] batch_prefix_ran(d, results, j)
            && #[trigger] contract_fails(d, j, f))
    ||| (batch_well_formed(d) && nodes.len() > 0 && f == VmFault::MalformedBatch && exists|
        results: Seq<ZkContractResult>,
    | #[trigger] batch_ran(d, results))
}

/// Runs a batch of contracts in order against merkle-proven state, sharing
/// one pending overlay so that later contracts see earlier writes. The
/// record holds each contract's exit code and gas, the joined output, the
/// committed root, the root of the state transition, and the input hash.
pub fn run_batch<A: MerkleContainer, C: MerkleContainer>(
    run_details: &VmRunDetails,
    state_tree: A,
    contract_tree: C,
) -> (r: Result<ZkInfo, VmFault>)
    ensures
        r is Ok ==> r->Ok_0.results@.len() == run_details.contract_contents@.len(),
        r is Ok ==> forall|j: int|
            0 <= j < r->Ok_0.results@.len() ==> #[trigger] batch_result(
                *run_details,
                r->Ok_0.results@,
                j,
            ),
        r is Ok ==> r->Ok_0.input_hash@ == hex_encoding(sha256_of(batch_input(*run_details))),
        r is Ok ==> state_tree.nodes().len() > 0 && r->Ok_0.merkle_root@ == state_tree.nodes()[0].hash@,
        r is Ok ==> exists|t: Seq<MerkleNode>, m: Map<Seq<char>, Seq<u8>>|
            #[trigger] merkle_tree_of(t, m) && r->Ok_0.state_transition_root@ == t[0].hash@,
        r is Err ==> batch_error(*run_details, state_tree.nodes(), r->Err_0),
        run_details.contract_hash@.len() != run_details.contract_contents@.len()
            || run_details.gas_limits@.len() != run_details.contract_contents@.len()
            || run_details.senders@.len() != run_details.contract_contents@.len() ==> r
            == Err::<ZkInfo, VmFault>(VmFault::MalformedBatch),
{
    let n = run_details.contract_contents.len();
    if run_details.contract_hash.len() != n || run_details.gas_limits.len() != n
        || run_details.senders.len() != n {
        return Err(VmFault::MalformedBatch);
    }
    let ghost nodes = state_tree.nodes();
    let mut tree = state_tree;
    let merkle_root = match tree.get_wrapper(0) {
        Some(root) => root.hash,
        None => {
            return Err(VmFault::StateUnavailable);
        },
    };
    let mut interface = ZkBlockutilInterface::new(run_details.blockchain_len, contract_tree);
    let mut merkle_state = MerkleState::new(tree, String::new(), PendingState::new());
    let mut results: Vec<ZkContractResult> = Vec::new();
    let mut out_final = String::new();
    let mut i: usize = 0;
    while i < n
        invariant
            n == run_details.contract_contents@.len(),
            n == run_details.contract_hash@.len(),
            n == run_details.gas_limits@.len(),
            n == run_details.senders@.len(),
            i <= n,
            results@.len() == i,
            nodes.len() > 0,
            nodes == state_tree.nodes(),
            forall|j: int| 0 <= j < i ==> #[trigger] batch_result(*run_details, results@, j),
            merkle_state.wf(),
        decreases n - i,
    {
        merkle_state.prefix = run_details.contract_hash[i].clone();
        let pending = merkle_state.pending_state.duplicate();
        let mut state_manager = StateManager::new(merkle_state, pending);
        let res = run_vm(
            run_details.contract_contents[i].clone(),
            run_details.contract_hash[i].clone(),
            run_details.gas_limits[i],
            copy_bytes(&run_details.senders[i]),
            &mut state_manager,
            &mut interface,
        );
        merkle_state = state_manager.onchain_state;
        merkle_state.pending_state.data.confirm_wf();
        merkle_state.transition.confirm_wf();
        match res {
            Ok((exit_code, gas_used, out)) => {
                let ghost before = results@;
                results.push(ZkContractResult { exit_code, gas_used });
                proof {
                    assert(run_details.contract_contents@[i as int]@ == run_details.contract_contents@[i as int]@);
                    assert forall|j: int| 0 <= j < i + 1 implies #[trigger] batch_result(
                        *run_details,
                        results@,
                        j,
                    ) by {
                        if j < i {
                            assert(batch_result(*run_details, before, j));
                            assert(results@[j] == before[j]);
                        }
                    }
                }
                append_string(&mut out_final, &out);
            },
            Err(f) => {
                proof {
                    assert(contract_fails(*run_details, i as int, f));
                    assert(batch_prefix_ran(*run_details, results@, i as int));
                }
                return Err(f);
            },
        }
        i = i + 1;
    }
    let input = batch_input_bytes(run_details);
    let input_hash = hex_encode(sha256(input.as_slice()).as_slice());
    let transition = merkle_state.dump();
    if !fits_in_merkle_tree(&transition) {
        assert(batch_ran(*run_details, results@));
        return Err(VmFault::MalformedBatch);
    }
    let transition_tree = merklize(&transition);
    let state_transition_root = transition_tree[0].hash.clone();
    Ok(ZkInfo { results, out: out_final, merkle_root, state_transition_root, input_hash })
}

} // verus!
