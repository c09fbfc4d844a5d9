//! The layered state: a pending overlay, a read-through write-back cache,
//! and a committed tier behind the `State` interface.
use crate::bytemap::{copy_bytes, ByteMap};
use vstd::prelude::*;

verus! {

/// A committed state tier: the host's chain state, or a merkle-proven one.
pub trait State {
    /// What committing `contents` at `location` does to the tier and to the
    /// log: the tier's own account of one write. A tier that gives none
    /// promises nothing of it.
    open spec fn wrote(
        &self,
        after: &Self,
        location: Seq<char>,
        contents: Seq<u8>,
        out: Seq<char>,
        out_after: Seq<char>,
    ) -> bool {
        true
    }

    /// Commits `contents` at `location`, appending to the log `out`.
    fn write(&mut self, location: String, contents: Vec<u8>, out: &mut String)
        ensures
            old(self).wrote(final(self), location@, contents@, old(out)@, final(out)@),
    ;

    /// The committed value at `location`, if the tier can give one.
    fn get(&mut self, location: String) -> Result<Vec<u8>, String>;
}

/// The entries of a map, in the order of its keys.
pub open spec fn map_entries(m: ByteMap) -> Seq<(Seq<char>, Seq<u8>)> {
    Seq::new(m.spec_len(), |i: int| (m.key_at(i), m@[m.key_at(i)]))
}

/// The committed tier went from `before` to `after`, and the log from `out`
/// to `out_after`, by one write of each entry, in order.
pub open spec fn flushed<B: State>(
    before: B,
    after: B,
    entries: Seq<(Seq<char>, Seq<u8>)>,
    out: Seq<char>,
    out_after: Seq<char>,
) -> bool {
    exists|tiers: Seq<B>, outs: Seq<Seq<char>>|
        #[trigger] flush_chain(tiers, outs, entries) && tiers[0] == before && tiers.last() == after
            && outs[0] == out && outs.last() == out_after
}

/// Tier and log states with one write of each entry between neighbours.
pub open spec fn flush_chain<B: State>(
    tiers: Seq<B>,
    outs: Seq<Seq<char>>,
    entries: Seq<(Seq<char>, Seq<u8>)>,
) -> bool {
    &&& tiers.len() == entries.len() + 1
    &&& outs.len() == entries.len() + 1
    &&& forall|i: int|
        0 <= i < entries.len() ==> #[trigger] tiers[i].wrote(
            &tiers[i + 1],
            entries[i].0,
            entries[i].1,
            outs[i],
            outs[i + 1],
        )
}

/// Values read from or written to state during one execution.
pub struct CachedState {
    contents: ByteMap,
}

impl View for CachedState {
    type V = Map<Seq<char>, Seq<u8>>;

    closed spec fn view(&self) -> Map<Seq<char>, Seq<u8>> {
        self.contents@
    }
}

impl CachedState {
    /// Well formed.
    pub closed spec fn wf(&self) -> bool {
        self.contents.wf()
    }

    /// An empty cache.
    pub fn new() -> (r: CachedState)
        ensures
            r.wf(),
            r@ == Map::<Seq<char>, Seq<u8>>::empty(),
    {
        CachedState { contents: ByteMap::new() }
    }

    /// Records `contents` at `location`.
    pub fn write(&mut self, location: String, contents: Vec<u8>)
        requires
            old(self).wf(),
        ensures
            final(self).wf(),
            final(self)@ == old(self)@.insert(location@, contents@),
    {
        self.contents.insert(location, contents);
    }

    /// The cached value at `location`, if any.
    pub fn get(&self, location: &String) -> (r: Option<Vec<u8>>)
        requires
            self.wf(),
        ensures
            r is Some <==> self@.contains_key(location@),
            r is Some ==> r->0@ == self@[location@],
    {
        match self.contents.get(location) {
            Some(v) => Some(copy_bytes(v)),
            None => None,
        }
    }

    /// The cached entries, in the order they were first recorded.
    pub closed spec fn entries(&self) -> Seq<(Seq<char>, Seq<u8>)> {
        map_entries(self.contents)
    }

    /// The cached entries, in the order they were first recorded.
    pub fn dump(&self) -> (r: ByteMap)
        requires
            self.wf(),
        ensures
            r.wf(),
            r@ == self@,
            map_entries(r) == self.entries(),
    {
        let r = self.contents.duplicate();
        assert(map_entries(r) =~= map_entries(self.contents));
        r
    }
}

/// Writes of earlier transactions of the same batch, not yet committed.
pub struct PendingState {
    pub data: ByteMap,
}

impl View for PendingState {
    type V = Map<Seq<char>, Seq<u8>>;

    open spec fn view(&self) -> Map<Seq<char>, Seq<u8>> {
        self.data@
    }
}

impl PendingState {
    /// Well formed.
    pub open spec fn wf(&self) -> bool {
        self.data.wf()
    }

    /// An empty overlay.
    pub fn new() -> (r: PendingState)
        ensures
            r.wf(),
            r@ == Map::<Seq<char>, Seq<u8>>::empty(),
    {
        PendingState { data: ByteMap::new() }
    }

    /// Records `contents` at `location`.
    pub fn write(&mut self, location: String, contents: Vec<u8>)
        requires
            old(self).wf(),
        ensures
            final(self).wf(),
            final(self)@ == old(self)@.insert(location@, contents@),
    {
        self.data.insert(location, contents);
    }

    /// The pending value at `location`, if any.
    pub fn get(&self, location: &String) -> (r: Option<Vec<u8>>)
        requires
            self.wf(),
        ensures
            r is Some <==> self@.contains_key(location@),
            r is Some ==> r->0@ == self@[location@],
    {
        match self.data.get(location) {
            Some(v) => Some(copy_bytes(v)),
            None => None,
        }
    }

    /// A copy of the overlay.
    pub fn duplicate(&self) -> (r: PendingState)
        requires
            self.wf(),
        ensures
            r.wf(),
            r@ == self@,
    {
        PendingState { data: self.data.duplicate() }
    }
}

/// The location and value pairs of a MessagePack map from strings to
/// strings; `None` for any other MessagePack data.
pub uninterp spec fn msgpack_string_pairs(bytes: Seq<u8>) -> Option<Seq<(Seq<char>, Seq<u8>)>>;

/// The views of decoded pairs.
pub open spec fn pair_views(v: Seq<(String, Vec<u8>)>) -> Seq<(Seq<char>, Seq<u8>)> {
    v.map_values(|p: (String, Vec<u8>)| (p.0@, p.1@))
}

/// Relies on `rmpv::decode::read_value`: reads the first MessagePack value
/// of the bytes; a map whose keys are valid UTF-8 strings and whose values
/// are strings gives its pairs in order, as text and as bytes.
#[verifier::external_body]
fn read_string_map(bytes: &[u8]) -> (r: Option<Vec<(String, Vec<u8>)>>)
    ensures
        match msgpack_string_pairs(bytes@) {
            Some(p) => r is Some && pair_views(r->0@) == p,
            None => r is None,
        },
{
    let mut reader = bytes;
    let pairs = match rmpv::decode::read_value(&mut reader) {
        Ok(rmpv::Value::Map(pairs)) => pairs,
        _ => return None,
    };
    let mut out = Vec::new();
    for pair in pairs {
        match pair {
            (rmpv::Value::String(k), rmpv::Value::String(v)) => out.push((k.into_str()?, v.into_bytes())),
            _ => return None,
        }
    }
    Some(out)
}

/// The map of a list of pairs; a later pair for a location wins.
pub open spec fn pairs_map(p: Seq<(Seq<char>, Seq<u8>)>) -> Map<Seq<char>, Seq<u8>>
    decreases p.len(),
{
    if p.len() == 0 {
        Map::empty()
    } else {
        pairs_map(p.drop_last()).insert(p.last().0, p.last().1)
    }
}

/// Reads the pending overlay the node hands over: a MessagePack map from
/// location strings to value strings.
pub fn decode_pending_state(bytes: &[u8]) -> (r: Option<PendingState>)
    ensures
        r is Some <==> msgpack_string_pairs(bytes@) is Some,
        r is Some ==> r->0.wf() && r->0@ == pairs_map(msgpack_string_pairs(bytes@)->0),
{
    let pairs = match read_string_map(bytes) {
        Some(p) => p,
        None => {
            return None;
        },
    };
    let ghost pv = pair_views(pairs@);
    let mut res = PendingState::new();
    let mut i: usize = 0;
    assert(pv.subrange(0, 0) =~= Seq::<(Seq<char>, Seq<u8>)>::empty());
    while i < pairs.len()
        invariant
            i <= pairs@.len(),
            pv == pair_views(pairs@),
            res.wf(),
            res@ == pairs_map(pv.subrange(0, i as int)),
        decreases pairs@.len() - i,
    {
        assert(pv.subrange(0, i as int + 1).drop_last() =~= pv.subrange(0, i as int));
        res.write(pairs[i].0.clone(), copy_bytes(&pairs[i].1));
        i = i + 1;
    }
    assert(pv.subrange(0, pairs@.len() as int) =~= pv);
    Some(res)
}

/// The cache after a contract writes `contents` at `location`.
pub open spec fn cache_after_write(
    cache: Map<Seq<char>, Seq<u8>>,
    location: Seq<char>,
    contents: Seq<u8>,
) -> Map<Seq<char>, Seq<u8>> {
    cache.insert(location, contents)
}

/// What a read finds before it asks the committed tier: the pending
/// overlay first where the read is synchronous, then the cache.
pub open spec fn local_read(
    pending: Map<Seq<char>, Seq<u8>>,
    cache: Map<Seq<char>, Seq<u8>>,
    location: Seq<char>,
    sync: bool,
) -> Option<Seq<u8>> {
    if sync && pending.contains_key(location) {
        Some(pending[location])
    } else if cache.contains_key(location) {
        Some(cache[location])
    } else {
        None
    }
}

/// The three state tiers of one execution.
pub struct StateManager<B: State> {
    pub cached_state: CachedState,
    pub onchain_state: B,
    pub pending_state: PendingState,
}

impl<B: State> StateManager<B> {
    /// Well formed.
    pub open spec fn wf(&self) -> bool {
        self.cached_state.wf() && self.pending_state.wf()
    }

    /// A manager with an empty cache over the given committed tier and
    /// pending overlay.
    pub fn new(onchain_state: B, pending_state: PendingState) -> (r: StateManager<B>)
        requires
            pending_state.wf(),
        ensures
            r.wf(),
            r.cached_state@ == Map::<Seq<char>, Seq<u8>>::empty(),
            r.pending_state@ == pending_state@,
            r.onchain_state == onchain_state,
    {
        StateManager { cached_state: CachedState::new(), onchain_state, pending_state }
    }

    /// Records a write in the cache; nothing reaches the committed tier
    /// before a flush.
    pub fn write(&mut self, location: String, contents: Vec<u8>, out: &mut String)
        requires
            old(self).wf(),
        ensures
            final(self).wf(),
            final(self).cached_state@ == cache_after_write(
                old(self).cached_state@,
                location@,
                contents@,
            ),
            final(self).pending_state@ == old(self).pending_state@,
            final(self).onchain_state == old(self).onchain_state,
            final(out)@ == old(out)@,
    {
        self.cached_state.write(location, contents);
    }

    /// Reads through the pending overlay, then as `get` does.
    pub fn get_sync(&mut self, location: String) -> (r: Result<Vec<u8>, String>)
        requires
            old(self).wf(),
        ensures
            final(self).wf(),
            final(self).pending_state@ == old(self).pending_state@,
            local_read(old(self).pending_state@, old(self).cached_state@, location@, true) is Some
                ==> r is Ok && r->Ok_0@ == local_read(
                old(self).pending_state@,
                old(self).cached_state@,
                location@,
                true,
            )->0 && final(self).cached_state@ == old(self).cached_state@,
            local_read(old(self).pending_state@, old(self).cached_state@, location@, true) is None
                ==> (r is Ok ==> final(self).cached_state@ == old(self).cached_state@.insert(
                location@,
                r->Ok_0@,
            )) && (r is Err ==> final(self).cached_state@ == old(self).cached_state@),
    {
        match self.pending_state.get(&location) {
            Some(v) => Ok(v),
            None => self.get(location),
        }
    }

    /// Reads from the cache, or else from the committed tier, keeping what
    /// that gives in the cache.
    pub fn get(&mut self, location: String) -> (r: Result<Vec<u8>, String>)
        requires
            old(self).wf(),
        ensures
            final(self).wf(),
            final(self).pending_state@ == old(self).pending_state@,
            local_read(old(self).pending_state@, old(self).cached_state@, location@, false)
                is Some ==> r is Ok && r->Ok_0@ == local_read(
                old(self).pending_state@,
                old(self).cached_state@,
                location@,
                false,
            )->0 && final(self).cached_state@ == old(self).cached_state@,
            local_read(old(self).pending_state@, old(self).cached_state@, location@, false)
                is None ==> (r is Ok ==> final(self).cached_state@
                == old(self).cached_state@.insert(location@, r->Ok_0@)) && (r is Err
                ==> final(self).cached_state@ == old(self).cached_state@),
    {
        match self.cached_state.get(&location) {
            Some(v) => Ok(v),
            None => {
                let onchain_res = self.onchain_state.get(location.clone());
                match onchain_res {
                    Ok(v) => {
                        self.cached_state.write(location, copy_bytes(&v));
                        Ok(v)
                    },
                    Err(_) => Err("Could not get from onchain state".to_owned()),
                }
            },
        }
    }

    /// Commits every cached entry to the committed tier, in the order the
    /// entries were first cached. The cache is kept, so a second flush
    /// commits the same entries again.
    pub fn flush(&mut self, out: &mut String)
        requires
            old(self).wf(),
        ensures
            final(self).wf(),
            final(self).cached_state@ == old(self).cached_state@,
            final(self).cached_state.entries() == old(self).cached_state.entries(),
            final(self).pending_state@ == old(self).pending_state@,
            flushed(
                old(self).onchain_state,
                final(self).onchain_state,
                old(self).cached_state.entries(),
                old(out)@,
                final(out)@,
            ),
    {
        let entries = self.cached_state.dump();
        let ghost es = map_entries(entries);
        let n = entries.len();
        let ghost mut tiers: Seq<B> = seq![self.onchain_state];
        let ghost mut outs: Seq<Seq<char>> = seq![out@];
        let mut i: usize = 0;
        while i < n
            invariant
                entries.wf(),
                n == entries.spec_len(),
                es == map_entries(entries),
                es == old(self).cached_state.entries(),
                i <= n,
                self.wf(),
                self.cached_state@ == old(self).cached_state@,
                self.cached_state.entries() == old(self).cached_state.entries(),
                self.pending_state@ == old(self).pending_state@,
                flush_chain(tiers, outs, es.subrange(0, i as int)),
                tiers[0] == old(self).onchain_state,
                tiers.last() == self.onchain_state,
                outs[0] == old(out)@,
                outs.last() == out@,
            decreases n - i,
        {
            let (k, v) = entries.entry_at(i);
            let ghost before = self.onchain_state;
            let ghost out_before = out@;
            self.onchain_state.write(k.clone(), copy_bytes(v), out);
            proof {
                let t2 = tiers.push(self.onchain_state);
                let o2 = outs.push(out@);
                let sub = es.subrange(0, i as int + 1);
                assert(sub[i as int] == es[i as int]);
                assert forall|j: int| 0 <= j < sub.len() implies #[trigger] t2[j].wrote(
                    &t2[j + 1],
                    sub[j].0,
                    sub[j].1,
                    o2[j],
                    o2[j + 1],
                ) by {
                    if j < i {
                        assert(tiers[j].wrote(
                            &tiers[j + 1],
                            es.subrange(0, i as int)[j].0,
                            es.subrange(0, i as int)[j].1,
                            outs[j],
                            outs[j + 1],
                        ));
                    }
                }
                tiers = t2;
                outs = o2;
            }
            i = i + 1;
        }
        assert(es.subrange(0, n as int) =~= es);
    }
}

/// A read after a write to the same location, with no flush between,
/// finds the written value in the cache, whatever the committed tier holds.
pub proof fn lemma_read_after_write(
    pending: Map<Seq<char>, Seq<u8>>,
    cache: Map<Seq<char>, Seq<u8>>,
    location: Seq<char>,
    contents: Seq<u8>,
)
    ensures
        local_read(pending, cache_after_write(cache, location, contents), location, false) == Some(
            contents,
        ),
{
}

} // verus!
