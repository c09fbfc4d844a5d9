//! The committed state tier of proof execution: reads are merkle lookups
//! checked against the committed root, and writes are recorded as a state
//! transition.
use crate::bytemap::{copy_bytes, ByteMap};
use crate::codec::{hex_encode, hex_encoding};
use crate::merkle::{get_from_merkle, is_prefix, merkle_lookup, MerkleContainer};
use crate::state::{PendingState, State};
use crate::text::{append_string, push_char};
use vstd::prelude::*;

verus! {

/// The value that marks a location outside a contract's namespace as
/// writable by it.
pub open spec fn writable_marker() -> Seq<u8> {
    "ExternalStateWriteableValue"@.map_values(|c: char| c as u8)
}

/// The log line of a committed write: `State change: <location>|<hex>`.
pub open spec fn state_change_line(location: Seq<char>, contents: Seq<u8>) -> Seq<char> {
    "State change: "@ + location + seq!['|'] + hex_encoding(contents)
}

/// Merkle-proven committed state for one batch of contracts.
pub struct MerkleState<A: MerkleContainer> {
    pub contents: A,
    pub prefix: String,
    pub pending_state: PendingState,
    pub transition: ByteMap,
}

/// The bytes of the writable marker.
fn marker_bytes() -> (r: Vec<u8>)
    ensures
        r@ == writable_marker(),
{
    let text = "ExternalStateWriteableValue";
    proof {
        reveal_strlit("ExternalStateWriteableValue");
    }
    let n = text.unicode_len();
    let mut r: Vec<u8> = Vec::new();
    let mut i: usize = 0;
    while i < n
        invariant
            n == text@.len(),
            i <= n,
            r@ == text@.subrange(0, i as int).map_values(|c: char| c as u8),
        decreases n - i,
    {
        r.push(text.get_char(i) as u8);
        i = i + 1;
        assert(r@ =~= text@.subrange(0, i as int).map_values(|c: char| c as u8));
    }
    assert(text@.subrange(0, n as int) =~= text@);
    r
}

/// Whether `p` is a prefix of `s`.
pub fn starts_with(s: &String, p: &String) -> (r: bool)
    ensures
        r == is_prefix(p@, s@),
{
    let sn = s.as_str().unicode_len();
    let pn = p.as_str().unicode_len();
    if pn > sn {
        return false;
    }
    let mut i: usize = 0;
    while i < pn
        invariant
            pn <= sn,
            sn == s@.len(),
            pn == p@.len(),
            i <= pn,
            forall|j: int| 0 <= j < i ==> s@[j] == p@[j],
        decreases pn - i,
    {
        if s.as_str().get_char(i) != p.as_str().get_char(i) {
            assert(s@.subrange(0, pn as int)[i as int] != p@[i as int]);
            return false;
        }
        i = i + 1;
    }
    assert(s@.subrange(0, pn as int) =~= p@);
    true
}

impl<A: MerkleContainer> MerkleState<A> {
    /// Well formed.
    pub open spec fn wf(&self) -> bool {
        self.pending_state.wf() && self.transition.wf()
    }

    /// A tier over a merkle container with no writes yet.
    pub fn new(contents: A, prefix: String, pending_state: PendingState) -> (r: MerkleState<A>)
        requires
            pending_state.wf(),
        ensures
            r.wf(),
            r.contents == contents,
            r.prefix@ == prefix@,
            r.pending_state@ == pending_state@,
            r.transition@ == Map::<Seq<char>, Seq<u8>>::empty(),
    {
        MerkleState { contents, prefix, pending_state, transition: ByteMap::new() }
    }

    /// The committed value at `location`: a checked merkle lookup.
    pub fn lookup(&mut self, location: String) -> (r: Option<Vec<u8>>)
        ensures
            final(self).contents.nodes() == old(self).contents.nodes(),
            final(self).prefix == old(self).prefix,
            final(self).pending_state == old(self).pending_state,
            final(self).transition == old(self).transition,
            r is Some ==> merkle_lookup(old(self).contents.nodes(), location@) == Some(r->0@),
    {
        match get_from_merkle(&mut self.contents, location) {
            Ok(v) => Some(v),
            Err(_) => None,
        }
    }

    /// What committing `contents` at `location` does: the pending overlay
    /// takes every write; a write inside the contract's namespace joins the
    /// transition and the log; one outside it may join them only over the
    /// writable marker.
    pub open spec fn commit_effect(
        &self,
        after: &Self,
        location: Seq<char>,
        contents: Seq<u8>,
        out: Seq<char>,
        out_after: Seq<char>,
    ) -> bool {
        let admitted = after.transition@ == self.transition@.insert(location, contents)
            && out_after == out + state_change_line(location, contents);
        let dropped = after.transition@ == self.transition@ && out_after == out;
        &&& after.contents.nodes() == self.contents.nodes()
        &&& after.prefix == self.prefix
        &&& after.pending_state@ == self.pending_state@.insert(location, contents)
        &&& is_prefix(self.prefix@, location) ==> admitted
        &&& !is_prefix(self.prefix@, location) ==> admitted || dropped
        &&& (!is_prefix(self.prefix@, location) && merkle_lookup(self.contents.nodes(), location)
            != Some(writable_marker())) ==> dropped
    }

    /// Commits a write. A write inside the contract's namespace, or over the
    /// writable marker, joins the transition and the log; every write joins
    /// the pending overlay.
    pub fn commit(&mut self, location: String, contents: Vec<u8>, out: &mut String)
        requires
            old(self).wf(),
        ensures
            final(self).wf(),
            old(self).commit_effect(final(self), location@, contents@, old(out)@, final(out)@),
    {
        let admitted = if starts_with(&location, &self.prefix) {
            true
        } else {
            match self.lookup(location.clone()) {
                Some(existing) => {
                    let m = marker_bytes();
                    let same = existing == m;
                    assert(same == (existing@ == m@)) by {
                        if same {
                            assert(existing@ =~= m@);
                        }
                    }
                    same
                },
                None => false,
            }
        };
        if admitted {
            let line = state_change(&location, &contents);
            append_string(out, &line);
            self.transition.insert(location.clone(), copy_bytes(&contents));
        }
        self.pending_state.write(location, contents);
    }

    /// The writes committed so far.
    pub fn dump(&self) -> (r: ByteMap)
        requires
            self.wf(),
        ensures
            r.wf(),
            r@ == self.transition@,
    {
        self.transition.duplicate()
    }
}

/// The log line of a committed write.
fn state_change(location: &String, contents: &Vec<u8>) -> (r: String)
    ensures
        r@ == state_change_line(location@, contents@),
{
    proof {
        reveal_strlit("State change: ");
    }
    let mut r = "State change: ".to_owned();
    append_string(&mut r, location);
    push_char(&mut r, '|');
    let h = hex_encode(contents.as_slice());
    append_string(&mut r, &h);
    r
}

impl<A: MerkleContainer> State for MerkleState<A> {
    open spec fn wrote(
        &self,
        after: &Self,
        location: Seq<char>,
        contents: Seq<u8>,
        out: Seq<char>,
        out_after: Seq<char>,
    ) -> bool {
        self.commit_effect(after, location, contents, out, out_after)
    }

    fn write(&mut self, location: String, contents: Vec<u8>, out: &mut String) {
        self.pending_state.data.confirm_wf();
        self.transition.confirm_wf();
        self.commit(location, contents, out);
    }

    fn get(&mut self, location: String) -> Result<Vec<u8>, String> {
        match self.lookup(location) {
            Some(v) => Ok(v),
            None => Err("Could not get from merkle state".to_owned()),
        }
    }
}

} // verus!
