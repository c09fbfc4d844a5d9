//! The merkle container: a trie over state locations whose nodes are hashed
//! bottom-up, with point lookups checked against the stored hashes.
//!
//! Node 0 is the root; the path from the root to the node of a location
//! spells the location. Each node keeps its children in ascending order of
//! their characters. A node's hash is the hexadecimal SHA-256 digest of its
//! value followed by the hashes of its children in that order. A tree that
//! is only a root has the empty string as its hash.
use crate::bytemap::{copy_bytes, ByteMap};
use crate::codec::{hex_encode, hex_encoding, sha256, sha256_of};
use vstd::prelude::*;
use vstd::utf8::encode_utf8;

verus! {

/// The children lists of a trie, by node.
pub type ChildLists = Seq<Seq<(char, usize)>>;

/// The child reached from a children list by `c`: the last entry for `c`.
pub open spec fn child_of(ch: Seq<(char, usize)>, c: char) -> Option<usize>
    decreases ch.len(),
{
    if ch.len() == 0 {
        None
    } else if ch.last().0 == c {
        Some(ch.last().1)
    } else {
        child_of(ch.drop_last(), c)
    }
}

/// The node that `path` leads to from the root, if every step exists.
pub open spec fn walk(ch: ChildLists, path: Seq<char>) -> Option<int>
    decreases path.len(),
{
    if path.len() == 0 {
        if ch.len() > 0 {
            Some(0)
        } else {
            None
        }
    } else {
        match walk(ch, path.drop_last()) {
            Some(a) => match child_of(ch[a], path.last()) {
                Some(j) => if j < ch.len() {
                    Some(j as int)
                } else {
                    None
                },
                None => None,
            },
            None => None,
        }
    }
}

/// Every children list is in ascending order of characters.
pub open spec fn children_sorted(ch: ChildLists) -> bool {
    forall|a: int, i: int, j: int|
        0 <= a < ch.len() && 0 <= i < j < ch[a].len() ==> ((#[trigger] ch[a][i]).0 as u32)
            < ((#[trigger] ch[a][j]).0 as u32)
}

/// Every child comes after its parent, within the tree.
pub open spec fn children_ordered(ch: ChildLists) -> bool {
    forall|a: int, k: int|
        0 <= a < ch.len() && 0 <= k < ch[a].len() ==> a < #[trigger] ch[a][k].1 < ch.len()
}

proof fn lemma_child_of_concat(a: Seq<(char, usize)>, b: Seq<(char, usize)>, c: char)
    ensures
        child_of(a + b, c) == if child_of(b, c) is Some {
            child_of(b, c)
        } else {
            child_of(a, c)
        },
    decreases b.len(),
{
    if b.len() == 0 {
        assert(a + b =~= a);
    } else {
        assert((a + b).drop_last() =~= a + b.drop_last());
        lemma_child_of_concat(a, b.drop_last(), c);
    }
}

/// A list with no entry for `c` has no entry with the character `c`.
proof fn lemma_child_of_absent(ch: Seq<(char, usize)>, c: char)
    requires
        child_of(ch, c) is None,
    ensures
        forall|t: int| 0 <= t < ch.len() ==> (#[trigger] ch[t]).0 != c,
    decreases ch.len(),
{
    if ch.len() > 0 {
        lemma_child_of_absent(ch.drop_last(), c);
        assert forall|t: int| 0 <= t < ch.len() implies (#[trigger] ch[t]).0 != c by {
            if t < ch.len() - 1 {
                assert(ch[t] == ch.drop_last()[t]);
            }
        }
    }
}

proof fn lemma_child_of_insert(ch: Seq<(char, usize)>, slot: int, x: (char, usize), c: char)
    requires
        0 <= slot <= ch.len(),
        child_of(ch, x.0) is None,
    ensures
        child_of(ch.insert(slot, x), c) == if x.0 == c {
            Some(x.1)
        } else {
            child_of(ch, c)
        },
{
    let front = ch.subrange(0, slot);
    let back = ch.subrange(slot, ch.len() as int);
    assert(ch =~= front + back);
    assert(ch.insert(slot, x) =~= front.push(x) + back);
    lemma_child_of_concat(front, back, c);
    lemma_child_of_concat(front, back, x.0);
    lemma_child_of_concat(front.push(x), back, c);
    assert(front.push(x).drop_last() =~= front);
}

proof fn lemma_child_of_bound(ch: Seq<(char, usize)>, c: char, bound: int)
    requires
        forall|k: int| 0 <= k < ch.len() ==> #[trigger] ch[k].1 < bound,
    ensures
        child_of(ch, c) matches Some(j) ==> j < bound,
    decreases ch.len(),
{
    if ch.len() > 0 && ch.last().0 != c {
        lemma_child_of_bound(ch.drop_last(), c, bound);
    }
}

/// Adding node `n` as the child of `a` by `c`, where `a` had none by `c`,
/// changes only the walks that end in `n`.
proof fn lemma_walk_extend(ch: ChildLists, a: int, c: char, slot: int, path: Seq<char>)
    requires
        0 <= a < ch.len() < usize::MAX,
        0 <= slot <= ch[a].len(),
        child_of(ch[a], c) is None,
        children_ordered(ch),
    ensures
        ({
            let n = ch.len() as usize;
            let ch2 = ch.update(a, ch[a].insert(slot, (c, n))).push(Seq::<(char, usize)>::empty());
            walk(ch2, path) == if path.len() > 0 && path.last() == c && walk(ch, path.drop_last())
                == Some(a) {
                Some(n as int)
            } else {
                walk(ch, path)
            }
        }),
    decreases path.len(),
{
    let n = ch.len() as usize;
    let ch2 = ch.update(a, ch[a].insert(slot, (c, n))).push(Seq::<(char, usize)>::empty());
    if path.len() > 0 {
        let q = path.drop_last();
        let x = path.last();
        lemma_walk_extend(ch, a, c, slot, q);
        lemma_child_of_insert(ch[a], slot, (c, n), x);
        if q.len() > 0 && q.last() == c && walk(ch, q.drop_last()) == Some(a) {
            assert(ch2[n as int] == Seq::<(char, usize)>::empty());
            assert(walk(ch, q) == None::<int>);
        } else {
            match walk(ch, q) {
                Some(b) => {
                    assert(forall|k: int| 0 <= k < ch[b].len() ==> #[trigger] ch[b][k].1 < ch.len());
                    lemma_child_of_bound(ch[b], x, ch.len() as int);
                    if b != a {
                        assert(ch2[b] == ch[b]);
                    }
                },
                None => {},
            }
        }
    }
}

/// A trie whose nodes have the paths `path_of`.
pub open spec fn trie_paths(ch: ChildLists, path_of: Seq<Seq<char>>) -> bool {
    &&& ch.len() == path_of.len()
    &&& ch.len() >= 1
    &&& children_ordered(ch)
    &&& forall|j: int| 0 <= j < ch.len() ==> walk(ch, #[trigger] path_of[j]) == Some(j)
    &&& forall|p: Seq<char>| #[trigger] walk(ch, p) is Some ==> p == path_of[walk(ch, p)->0]
}

/// Adds the child of `a` by `c`, keeping the paths of the trie.
proof fn lemma_paths_extend(ch: ChildLists, path_of: Seq<Seq<char>>, a: int, c: char, slot: int)
    requires
        trie_paths(ch, path_of),
        0 <= a < ch.len() < usize::MAX,
        0 <= slot <= ch[a].len(),
        child_of(ch[a], c) is None,
    ensures
        ({
            let n = ch.len() as usize;
            let ch2 = ch.update(a, ch[a].insert(slot, (c, n))).push(Seq::<(char, usize)>::empty());
            &&& trie_paths(ch2, path_of.push(path_of[a].push(c)))
            &&& forall|p: Seq<char>| #[trigger] walk(ch, p) is Some ==> walk(ch2, p) == walk(ch, p)
        }),
{
    let n = ch.len() as usize;
    let ch2 = ch.update(a, ch[a].insert(slot, (c, n))).push(Seq::<(char, usize)>::empty());
    let po2 = path_of.push(path_of[a].push(c));
    assert forall|p: Seq<char>| #[trigger] walk(ch, p) is Some implies walk(ch2, p) == walk(ch, p) by {
        lemma_walk_extend(ch, a, c, slot, p);
        if p.len() > 0 && p.last() == c && walk(ch, p.drop_last()) == Some(a) {
            assert(child_of(ch[a], c) is None);
        }
    }
    assert forall|aa: int, k: int| 0 <= aa < ch2.len() && 0 <= k < ch2[aa].len() implies aa
        < #[trigger] ch2[aa][k].1 < ch2.len() by {
        if aa < ch.len() && aa != a {
            assert(ch2[aa] == ch[aa]);
        } else if aa == a {
            if k < slot {
                assert(ch2[aa][k] == ch[a][k]);
            } else if k > slot {
                assert(ch2[aa][k] == ch[a][k - 1]);
            }
        }
    }
    assert forall|j: int| 0 <= j < ch2.len() implies walk(ch2, #[trigger] po2[j]) == Some(j) by {
        if j < ch.len() {
            assert(po2[j] == path_of[j]);
            assert(walk(ch, path_of[j]) is Some);
        } else {
            let p = path_of[a].push(c);
            lemma_walk_extend(ch, a, c, slot, p);
            assert(p.drop_last() =~= path_of[a]);
        }
    }
    assert forall|p: Seq<char>| #[trigger] walk(ch2, p) is Some implies p == po2[walk(ch2, p)->0] by {
        lemma_walk_extend(ch, a, c, slot, p);
        if p.len() > 0 && p.last() == c && walk(ch, p.drop_last()) == Some(a) {
            assert(walk(ch, p.drop_last()) is Some);
            assert(p.drop_last() == path_of[a]);
            assert(p =~= path_of[a].push(c));
        } else {
            assert(walk(ch, p) is Some);
        }
    }
}

/// Whether `p` is a prefix of `k`.
pub open spec fn is_prefix(p: Seq<char>, k: Seq<char>) -> bool {
    p.len() <= k.len() && k.subrange(0, p.len() as int) == p
}

/// The children lists of a vector of lists.
pub open spec fn lists_view(v: Seq<Vec<(char, usize)>>) -> ChildLists {
    v.map_values(|l: Vec<(char, usize)>| l@)
}

/// The values of a vector of byte vectors.
pub open spec fn values_view(v: Seq<Vec<u8>>) -> Seq<Seq<u8>> {
    v.map_values(|l: Vec<u8>| l@)
}

/// The trie shape of a state map: every location leads to a node holding
/// its value; every node is reached by some path; every non-empty path that
/// leads somewhere begins some location; a node whose path is no location
/// holds no bytes; children are sorted and come after their parent, which
/// each node but the root names.
pub open spec fn trie_of(
    ch: ChildLists,
    values: Seq<Seq<u8>>,
    parents: Seq<usize>,
    state: Map<Seq<char>, Seq<u8>>,
) -> bool {
    &&& ch.len() >= 1
    &&& values.len() == ch.len()
    &&& parents.len() == ch.len()
    &&& children_ordered(ch)
    &&& children_sorted(ch)
    &&& forall|a: int, k: int|
        0 <= a < ch.len() && 0 <= k < ch[a].len() ==> parents[#[trigger] ch[a][k].1 as int] == a
    &&& forall|j: int| 0 < j < ch.len() ==> #[trigger] parents[j] < j
    &&& forall|k: Seq<char>| #[trigger] state.contains_key(k) ==> walk(ch, k) is Some
    &&& forall|k: Seq<char>|
        #[trigger] state.contains_key(k) ==> values[walk(ch, k)->0] == state[k]
    &&& forall|p: Seq<char>| #[trigger] walk(ch, p) is Some && p.len() > 0 ==> covered(state, p)
    &&& forall|j: int| 0 <= j < ch.len() ==> #[trigger] reached(ch, j)
    &&& forall|p: Seq<char>|
        #[trigger] walk(ch, p) is Some && !state.contains_key(p) ==> values[walk(ch, p)->0]
            == Seq::<u8>::empty()
}

/// Whether some path leads to node `j`.
#[verifier::opaque]
pub open spec fn reached(ch: ChildLists, j: int) -> bool {
    exists|p: Seq<char>| #[trigger] walk(ch, p) == Some(j)
}

/// Whether one of the first `e` keys of the map is `p`.
pub open spec fn key_before(state: ByteMap, e: int, p: Seq<char>) -> bool {
    exists|i: int| 0 <= i < e && #[trigger] state.key_at(i) == p
}

/// Whether `p` begins some location of the state.
#[verifier::opaque]
pub open spec fn covered(state: Map<Seq<char>, Seq<u8>>, p: Seq<char>) -> bool {
    exists|k: Seq<char>| #[trigger] state.contains_key(k) && is_prefix(p, k)
}

/// The child of a node by `c`, searching its children list.
fn find_child(ch: &Vec<(char, usize)>, c: char) -> (r: Option<usize>)
    ensures
        r == child_of(ch@, c),
{
    let mut found: Option<usize> = None;
    let mut i: usize = 0;
    while i < ch.len()
        invariant
            i <= ch@.len(),
            found == child_of(ch@.subrange(0, i as int), c),
        decreases ch@.len() - i,
    {
        assert(ch@.subrange(0, i as int + 1).drop_last() =~= ch@.subrange(0, i as int));
        if ch[i].0 == c {
            found = Some(ch[i].1);
        }
        i = i + 1;
    }
    assert(ch@.subrange(0, ch@.len() as int) =~= ch@);
    found
}

/// Where a child by `c` goes in a children list kept in ascending order.
fn find_slot(ch: &Vec<(char, usize)>, c: char) -> (r: usize)
    ensures
        r <= ch@.len(),
        forall|t: int| 0 <= t < r ==> ((#[trigger] ch@[t]).0 as u32) < (c as u32),
        r < ch@.len() ==> (ch@[r as int].0 as u32) >= (c as u32),
{
    let mut i: usize = 0;
    while i < ch.len() && (ch[i].0 as u32) < (c as u32)
        invariant
            i <= ch@.len(),
            forall|t: int| 0 <= t < i ==> ((#[trigger] ch@[t]).0 as u32) < (c as u32),
        decreases ch@.len() - i,
    {
        i = i + 1;
    }
    i
}

/// A copy of a children list.
fn copy_children(ch: &Vec<(char, usize)>) -> (r: Vec<(char, usize)>)
    ensures
        r@ == ch@,
{
    let mut r: Vec<(char, usize)> = Vec::new();
    let mut i: usize = 0;
    while i < ch.len()
        invariant
            i <= ch@.len(),
            r@ == ch@.subrange(0, i as int),
        decreases ch@.len() - i,
    {
        r.push(ch[i]);
        i = i + 1;
        assert(r@ =~= ch@.subrange(0, i as int));
    }
    assert(r@ =~= ch@);
    r
}

/// The number of characters in the first `e` keys of a map.
pub open spec fn key_chars(state: ByteMap, e: int) -> nat
    decreases e,
{
    if e <= 0 {
        0
    } else {
        key_chars(state, e - 1) + state.key_at(e - 1).len()
    }
}

/// Builds the trie of a state map: children lists, values and parents.
#[verifier::rlimit(100)]
fn build_trie(state: &ByteMap) -> (r: (Vec<Vec<(char, usize)>>, Vec<Vec<u8>>, Vec<usize>))
    requires
        state.wf(),
        key_chars(*state, state.spec_len() as int) + 2 < usize::MAX,
    ensures
        trie_of(lists_view(r.0@), values_view(r.1@), r.2@, state@),
        state.spec_len() == 0 ==> r.0@.len() == 1,
{
    let mut children: Vec<Vec<(char, usize)>> = Vec::new();
    children.push(Vec::new());
    let mut values: Vec<Vec<u8>> = Vec::new();
    values.push(Vec::new());
    let mut parents: Vec<usize> = Vec::new();
    parents.push(0);
    let ghost mut path_of: Seq<Seq<char>> = seq![Seq::<char>::empty()];
    let n = state.len();
    proof {
        state.lemma_wf_keys();
        let ch = lists_view(children@);
        assert(ch =~= seq![Seq::<(char, usize)>::empty()]);
        assert forall|p: Seq<char>| #[trigger] walk(ch, p) is Some implies p == path_of[walk(
            ch,
            p,
        )->0] by {
            if p.len() > 0 {
                assert(walk(ch, p.drop_last()) is Some);
                let a = walk(ch, p.drop_last())->0;
                assert(ch[a] =~= Seq::<(char, usize)>::empty());
            }
        }
        assert(walk(ch, path_of[0]) == Some(0int));
    }
    let mut e: usize = 0;
    while e < n
        invariant
            state.wf(),
            n == state.spec_len(),
            key_chars(*state, n as int) + 2 < usize::MAX,
            e <= n,
            trie_paths(lists_view(children@), path_of),
            children_sorted(lists_view(children@)),
            children@.len() <= 1 + key_chars(*state, e as int),
            values@.len() == children@.len(),
            parents@.len() == children@.len(),
            forall|a: int, k: int|
                0 <= a < children@.len() && 0 <= k < children@[a]@.len() ==> parents@[
                #[trigger] children@[a]@[k].1 as int] == a,
            forall|j: int| 0 < j < children@.len() ==> #[trigger] parents@[j] < j,
            forall|i: int|
                0 <= i < e ==> #[trigger] walk(lists_view(children@), state.key_at(i)) is Some
                    && values@[walk(lists_view(children@), state.key_at(i))->0]@
                    == state@[state.key_at(i)],
            forall|j: int|
                0 <= j < path_of.len() && path_of[j].len() > 0 ==> exists|i: int|
                    0 <= i < e && is_prefix(#[trigger] path_of[j], state.key_at(i)),
            forall|j: int|
                0 <= j < values@.len() ==> (#[trigger] values@[j])@ == Seq::<u8>::empty()
                    || key_before(*state, e as int, path_of[j]),
        decreases n - e,
    {
        let (key, val) = state.entry_at(e);
        let kn = key.as_str().unicode_len();
        let mut active: usize = 0;
        let mut i: usize = 0;
        proof {
            assert(key@.subrange(0, 0) =~= Seq::<char>::empty());
            assert(path_of[0] == Seq::<char>::empty()) by {
                assert(walk(lists_view(children@), Seq::<char>::empty()) == Some(0int));
            }
            assert(key_chars(*state, e as int + 1) == key_chars(*state, e as int) + kn);
            lemma_key_chars_mono(*state, e as int + 1, n as int);
        }
        while i < kn
            invariant
                state.wf(),
                n == state.spec_len(),
                e < n,
                key@ == state.key_at(e as int),
                kn == key@.len(),
                i <= kn,
                children@.len() <= 1 + key_chars(*state, e as int) + i,
                key_chars(*state, e as int) + kn + 2 < usize::MAX,
                trie_paths(lists_view(children@), path_of),
                children_sorted(lists_view(children@)),
                values@.len() == children@.len(),
                parents@.len() == children@.len(),
                active < children@.len(),
                walk(lists_view(children@), key@.subrange(0, i as int)) == Some(active as int),
                forall|a: int, k: int|
                    0 <= a < children@.len() && 0 <= k < children@[a]@.len() ==> parents@[
                    #[trigger] children@[a]@[k].1 as int] == a,
                forall|j: int| 0 < j < children@.len() ==> #[trigger] parents@[j] < j,
                forall|ii: int|
                    0 <= ii < e ==> #[trigger] walk(lists_view(children@), state.key_at(ii)) is Some
                        && values@[walk(lists_view(children@), state.key_at(ii))->0]@
                        == state@[state.key_at(ii)],
                forall|j: int|
                    0 <= j < path_of.len() && path_of[j].len() > 0 ==> (exists|ii: int|
                        0 <= ii < e && is_prefix(#[trigger] path_of[j], state.key_at(ii)))
                        || is_prefix(path_of[j], key@),
                forall|j: int|
                    0 <= j < values@.len() ==> (#[trigger] values@[j])@ == Seq::<u8>::empty()
                        || key_before(*state, e as int, path_of[j]),
            decreases kn - i,
        {
            let c = key.as_str().get_char(i);
            let ghost ch = lists_view(children@);
            let ghost pre = key@.subrange(0, i as int);
            let ghost next = key@.subrange(0, i as int + 1);
            assert(next.drop_last() =~= pre);
            assert(next.last() == c);
            assert(ch[active as int] == children@[active as int]@);
            match find_child(&children[active], c) {
                Some(j) => {
                    proof {
                        assert(forall|k: int|
                            0 <= k < ch[active as int].len() ==> #[trigger] ch[active as int][k].1
                                < ch.len());
                        lemma_child_of_bound(ch[active as int], c, ch.len() as int);
                    }
                    active = j;
                },
                None => {
                    let new_index = children.len();
                    let ghost old_children = children@;
                    let ghost old_parents = parents@;
                    let slot = find_slot(&children[active], c);
                    let mut updated = copy_children(&children[active]);
                    updated.insert(slot, (c, new_index));
                    children.set(active, updated);
                    children.push(Vec::new());
                    values.push(Vec::new());
                    parents.push(active);
                    proof {
                        let ch2 = lists_view(children@);
                        assert(ch2 =~= ch.update(
                            active as int,
                            ch[active as int].insert(slot as int, (c, new_index)),
                        ).push(Seq::<(char, usize)>::empty()));
                        lemma_paths_extend(ch, path_of, active as int, c, slot as int);
                        lemma_walk_extend(ch, active as int, c, slot as int, next);
                        lemma_child_of_absent(ch[active as int], c);
                        let old_list = ch[active as int];
                        assert(old_list == old_children[active as int]@);
                        assert forall|t: int| slot <= t < old_list.len() implies ((#[trigger] old_list[t]).0 as u32) > (c as u32) by {
                            assert(old_list[slot as int].0 != c);
                            vstd::utf8::char_u32_cast(old_list[slot as int].0, old_list[slot as int].0 as u32);
                            vstd::utf8::char_u32_cast(c, c as u32);
                            assert((old_list[slot as int].0 as u32) != (c as u32));
                            assert((old_list[slot as int].0 as u32) >= (c as u32));
                            if t > slot {
                                assert((old_list[slot as int].0 as u32) < (old_list[t].0 as u32));
                            }
                        }
                        assert forall|aa: int, x: int, y: int|
                            0 <= aa < ch2.len() && 0 <= x < y < ch2[aa].len() implies ((#[trigger] ch2[aa][x]).0 as u32)
                            < ((#[trigger] ch2[aa][y]).0 as u32) by {
                            if aa == active {
                                let nl = ch2[aa];
                                assert(nl == old_list.insert(slot as int, (c, new_index)));
                                if y < slot {
                                    assert(nl[x] == old_list[x] && nl[y] == old_list[y]);
                                } else if y == slot {
                                    assert(nl[x] == old_list[x]);
                                } else if x < slot {
                                    assert(nl[x] == old_list[x] && nl[y] == old_list[y - 1]);
                                } else if x == slot {
                                    assert(nl[y] == old_list[y - 1]);
                                } else {
                                    assert(nl[x] == old_list[x - 1] && nl[y] == old_list[y - 1]);
                                }
                            } else if aa < ch.len() {
                                assert(ch2[aa] == ch[aa]);
                            }
                        }
                        assert(walk(ch, pre) is Some);
                        assert(pre == path_of[active as int]);
                        let old_path_of = path_of;
                        path_of = path_of.push(path_of[active as int].push(c));
                        assert(path_of[new_index as int] =~= next);
                        assert forall|j: int|
                            0 <= j < values@.len() implies (#[trigger] values@[j])@ == Seq::<u8>::empty()
                            || key_before(*state, e as int, path_of[j]) by {
                            if j < old_path_of.len() {
                                assert(path_of[j] == old_path_of[j]);
                            }
                        }
                        assert forall|a: int, k: int|
                            0 <= a < children@.len() && 0 <= k < children@[a]@.len() implies parents@[
                            #[trigger] children@[a]@[k].1 as int] == a by {
                            assert(parents@ == old_parents.push(active));
                            if a < old_children.len() && a != active {
                                assert(children@[a] == old_children[a]);
                                assert(ch[a] == old_children[a]@);
                                assert(ch[a][k].1 < ch.len());
                                assert(children@[a]@[k].1 < old_children.len());
                            } else if a == active {
                                assert(ch[a] == old_children[a]@);
                                if k < slot {
                                    assert(children@[a]@[k] == old_children[a]@[k]);
                                    assert(ch[a][k].1 < ch.len());
                                    assert(children@[a]@[k].1 < old_children.len());
                                } else if k > slot {
                                    assert(children@[a]@[k] == old_children[a]@[k - 1]);
                                    assert(ch[a][k - 1].1 < ch.len());
                                    assert(children@[a]@[k].1 < old_children.len());
                                } else {
                                    assert(children@[a]@[k] == (c, new_index));
                                }
                            }
                        }
                        assert forall|ii: int|
                            0 <= ii < e implies #[trigger] walk(lists_view(children@), state.key_at(ii)) is Some
                            && values@[walk(lists_view(children@), state.key_at(ii))->0]@
                            == state@[state.key_at(ii)] by {
                            assert(walk(ch, state.key_at(ii)) is Some);
                        }
                        assert forall|j: int|
                            0 <= j < path_of.len() && path_of[j].len() > 0 implies (exists|ii: int|
                                0 <= ii < e && is_prefix(#[trigger] path_of[j], state.key_at(ii)))
                                || is_prefix(path_of[j], key@) by {
                            if j < old_path_of.len() {
                                assert(path_of[j] == old_path_of[j]);
                            } else {
                                assert(key@.subrange(0, next.len() as int) =~= next);
                            }
                        }
                    }
                    active = new_index;
                },
            }
            i = i + 1;
        }
        let ghost ch = lists_view(children@);
        assert(key@.subrange(0, kn as int) =~= key@);
        let ghost old_values = values@;
        values.set(active, copy_bytes(val));
        proof {
            state.lemma_wf_keys();
            assert(key@ == path_of[active as int]);
            assert forall|j: int|
                0 <= j < values@.len() implies (#[trigger] values@[j])@ == Seq::<u8>::empty()
                || key_before(*state, e + 1, path_of[j]) by {
                if j == active {
                    assert(state.key_at(e as int) == path_of[j]);
                } else {
                    assert(values@[j] == old_values[j]);
                    if old_values[j]@ != Seq::<u8>::empty() {
                        assert(key_before(*state, e as int, path_of[j]));
                        let i = choose|i: int| 0 <= i < e && #[trigger] state.key_at(i) == path_of[j];
                        assert(state.key_at(i) == path_of[j]);
                    }
                }
            }
            assert forall|ii: int|
                0 <= ii < e + 1 implies #[trigger] walk(lists_view(children@), state.key_at(ii)) is Some
                && values@[walk(lists_view(children@), state.key_at(ii))->0]@
                == state@[state.key_at(ii)] by {
                if ii < e {
                    let w = walk(ch, state.key_at(ii))->0;
                    if w == active {
                        assert(state.key_at(ii) == path_of[w]);
                        assert(state.key_at(ii) != state.key_at(e as int));
                    }
                }
            }
            assert forall|j: int| 0 <= j < path_of.len() && path_of[j].len() > 0 implies exists|ii: int|
                0 <= ii < e + 1 && is_prefix(#[trigger] path_of[j], state.key_at(ii)) by {
                if !(exists|ii: int| 0 <= ii < e && is_prefix(path_of[j], state.key_at(ii))) {
                    assert(is_prefix(path_of[j], state.key_at(e as int)));
                }
            }
        }
        e = e + 1;
    }
    proof {
        let ch = lists_view(children@);
        assert(lists_view(children@).len() == children@.len());
        assert(values_view(values@).len() == values@.len());
        assert forall|a: int, k: int|
            0 <= a < ch.len() && 0 <= k < ch[a].len() implies parents@[#[trigger] ch[a][k].1 as int] == a by {
            assert(ch[a] == children@[a]@);
        }
        assert forall|k: Seq<char>| #[trigger] state@.contains_key(k) implies walk(ch, k) is Some
            && values_view(values@)[walk(ch, k)->0] == state@[k] by {
            let i = choose|i: int| 0 <= i < state.spec_len() && #[trigger] state.key_at(i) == k;
            assert(walk(ch, state.key_at(i)) is Some);
        }
        state.lemma_wf_keys();
        assert forall|j: int| 0 <= j < ch.len() implies #[trigger] reached(ch, j) by {
            reveal(reached);
            assert(walk(ch, path_of[j]) == Some(j));
        }
        assert forall|p: Seq<char>|
            #[trigger] walk(ch, p) is Some && !state@.contains_key(p) implies values_view(values@)[walk(ch, p)->0]
            == Seq::<u8>::empty() by {
            let j = walk(ch, p)->0;
            assert(p == path_of[j]);
            lemma_walk_in_range(ch, p);
            if values@[j]@ != Seq::<u8>::empty() {
                assert(key_before(*state, n as int, path_of[j]));
                let i = choose|i: int| 0 <= i < n && #[trigger] state.key_at(i) == path_of[j];
                assert(state@.contains_key(state.key_at(i)));
            }
        }
        assert forall|p: Seq<char>| #[trigger] walk(ch, p) is Some && p.len() > 0 implies covered(state@, p) by {
            reveal(covered);
            let j = walk(ch, p)->0;
            assert(p == path_of[j]);
            let i = choose|i: int| 0 <= i < e && is_prefix(#[trigger] path_of[j], state.key_at(i));
            assert(state@.contains_key(state.key_at(i)));
        }
    }
    (children, values, parents)
}

/// The count of key characters only grows with more keys.
proof fn lemma_key_chars_mono(state: ByteMap, a: int, b: int)
    requires
        0 <= a <= b,
    ensures
        key_chars(state, a) <= key_chars(state, b),
    decreases b - a,
{
    if a < b {
        lemma_key_chars_mono(state, a, b - 1);
    }
}

/// The bytes a node contributes to its parent's digest: its hash text.
pub open spec fn hash_bytes(h: Seq<char>) -> Seq<u8> {
    encode_utf8(h)
}

/// The hash texts of the children in a list, concatenated in list order.
pub open spec fn children_hashes(hashes: Seq<Seq<char>>, ch: Seq<(char, usize)>) -> Seq<u8>
    decreases ch.len(),
{
    if ch.len() == 0 {
        Seq::empty()
    } else {
        children_hashes(hashes, ch.drop_last()) + hash_bytes(hashes[ch.last().1 as int])
    }
}

/// The hash of node `i`: the hexadecimal SHA-256 digest of its value
/// followed by the hashes of its children.
pub open spec fn node_digest(
    values: Seq<Seq<u8>>,
    hashes: Seq<Seq<char>>,
    ch: ChildLists,
    i: int,
) -> Seq<char> {
    hex_encoding(sha256_of(values[i] + children_hashes(hashes, ch[i])))
}

/// Every node holds its digest; a tree that is only a root holds the empty
/// hash.
pub open spec fn hashes_consistent(
    values: Seq<Seq<u8>>,
    hashes: Seq<Seq<char>>,
    ch: ChildLists,
) -> bool {
    &&& hashes.len() == ch.len()
    &&& ch.len() == 1 ==> hashes[0] == Seq::<char>::empty()
    &&& ch.len() > 1 ==> forall|i: int|
        0 <= i < ch.len() ==> #[trigger] hashes[i] == node_digest(values, hashes, ch, i)
}

proof fn lemma_children_hashes_agree(h1: Seq<Seq<char>>, h2: Seq<Seq<char>>, ch: Seq<(char, usize)>)
    requires
        forall|k: int| 0 <= k < ch.len() ==> h1[#[trigger] ch[k].1 as int] == h2[ch[k].1 as int],
    ensures
        children_hashes(h1, ch) == children_hashes(h2, ch),
    decreases ch.len(),
{
    if ch.len() > 0 {
        let d = ch.drop_last();
        assert forall|k: int| 0 <= k < d.len() implies h1[#[trigger] d[k].1 as int] == h2[d[k].1 as int] by {
            assert(d[k] == ch[k]);
        }
        lemma_children_hashes_agree(h1, h2, d);
        assert(h1[ch.last().1 as int] == h2[ch.last().1 as int]);
    }
}

/// The views of a list of strings.
pub open spec fn texts_view(v: Seq<String>) -> Seq<Seq<char>> {
    v.map_values(|s: String| s@)
}

/// Computes the hash of every node, children before parents.
fn hash_tree(children: &Vec<Vec<(char, usize)>>, values: &Vec<Vec<u8>>) -> (r: Vec<String>)
    requires
        children@.len() >= 1,
        values@.len() == children@.len(),
        children_ordered(lists_view(children@)),
    ensures
        hashes_consistent(values_view(values@), texts_view(r@), lists_view(children@)),
{
    let ghost ch = lists_view(children@);
    let ghost vals = values_view(values@);
    let n = children.len();
    let mut hashes: Vec<String> = Vec::new();
    let mut k: usize = 0;
    while k < n
        invariant
            k <= n,
            hashes@.len() == k,
            forall|j: int| 0 <= j < k ==> (#[trigger] hashes@[j])@ == Seq::<char>::empty(),
        decreases n - k,
    {
        hashes.push(String::new());
        k = k + 1;
    }
    if n == 1 {
        return hashes;
    }
    let mut i: usize = n;
    while i > 0
        invariant
            n == children@.len(),
            n > 1,
            i <= n,
            ch == lists_view(children@),
            vals == values_view(values@),
            values@.len() == n,
            children_ordered(ch),
            hashes@.len() == n,
            forall|j: int|
                i <= j < n ==> (#[trigger] hashes@[j])@ == node_digest(
                    vals,
                    texts_view(hashes@),
                    ch,
                    j,
                ),
        decreases i,
    {
        i = i - 1;
        let list = &children[i];
        assert(list@ == ch[i as int]);
        assert(values@[i as int]@ == vals[i as int]);
        let mut data = copy_bytes(&values[i]);
        let mut m: usize = 0;
        let ghost hv = texts_view(hashes@);
        assert(ch[i as int].subrange(0, 0) =~= Seq::<(char, usize)>::empty());
        assert(data@ =~= vals[i as int] + children_hashes(hv, ch[i as int].subrange(0, 0)));
        while m < list.len()
            invariant
                m <= list@.len(),
                list@ == ch[i as int],
                i < n,
                children_ordered(ch),
                ch.len() == n,
                hashes@.len() == n,
                hv == texts_view(hashes@),
                data@ == vals[i as int] + children_hashes(hv, ch[i as int].subrange(0, m as int)),
            decreases list@.len() - m,
        {
            let child = list[m].1;
            assert(ch[i as int][m as int].1 < n);
            let bytes = hashes[child].as_str().as_bytes();
            let ghost before = data@;
            let mut b: usize = 0;
            while b < bytes.len()
                invariant
                    b <= bytes@.len(),
                    data@ == before + bytes@.subrange(0, b as int),
                decreases bytes@.len() - b,
            {
                data.push(bytes[b]);
                b = b + 1;
                assert(data@ =~= before + bytes@.subrange(0, b as int));
            }
            proof {
                assert(bytes@.subrange(0, bytes@.len() as int) =~= bytes@);
                let sub = ch[i as int].subrange(0, m as int + 1);
                assert(sub.drop_last() =~= ch[i as int].subrange(0, m as int));
                assert(sub.last() == ch[i as int][m as int]);
                assert(hv[child as int] == hashes@[child as int]@);
                assert(data@ =~= vals[i as int] + children_hashes(hv, sub));
            }
            m = m + 1;
        }
        assert(ch[i as int].subrange(0, m as int) =~= ch[i as int]);
        let digest = sha256(data.as_slice());
        let h = hex_encode(digest.as_slice());
        let ghost old_hv = texts_view(hashes@);
        hashes.set(i, h);
        proof {
            let new_hv = texts_view(hashes@);
            assert(new_hv =~= old_hv.update(i as int, h@));
            assert forall|j: int| i <= j < n implies (#[trigger] hashes@[j])@ == node_digest(
                vals,
                texts_view(hashes@),
                ch,
                j,
            ) by {
                assert forall|k: int| 0 <= k < ch[j].len() implies old_hv[#[trigger] ch[j][k].1 as int]
                    == new_hv[ch[j][k].1 as int] by {
                    assert(j < ch[j][k].1);
                }
                lemma_children_hashes_agree(old_hv, new_hv, ch[j]);
            }
        }
    }
    hashes
}

/// A node of the merkle trie.
pub struct MerkleNode {
    pub hash: String,
    pub value: Vec<u8>,
    pub children: Vec<(char, usize)>,
    pub parent: usize,
}

/// The children lists of the nodes.
pub open spec fn node_children(t: Seq<MerkleNode>) -> ChildLists {
    t.map_values(|n: MerkleNode| n.children@)
}

/// The values of the nodes.
pub open spec fn node_values(t: Seq<MerkleNode>) -> Seq<Seq<u8>> {
    t.map_values(|n: MerkleNode| n.value@)
}

/// The hashes of the nodes.
pub open spec fn node_hashes(t: Seq<MerkleNode>) -> Seq<Seq<char>> {
    t.map_values(|n: MerkleNode| n.hash@)
}

/// The parents of the nodes.
pub open spec fn node_parents(t: Seq<MerkleNode>) -> Seq<usize> {
    t.map_values(|n: MerkleNode| n.parent)
}

/// Whether two nodes hold the same hash, value, children and parent.
pub open spec fn same_node(a: MerkleNode, b: MerkleNode) -> bool {
    a.hash@ == b.hash@ && a.value@ == b.value@ && a.children@ == b.children@ && a.parent
        == b.parent
}

/// The merkle tree of a state map: its trie, with every hash in place.
pub open spec fn merkle_tree_of(t: Seq<MerkleNode>, state: Map<Seq<char>, Seq<u8>>) -> bool {
    &&& trie_of(node_children(t), node_values(t), node_parents(t), state)
    &&& hashes_consistent(node_values(t), node_hashes(t), node_children(t))
}

/// What a lookup of `loc` finds: the value of the node its path leads to.
pub open spec fn merkle_lookup(t: Seq<MerkleNode>, loc: Seq<char>) -> Option<Seq<u8>> {
    match walk(node_children(t), loc) {
        Some(j) => Some(t[j].value@),
        None => None,
    }
}

/// The total number of characters in the keys of a map.
pub open spec fn total_key_chars(state: ByteMap) -> nat {
    key_chars(state, state.spec_len() as int)
}

/// Builds the merkle tree of a state map: the trie of its locations, hashed
/// bottom-up. The root of a tree with no state has the empty hash.
pub fn merklize(state: &ByteMap) -> (r: Vec<MerkleNode>)
    requires
        state.wf(),
        total_key_chars(*state) + 2 < usize::MAX,
    ensures
        merkle_tree_of(r@, state@),
        state@.len() == 0 ==> r@.len() == 1 && r@[0].hash@ == Seq::<char>::empty(),
{
    let count = state.len();
    let (children, values, parents) = build_trie(state);
    let hashes = hash_tree(&children, &values);
    let n = children.len();
    let mut tree: Vec<MerkleNode> = Vec::new();
    let mut i: usize = 0;
    while i < n
        invariant
            n == children@.len(),
            values@.len() == n,
            parents@.len() == n,
            hashes@.len() == n,
            i <= n,
            tree@.len() == i,
            forall|j: int|
                0 <= j < i ==> (#[trigger] tree@[j]).hash@ == hashes@[j]@ && tree@[j].value@
                    == values@[j]@ && tree@[j].children@ == children@[j]@ && tree@[j].parent
                    == parents@[j],
        decreases n - i,
    {
        tree.push(
            MerkleNode {
                hash: hashes[i].clone(),
                value: copy_bytes(&values[i]),
                children: copy_children(&children[i]),
                parent: parents[i],
            },
        );
        i = i + 1;
    }
    proof {
        assert(node_children(tree@) =~= lists_view(children@));
        assert(node_values(tree@) =~= values_view(values@));
        assert(node_hashes(tree@) =~= texts_view(hashes@));
        assert(node_parents(tree@) =~= parents@);
        if state@.len() == 0 {
            assert(state.spec_len() == 0);
            assert(hashes@[0]@ == Seq::<char>::empty());
        }
    }
    tree
}

/// Why a merkle lookup failed.
#[derive(Debug, Clone, Copy, PartialEq, Eq, Structural)]
pub enum MerkleError {
    /// No node lies at the end of the location's path.
    UnknownLocation,
    /// A stored hash disagrees with the digest recomputed from its node.
    IntegrityFailure,
}

/// A store of merkle nodes by index, held in memory or fetched on demand.
pub trait MerkleContainer {
    /// The nodes the container stands for.
    spec fn nodes(&self) -> Seq<MerkleNode>;

    /// The node at `index`, if there is one.
    fn get_wrapper(&mut self, index: usize) -> (r: Option<MerkleNode>)
        ensures
            final(self).nodes() == old(self).nodes(),
            r is Some <==> index < old(self).nodes().len(),
            r is Some ==> same_node(r->0, old(self).nodes()[index as int]),
    ;
}

/// A copy of a node.
pub fn copy_node(n: &MerkleNode) -> (r: MerkleNode)
    ensures
        same_node(r, *n),
{
    MerkleNode {
        hash: n.hash.clone(),
        value: copy_bytes(&n.value),
        children: copy_children(&n.children),
        parent: n.parent,
    }
}

impl MerkleContainer for Vec<MerkleNode> {
    open spec fn nodes(&self) -> Seq<MerkleNode> {
        self@
    }

    fn get_wrapper(&mut self, index: usize) -> (r: Option<MerkleNode>) {
        if index < self.len() {
            Some(copy_node(&self[index]))
        } else {
            None
        }
    }
}

/// Recomputes the hash of node `idx` from its value and its children's
/// stored hashes.
fn hash_node<A: MerkleContainer>(tree: &mut A, idx: usize) -> (r: Option<String>)
    requires
        idx < old(tree).nodes().len(),
    ensures
        final(tree).nodes() == old(tree).nodes(),
        children_ordered(node_children(old(tree).nodes())) ==> r is Some,
        r is Some ==> r->0@ == node_digest(
            node_values(old(tree).nodes()),
            node_hashes(old(tree).nodes()),
            node_children(old(tree).nodes()),
            idx as int,
        ),
{
    let ghost t = tree.nodes();
    let node = match tree.get_wrapper(idx) {
        Some(n) => n,
        None => {
            return None;
        },
    };
    let ghost ch = node_children(t);
    let ghost hv = node_hashes(t);
    assert(node.children@ == ch[idx as int]);
    assert(node.value@ == node_values(t)[idx as int]);
    let mut data = copy_bytes(&node.value);
    let mut m: usize = 0;
    assert(ch[idx as int].subrange(0, 0) =~= Seq::<(char, usize)>::empty());
    assert(data@ =~= node_values(t)[idx as int] + children_hashes(hv, ch[idx as int].subrange(0, 0)));
    while m < node.children.len()
        invariant
            t == tree.nodes(),
            t == old(tree).nodes(),
            ch == node_children(t),
            hv == node_hashes(t),
            idx < t.len(),
            node.children@ == ch[idx as int],
            m <= node.children@.len(),
            data@ == node_values(t)[idx as int] + children_hashes(
                hv,
                ch[idx as int].subrange(0, m as int),
            ),
        decreases node.children@.len() - m,
    {
        let child = node.children[m].1;
        let cn = match tree.get_wrapper(child) {
            Some(c) => c,
            None => {
                return None;
            },
        };
        let bytes = cn.hash.as_str().as_bytes();
        let ghost before = data@;
        let mut b: usize = 0;
        while b < bytes.len()
            invariant
                b <= bytes@.len(),
                data@ == before + bytes@.subrange(0, b as int),
            decreases bytes@.len() - b,
        {
            data.push(bytes[b]);
            b = b + 1;
            assert(data@ =~= before + bytes@.subrange(0, b as int));
        }
        proof {
            assert(bytes@.subrange(0, bytes@.len() as int) =~= bytes@);
            let sub = ch[idx as int].subrange(0, m as int + 1);
            assert(sub.drop_last() =~= ch[idx as int].subrange(0, m as int));
            assert(sub.last() == ch[idx as int][m as int]);
            assert(hv[child as int] == t[child as int].hash@);
            assert(data@ =~= node_values(t)[idx as int] + children_hashes(hv, sub));
        }
        m = m + 1;
    }
    assert(ch[idx as int].subrange(0, m as int) =~= ch[idx as int]);
    let digest = sha256(data.as_slice());
    Some(hex_encode(digest.as_slice()))
}

/// Node `j` and each ancestor up to the root hold the digests of their
/// contents, each parent coming before its child.
pub open spec fn verified_up(t: Seq<MerkleNode>, j: int) -> bool
    decreases j,
{
    &&& 0 <= j < t.len()
    &&& t[j].hash@ == node_digest(node_values(t), node_hashes(t), node_children(t), j)
    &&& (j == 0 || (t[j].parent < j && verified_up(t, t[j].parent as int)))
}

/// Checks node `idx` and each of its ancestors up to the root against
/// digests recomputed from their contents.
fn verify_node<A: MerkleContainer>(tree: &mut A, idx: usize) -> (r: bool)
    requires
        idx < old(tree).nodes().len(),
    ensures
        final(tree).nodes() == old(tree).nodes(),
        r ==> verified_up(old(tree).nodes(), idx as int),
        ({
            let t = old(tree).nodes();
            (children_ordered(node_children(t)) && t.len() > 1 && hashes_consistent(
                node_values(t),
                node_hashes(t),
                node_children(t),
            ) && forall|j: int| 0 < j < t.len() ==> #[trigger] node_parents(t)[j] < j) ==> r
        }),
{
    let ghost t = tree.nodes();
    let mut i: usize = idx;
    loop
        invariant
            t == tree.nodes(),
            t == old(tree).nodes(),
            idx < t.len(),
            i < t.len(),
            verified_up(t, i as int) ==> verified_up(t, idx as int),
        decreases i,
    {
        let node = match tree.get_wrapper(i) {
            Some(n) => n,
            None => {
                return false;
            },
        };
        let digest = match hash_node(tree, i) {
            Some(d) => d,
            None => {
                return false;
            },
        };
        assert(node_hashes(t)[i as int] == node.hash@);
        if digest != node.hash {
            return false;
        }
        if i == 0 {
            return true;
        }
        assert(node_parents(t)[i as int] == node.parent);
        if node.parent >= i {
            return false;
        }
        assert(t[i as int].parent == node.parent);
        i = node.parent;
    }
}

/// Looks a location up in a merkle container: walks its path from the root
/// and checks the node found, and each ancestor, against its digest.
pub fn get_from_merkle<A: MerkleContainer>(tree: &mut A, loc: String) -> (r: Result<
    Vec<u8>,
    MerkleError,
>)
    ensures
        final(tree).nodes() == old(tree).nodes(),
        r is Ok ==> merkle_lookup(old(tree).nodes(), loc@) == Some(r->Ok_0@),
        r is Ok ==> verified_up(old(tree).nodes(), walk(node_children(old(tree).nodes()), loc@)->0),
        merkle_lookup(old(tree).nodes(), loc@) is None ==> r == Err::<Vec<u8>, MerkleError>(
            MerkleError::UnknownLocation,
        ),
        ({
            let t = old(tree).nodes();
            (children_ordered(node_children(t)) && t.len() > 1 && hashes_consistent(
                node_values(t),
                node_hashes(t),
                node_children(t),
            ) && forall|j: int| 0 < j < t.len() ==> #[trigger] node_parents(t)[j] < j) ==> match merkle_lookup(t, loc@) {
                Some(v) => r is Ok && r->Ok_0@ == v,
                None => r is Err,
            }
        }),
{
    let ghost t = tree.nodes();
    let ghost ch = node_children(t);
    let s = loc.as_str();
    let n = s.unicode_len();
    let mut active: usize = 0;
    let mut node = match tree.get_wrapper(0) {
        Some(x) => x,
        None => {
            assert(walk(ch, loc@) is None) by {
                lemma_walk_in_range(ch, loc@);
            }
            return Err(MerkleError::UnknownLocation);
        },
    };
    let mut i: usize = 0;
    assert(loc@.subrange(0, 0) =~= Seq::<char>::empty());
    while i < n
        invariant
            t == tree.nodes(),
            t == old(tree).nodes(),
            ch == node_children(t),
            n == loc@.len(),
            s@ == loc@,
            i <= n,
            active < t.len(),
            same_node(node, t[active as int]),
            walk(ch, loc@.subrange(0, i as int)) == Some(active as int),
        decreases n - i,
    {
        let c = s.get_char(i);
        let ghost next = loc@.subrange(0, i as int + 1);
        assert(next.drop_last() =~= loc@.subrange(0, i as int));
        assert(next.last() == c);
        assert(node.children@ == ch[active as int]);
        let j = match find_child(&node.children, c) {
            Some(j) => j,
            None => {
                proof {
                    lemma_walk_dead_end(ch, loc@, i as int + 1);
                }
                return Err(MerkleError::UnknownLocation);
            },
        };
        node = match tree.get_wrapper(j) {
            Some(x) => x,
            None => {
                proof {
                    lemma_walk_dead_end(ch, loc@, i as int + 1);
                }
                return Err(MerkleError::UnknownLocation);
            },
        };
        active = j;
        i = i + 1;
    }
    assert(loc@.subrange(0, n as int) =~= loc@);
    if !verify_node(tree, active) {
        return Err(MerkleError::IntegrityFailure);
    }
    Ok(node.value)
}

/// A walk ends inside the tree.
proof fn lemma_walk_in_range(ch: ChildLists, p: Seq<char>)
    ensures
        walk(ch, p) matches Some(j) ==> 0 <= j < ch.len(),
    decreases p.len(),
{
    if p.len() > 0 {
        lemma_walk_in_range(ch, p.drop_last());
    }
}

/// A path whose prefix of length `i` leads nowhere leads nowhere.
proof fn lemma_walk_dead_end(ch: ChildLists, p: Seq<char>, i: int)
    requires
        0 <= i <= p.len(),
        walk(ch, p.subrange(0, i)) is None,
    ensures
        walk(ch, p) is None,
    decreases p.len() - i,
{
    if i < p.len() {
        let q = p.subrange(0, i + 1);
        assert(q.drop_last() =~= p.subrange(0, i));
        lemma_walk_dead_end(ch, p, i + 1);
    } else {
        assert(p.subrange(0, i) =~= p);
    }
}

proof fn lemma_child_of_range(ch: Seq<(char, usize)>, c: char, lo: int, hi: int)
    requires
        forall|k: int| 0 <= k < ch.len() ==> lo < #[trigger] ch[k].1 < hi,
    ensures
        child_of(ch, c) matches Some(j) ==> lo < j < hi,
    decreases ch.len(),
{
    if ch.len() > 0 && ch.last().0 != c {
        lemma_child_of_range(ch.drop_last(), c, lo, hi);
    }
}

/// Looking up every location of a merklized state gives its value back,
/// and a location that begins no stored location is unknown. The tree
/// passes its own integrity checks when some location is not empty.
pub proof fn lemma_merklize_lookup(
    t: Seq<MerkleNode>,
    state: Map<Seq<char>, Seq<u8>>,
    loc: Seq<char>,
)
    requires
        merkle_tree_of(t, state),
    ensures
        state.contains_key(loc) ==> merkle_lookup(t, loc) == Some(state[loc]),
        loc.len() > 0 && (forall|k: Seq<char>| #[trigger] state.contains_key(k) ==> !is_prefix(loc, k))
            ==> merkle_lookup(t, loc) is None,
        (exists|k: Seq<char>| #[trigger] state.contains_key(k) && k.len() > 0) ==> t.len() > 1,
{
    let ch = node_children(t);
    if state.contains_key(loc) {
        assert(walk(ch, loc) is Some);
        lemma_walk_in_range(ch, loc);
        let j = walk(ch, loc)->0;
        assert(node_values(t)[j] == state[loc]);
        assert(node_values(t)[j] == t[j].value@);
    }
    if loc.len() > 0 && (forall|k: Seq<char>| #[trigger] state.contains_key(k) ==> !is_prefix(loc, k)) {
        if walk(ch, loc) is Some {
            assert(covered(state, loc));
            reveal(covered);
            let k = choose|k: Seq<char>| #[trigger] state.contains_key(k) && is_prefix(loc, k);
            assert(state.contains_key(k) && is_prefix(loc, k));
        }
    }
    if exists|k: Seq<char>| #[trigger] state.contains_key(k) && k.len() > 0 {
        let k = choose|k: Seq<char>| #[trigger] state.contains_key(k) && k.len() > 0;
        assert(walk(ch, k) is Some);
        let q = k.drop_last();
        assert(walk(ch, q) is Some);
        lemma_walk_in_range(ch, q);
        let a = walk(ch, q)->0;
        assert(forall|x: int| 0 <= x < ch[a].len() ==> a < #[trigger] ch[a][x].1 < ch.len());
        lemma_child_of_range(ch[a], k.last(), a, ch.len() as int);
    }
}

} // verus!
