use vstd::prelude::*;

verus! {

/// The capability set that every node identifier type must satisfy
/// unconditionally: total ordering, equality, hashing, cheap duplication,
/// debug and human-readable representations, a default value, and safety
/// when shared across or moved between threads.
///
/// A type that misses any of these capabilities is rejected when the crate
/// is compiled, never at run time.
pub trait NodeIdEssential: Sized + Send + Sync + Eq + PartialEq + Ord + PartialOrd + core::fmt::Debug + core::fmt::Display + core::hash::Hash + Copy + Clone + Default + 'static {
}

impl<T> NodeIdEssential for T where T: Sized + Send + Sync + Eq + PartialEq + Ord + PartialOrd + core::fmt::Debug + core::fmt::Display + core::hash::Hash + Copy + Clone + Default + 'static {
}

/// The full capability contract on a node identifier type for this build.
///
/// The contract is the union of [`NodeIdEssential`] with whichever optional
/// serialization capabilities the build compiles in; the selection is made
/// when the crate is built, never by a run-time branch. This build compiles
/// in neither optional encoder, so the contract coincides with the essential
/// set. The compositions that add the persistent-encoding and zero-copy
/// capability fragments need the encoder crates' traits as bounds, which the
/// verifier cannot check; they live with the unverified embedding layer.
pub trait NodeId: NodeIdEssential {
}

impl<T> NodeId for T where T: NodeIdEssential {
}

/// Equal identifier values are indistinguishable: every deterministic
/// observation of an identifier — an ordering key, a hash code — returns
/// the same result on both. Identifier equality is exact, with no
/// normalization, so this holds of the values themselves.
pub proof fn lemma_identifier_eq_consistent<T>(a: T, b: T, observe: spec_fn(T) -> int)
    requires
        a == b,
    ensures
        observe(a) == observe(b),
{
}

/// The textual form of one attribute pair: `key:value`.
pub open spec fn pair_text(k: Seq<char>, v: Seq<char>) -> Seq<char> {
    k + ":"@ + v
}

/// The textual form of a sequence of attribute pairs, comma-separated,
/// with no trailing separator.
pub open spec fn pairs_text(es: Seq<(Seq<char>, Seq<char>)>) -> Seq<char>
    decreases es.len(),
{
    if es.len() == 0 {
        Seq::<char>::empty()
    } else if es.len() == 1 {
        pair_text(es[0].0, es[0].1)
    } else {
        pairs_text(es.drop_last()) + ","@ + pair_text(es.last().0, es.last().1)
    }
}

/// Whether some pair in `es` carries the key `k`.
pub open spec fn has_key(es: Seq<(Seq<char>, Seq<char>)>, k: Seq<char>) -> bool {
    exists|i: int| 0 <= i < es.len() && es[i].0 == k
}

/// The position of the pair carrying the key `k`; meaningful only when
/// `has_key(es, k)` holds, and unique when the keys of `es` are distinct.
pub open spec fn key_index(es: Seq<(Seq<char>, Seq<char>)>, k: Seq<char>) -> int {
    choose|i: int| 0 <= i < es.len() && es[i].0 == k
}

/// Metadata attached to one cluster node: a network address, plus an open
/// key-to-value attribute store for application-defined data.
///
/// The address is opaque to this layer and never parsed. The attribute
/// store is an ordered mapping: keys are unique, and pairs keep the order
/// in which they were first inserted, so that [`Node::render`] is
/// deterministic and reproducible.
#[derive(Debug, Clone, Default, PartialEq, Eq)]
pub struct Node {
    pub addr: String,
    /// Other user-defined data, as key/value pairs with distinct keys.
    pub data: Vec<(String, String)>,
}

impl Node {
    /// The attribute pairs, abstracted to sequences of characters.
    pub open spec fn entries(&self) -> Seq<(Seq<char>, Seq<char>)> {
        self.data@.map_values(|p: (String, String)| (p.0@, p.1@))
    }

    /// Well-formedness: the attribute keys are pairwise distinct.
    pub open spec fn wf(&self) -> bool {
        forall|i: int, j: int|
            0 <= i < j < self.data@.len() ==> self.data@[i].0@ != self.data@[j].0@
    }

    /// The canonical textual rendering: the address, `"; "`, then the
    /// comma-separated attribute pairs.
    pub open spec fn rendered(&self) -> Seq<char> {
        self.addr@ + "; "@ + pairs_text(self.entries())
    }

    /// Makes a record for the given address with no attributes.
    /// Accepts every address, the empty string included, and never fails.
    pub fn new(addr: &str) -> (node: Node)
        ensures
            node.addr@ == addr@,
            node.data@ == Seq::<(String, String)>::empty(),
            node.wf(),
    {
        Node { addr: addr.to_owned(), data: Vec::new() }
    }

    /// Renders the record as `"<addr>; <k1>:<v1>,<k2>:<v2>,..."`, following
    /// the attribute store's own order. There is no separator after the
    /// final pair, and no escaping: a key or value containing `:` or `,`
    /// renders ambiguously, a deliberately kept limitation of this one-way
    /// debug format.
    pub fn render(&self) -> (r: String)
        ensures
            r@ == self.rendered(),
    {
        let mut out: String = self.addr.clone();
        out.append("; ");
        let mut i: usize = 0;
        while i < self.data.len()
            invariant
                i <= self.data@.len(),
                out@ == self.addr@ + "; "@ + pairs_text(self.entries().take(i as int)),
            decreases self.data@.len() - i,
        {
            if i > 0 {
                out.append(",");
            }
            out.append(self.data[i].0.as_str());
            out.append(":");
            out.append(self.data[i].1.as_str());
            proof {
                lemma_pairs_text_step(self.entries(), i as int);
                assert(out@ == self.addr@ + "; "@ + pairs_text(
                    self.entries().take(i + 1),
                )) by {
                    lemma_seq_add_assoc::<char>();
                }
            }
            i = i + 1;
        }
        proof {
            assert(self.entries().take(self.data@.len() as int) =~= self.entries());
        }
        out
    }

    /// Inserts the attribute `k -> v`. A pair whose key is already present
    /// is overwritten in place, keeping its position, and its former value
    /// is returned; a new key is appended after the existing pairs.
    pub fn insert_attr(&mut self, k: String, v: String) -> (prev: Option<String>)
        requires
            old(self).wf(),
        ensures
            final(self).wf(),
            final(self).addr == old(self).addr,
            !has_key(old(self).entries(), k@) ==> final(self).data@ == old(self).data@.push(
                (k, v),
            ) && prev is None,
            has_key(old(self).entries(), k@) ==> final(self).data@ == old(self).data@.update(
                key_index(old(self).entries(), k@),
                (k, v),
            ) && prev == Some(old(self).data@[key_index(old(self).entries(), k@)].1),
    {
        let mut idx: usize = 0;
        while idx < self.data.len() && !(self.data[idx].0 == k)
            invariant
                *self == *old(self),
                idx <= self.data@.len(),
                forall|j: int| 0 <= j < idx ==> old(self).entries()[j].0 != k@,
            decreases self.data@.len() - idx,
        {
            idx = idx + 1;
        }
        if idx < self.data.len() {
            proof {
                lemma_key_index_unique(old(self).entries(), k@, idx as int);
            }
            let prev = self.data[idx].1.clone();
            self.data[idx] = (k, v);
            proof {
                lemma_update_keeps_wf(old(self).data@, self.data@, idx as int);
            }
            Some(prev)
        } else {
            proof {
                assert(!has_key(old(self).entries(), k@));
                assert forall|j: int| 0 <= j < old(self).data@.len() implies old(
                    self,
                ).data@[j].0@ != k@ by {
                    assert(old(self).entries()[j].0 != k@);
                }
            }
            self.data.push((k, v));
            proof {
                lemma_push_keeps_wf(old(self).data@, self.data@, k@);
            }
            None
        }
    }

    /// Removes the attribute carrying the key `k`, if any, closing the gap
    /// and leaving every other pair in its relative position; returns the
    /// removed value. A key that is absent leaves the record unchanged.
    pub fn remove_attr(&mut self, k: &str) -> (prev: Option<String>)
        requires
            old(self).wf(),
        ensures
            final(self).wf(),
            final(self).addr == old(self).addr,
            !has_key(old(self).entries(), k@) ==> *final(self) == *old(self) && prev is None,
            has_key(old(self).entries(), k@) ==> final(self).data@ == old(self).data@.remove(
                key_index(old(self).entries(), k@),
            ) && prev == Some(old(self).data@[key_index(old(self).entries(), k@)].1),
    {
        let key: String = k.to_owned();
        let mut idx: usize = 0;
        while idx < self.data.len() && !(self.data[idx].0 == key)
            invariant
                *self == *old(self),
                key@ == k@,
                idx <= self.data@.len(),
                forall|j: int| 0 <= j < idx ==> old(self).entries()[j].0 != k@,
            decreases self.data@.len() - idx,
        {
            idx = idx + 1;
        }
        if idx < self.data.len() {
            proof {
                lemma_key_index_unique(old(self).entries(), k@, idx as int);
            }
            let removed = self.data.remove(idx);
            proof {
                lemma_remove_keeps_wf(old(self).data@, self.data@, idx as int);
            }
            Some(removed.1)
        } else {
            proof {
                assert(!has_key(old(self).entries(), k@));
            }
            None
        }
    }
}

/// Overwriting the pair at position `i` with one carrying the same key
/// keeps the keys pairwise distinct.
proof fn lemma_update_keeps_wf(olds: Seq<(String, String)>, news: Seq<(String, String)>, i: int)
    requires
        forall|p: int, q: int| 0 <= p < q < olds.len() ==> olds[p].0@ != olds[q].0@,
        0 <= i < olds.len(),
        news.len() == olds.len(),
        news[i].0@ == olds[i].0@,
        forall|j: int| 0 <= j < olds.len() && j != i ==> news[j] == olds[j],
    ensures
        forall|p: int, q: int| 0 <= p < q < news.len() ==> news[p].0@ != news[q].0@,
{
    assert forall|p: int, q: int| 0 <= p < q < news.len() implies news[p].0@ != news[q].0@ by {
        assert(olds[p].0@ != olds[q].0@);
    }
}

/// Appending a pair whose key occurs nowhere in the sequence keeps the
/// keys pairwise distinct.
proof fn lemma_push_keeps_wf(olds: Seq<(String, String)>, news: Seq<(String, String)>, k: Seq<char>)
    requires
        forall|p: int, q: int| 0 <= p < q < olds.len() ==> olds[p].0@ != olds[q].0@,
        forall|j: int| 0 <= j < olds.len() ==> olds[j].0@ != k,
        news.len() == olds.len() + 1,
        news[olds.len() as int].0@ == k,
        forall|j: int| 0 <= j < olds.len() ==> news[j] == olds[j],
    ensures
        forall|p: int, q: int| 0 <= p < q < news.len() ==> news[p].0@ != news[q].0@,
{
    assert forall|p: int, q: int| 0 <= p < q < news.len() implies news[p].0@ != news[q].0@ by {
        if q < olds.len() {
            assert(olds[p].0@ != olds[q].0@);
        } else {
            assert(olds[p].0@ != k);
        }
    }
}

/// Removing the pair at position `i` keeps the keys pairwise distinct.
proof fn lemma_remove_keeps_wf(olds: Seq<(String, String)>, news: Seq<(String, String)>, i: int)
    requires
        forall|p: int, q: int| 0 <= p < q < olds.len() ==> olds[p].0@ != olds[q].0@,
        0 <= i < olds.len(),
        news == olds.remove(i),
    ensures
        forall|p: int, q: int| 0 <= p < q < news.len() ==> news[p].0@ != news[q].0@,
{
    assert forall|p: int, q: int| 0 <= p < q < news.len() implies news[p].0@ != news[q].0@ by {
        let p0: int = if p < i { p } else { p + 1 };
        let q0: int = if q < i { q } else { q + 1 };
        assert(news[p] == olds[p0]);
        assert(news[q] == olds[q0]);
        assert(olds[p0].0@ != olds[q0].0@);
    }
}

/// When the keys of `es` are pairwise distinct and position `i` carries the
/// key `k`, then `i` is the position that [`key_index`] picks.
proof fn lemma_key_index_unique(es: Seq<(Seq<char>, Seq<char>)>, k: Seq<char>, i: int)
    requires
        forall|p: int, q: int| 0 <= p < q < es.len() ==> es[p].0 != es[q].0,
        0 <= i < es.len(),
        es[i].0 == k,
    ensures
        has_key(es, k),
        key_index(es, k) == i,
{
    assert(has_key(es, k));
    let j = key_index(es, k);
    if j != i {
        if j < i {
            assert(es[j].0 != es[i].0);
        } else {
            assert(es[i].0 != es[j].0);
        }
    }
}

/// Concatenation of character sequences is associative.
proof fn lemma_seq_add_assoc<T>()
    ensures
        forall|a: Seq<T>, b: Seq<T>, c: Seq<T>| #[trigger] ((a + b) + c) =~= a + (b + c),
{
}

/// Unfolds one step of [`pairs_text`]: rendering the first `i + 1` pairs
/// appends the `i`-th pair to the rendering of the first `i`, with a comma
/// between pairs after the first.
proof fn lemma_pairs_text_step(es: Seq<(Seq<char>, Seq<char>)>, i: int)
    requires
        0 <= i < es.len(),
    ensures
        i == 0 ==> pairs_text(es.take(1)) == pair_text(es[0].0, es[0].1),
        i > 0 ==> pairs_text(es.take(i + 1)) == pairs_text(es.take(i)) + ","@ + pair_text(
            es[i].0,
            es[i].1,
        ),
{
    let taken = es.take(i + 1);
    if i == 0 {
        assert(taken.len() == 1);
        assert(taken[0] == es[0]);
    } else {
        assert(taken.drop_last() =~= es.take(i));
        assert(taken.last() == es[i]);
    }
}

} // verus!
