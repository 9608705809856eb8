//! Authenticated key/value store.
//!
//! Entries are held in strictly ascending key order, so the stored sequence
//! is a canonical function of the contents. Each entry has a leaf digest
//! `H(H(key) ++ H(value))`; the root digest is `H` of the leaf digests in
//! key order. A proof for a key is the ordered list of leaf digests, which a
//! verifier checks against the root and the claimed pair.
use sha2::Digest;
use vstd::prelude::*;

use crate::bytes::{
    bytes_equal, compare_bytes, copy_bytes, key_lt, lemma_key_lt_asymmetric,
    lemma_key_lt_irreflexive, lemma_key_lt_total, lemma_key_lt_transitive,
};
use crate::error::LedgerError;

verus! {

/// What SHA-256 yields on the given bytes.
pub uninterp spec fn sha256_of(data: Seq<u8>) -> Seq<u8>;

/// Relies on sha2's `Sha256::digest`: the SHA-256 digest of the input,
/// which is always 32 bytes long.
#[verifier::external_body]
pub(crate) fn sha256(data: &[u8]) -> (r: Vec<u8>)
    ensures
        r@ == sha256_of(data@),
        r@.len() == 32,
{
    sha2::Sha256::digest(data).to_vec()
}

pub type Entry = (Vec<u8>, Vec<u8>);

pub open spec fn entry_view(e: Entry) -> (Seq<u8>, Seq<u8>) {
    (e.0@, e.1@)
}

/// Keys strictly ascending.
pub open spec fn sorted(s: Seq<(Seq<u8>, Seq<u8>)>) -> bool {
    forall|i: int, j: int| 0 <= i < j < s.len() ==> key_lt(#[trigger] s[i].0, #[trigger] s[j].0)
}

pub open spec fn has_key_at(s: Seq<(Seq<u8>, Seq<u8>)>, k: Seq<u8>) -> bool {
    exists|i: int| 0 <= i < s.len() && #[trigger] s[i].0 == k
}

/// The contents of an entry sequence as a map from key to value.
pub open spec fn map_of(s: Seq<(Seq<u8>, Seq<u8>)>) -> Map<Seq<u8>, Seq<u8>> {
    Map::new(
        |k: Seq<u8>| has_key_at(s, k),
        |k: Seq<u8>| s[choose|i: int| 0 <= i < s.len() && #[trigger] s[i].0 == k].1,
    )
}

/// Digest of one stored pair.
pub open spec fn leaf_digest_of(k: Seq<u8>, v: Seq<u8>) -> Seq<u8> {
    sha256_of(sha256_of(k) + sha256_of(v))
}

pub open spec fn leaf_digests(s: Seq<(Seq<u8>, Seq<u8>)>) -> Seq<Seq<u8>> {
    s.map_values(|e: (Seq<u8>, Seq<u8>)| leaf_digest_of(e.0, e.1))
}

/// The root digest committed to by an ordered list of leaf digests.
pub open spec fn root_of_leaves(leaves: Seq<Seq<u8>>) -> Seq<u8> {
    sha256_of(leaves.flatten())
}

/// Whether `nodes` proves that `(key, value)` is stored under `root`: every
/// node is a 32-byte digest, one of them is the pair's leaf digest, and the
/// nodes hash to the root.
pub open spec fn proof_accepts(
    nodes: Seq<Seq<u8>>,
    root: Seq<u8>,
    key: Seq<u8>,
    value: Seq<u8>,
) -> bool {
    &&& forall|i: int| 0 <= i < nodes.len() ==> (#[trigger] nodes[i]).len() == 32
    &&& exists|i: int| 0 <= i < nodes.len() && #[trigger] nodes[i] == leaf_digest_of(key, value)
    &&& root_of_leaves(nodes) == root
}

pub proof fn lemma_map_of_index(s: Seq<(Seq<u8>, Seq<u8>)>, i: int)
    requires
        sorted(s),
        0 <= i < s.len(),
    ensures
        map_of(s).contains_key(s[i].0),
        map_of(s)[s[i].0] == s[i].1,
{
    assert(has_key_at(s, s[i].0));
    let j = choose|j: int| 0 <= j < s.len() && #[trigger] s[j].0 == s[i].0;
    lemma_key_lt_irreflexive(s[i].0);
    if j < i {
        assert(key_lt(s[j].0, s[i].0));
    } else if j > i {
        assert(key_lt(s[i].0, s[j].0));
    }
}

pub proof fn lemma_map_of_remove(s: Seq<(Seq<u8>, Seq<u8>)>, i: int)
    requires
        sorted(s),
        0 <= i < s.len(),
    ensures
        sorted(s.remove(i)),
        map_of(s.remove(i)) == map_of(s).remove(s[i].0),
{
    let t = s.remove(i);
    assert forall|a: int, b: int| 0 <= a < b < t.len() implies key_lt(
        #[trigger] t[a].0,
        #[trigger] t[b].0,
    ) by {
        let a2 = if a < i { a } else { a + 1 };
        let b2 = if b < i { b } else { b + 1 };
        assert(t[a] == s[a2] && t[b] == s[b2]);
    }
    assert forall|k: Seq<u8>| #[trigger] has_key_at(t, k) == (has_key_at(s, k) && k != s[i].0) by {
        if has_key_at(t, k) {
            let a = choose|a: int| 0 <= a < t.len() && #[trigger] t[a].0 == k;
            let a2 = if a < i { a } else { a + 1 };
            assert(t[a] == s[a2]);
            lemma_key_lt_irreflexive(k);
            if a2 < i {
                assert(key_lt(s[a2].0, s[i].0));
            } else {
                assert(key_lt(s[i].0, s[a2].0));
            }
        }
        if has_key_at(s, k) && k != s[i].0 {
            let a = choose|a: int| 0 <= a < s.len() && #[trigger] s[a].0 == k;
            if a < i {
                assert(t[a] == s[a]);
            } else {
                assert(t[a - 1] == s[a]);
            }
        }
    }
    assert forall|k: Seq<u8>| #[trigger] map_of(t).contains_key(k) implies map_of(t)[k] == map_of(
        s,
    )[k] by {
        let a = choose|a: int| 0 <= a < t.len() && #[trigger] t[a].0 == k;
        lemma_map_of_index(t, a);
        let a2 = if a < i { a } else { a + 1 };
        assert(t[a] == s[a2]);
        lemma_map_of_index(s, a2);
    }
    assert(map_of(t) =~= map_of(s).remove(s[i].0));
}

pub proof fn lemma_map_of_insert(s: Seq<(Seq<u8>, Seq<u8>)>, i: int, k: Seq<u8>, v: Seq<u8>)
    requires
        sorted(s),
        0 <= i <= s.len(),
        forall|j: int| 0 <= j < i ==> key_lt(#[trigger] s[j].0, k),
        forall|j: int| i <= j < s.len() ==> key_lt(k, #[trigger] s[j].0),
    ensures
        sorted(s.insert(i, (k, v))),
        map_of(s.insert(i, (k, v))) == map_of(s).insert(k, v),
{
    let t = s.insert(i, (k, v));
    assert forall|a: int, b: int| 0 <= a < b < t.len() implies key_lt(
        #[trigger] t[a].0,
        #[trigger] t[b].0,
    ) by {
        if a < i && b < i {
            assert(t[a] == s[a] && t[b] == s[b]);
        } else if a < i && b == i {
            assert(t[a] == s[a]);
        } else if a < i {
            assert(t[a] == s[a] && t[b] == s[b - 1]);
            lemma_key_lt_transitive(s[a].0, k, s[b - 1].0);
        } else if a == i {
            assert(t[b] == s[b - 1]);
        } else {
            assert(t[a] == s[a - 1] && t[b] == s[b - 1]);
        }
    }
    assert forall|kk: Seq<u8>| #[trigger] has_key_at(t, kk) == (has_key_at(s, kk) || kk == k) by {
        if has_key_at(t, kk) {
            let a = choose|a: int| 0 <= a < t.len() && #[trigger] t[a].0 == kk;
            if a < i {
                assert(t[a] == s[a]);
            } else if a > i {
                assert(t[a] == s[a - 1]);
            }
        }
        if has_key_at(s, kk) {
            let a = choose|a: int| 0 <= a < s.len() && #[trigger] s[a].0 == kk;
            if a < i {
                assert(t[a] == s[a]);
            } else {
                assert(t[a + 1] == s[a]);
            }
        }
        if kk == k {
            assert(t[i].0 == k);
        }
    }
    assert forall|kk: Seq<u8>| #[trigger] map_of(t).contains_key(kk) implies map_of(t)[kk] == map_of(
        s,
    ).insert(k, v)[kk] by {
        let a = choose|a: int| 0 <= a < t.len() && #[trigger] t[a].0 == kk;
        lemma_map_of_index(t, a);
        if a < i {
            assert(t[a] == s[a]);
            lemma_map_of_index(s, a);
            lemma_key_lt_irreflexive(k);
        } else if a > i {
            assert(t[a] == s[a - 1]);
            lemma_map_of_index(s, a - 1);
            lemma_key_lt_irreflexive(k);
        }
    }
    assert(map_of(t) =~= map_of(s).insert(k, v));
}

/// Two sorted entry sequences with the same contents are the same sequence.
pub proof fn lemma_sorted_unique(s1: Seq<(Seq<u8>, Seq<u8>)>, s2: Seq<(Seq<u8>, Seq<u8>)>)
    requires
        sorted(s1),
        sorted(s2),
        map_of(s1) == map_of(s2),
    ensures
        s1 == s2,
    decreases s1.len(),
{
    if s1.len() == 0 {
        if s2.len() > 0 {
            lemma_map_of_index(s2, 0);
        }
        assert(s1 =~= s2);
    } else {
        lemma_map_of_index(s1, 0);
        if s2.len() == 0 {
            assert(!map_of(s2).contains_key(s1[0].0));
        }
        lemma_map_of_index(s2, 0);
        let k1 = s1[0].0;
        let k2 = s2[0].0;
        let j = choose|j: int| 0 <= j < s2.len() && #[trigger] s2[j].0 == k1;
        let i = choose|i: int| 0 <= i < s1.len() && #[trigger] s1[i].0 == k2;
        lemma_key_lt_irreflexive(k1);
        if j > 0 {
            assert(key_lt(k2, k1));
            if i > 0 {
                assert(key_lt(k1, k2));
                lemma_key_lt_asymmetric(k1, k2);
            }
        }
        assert(k1 == k2);
        lemma_map_of_remove(s1, 0);
        lemma_map_of_remove(s2, 0);
        lemma_sorted_unique(s1.remove(0), s2.remove(0));
        assert(s1 =~= seq![s1[0]] + s1.remove(0));
        assert(s2 =~= seq![s2[0]] + s2.remove(0));
    }
}

/// A sorted sequence holds as many entries as its contents have keys.
pub proof fn lemma_map_of_len(s: Seq<(Seq<u8>, Seq<u8>)>)
    requires
        sorted(s),
    ensures
        map_of(s).dom().finite(),
        map_of(s).dom().len() == s.len(),
    decreases s.len(),
{
    if s.len() == 0 {
        assert(map_of(s).dom() =~= Set::empty());
    } else {
        lemma_map_of_remove(s, 0);
        lemma_map_of_len(s.remove(0));
        lemma_map_of_index(s, 0);
        assert(map_of(s).dom() =~= map_of(s.remove(0)).dom().insert(s[0].0));
    }
}

/// Hashing a list of 32-byte digests reads 32 bytes per digest.
pub proof fn lemma_flatten_len(nodes: Seq<Seq<u8>>)
    requires
        forall|i: int| 0 <= i < nodes.len() ==> (#[trigger] nodes[i]).len() == 32,
    ensures
        nodes.flatten().len() == 32 * nodes.len(),
    decreases nodes.len(),
{
    if nodes.len() > 0 {
        assert(nodes.drop_first()[0] == nodes[1] || nodes.len() == 1);
        assert forall|i: int| 0 <= i < nodes.drop_first().len() implies (
        #[trigger] nodes.drop_first()[i]).len() == 32 by {
            assert(nodes.drop_first()[i] == nodes[i + 1]);
        }
        lemma_flatten_len(nodes.drop_first());
    }
}

/// Authenticated key/value store over byte strings.
pub struct MerklePatriciaTrie {
    entries: Vec<Entry>,
}

/// A claimed stored pair together with the leaf digests that commit to it.
pub struct StateProof {
    pub key: Vec<u8>,
    pub value: Vec<u8>,
    pub proof: Vec<Vec<u8>>,
}

impl StateProof {
    pub open spec fn nodes(&self) -> Seq<Seq<u8>> {
        self.proof@.map_values(|n: Vec<u8>| n@)
    }

    /// Checks this proof against a root digest.
    pub fn verify(&self, root_hash: &[u8]) -> (r: bool)
        ensures
            r == proof_accepts(self.nodes(), root_hash@, self.key@, self.value@),
    {
        let leaf = leaf_digest(&self.key, &self.value);
        let mut found = false;
        let mut all: Vec<u8> = Vec::new();
        let mut i: usize = 0;
        while i < self.proof.len()
            invariant
                i <= self.proof@.len(),
                leaf@ == leaf_digest_of(self.key@, self.value@),
                forall|j: int| 0 <= j < i ==> (#[trigger] self.nodes()[j]).len() == 32,
                found == exists|j: int|
                    0 <= j < i && #[trigger] self.nodes()[j] == leaf_digest_of(
                        self.key@,
                        self.value@,
                    ),
                all@ == self.nodes().subrange(0, i as int).flatten(),
            decreases self.proof@.len() - i,
        {
            let node = &self.proof[i];
            if node.len() != 32 {
                assert(self.nodes()[i as int] == self.proof@[i as int]@);
                return false;
            }
            if bytes_equal(node, &leaf) {
                found = true;
            }
            let mut piece = copy_bytes(node);
            all.append(&mut piece);
            proof {
                assert(self.nodes().subrange(0, i + 1) =~= self.nodes().subrange(
                    0,
                    i as int,
                ).push(self.nodes()[i as int]));
                self.nodes().subrange(0, i as int).lemma_flatten_push(self.nodes()[i as int]);
            }
            i = i + 1;
        }
        assert(self.nodes().subrange(0, i as int) =~= self.nodes());
        if !found {
            return false;
        }
        let root = sha256(&all);
        bytes_equal(&root, root_hash)
    }
}

/// Leaf digest of one pair.
fn leaf_digest(key: &[u8], value: &[u8]) -> (r: Vec<u8>)
    ensures
        r@ == leaf_digest_of(key@, value@),
        r@.len() == 32,
{
    let mut hk = sha256(key);
    let mut hv = sha256(value);
    hk.append(&mut hv);
    sha256(&hk)
}

impl View for MerklePatriciaTrie {
    type V = Map<Seq<u8>, Seq<u8>>;

    open spec fn view(&self) -> Map<Seq<u8>, Seq<u8>> {
        map_of(self.entries_view())
    }
}

impl MerklePatriciaTrie {
    pub closed spec fn entries_view(&self) -> Seq<(Seq<u8>, Seq<u8>)> {
        self.entries@.map_values(|e: Entry| entry_view(e))
    }

    pub open spec fn wf(&self) -> bool {
        sorted(self.entries_view())
    }

    /// The leaf digests of the current contents, in key order.
    pub open spec fn leaves(&self) -> Seq<Seq<u8>> {
        leaf_digests(self.entries_view())
    }

    /// The current root digest.
    pub open spec fn root(&self) -> Seq<u8> {
        root_of_leaves(self.leaves())
    }

    /// An empty store.
    pub fn new() -> (r: Self)
        ensures
            r.wf(),
            r@ == Map::<Seq<u8>, Seq<u8>>::empty(),
    {
        let r = MerklePatriciaTrie { entries: Vec::new() };
        assert(r@ =~= Map::<Seq<u8>, Seq<u8>>::empty());
        r
    }

    /// Position of the first entry whose key does not sort before `key`.
    fn lower_bound(&self, key: &[u8]) -> (r: usize)
        requires
            self.wf(),
        ensures
            r <= self.entries_view().len(),
            forall|j: int| 0 <= j < r ==> key_lt(#[trigger] self.entries_view()[j].0, key@),
            forall|j: int|
                r <= j < self.entries_view().len() ==> !key_lt(
                    #[trigger] self.entries_view()[j].0,
                    key@,
                ),
    {
        let mut i: usize = 0;
        while i < self.entries.len() && compare_bytes(&self.entries[i].0, key) < 0
            invariant
                self.wf(),
                i <= self.entries_view().len(),
                forall|j: int| 0 <= j < i ==> key_lt(#[trigger] self.entries_view()[j].0, key@),
            decreases self.entries@.len() - i,
        {
            i = i + 1;
        }
        proof {
            if i < self.entries_view().len() {
                assert forall|j: int| i <= j < self.entries_view().len() implies !key_lt(
                    #[trigger] self.entries_view()[j].0,
                    key@,
                ) by {
                    if j > i && key_lt(self.entries_view()[j].0, key@) {
                        lemma_key_lt_transitive(
                            self.entries_view()[i as int].0,
                            self.entries_view()[j].0,
                            key@,
                        );
                    }
                }
            }
        }
        i
    }

    /// Index of the entry stored under `key`, if any.
    fn find(&self, key: &[u8]) -> (r: Option<usize>)
        requires
            self.wf(),
        ensures
            match r {
                Some(i) => i < self.entries_view().len() && self.entries_view()[i as int].0
                    == key@,
                None => !self@.contains_key(key@),
            },
    {
        let i = self.lower_bound(key);
        if i < self.entries.len() && bytes_equal(&self.entries[i].0, key) {
            Some(i)
        } else {
            proof {
                if self@.contains_key(key@) {
                    let j = choose|j: int|
                        0 <= j < self.entries_view().len() && #[trigger] self.entries_view()[j].0
                            == key@;
                    lemma_key_lt_irreflexive(key@);
                    if j > i {
                        assert(key_lt(self.entries_view()[i as int].0, key@)) by {
                            lemma_key_lt_total(self.entries_view()[i as int].0, key@);
                        }
                    }
                }
            }
            None
        }
    }

    /// The value stored under `key`, if any.
    pub fn get(&self, key: &[u8]) -> (r: Option<Vec<u8>>)
        requires
            self.wf(),
        ensures
            match r {
                Some(v) => self@.contains_key(key@) && self@[key@] == v@,
                None => !self@.contains_key(key@),
            },
    {
        match self.find(key) {
            Some(i) => {
                proof {
                    lemma_map_of_index(self.entries_view(), i as int);
                }
                Some(copy_bytes(&self.entries[i].1))
            },
            None => None,
        }
    }

    /// Stores `value` under `key`, replacing any earlier value.
    pub fn insert(&mut self, key: &[u8], value: &[u8])
        requires
            old(self).wf(),
        ensures
            final(self).wf(),
            final(self)@ == old(self)@.insert(key@, value@),
    {
        let i = self.lower_bound(key);
        let entry = (copy_bytes(key), copy_bytes(value));
        let ghost s = self.entries_view();
        if i < self.entries.len() && bytes_equal(&self.entries[i].0, key) {
            self.entries.set(i, entry);
            proof {
                lemma_map_of_remove(s, i as int);
                lemma_map_of_insert(s.remove(i as int), i as int, key@, value@);
                assert(self.entries_view() =~= s.remove(i as int).insert(i as int, (key@, value@)));
                assert(old(self)@.remove(key@).insert(key@, value@) =~= old(self)@.insert(
                    key@,
                    value@,
                ));
            }
        } else {
            proof {
                assert forall|j: int| i <= j < s.len() implies key_lt(key@, #[trigger] s[j].0) by {
                    lemma_key_lt_total(key@, s[j].0);
                    if j > i {
                        assert(key_lt(s[i as int].0, s[j].0));
                        if s[j].0 == key@ {
                            lemma_key_lt_total(key@, s[i as int].0);
                        }
                    }
                }
                lemma_map_of_insert(s, i as int, key@, value@);
            }
            self.entries.insert(i, entry);
            assert(self.entries_view() =~= s.insert(i as int, (key@, value@)));
        }
    }

    /// Removes `key`; removing an absent key changes nothing.
    pub fn delete(&mut self, key: &[u8])
        requires
            old(self).wf(),
        ensures
            final(self).wf(),
            final(self)@ == old(self)@.remove(key@),
    {
        let ghost s = self.entries_view();
        match self.find(key) {
            Some(i) => {
                self.entries.remove(i);
                proof {
                    lemma_map_of_remove(s, i as int);
                    assert(self.entries_view() =~= s.remove(i as int));
                }
            },
            None => {
                assert(old(self)@.remove(key@) =~= old(self)@);
            },
        }
    }

    /// All leaf digests in key order.
    fn leaf_list(&self) -> (r: Vec<Vec<u8>>)
        ensures
            r@.map_values(|n: Vec<u8>| n@) == self.leaves(),
            forall|j: int| 0 <= j < r@.len() ==> (#[trigger] r@[j])@.len() == 32,
    {
        let mut r: Vec<Vec<u8>> = Vec::new();
        let mut i: usize = 0;
        while i < self.entries.len()
            invariant
                i <= self.entries@.len(),
                r@.len() == i,
                r@.map_values(|n: Vec<u8>| n@) == self.leaves().subrange(0, i as int),
                forall|j: int| 0 <= j < r@.len() ==> (#[trigger] r@[j])@.len() == 32,
            decreases self.entries@.len() - i,
        {
            assert(self.entries_view()[i as int] == entry_view(self.entries@[i as int]));
            let d = leaf_digest(&self.entries[i].0, &self.entries[i].1);
            r.push(d);
            assert(r@.map_values(|n: Vec<u8>| n@) =~= self.leaves().subrange(0, i + 1));
            i = i + 1;
        }
        assert(self.leaves().subrange(0, i as int) =~= self.leaves());
        r
    }

    /// The root digest of the current contents.
    pub fn root_hash(&self) -> (r: Vec<u8>)
        ensures
            r@ == self.root(),
    {
        let leaves = self.leaf_list();
        let ghost ls = leaves@.map_values(|n: Vec<u8>| n@);
        let mut all: Vec<u8> = Vec::new();
        let mut i: usize = 0;
        while i < leaves.len()
            invariant
                i <= leaves@.len(),
                ls == leaves@.map_values(|n: Vec<u8>| n@),
                all@ == ls.subrange(0, i as int).flatten(),
            decreases leaves@.len() - i,
        {
            let mut piece = copy_bytes(&leaves[i]);
            all.append(&mut piece);
            proof {
                assert(ls.subrange(0, i + 1) =~= ls.subrange(0, i as int).push(ls[i as int]));
                ls.subrange(0, i as int).lemma_flatten_push(ls[i as int]);
            }
            i = i + 1;
        }
        assert(ls.subrange(0, i as int) =~= ls);
        sha256(&all)
    }

    /// A proof that `key` is stored, checkable against the current root;
    /// `NotFound` where the key is absent.
    pub fn prove(&self, key: &[u8]) -> (r: Result<StateProof, LedgerError>)
        requires
            self.wf(),
        ensures
            r is Err <==> !self@.contains_key(key@),
            r is Err ==> r == Err::<StateProof, LedgerError>(LedgerError::NotFound),
            r matches Ok(p) ==> p.key@ == key@ && p.value@ == self@[key@] && p.nodes()
                == self.leaves(),
            r matches Ok(p) ==> proof_accepts(p.nodes(), self.root(), key@, self@[key@]),
    {
        match self.find(key) {
            None => Err(LedgerError::NotFound),
            Some(i) => {
                let p = StateProof {
                    key: copy_bytes(key),
                    value: copy_bytes(&self.entries[i].1),
                    proof: self.leaf_list(),
                };
                proof {
                    let s = self.entries_view();
                    lemma_map_of_index(s, i as int);
                    assert(p.nodes()[i as int] == leaf_digest_of(key@, self@[key@]));
                    assert forall|j: int| 0 <= j < p.nodes().len() implies (
                    #[trigger] p.nodes()[j]).len() == 32 by {
                        assert(p.nodes()[j] == p.proof@[j]@);
                    }
                }
                Ok(p)
            },
        }
    }

    /// A copy of this store with the same contents.
    pub fn snapshot(&self) -> (r: Self)
        requires
            self.wf(),
        ensures
            r.wf(),
            r@ == self@,
            r.entries_view() == self.entries_view(),
    {
        let mut entries: Vec<Entry> = Vec::new();
        let mut i: usize = 0;
        while i < self.entries.len()
            invariant
                i <= self.entries@.len(),
                entries@.len() == i,
                entries@.map_values(|e: Entry| entry_view(e)) == self.entries_view().subrange(
                    0,
                    i as int,
                ),
            decreases self.entries@.len() - i,
        {
            assert(self.entries_view()[i as int] == entry_view(self.entries@[i as int]));
            let e = (copy_bytes(&self.entries[i].0), copy_bytes(&self.entries[i].1));
            entries.push(e);
            assert(entries@.map_values(|e: Entry| entry_view(e)) =~= self.entries_view().subrange(
                0,
                i + 1,
            ));
            i = i + 1;
        }
        assert(self.entries_view().subrange(0, i as int) =~= self.entries_view());
        MerklePatriciaTrie { entries }
    }
}

/// The contents after inserting `vals[i]` under `keys[i]` in turn into an
/// empty store.
pub open spec fn contents_after_inserts(keys: Seq<Seq<u8>>, vals: Seq<Seq<u8>>) -> Map<
    Seq<u8>,
    Seq<u8>,
>
    decreases keys.len(),
{
    if keys.len() == 0 || vals.len() == 0 {
        Map::empty()
    } else {
        contents_after_inserts(keys.drop_last(), vals.drop_last()).insert(keys.last(), vals.last())
    }
}

/// After `insert(key, value)`, `get(key)` yields `value`.
pub proof fn law_get_after_insert(
    before: MerklePatriciaTrie,
    after: MerklePatriciaTrie,
    key: Seq<u8>,
    value: Seq<u8>,
)
    requires
        before.wf(),
        after@ == before@.insert(key, value),
    ensures
        after@.contains_key(key),
        after@[key] == value,
{
}

/// A key that was never inserted into a fresh store is absent from it.
pub proof fn law_never_inserted_absent(keys: Seq<Seq<u8>>, vals: Seq<Seq<u8>>, key: Seq<u8>)
    requires
        !keys.contains(key),
    ensures
        !contents_after_inserts(keys, vals).contains_key(key),
    decreases keys.len(),
{
    if keys.len() > 0 && vals.len() > 0 {
        assert(!keys.drop_last().contains(key)) by {
            if keys.drop_last().contains(key) {
                let i = choose|i: int| 0 <= i < keys.drop_last().len() && keys.drop_last()[i] == key;
                assert(keys[i] == key);
            }
        }
        assert(keys[keys.len() - 1] != key);
        law_never_inserted_absent(keys.drop_last(), vals.drop_last(), key);
    }
}

/// The root digest is a function of the contents alone: inserting `a` and
/// `b` and then `c` gives the same root as inserting `c` and then `a` and
/// `b`, when the three keys differ.
pub proof fn law_root_independent_of_order(
    base: Map<Seq<u8>, Seq<u8>>,
    first: MerklePatriciaTrie,
    second: MerklePatriciaTrie,
    a: (Seq<u8>, Seq<u8>),
    b: (Seq<u8>, Seq<u8>),
    c: (Seq<u8>, Seq<u8>),
)
    requires
        first.wf(),
        second.wf(),
        a.0 != b.0,
        a.0 != c.0,
        b.0 != c.0,
        first@ == base.insert(a.0, a.1).insert(b.0, b.1).insert(c.0, c.1),
        second@ == base.insert(c.0, c.1).insert(a.0, a.1).insert(b.0, b.1),
    ensures
        first.root() == second.root(),
{
    assert(first@ =~= second@);
    lemma_sorted_unique(first.entries_view(), second.entries_view());
}

/// Two stores with the same contents have the same root digest.
pub proof fn law_root_determined_by_contents(first: MerklePatriciaTrie, second: MerklePatriciaTrie)
    requires
        first.wf(),
        second.wf(),
        first@ == second@,
    ensures
        first.root() == second.root(),
{
    lemma_sorted_unique(first.entries_view(), second.entries_view());
}

/// After `delete(key)` the key is absent, and a proof made for it before the
/// deletion does not verify against the new root. This rests on SHA-256
/// yielding 32 bytes and on the two leaf lists not colliding.
pub proof fn law_deleted_key_proof_rejected(
    before: MerklePatriciaTrie,
    after: MerklePatriciaTrie,
    key: Seq<u8>,
    value: Seq<u8>,
    nodes: Seq<Seq<u8>>,
)
    requires
        before.wf(),
        after.wf(),
        before@.contains_key(key),
        after@ == before@.remove(key),
        nodes == before.leaves(),
        forall|x: Seq<u8>| #[trigger] sha256_of(x).len() == 32,
        before.leaves().flatten() != after.leaves().flatten() ==> sha256_of(
            before.leaves().flatten(),
        ) != sha256_of(after.leaves().flatten()),
    ensures
        !after@.contains_key(key),
        !proof_accepts(nodes, after.root(), key, value),
{
    let sb = before.entries_view();
    let sa = after.entries_view();
    lemma_map_of_len(sb);
    lemma_map_of_len(sa);
    assert(after@.dom() =~= before@.dom().remove(key));
    assert forall|i: int| 0 <= i < before.leaves().len() implies (
    #[trigger] before.leaves()[i]).len() == 32 by {
        assert(before.leaves()[i] == leaf_digest_of(sb[i].0, sb[i].1));
    }
    assert forall|i: int| 0 <= i < after.leaves().len() implies (
    #[trigger] after.leaves()[i]).len() == 32 by {
        assert(after.leaves()[i] == leaf_digest_of(sa[i].0, sa[i].1));
    }
    lemma_flatten_len(before.leaves());
    lemma_flatten_len(after.leaves());
}

} // verus!
