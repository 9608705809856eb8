//! Transactions, the pool of pending ones, and the chain of committed blocks
//! with its signature index.
//!
//! The index lists every committed transaction in commit order with its
//! (block, position) location; the position in the index is the
//! transaction's time. The open block is addressed as the block after the
//! last sealed one.
use vstd::prelude::*;

use crate::bytes::{bytes_equal, copy_bytes};
use crate::error::LedgerError;

verus! {

pub struct Transaction {
    pub signature: String,
    pub sender: Vec<u8>,
    pub recipient: Option<Vec<u8>>,
    pub amount: u64,
    pub payload: Vec<u8>,
    pub gas_limit: u64,
}

pub struct TxView {
    pub signature: Seq<char>,
    pub sender: Seq<u8>,
    pub recipient: Option<Seq<u8>>,
    pub amount: u64,
    pub payload: Seq<u8>,
    pub gas_limit: u64,
}

impl View for Transaction {
    type V = TxView;

    open spec fn view(&self) -> TxView {
        TxView {
            signature: self.signature@,
            sender: self.sender@,
            recipient: match self.recipient {
                Some(r) => Some(r@),
                None => None,
            },
            amount: self.amount,
            payload: self.payload@,
            gas_limit: self.gas_limit,
        }
    }
}

/// Whether a transaction names `address` as its sender or recipient.
pub open spec fn involves(t: TxView, address: Seq<u8>) -> bool {
    t.sender == address || t.recipient == Some(address)
}

fn copy_string(s: &String) -> (r: String)
    ensures
        r@ == s@,
{
    s.clone()
}

impl Transaction {
    /// A transfer of `amount` from `sender` to `recipient` that runs no
    /// program.
    pub fn new(sender: Vec<u8>, recipient: Vec<u8>, amount: u64, signature: String) -> (r: Self)
        ensures
            r@.sender == sender@,
            r@.recipient == Some(recipient@),
            r@.amount == amount,
            r@.signature == signature@,
            r@.payload.len() == 0,
            r@.gas_limit == crate::executor::BASE_GAS,
    {
        Transaction {
            signature,
            sender,
            recipient: Some(recipient),
            amount,
            payload: Vec::new(),
            gas_limit: crate::executor::BASE_GAS,
        }
    }

    /// A copy with the same contents.
    pub fn copy(&self) -> (r: Self)
        ensures
            r@ == self@,
    {
        let recipient = match &self.recipient {
            Some(v) => Some(copy_bytes(v)),
            None => None,
        };
        Transaction {
            signature: copy_string(&self.signature),
            sender: copy_bytes(&self.sender),
            recipient,
            amount: self.amount,
            payload: copy_bytes(&self.payload),
            gas_limit: self.gas_limit,
        }
    }

    /// Whether this transaction names `address` as sender or recipient.
    pub fn involves_address(&self, address: &[u8]) -> (r: bool)
        ensures
            r == involves(self@, address@),
    {
        if bytes_equal(&self.sender, address) {
            return true;
        }
        match &self.recipient {
            Some(v) => bytes_equal(v, address),
            None => false,
        }
    }
}

/// Staging area of transactions not yet executed, keyed by signature.
pub struct TransactionPool {
    pub transactions: Vec<Transaction>,
}

pub open spec fn tx_views(s: Seq<Transaction>) -> Seq<TxView> {
    s.map_values(|t: Transaction| t@)
}

pub open spec fn distinct_signatures(s: Seq<TxView>) -> bool {
    forall|i: int, j: int|
        0 <= i < s.len() && 0 <= j < s.len() && i != j ==> #[trigger] s[i].signature
            != #[trigger] s[j].signature
}

pub open spec fn holds_signature(s: Seq<TxView>, sig: Seq<char>) -> bool {
    exists|i: int| 0 <= i < s.len() && #[trigger] s[i].signature == sig
}

impl TransactionPool {
    pub open spec fn pending(&self) -> Seq<TxView> {
        tx_views(self.transactions@)
    }

    pub open spec fn wf(&self) -> bool {
        distinct_signatures(self.pending())
    }

    pub fn new() -> (r: Self)
        ensures
            r.wf(),
            r.pending().len() == 0,
    {
        TransactionPool { transactions: Vec::new() }
    }

    /// Position of the pending transaction with signature `sig`.
    fn position(&self, sig: &String) -> (r: Option<usize>)
        ensures
            match r {
                Some(i) => i < self.pending().len() && self.pending()[i as int].signature == sig@,
                None => !holds_signature(self.pending(), sig@),
            },
    {
        let mut i: usize = 0;
        while i < self.transactions.len()
            invariant
                i <= self.transactions@.len(),
                forall|j: int| 0 <= j < i ==> #[trigger] self.pending()[j].signature != sig@,
            decreases self.transactions@.len() - i,
        {
            if self.transactions[i].signature == *sig {
                return Some(i);
            }
            i = i + 1;
        }
        None
    }

    /// Stages `tx`; a signature that is already pending is rejected and the
    /// pool is left as it was.
    pub fn add_transaction(&mut self, tx: Transaction) -> (r: Result<(), LedgerError>)
        requires
            old(self).wf(),
        ensures
            final(self).wf(),
            holds_signature(old(self).pending(), tx@.signature) ==> r == Err::<(), LedgerError>(
                LedgerError::DuplicateSignature,
            ) && final(self).pending() == old(self).pending(),
            !holds_signature(old(self).pending(), tx@.signature) ==> r is Ok
                && final(self).pending() == old(self).pending().push(tx@),
    {
        match self.position(&tx.signature) {
            Some(_) => Err(LedgerError::DuplicateSignature),
            None => {
                self.transactions.push(tx);
                assert(self.pending() =~= old(self).pending().push(tx@));
                Ok(())
            },
        }
    }

    /// The pending transaction with signature `signature`, if any.
    pub fn get_transaction(&self, signature: &String) -> (r: Option<&Transaction>)
        ensures
            match r {
                Some(t) => holds_signature(self.pending(), signature@) && t@.signature
                    == signature@ && self.pending().contains(t@),
                None => !holds_signature(self.pending(), signature@),
            },
    {
        match self.position(signature) {
            Some(i) => Some(&self.transactions[i]),
            None => None,
        }
    }

    /// Takes the pending transaction with signature `signature` out of the
    /// pool.
    pub fn remove_transaction(&mut self, signature: &String) -> (r: Option<Transaction>)
        requires
            old(self).wf(),
        ensures
            final(self).wf(),
            match r {
                Some(t) => exists|i: int|
                    0 <= i < old(self).pending().len() && old(self).pending()[i] == t@
                        && t@.signature == signature@ && final(self).pending()
                        == old(self).pending().remove(i),
                None => !holds_signature(old(self).pending(), signature@) && final(self).pending()
                    == old(self).pending(),
            },
    {
        match self.position(signature) {
            Some(i) => {
                let t = self.transactions.remove(i);
                assert(self.pending() =~= old(self).pending().remove(i as int));
                proof {
                    let s = self.pending();
                    let o = old(self).pending();
                    assert forall|a: int, b: int|
                        0 <= a < s.len() && 0 <= b < s.len() && a != b implies #[trigger] s[a].signature
                        != #[trigger] s[b].signature by {
                        let a2 = if a < i { a } else { a + 1 };
                        let b2 = if b < i { b } else { b + 1 };
                        assert(s[a] == o[a2] && s[b] == o[b2]);
                    }
                }
                Some(t)
            },
            None => None,
        }
    }
}

/// A sealed sequence of committed transactions, with the state root after
/// them and the state root of the block before (empty for the first).
pub struct Block {
    pub transactions: Vec<Transaction>,
    pub parent_root: Vec<u8>,
    pub state_root: Vec<u8>,
}

impl Block {
    pub open spec fn txs(&self) -> Seq<TxView> {
        tx_views(self.transactions@)
    }

    /// A copy with the same contents.
    pub fn copy(&self) -> (r: Self)
        ensures
            r.txs() == self.txs(),
            r.parent_root@ == self.parent_root@,
            r.state_root@ == self.state_root@,
    {
        let txs = copy_transactions(&self.transactions);
        Block {
            transactions: txs,
            parent_root: copy_bytes(&self.parent_root),
            state_root: copy_bytes(&self.state_root),
        }
    }
}

fn copy_transactions(v: &Vec<Transaction>) -> (r: Vec<Transaction>)
    ensures
        tx_views(r@) == tx_views(v@),
{
    let mut r: Vec<Transaction> = Vec::new();
    let mut i: usize = 0;
    while i < v.len()
        invariant
            i <= v@.len(),
            r@.len() == i,
            tx_views(r@) == tx_views(v@).subrange(0, i as int),
        decreases v@.len() - i,
    {
        r.push(v[i].copy());
        assert(tx_views(r@) =~= tx_views(v@).subrange(0, i + 1));
        i = i + 1;
    }
    assert(tx_views(v@).subrange(0, i as int) =~= tx_views(v@));
    r
}

/// Where a committed transaction stands.
pub struct IndexEntry {
    pub signature: String,
    pub block: usize,
    pub position: usize,
}

pub struct Chain {
    pub blocks: Vec<Block>,
    pub open: Vec<Transaction>,
    pub transaction_index: Vec<IndexEntry>,
}

impl Chain {
    /// Whether (`b`, `p`) addresses a committed transaction.
    pub open spec fn valid_location(&self, b: int, p: int) -> bool {
        if 0 <= b < self.blocks@.len() {
            0 <= p < self.blocks@[b].transactions@.len()
        } else {
            b == self.blocks@.len() && 0 <= p < self.open@.len()
        }
    }

    pub open spec fn tx_at(&self, b: int, p: int) -> TxView {
        if b < self.blocks@.len() {
            self.blocks@[b].transactions@[p]@
        } else {
            self.open@[p]@
        }
    }

    /// Committed transactions in commit order.
    pub open spec fn committed(&self) -> Seq<TxView> {
        self.transaction_index@.map_values(
            |e: IndexEntry| self.tx_at(e.block as int, e.position as int),
        )
    }

    pub open spec fn wf(&self) -> bool {
        &&& forall|j: int|
            0 <= j < self.transaction_index@.len() ==> {
                let e = #[trigger] self.transaction_index@[j];
                &&& self.valid_location(e.block as int, e.position as int)
                &&& self.tx_at(e.block as int, e.position as int).signature == e.signature@
            }
        &&& forall|b: int, p: int|
            #[trigger] self.valid_location(b, p) ==> exists|j: int|
                0 <= j < self.transaction_index@.len()
                    && #[trigger] self.transaction_index@[j].block == b
                    && self.transaction_index@[j].position == p
        &&& distinct_signatures(self.committed())
    }

    /// An empty chain.
    pub fn new() -> (r: Self)
        ensures
            r.wf(),
            r.committed().len() == 0,
            r.blocks@.len() == 0,
    {
        let r = Chain { blocks: Vec::new(), open: Vec::new(), transaction_index: Vec::new() };
        assert(r.committed() =~= Seq::<TxView>::empty());
        r
    }

    /// Index position of the committed transaction with signature `sig`.
    fn position_of(&self, sig: &String) -> (r: Option<usize>)
        requires
            self.wf(),
        ensures
            match r {
                Some(j) => j < self.committed().len() && self.committed()[j as int].signature
                    == sig@,
                None => !holds_signature(self.committed(), sig@),
            },
    {
        let mut j: usize = 0;
        while j < self.transaction_index.len()
            invariant
                self.wf(),
                j <= self.transaction_index@.len(),
                forall|k: int| 0 <= k < j ==> #[trigger] self.committed()[k].signature != sig@,
            decreases self.transaction_index@.len() - j,
        {
            let e = &self.transaction_index[j];
            assert(self.committed()[j as int].signature == e.signature@);
            if e.signature == *sig {
                return Some(j);
            }
            j = j + 1;
        }
        None
    }

    /// Whether a transaction with signature `sig` is committed.
    pub fn contains_signature(&self, sig: &String) -> (r: bool)
        requires
            self.wf(),
        ensures
            r == holds_signature(self.committed(), sig@),
    {
        self.position_of(sig).is_some()
    }

    fn tx_ref(&self, b: usize, p: usize) -> (r: &Transaction)
        requires
            self.valid_location(b as int, p as int),
        ensures
            r@ == self.tx_at(b as int, p as int),
    {
        if b < self.blocks.len() {
            &self.blocks[b].transactions[p]
        } else {
            &self.open[p]
        }
    }

    /// The committed transaction with signature `signature`, if any.
    pub fn get_transaction(&self, signature: &String) -> (r: Option<Transaction>)
        requires
            self.wf(),
        ensures
            match r {
                Some(t) => self.committed().contains(t@) && t@.signature == signature@,
                None => !holds_signature(self.committed(), signature@),
            },
    {
        match self.position_of(signature) {
            Some(j) => {
                let e = &self.transaction_index[j];
                let t = self.tx_ref(e.block, e.position).copy();
                assert(self.committed()[j as int] == t@);
                Some(t)
            },
            None => None,
        }
    }

    /// Appends `tx` to the open block and indexes it.
    pub fn commit(&mut self, tx: Transaction)
        requires
            old(self).wf(),
            !holds_signature(old(self).committed(), tx@.signature),
        ensures
            final(self).wf(),
            final(self).committed() == old(self).committed().push(tx@),
            final(self).blocks@ == old(self).blocks@,
    {
        let ghost before = old(self).committed();
        let entry = IndexEntry {
            signature: copy_string(&tx.signature),
            block: self.blocks.len(),
            position: self.open.len(),
        };
        self.open.push(tx);
        self.transaction_index.push(entry);
        proof {
            let o = old(self);
            assert forall|b: int, p: int| #[trigger]
                o.valid_location(b, p) implies self.valid_location(b, p) && self.tx_at(b, p)
                == o.tx_at(b, p) by {}
            assert(self.committed() =~= before.push(tx@)) by {
                assert forall|j: int| 0 <= j < before.len() implies #[trigger] self.committed()[j]
                    == before[j] by {
                    let e = o.transaction_index@[j];
                    assert(o.valid_location(e.block as int, e.position as int));
                }
            }
            assert forall|b: int, p: int| #[trigger]
                self.valid_location(b, p) implies exists|j: int|
                0 <= j < self.transaction_index@.len()
                    && #[trigger] self.transaction_index@[j].block == b
                    && self.transaction_index@[j].position == p by {
                if o.valid_location(b, p) {
                    let j = choose|j: int|
                        0 <= j < o.transaction_index@.len()
                            && #[trigger] o.transaction_index@[j].block == b
                            && o.transaction_index@[j].position == p;
                    assert(self.transaction_index@[j] == o.transaction_index@[j]);
                } else {
                    assert(self.transaction_index@[before.len() as int].block == b);
                }
            }
            assert forall|j: int| 0 <= j < self.transaction_index@.len() implies {
                let e = #[trigger] self.transaction_index@[j];
                &&& self.valid_location(e.block as int, e.position as int)
                &&& self.tx_at(e.block as int, e.position as int).signature == e.signature@
            } by {
                if j < before.len() {
                    assert(self.transaction_index@[j] == o.transaction_index@[j]);
                }
            }
            let c = self.committed();
            assert forall|a: int, b: int|
                0 <= a < c.len() && 0 <= b < c.len() && a != b implies #[trigger] c[a].signature
                != #[trigger] c[b].signature by {
                if a < before.len() && b < before.len() {
                    assert(c[a] == before[a] && c[b] == before[b]);
                } else if a < before.len() {
                    assert(c[a] == before[a]);
                } else if b < before.len() {
                    assert(c[b] == before[b]);
                }
            }
        }
    }

    /// Seals the open block, recording `state_root` as the state after it.
    pub fn append_block(&mut self, state_root: &[u8])
        requires
            old(self).wf(),
        ensures
            final(self).wf(),
            final(self).committed() == old(self).committed(),
            final(self).blocks@.len() == old(self).blocks@.len() + 1,
            final(self).open@.len() == 0,
            final(self).blocks@.last().txs() == tx_views(old(self).open@),
            final(self).blocks@.last().state_root@ == state_root@,
    {
        let parent_root = if self.blocks.len() == 0 {
            Vec::new()
        } else {
            copy_bytes(&self.blocks[self.blocks.len() - 1].state_root)
        };
        let mut txs: Vec<Transaction> = Vec::new();
        std::mem::swap(&mut txs, &mut self.open);
        let block = Block { transactions: txs, parent_root, state_root: copy_bytes(state_root) };
        self.blocks.push(block);
        proof {
            let o = old(self);
            assert forall|b: int, p: int| #[trigger]
                o.valid_location(b, p) <==> self.valid_location(b, p) by {}
            assert forall|b: int, p: int| #[trigger]
                o.valid_location(b, p) implies self.tx_at(b, p) == o.tx_at(b, p) by {}
            assert forall|j: int| 0 <= j < self.transaction_index@.len() implies #[trigger] self.committed()[j]
                == o.committed()[j] by {
                let e = o.transaction_index@[j];
                assert(o.valid_location(e.block as int, e.position as int));
            }
            assert(self.committed() =~= o.committed());
            assert(self.blocks@.last().txs() =~= tx_views(o.open@));
            assert forall|j: int| 0 <= j < self.transaction_index@.len() implies {
                let e = #[trigger] self.transaction_index@[j];
                &&& self.valid_location(e.block as int, e.position as int)
                &&& self.tx_at(e.block as int, e.position as int).signature == e.signature@
            } by {
                let e = o.transaction_index@[j];
                assert(o.valid_location(e.block as int, e.position as int));
            }
            assert forall|b: int, p: int| #[trigger]
                self.valid_location(b, p) implies exists|j: int|
                0 <= j < self.transaction_index@.len()
                    && #[trigger] self.transaction_index@[j].block == b
                    && self.transaction_index@[j].position == p by {
                assert(o.valid_location(b, p));
            }
        }
    }

    /// Signatures of the committed transactions that involve `address`,
    /// newest first, older than the `before` cursor and no older than the
    /// `until` cursor, at most `limit` of them. A cursor that names no
    /// committed transaction is an `InvalidCursor`.
    pub fn get_signatures_for_address(
        &self,
        address: &[u8],
        limit: usize,
        before: Option<String>,
        until: Option<String>,
    ) -> (r: Result<Vec<String>, LedgerError>)
        requires
            self.wf(),
        ensures
            r is Err <==> !cursor_known(self.committed(), opt_view(before)) || !cursor_known(
                self.committed(),
                opt_view(until),
            ),
            r is Err ==> r == Err::<Vec<String>, LedgerError>(LedgerError::InvalidCursor),
            r matches Ok(v) ==> {
                let c = self.committed();
                let ps = matching_positions(
                    c,
                    address@,
                    cursor_hi(c, opt_view(before)),
                    cursor_lo(c, opt_view(until)),
                    limit as nat,
                );
                &&& v@.len() == ps.len()
                &&& forall|i: int| 0 <= i < ps.len() ==> (#[trigger] v@[i])@ == c[ps[i]].signature
            },
    {
        let ghost c = self.committed();
        let hi: usize = match &before {
            Some(s) => match self.position_of(s) {
                Some(j) => j,
                None => {
                    return Err(LedgerError::InvalidCursor);
                },
            },
            None => self.transaction_index.len(),
        };
        let lo: usize = match &until {
            Some(s) => match self.position_of(s) {
                Some(j) => j,
                None => {
                    return Err(LedgerError::InvalidCursor);
                },
            },
            None => 0,
        };
        proof {
            if let Some(s) = opt_view(before) {
                let p = signature_position(c, s);
                assert(c[hi as int].signature == s);
                assert(holds_signature(c, s));
                assert(p == hi) by {
                    if p != hi {
                        assert(c[p].signature != c[hi as int].signature);
                    }
                }
            }
            if let Some(s) = opt_view(until) {
                let p = signature_position(c, s);
                assert(c[lo as int].signature == s);
                assert(holds_signature(c, s));
                assert(p == lo) by {
                    if p != lo {
                        assert(c[p].signature != c[lo as int].signature);
                    }
                }
            }
        }
        let ghost all = matching_positions(c, address@, hi as int, lo as int, limit as nat);
        let ghost mut taken: Seq<int> = Seq::empty();
        let mut out: Vec<String> = Vec::new();
        let mut j: usize = hi;
        while j > lo && out.len() < limit
            invariant
                self.wf(),
                c == self.committed(),
                j <= hi <= c.len(),
                out@.len() == taken.len(),
                out@.len() <= limit,
                all == taken + matching_positions(
                    c,
                    address@,
                    j as int,
                    lo as int,
                    (limit - out@.len()) as nat,
                ),
                forall|i: int| 0 <= i < taken.len() ==> (#[trigger] out@[i])@ == c[taken[i]].signature,
                forall|i: int| 0 <= i < taken.len() ==> 0 <= #[trigger] taken[i] < c.len(),
            decreases j,
        {
            let e = &self.transaction_index[j - 1];
            let t = self.tx_ref(e.block, e.position);
            assert(c[j - 1] == t@);
            if t.involves_address(address) {
                proof {
                    assert(taken.push(j - 1) + matching_positions(
                        c,
                        address@,
                        j - 1,
                        lo as int,
                        (limit - out@.len() - 1) as nat,
                    ) =~= taken + (seq![j - 1] + matching_positions(
                        c,
                        address@,
                        j - 1,
                        lo as int,
                        (limit - out@.len() - 1) as nat,
                    )));
                    taken = taken.push(j - 1);
                }
                out.push(copy_string(&t.signature));
            }
            j = j - 1;
        }
        assert(all =~= taken);
        Ok(out)
    }

    /// The sealed block at `position`, if any.
    pub fn get_block(&self, position: usize) -> (r: Option<Block>)
        ensures
            match r {
                Some(b) => position < self.blocks@.len() && b.txs() == self.blocks@[position as int].txs()
                    && b.state_root@ == self.blocks@[position as int].state_root@
                    && b.parent_root@ == self.blocks@[position as int].parent_root@,
                None => position >= self.blocks@.len(),
            },
    {
        if position < self.blocks.len() {
            Some(self.blocks[position].copy())
        } else {
            None
        }
    }
}

/// Index positions, newest first, of the transactions at positions in
/// `[lo, hi)` that involve `address`, at most `limit` of them.
pub open spec fn matching_positions(
    c: Seq<TxView>,
    address: Seq<u8>,
    hi: int,
    lo: int,
    limit: nat,
) -> Seq<int>
    decreases hi - lo,
{
    if hi <= lo || limit == 0 {
        Seq::empty()
    } else if involves(c[hi - 1], address) {
        seq![hi - 1] + matching_positions(c, address, hi - 1, lo, (limit - 1) as nat)
    } else {
        matching_positions(c, address, hi - 1, lo, limit)
    }
}

/// Index position of the committed transaction with signature `sig`.
pub open spec fn signature_position(c: Seq<TxView>, sig: Seq<char>) -> int {
    choose|i: int| 0 <= i < c.len() && #[trigger] c[i].signature == sig
}

/// Exclusive upper end of a listing: the `before` cursor, else the newest.
pub open spec fn cursor_hi(c: Seq<TxView>, before: Option<Seq<char>>) -> int {
    match before {
        Some(s) => signature_position(c, s),
        None => c.len() as int,
    }
}

/// Inclusive lower end of a listing: the `until` cursor, else the oldest.
pub open spec fn cursor_lo(c: Seq<TxView>, until: Option<Seq<char>>) -> int {
    match until {
        Some(s) => signature_position(c, s),
        None => 0,
    }
}

pub open spec fn cursor_known(c: Seq<TxView>, cursor: Option<Seq<char>>) -> bool {
    match cursor {
        Some(s) => holds_signature(c, s),
        None => true,
    }
}

pub open spec fn opt_view(o: Option<String>) -> Option<Seq<char>> {
    match o {
        Some(s) => Some(s@),
        None => None,
    }
}

/// Listings run newest first: the positions they return strictly
/// decrease, lie in `[lo, hi)`, involve the address, and number at most
/// `limit`.
pub proof fn law_signatures_newest_first(
    c: Seq<TxView>,
    address: Seq<u8>,
    hi: int,
    lo: int,
    limit: nat,
)
    requires
        hi <= c.len(),
        0 <= lo,
    ensures
        matching_positions(c, address, hi, lo, limit).len() <= limit,
        forall|i: int, j: int|
            0 <= i < j < matching_positions(c, address, hi, lo, limit).len() ==> #[trigger] matching_positions(
                c,
                address,
                hi,
                lo,
                limit,
            )[i] > #[trigger] matching_positions(c, address, hi, lo, limit)[j],
        forall|i: int|
            0 <= i < matching_positions(c, address, hi, lo, limit).len() ==> {
                let p = #[trigger] matching_positions(c, address, hi, lo, limit)[i];
                lo <= p < hi && involves(c[p], address)
            },
    decreases hi - lo,
{
    if hi <= lo || limit == 0 {
    } else if involves(c[hi - 1], address) {
        law_signatures_newest_first(c, address, hi - 1, lo, (limit - 1) as nat);
        let rest = matching_positions(c, address, hi - 1, lo, (limit - 1) as nat);
        let all = matching_positions(c, address, hi, lo, limit);
        assert(all == seq![hi - 1] + rest);
        assert forall|i: int| 0 < i < all.len() implies #[trigger] all[i] == rest[i - 1] by {}
    } else {
        law_signatures_newest_first(c, address, hi - 1, lo, limit);
    }
}

} // verus!
