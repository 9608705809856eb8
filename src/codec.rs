//! Binary form of a transaction.
//!
//! Fields in order: signature (UTF-8), sender, recipient, amount, payload,
//! gas limit. A byte string is written as its length in eight big-endian
//! bytes followed by its bytes; a number as eight big-endian bytes; the
//! recipient as a tag byte, 0 for none and 1 followed by the address.
use vstd::prelude::*;
use vstd::string::StringSliceAdditionalSpecFns;
use vstd::utf8::{decode_utf8, encode_utf8, valid_utf8};

use crate::bytes::{be_to_u64, be_u64_at, lemma_be_round_trip, u64_be, u64_to_be};
use crate::chain::{Transaction, TxView};
use crate::error::LedgerError;

verus! {

/// A byte string preceded by its length.
pub open spec fn framed(s: Seq<u8>) -> Seq<u8> {
    u64_be(s.len() as u64) + s
}

pub open spec fn recipient_part(r: Option<Seq<u8>>) -> Seq<u8> {
    match r {
        None => seq![0u8],
        Some(a) => seq![1u8] + framed(a),
    }
}

/// The binary form of a transaction.
pub open spec fn encode_tx(t: TxView) -> Seq<u8> {
    framed(encode_utf8(t.signature)) + framed(t.sender) + recipient_part(t.recipient) + u64_be(
        t.amount,
    ) + framed(t.payload) + u64_be(t.gas_limit)
}

/// The length-prefixed byte string at `at` and the position after it.
pub open spec fn field_at(b: Seq<u8>, at: int) -> Option<(Seq<u8>, int)> {
    if at < 0 || at + 8 > b.len() {
        None
    } else {
        let n = be_u64_at(b, at) as int;
        if at + 8 + n > b.len() {
            None
        } else {
            Some((b.subrange(at + 8, at + 8 + n), at + 8 + n))
        }
    }
}

/// The recipient at `at` and the position after it.
pub open spec fn recipient_at(b: Seq<u8>, at: int) -> Option<(Option<Seq<u8>>, int)> {
    if at < 0 || at >= b.len() {
        None
    } else if b[at] == 0 {
        Some((None, at + 1))
    } else if b[at] == 1 {
        match field_at(b, at + 1) {
            Some((a, next)) => Some((Some(a), next)),
            None => None,
        }
    } else {
        None
    }
}

/// The transaction a byte string holds, if it is one binary form exactly.
pub open spec fn decode_tx(b: Seq<u8>) -> Option<TxView> {
    match field_at(b, 0) {
        None => None,
        Some((sig, p1)) => if !valid_utf8(sig) {
            None
        } else {
            match field_at(b, p1) {
                None => None,
                Some((sender, p2)) => match recipient_at(b, p2) {
                    None => None,
                    Some((recipient, p3)) => if p3 + 8 > b.len() {
                        None
                    } else {
                        match field_at(b, p3 + 8) {
                            None => None,
                            Some((payload, p4)) => if p4 + 8 != b.len() {
                                None
                            } else {
                                Some(
                                    TxView {
                                        signature: decode_utf8(sig),
                                        sender,
                                        recipient,
                                        amount: be_u64_at(b, p3),
                                        payload,
                                        gas_limit: be_u64_at(b, p4),
                                    },
                                )
                            },
                        }
                    },
                },
            }
        },
    }
}

/// Every field fits a 64-bit length.
pub open spec fn encodable(t: TxView) -> bool {
    &&& encode_utf8(t.signature).len() <= u64::MAX
    &&& t.sender.len() <= u64::MAX
    &&& match t.recipient {
        Some(a) => a.len() <= u64::MAX,
        None => true,
    }
    &&& t.payload.len() <= u64::MAX
}

proof fn lemma_word_in(b: Seq<u8>, at: int, n: u64)
    requires
        0 <= at,
        at + 8 <= b.len(),
        b.subrange(at, at + 8) == u64_be(n),
    ensures
        be_u64_at(b, at) == n,
{
    let w = u64_be(n);
    assert forall|k: int| 0 <= k < 8 implies b[at + k] == #[trigger] w[k] by {
        assert(b.subrange(at, at + 8)[k] == b[at + k]);
    }
    assert(b[at] == w[0] && b[at + 1] == w[1] && b[at + 2] == w[2] && b[at + 3] == w[3]);
    assert(b[at + 4] == w[4] && b[at + 5] == w[5] && b[at + 6] == w[6] && b[at + 7] == w[7]);
    lemma_be_round_trip(n);
}

proof fn lemma_field_in(b: Seq<u8>, at: int, s: Seq<u8>)
    requires
        0 <= at,
        s.len() <= u64::MAX,
        at + 8 + s.len() <= b.len(),
        b.subrange(at, at + 8 + s.len()) == framed(s),
    ensures
        field_at(b, at) == Some((s, at + 8 + s.len())),
{
    let f = framed(s);
    assert forall|k: int| 0 <= k < f.len() implies b[at + k] == #[trigger] f[k] by {
        assert(b.subrange(at, at + 8 + s.len())[k] == b[at + k]);
    }
    assert(b.subrange(at, at + 8) =~= u64_be(s.len() as u64)) by {
        assert forall|k: int| 0 <= k < 8 implies #[trigger] b.subrange(at, at + 8)[k] == u64_be(
            s.len() as u64,
        )[k] by {
            assert(f[k] == u64_be(s.len() as u64)[k]);
        }
    }
    lemma_word_in(b, at, s.len() as u64);
    assert(b.subrange(at + 8, at + 8 + s.len()) =~= s) by {
        assert forall|k: int| 0 <= k < s.len() implies #[trigger] b.subrange(
            at + 8,
            at + 8 + s.len(),
        )[k] == s[k] by {
            assert(f[8 + k] == s[k]);
        }
    }
}

/// Decoding the binary form of a transaction gives the transaction back.
#[verifier::rlimit(50)]
pub proof fn law_transaction_bytes_round_trip(t: TxView)
    requires
        encodable(t),
    ensures
        decode_tx(encode_tx(t)) == Some(t),
{
    let sb = encode_utf8(t.signature);
    let f1 = framed(sb);
    let f2 = framed(t.sender);
    let rp = recipient_part(t.recipient);
    let a = u64_be(t.amount);
    let f3 = framed(t.payload);
    let g = u64_be(t.gas_limit);
    let b = encode_tx(t);
    let o1 = f1.len() as int;
    let o2 = o1 + f2.len();
    let o3 = o2 + rp.len();
    let o4 = o3 + 8;
    let o5 = o4 + f3.len();
    assert(b == f1 + f2 + rp + a + f3 + g);
    assert(b.len() == o5 + 8);
    assert(b.subrange(0, o1) =~= f1);
    lemma_field_in(b, 0, sb);
    vstd::utf8::encode_utf8_valid_utf8(t.signature);
    vstd::utf8::encode_utf8_decode_utf8(t.signature);
    assert(b.subrange(o1, o2) =~= f2);
    lemma_field_in(b, o1, t.sender);
    assert(b[o2] == rp[0]);
    match t.recipient {
        None => {},
        Some(addr) => {
            assert(b.subrange(o2 + 1, o3) =~= framed(addr));
            lemma_field_in(b, o2 + 1, addr);
        },
    }
    assert(recipient_at(b, o2) == Some((t.recipient, o3)));
    assert(b.subrange(o3, o4) =~= a);
    lemma_word_in(b, o3, t.amount);
    assert(b.subrange(o4, o5) =~= f3);
    lemma_field_in(b, o4, t.payload);
    assert(b.subrange(o5, o5 + 8) =~= g);
    lemma_word_in(b, o5, t.gas_limit);
}

fn copy_range(b: &[u8], start: usize, end: usize) -> (r: Vec<u8>)
    requires
        start <= end <= b@.len(),
    ensures
        r@ == b@.subrange(start as int, end as int),
{
    let mut r: Vec<u8> = Vec::new();
    let mut i: usize = start;
    while i < end
        invariant
            start <= i <= end <= b@.len(),
            r@ == b@.subrange(start as int, i as int),
        decreases end - i,
    {
        r.push(b[i]);
        assert(b@.subrange(start as int, i + 1) =~= b@.subrange(start as int, i as int).push(
            b@[i as int],
        ));
        i = i + 1;
    }
    r
}

fn push_bytes(out: &mut Vec<u8>, s: &[u8])
    ensures
        final(out)@ == old(out)@ + s@,
{
    let mut i: usize = 0;
    while i < s.len()
        invariant
            i <= s@.len(),
            out@ == old(out)@ + s@.subrange(0, i as int),
        decreases s@.len() - i,
    {
        out.push(s[i]);
        assert(s@.subrange(0, i + 1) =~= s@.subrange(0, i as int).push(s@[i as int]));
        i = i + 1;
    }
    assert(s@.subrange(0, i as int) =~= s@);
}

fn push_framed(out: &mut Vec<u8>, s: &[u8])
    ensures
        final(out)@ == old(out)@ + framed(s@),
{
    let len = u64_to_be(s.len() as u64);
    push_bytes(out, &len);
    push_bytes(out, s);
    assert(old(out)@ + len@ + s@ =~= old(out)@ + framed(s@));
}

fn read_field(b: &[u8], at: usize) -> (r: Option<(Vec<u8>, usize)>)
    ensures
        match field_at(b@, at as int) {
            Some((f, next)) => r matches Some((v, m)) && v@ == f && m == next,
            None => r is None,
        },
{
    if at > b.len() || b.len() - at < 8 {
        return None;
    }
    let n = be_to_u64(b, at);
    if n > (b.len() - at - 8) as u64 {
        return None;
    }
    let end = at + 8 + n as usize;
    Some((copy_range(b, at + 8, end), end))
}

/// Relies on `String::from_utf8`: it succeeds exactly on valid UTF-8 and
/// yields the characters the bytes encode.
#[verifier::external_body]
fn string_from_utf8(bytes: Vec<u8>) -> (r: Option<String>)
    ensures
        r is Some <==> valid_utf8(bytes@),
        r matches Some(s) ==> s@ == decode_utf8(bytes@),
{
    String::from_utf8(bytes).ok()
}

impl Transaction {
    /// The binary form of this transaction.
    pub fn to_bytes(&self) -> (r: Vec<u8>)
        ensures
            r@ == encode_tx(self@),
    {
        let mut out: Vec<u8> = Vec::new();
        push_framed(&mut out, self.signature.as_str().as_bytes());
        push_framed(&mut out, &self.sender);
        match &self.recipient {
            None => out.push(0u8),
            Some(a) => {
                out.push(1u8);
                push_framed(&mut out, a);
            },
        }
        let amount = u64_to_be(self.amount);
        push_bytes(&mut out, &amount);
        push_framed(&mut out, &self.payload);
        let gas = u64_to_be(self.gas_limit);
        push_bytes(&mut out, &gas);
        proof {
            let t = self@;
            assert(out@ =~= encode_tx(t));
        }
        out
    }

    /// The transaction whose binary form `bytes` is; anything else is a
    /// `MalformedTransaction`.
    pub fn from_bytes(bytes: &[u8]) -> (r: Result<Transaction, LedgerError>)
        ensures
            match decode_tx(bytes@) {
                Some(t) => r matches Ok(x) && x@ == t,
                None => r matches Err(e) && e == LedgerError::MalformedTransaction,
            },
    {
        let (sig, p1) = match read_field(bytes, 0) {
            Some(f) => f,
            None => {
                return Err(LedgerError::MalformedTransaction);
            },
        };
        let signature = match string_from_utf8(sig) {
            Some(s) => s,
            None => {
                return Err(LedgerError::MalformedTransaction);
            },
        };
        let (sender, p2) = match read_field(bytes, p1) {
            Some(f) => f,
            None => {
                return Err(LedgerError::MalformedTransaction);
            },
        };
        if p2 >= bytes.len() {
            return Err(LedgerError::MalformedTransaction);
        }
        let (recipient, p3) = if bytes[p2] == 0 {
            (None, p2 + 1)
        } else if bytes[p2] == 1 {
            match read_field(bytes, p2 + 1) {
                Some((a, next)) => (Some(a), next),
                None => {
                    return Err(LedgerError::MalformedTransaction);
                },
            }
        } else {
            return Err(LedgerError::MalformedTransaction);
        };
        if bytes.len() - p3 < 8 {
            return Err(LedgerError::MalformedTransaction);
        }
        let amount = be_to_u64(bytes, p3);
        let (payload, p4) = match read_field(bytes, p3 + 8) {
            Some(f) => f,
            None => {
                return Err(LedgerError::MalformedTransaction);
            },
        };
        if bytes.len() - p4 != 8 {
            return Err(LedgerError::MalformedTransaction);
        }
        let gas_limit = be_to_u64(bytes, p4);
        let t = Transaction { signature, sender, recipient, amount, payload, gas_limit };
        proof {
            assert(recipient_at(bytes@, p2 as int) == Some((t@.recipient, p3 as int)));
        }
        Ok(t)
    }
}

} // verus!
