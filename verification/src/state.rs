//! The accounts that the AMM keeps: the AMM itself and its pools, and the
//! 32-byte keys that name accounts.
use vstd::prelude::*;

verus! {

/// A 32-byte account key.
#[derive(Clone, Copy, Debug, PartialEq, Eq)]
pub struct Pubkey {
    pub bytes: [u8; 32],
}

/// Lexicographic order on byte strings of one length: `a` comes first when,
/// at the first position where they differ, its byte is smaller.
pub open spec fn bytes_lt(a: Seq<u8>, b: Seq<u8>) -> bool {
    exists|i: int|
        0 <= i < a.len() && #[trigger] a[i] < b[i] && (forall|j: int| 0 <= j < i ==> a[j] == b[j])
}

/// Keys are ordered by their first differing byte, the two bytes compared
/// as unsigned values from 0 to 255: the key with the smaller byte there
/// orders strictly before the other, and not the other way round.
pub proof fn lemma_key_order_at_first_difference(a: Seq<u8>, b: Seq<u8>, i: int)
    requires
        a.len() == b.len(),
        0 <= i < a.len(),
        forall|j: int| 0 <= j < i ==> a[j] == b[j],
        a[i] != b[i],
    ensures
        bytes_lt(a, b) <==> (a[i] as int) < (b[i] as int),
        bytes_lt(b, a) <==> (b[i] as int) < (a[i] as int),
{
    if bytes_lt(a, b) {
        let k = choose|k: int|
            0 <= k < a.len() && #[trigger] a[k] < b[k] && (forall|j: int| 0 <= j < k ==> a[j] == b[j]);
        if k < i {
            assert(a[k] == b[k]);
        } else if k > i {
            assert(a[i] == b[i]);
        }
    }
    if bytes_lt(b, a) {
        let k = choose|k: int|
            0 <= k < b.len() && #[trigger] b[k] < a[k] && (forall|j: int| 0 <= j < k ==> b[j] == a[j]);
        if k < i {
            assert(a[k] == b[k]);
        } else if k > i {
            assert(a[i] == b[i]);
        }
    }
    if (a[i] as int) < (b[i] as int) {
        assert(0 <= i < a.len() && a[i] < b[i] && (forall|j: int| 0 <= j < i ==> a[j] == b[j]));
    }
    if (b[i] as int) < (a[i] as int) {
        assert(0 <= i < b.len() && b[i] < a[i] && (forall|j: int| 0 <= j < i ==> b[j] == a[j]));
    }
}

/// No key orders strictly before itself.
pub proof fn lemma_key_order_irreflexive(a: Seq<u8>)
    ensures
        !bytes_lt(a, a),
{
}

/// Whether the key bytes `a` order strictly before `b`, lexicographically.
fn bytes_lt_exec(a: &[u8; 32], b: &[u8; 32]) -> (r: bool)
    ensures
        r == bytes_lt(a@, b@),
{
    let mut i: usize = 0;
    while i < 32
        invariant
            0 <= i <= 32,
            a@.len() == 32,
            b@.len() == 32,
            forall|j: int| 0 <= j < i ==> a@[j] == b@[j],
        decreases 32 - i,
    {
        let x = a[i];
        let y = b[i];
        if x != y {
            proof {
                assert(x == a@[i as int] && y == b@[i as int]);
                lemma_key_order_at_first_difference(a@, b@, i as int);
            }
            return x < y;
        }
        i = i + 1;
    }
    proof {
        assert(a@ == b@);
        lemma_key_order_irreflexive(a@);
    }
    false
}

impl Pubkey {
    /// Whether `self` orders strictly before `other`, comparing the key bytes
    /// lexicographically as unsigned values: at the first byte where the keys
    /// differ, the smaller byte orders first; equal keys do not order.
    pub fn lt(&self, other: &Pubkey) -> (r: bool)
        ensures
            r == bytes_lt(self.bytes@, other.bytes@),
            forall|i: int|
                0 <= i < 32 && #[trigger] self.bytes@[i] != other.bytes@[i]
                    && (forall|j: int| 0 <= j < i ==> self.bytes@[j] == other.bytes@[j])
                    ==> (r <==> (self.bytes@[i] as int) < (other.bytes@[i] as int)),
            self.bytes@ == other.bytes@ ==> !r,
    {
        let r = bytes_lt_exec(&self.bytes, &other.bytes);
        proof {
            assert forall|i: int|
                0 <= i < 32 && #[trigger] self.bytes@[i] != other.bytes@[i]
                    && (forall|j: int| 0 <= j < i ==> self.bytes@[j] == other.bytes@[j])
                    implies (r <==> (self.bytes@[i] as int) < (other.bytes@[i] as int)) by {
                lemma_key_order_at_first_difference(self.bytes@, other.bytes@, i);
            }
            lemma_key_order_irreflexive(self.bytes@);
        }
        r
    }
}

/// An AMM: its identifier, the key of its admin, and the fee that its
/// pools charge on swaps.
#[derive(Clone, Copy, Debug, PartialEq, Eq)]
pub struct Amm {
    pub id: Pubkey,
    pub admin: Pubkey,
    pub fee: u16,
}

/// A pool of an AMM, trading the tokens of two mints.
#[derive(Clone, Copy, Debug, PartialEq, Eq)]
pub struct Pool {
    pub amm: Pubkey,
    pub mint_a: Pubkey,
    pub mint_b: Pubkey,
}

} // verus!
