//! Public keys and the peer ids derived from them.

use vstd::prelude::*;

verus! {

/// A public key of the box (encryption) scheme: 32 bytes.
#[derive(Clone, Copy, Debug)]
pub struct PublicKey(pub [u8; 32]);

/// The id of a peer: its public key.
#[derive(Clone, Copy, Debug)]
pub struct PeerId(pub PublicKey);

/// The id of the peer that holds `key`.
pub fn new_id(key: PublicKey) -> (id: PeerId)
    ensures
        id == PeerId(key),
{
    PeerId(key)
}

/// Whether `a` comes after `b` in lexicographic byte order.
pub open spec fn bytes_greater(a: Seq<u8>, b: Seq<u8>) -> bool
    decreases a.len(),
{
    if a.len() == 0 {
        false
    } else if b.len() == 0 {
        true
    } else if a[0] != b[0] {
        a[0] > b[0]
    } else {
        bytes_greater(a.drop_first(), b.drop_first())
    }
}

impl PeerId {
    /// The key bytes of the id.
    pub open spec fn bytes(self) -> Seq<u8> {
        self.0.0@
    }

    /// Whether this id comes after `other` in the order of ids (lexicographic on the key bytes).
    pub fn greater_than(&self, other: &PeerId) -> (r: bool)
        ensures
            r == bytes_greater(self.bytes(), other.bytes()),
    {
        let a = &self.0.0;
        let b = &other.0.0;
        let mut i: usize = 0;
        proof {
            assert(a@.skip(0) =~= a@);
            assert(b@.skip(0) =~= b@);
        }
        while i < 32
            invariant
                0 <= i <= 32,
                a@ == self.bytes(),
                b@ == other.bytes(),
                a@.len() == 32,
                b@.len() == 32,
                bytes_greater(a@, b@) == bytes_greater(a@.skip(i as int), b@.skip(i as int)),
            decreases 32 - i,
        {
            proof {
                assert(a@.skip(i as int).drop_first() =~= a@.skip(i + 1));
                assert(b@.skip(i as int).drop_first() =~= b@.skip(i + 1));
                assert(a@.skip(i as int)[0] == a@[i as int]);
                assert(b@.skip(i as int)[0] == b@[i as int]);
            }
            let x = a[i];
            let y = b[i];
            if x != y {
                proof {
                    assert(x == a@[i as int] && y == b@[i as int]);
                    assert(a@.skip(i as int).len() > 0 && b@.skip(i as int).len() > 0);
                    assert(bytes_greater(a@.skip(i as int), b@.skip(i as int)) == (a@[i as int]
                        > b@[i as int]));
                }
                return x > y;
            }
            i = i + 1;
        }
        proof {
            assert(a@.skip(32) =~= Seq::<u8>::empty());
        }
        false
    }

    /// Whether this id and `other` hold the same key.
    pub fn same_as(&self, other: &PeerId) -> (r: bool)
        ensures
            r == (self.bytes() == other.bytes()),
    {
        let a = &self.0.0;
        let b = &other.0.0;
        let mut i: usize = 0;
        while i < 32
            invariant
                0 <= i <= 32,
                a@ == self.bytes(),
                b@ == other.bytes(),
                a@.len() == 32,
                b@.len() == 32,
                forall|j: int| 0 <= j < i ==> a@[j] == b@[j],
            decreases 32 - i,
        {
            if a[i] != b[i] {
                return false;
            }
            i = i + 1;
        }
        proof {
            assert(a@ =~= b@);
        }
        true
    }
}

} // verus!
