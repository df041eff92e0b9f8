//! The identifier space: 32-byte public identifiers, their equality and their
//! lexicographic order. Signing identities and derived record addresses both
//! live in this one space.

use vstd::prelude::*;

verus! {

/// Number of bytes in an identifier.
pub const IDENTITY_LEN: usize = 32;

/// A 32-byte public identifier. No further structure is assumed: the system
/// only compares identifiers for equality and for lexicographic order.
pub struct Identity {
    pub bytes: Vec<u8>,
}

impl View for Identity {
    type V = Seq<u8>;

    open spec fn view(&self) -> Seq<u8> {
        self.bytes@
    }
}

/// Lexicographic "greater than" on two byte strings of equal length: the
/// first position where they differ decides.
pub open spec fn lex_gt(a: Seq<u8>, b: Seq<u8>) -> bool
    decreases a.len(),
{
    if a.len() == 0 || b.len() == 0 {
        false
    } else if a[0] != b[0] {
        a[0] > b[0]
    } else {
        lex_gt(a.skip(1), b.skip(1))
    }
}

/// Two equal-length byte strings cannot each be greater than the other.
pub proof fn lemma_lex_gt_asymmetric(a: Seq<u8>, b: Seq<u8>)
    requires
        a.len() == b.len(),
    ensures
        !(lex_gt(a, b) && lex_gt(b, a)),
    decreases a.len(),
{
    if a.len() > 0 && a[0] == b[0] {
        lemma_lex_gt_asymmetric(a.skip(1), b.skip(1));
    }
}

/// Two distinct equal-length byte strings are ordered one way or the other.
pub proof fn lemma_lex_gt_total(a: Seq<u8>, b: Seq<u8>)
    requires
        a.len() == b.len(),
        a != b,
    ensures
        lex_gt(a, b) || lex_gt(b, a),
    decreases a.len(),
{
    if a.len() == 0 {
        assert(a =~= b);
    } else if a[0] == b[0] {
        if a.skip(1) == b.skip(1) {
            assert forall|i: int| 0 <= i < a.len() implies a[i] == b[i] by {
                if i >= 1 {
                    assert(a.skip(1)[i - 1] == a[i]);
                    assert(b.skip(1)[i - 1] == b[i]);
                }
            }
            assert(a =~= b);
        }
        lemma_lex_gt_total(a.skip(1), b.skip(1));
    }
}

/// Copy a byte vector element by element.
pub(crate) fn copy_bytes(v: &Vec<u8>) -> (r: Vec<u8>)
    ensures
        r@ == v@,
{
    let mut r: Vec<u8> = Vec::new();
    let mut i: usize = 0;
    while i < v.len()
        invariant
            i <= v.len(),
            r@ == v@.subrange(0, i as int),
        decreases v.len() - i,
    {
        r.push(v[i]);
        i += 1;
        proof {
            assert(r@ =~= v@.subrange(0, i as int));
        }
    }
    proof {
        assert(r@ =~= v@);
    }
    r
}

impl Clone for Identity {
    fn clone(&self) -> (r: Self)
        ensures
            r@ == self@,
    {
        Identity { bytes: copy_bytes(&self.bytes) }
    }
}

impl Identity {
    /// Every identifier is exactly 32 bytes.
    pub open spec fn wf(&self) -> bool {
        self@.len() == IDENTITY_LEN
    }

    /// Equality of identifiers: byte-for-byte.
    pub fn same(&self, other: &Identity) -> (r: bool)
        ensures
            r == (self@ == other@),
    {
        if self.bytes.len() != other.bytes.len() {
            return false;
        }
        let n = self.bytes.len();
        let mut i: usize = 0;
        while i < n
            invariant
                n == self@.len() == other@.len(),
                i <= n,
                forall|j: int| 0 <= j < i ==> self@[j] == other@[j],
            decreases n - i,
        {
            if self.bytes[i] != other.bytes[i] {
                return false;
            }
            i += 1;
        }
        proof {
            assert(self@ =~= other@);
        }
        true
    }

    /// Lexicographic order of identifiers, the tie-break that canonicalizes
    /// an unordered pair into a single addressing order.
    pub fn gt(&self, other: &Identity) -> (r: bool)
        requires
            self.wf(),
            other.wf(),
        ensures
            r == lex_gt(self@, other@),
    {
        let n = self.bytes.len();
        let mut i: usize = 0;
        proof {
            assert(self@.skip(0) =~= self@);
            assert(other@.skip(0) =~= other@);
        }
        while i < n
            invariant
                self.wf(),
                other.wf(),
                n == self@.len(),
                i <= n,
                lex_gt(self@, other@) == lex_gt(self@.skip(i as int), other@.skip(i as int)),
            decreases n - i,
    {
            let a = self.bytes[i];
            let b = other.bytes[i];
            proof {
                assert(self@.skip(i as int)[0] == self@[i as int]);
                assert(other@.skip(i as int)[0] == other@[i as int]);
            }
            if a != b {
                return a > b;
            }
            proof {
                assert(self@.skip(i as int).skip(1) =~= self@.skip(i + 1));
                assert(other@.skip(i as int).skip(1) =~= other@.skip(i + 1));
            }
            i += 1;
        }
        proof {
            assert(self@.skip(i as int).len() == 0);
        }
        false
    }
}

} // verus!
