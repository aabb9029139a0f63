//! Fixed-width digests and their byte-lexicographic order.

use vstd::prelude::*;

verus! {

/// A 32-byte cryptographic digest: a hashed account key or a state root.
#[derive(Clone, Copy, Debug, Eq, Hash)]
pub struct Digest {
    pub bytes: [u8; 32],
}

impl View for Digest {
    type V = Seq<u8>;

    open spec fn view(&self) -> Seq<u8> {
        self.bytes@
    }
}

impl PartialEq for Digest {
    /// Whether the two digests hold the same bytes.
    fn eq(&self, other: &Digest) -> (b: bool) {
        let mut i: usize = 0;
        while i < 32
            invariant
                i <= 32,
                self@.take(i as int) == other@.take(i as int),
            decreases 32 - i,
        {
            if self.bytes[i] != other.bytes[i] {
                return false;
            }
            assert(self@.take(i + 1) == self@.take(i as int).push(self@[i as int]));
            assert(other@.take(i + 1) == other@.take(i as int).push(other@[i as int]));
            i += 1;
        }
        assert(self@ == self@.take(32));
        assert(other@ == other@.take(32));
        assert(self.bytes =~= other.bytes);
        true
    }
}

impl vstd::std_specs::cmp::PartialEqSpecImpl for Digest {
    open spec fn obeys_eq_spec() -> bool {
        true
    }

    open spec fn eq_spec(&self, other: &Digest) -> bool {
        *self == *other
    }
}

impl Digest {
    /// The strict byte-lexicographic order: `self` comes before `other` when,
    /// at the first byte where the two differ, `self` holds the smaller one.
    pub open spec fn precedes(self, other: Digest) -> bool {
        exists|i: int|
            0 <= i < 32 && #[trigger] self@[i] < other@[i] && self@.take(i) == other@.take(i)
    }

    /// `self` comes before `other` or is the same digest.
    pub open spec fn at_most(self, other: Digest) -> bool {
        self == other || self.precedes(other)
    }

    /// The digest with these bytes.
    pub fn new(bytes: [u8; 32]) -> (d: Digest)
        ensures
            d.bytes == bytes,
    {
        Digest { bytes }
    }

    /// Whether `self` comes strictly before `other`.
    pub fn lt(&self, other: &Digest) -> (b: bool)
        ensures
            b == self.precedes(*other),
    {
        let mut i: usize = 0;
        while i < 32
            invariant
                i <= 32,
                self@.take(i as int) == other@.take(i as int),
            decreases 32 - i,
        {
            let x: u8 = self.bytes[i];
            let y: u8 = other.bytes[i];
            if x != y {
                proof {
                    lemma_first_difference(*self, *other, i as int);
                }
                return x < y;
            }
            assert(self@.take(i + 1) == self@.take(i as int).push(self@[i as int]));
            assert(other@.take(i + 1) == other@.take(i as int).push(other@[i as int]));
            i += 1;
        }
        proof {
            assert(self@ == self@.take(32));
            assert(other@ == other@.take(32));
            lemma_no_difference(*self, *other);
        }
        false
    }
}

/// Two digests that agree before `i` and differ at `i` are ordered by their
/// bytes at `i`.
proof fn lemma_first_difference(a: Digest, b: Digest, i: int)
    requires
        0 <= i < 32,
        a@.take(i) == b@.take(i),
        a@[i] != b@[i],
    ensures
        a.precedes(b) == (a@[i] < b@[i]),
        b.precedes(a) == (b@[i] < a@[i]),
        a != b,
{
    assert forall|k: int| 0 <= k < 32 && a@.take(k) == b@.take(k) && a@[k] != b@[k] implies k
        == i by {
        if k < i {
            assert(a@[k] == a@.take(i)[k]);
            assert(b@[k] == b@.take(i)[k]);
        } else if i < k {
            assert(a@[i] == a@.take(k)[i]);
            assert(b@[i] == b@.take(k)[i]);
        }
    }
    assert(b@.take(i) == a@.take(i));
}

/// Digests with the same bytes are not ordered either way.
proof fn lemma_no_difference(a: Digest, b: Digest)
    requires
        a@ == b@,
    ensures
        !a.precedes(b),
        !b.precedes(a),
        a == b,
{
    assert(a.bytes =~= b.bytes);
}

/// No digest comes before itself.
pub proof fn order_is_irreflexive(a: Digest)
    ensures
        !a.precedes(a),
{
}

/// Of two digests exactly one holds: the first comes before the second, the
/// two are the same, or the second comes before the first.
pub proof fn order_is_total(a: Digest, b: Digest)
    ensures
        a.precedes(b) || a == b || b.precedes(a),
        !(a.precedes(b) && b.precedes(a)),
        a == b ==> !a.precedes(b) && !b.precedes(a),
{
    assert(a@.take(0) =~= b@.take(0));
    lemma_ordered_from(a, b, 0);
}

/// `at_most` is the order with equality let in: it holds exactly when the
/// second digest does not come before the first, and it is transitive.
pub proof fn at_most_is_an_order(a: Digest, b: Digest, c: Digest)
    ensures
        a.at_most(b) <==> !b.precedes(a),
        a.at_most(b) && b.at_most(c) ==> a.at_most(c),
        a.at_most(b) && b.at_most(a) ==> a == b,
{
    order_is_total(a, b);
    if a.precedes(b) && b.precedes(c) {
        order_is_transitive(a, b, c);
    }
}

/// The order is transitive.
pub proof fn order_is_transitive(a: Digest, b: Digest, c: Digest)
    requires
        a.precedes(b),
        b.precedes(c),
    ensures
        a.precedes(c),
{
    let i = choose|i: int|
        0 <= i < 32 && #[trigger] a@[i] < b@[i] && a@.take(i) == b@.take(i);
    let j = choose|j: int|
        0 <= j < 32 && #[trigger] b@[j] < c@[j] && b@.take(j) == c@.take(j);
    let k = if i <= j { i } else { j };
    assert(a@.take(k) =~= a@.take(i).take(k));
    assert(b@.take(k) =~= b@.take(i).take(k));
    assert(b@.take(k) =~= b@.take(j).take(k));
    assert(c@.take(k) =~= c@.take(j).take(k));
    if i < j {
        assert(b@[i] == b@.take(j)[i]);
        assert(c@[i] == c@.take(j)[i]);
    } else if j < i {
        assert(a@[j] == a@.take(i)[j]);
        assert(b@[j] == b@.take(i)[j]);
    }
    assert(a@[k] < c@[k]);
}

/// Walks the two digests from byte `k` on, up to their first difference.
proof fn lemma_ordered_from(a: Digest, b: Digest, k: int)
    requires
        0 <= k <= 32,
        a@.take(k) == b@.take(k),
    ensures
        a.precedes(b) || a == b || b.precedes(a),
        !(a.precedes(b) && b.precedes(a)),
        a == b ==> !a.precedes(b) && !b.precedes(a),
    decreases 32 - k,
{
    if k == 32 {
        assert(a@ == a@.take(32));
        assert(b@ == b@.take(32));
        lemma_no_difference(a, b);
    } else if a@[k] != b@[k] {
        lemma_first_difference(a, b, k);
    } else {
        assert(a@.take(k + 1) == a@.take(k).push(a@[k]));
        assert(b@.take(k + 1) == b@.take(k).push(b@[k]));
        lemma_ordered_from(a, b, k + 1);
    }
}

} // verus!
