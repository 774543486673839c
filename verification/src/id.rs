//! Fixed-width 256-bit identifiers, the bitwise XOR distance between them,
//! and the big-endian lexicographic order used to compare distances.

use vstd::prelude::*;

verus! {

/// Number of bytes in an identifier.
pub const ID_BYTES: usize = 32;

/// An opaque 256-bit identifier, stored as 32 bytes in big-endian order.
pub struct U256 {
    bytes: Vec<u8>,
}

impl View for U256 {
    type V = Seq<u8>;

    closed spec fn view(&self) -> Seq<u8> {
        self.bytes@
    }
}

impl U256 {
    /// Every identifier value holds exactly 32 bytes.
    #[verifier::type_invariant]
    pub open spec fn inv(&self) -> bool {
        self@.len() == ID_BYTES
    }

    /// Builds an identifier from exactly 32 bytes; rejects any other length.
    pub fn from_bytes(bytes: Vec<u8>) -> (r: Option<U256>)
        ensures
            bytes@.len() == ID_BYTES ==> (r matches Some(id) && id@ == bytes@),
            bytes@.len() != ID_BYTES ==> r is None,
    {
        if bytes.len() == ID_BYTES {
            Some(U256 { bytes })
        } else {
            None
        }
    }

    /// The all-zero identifier, the origin of the structural baseline group.
    pub fn zero() -> (r: U256)
        ensures
            r@ == zero_id(),
    {
        let mut bytes: Vec<u8> = Vec::new();
        let mut i: usize = 0;
        while i < ID_BYTES
            invariant
                i <= ID_BYTES,
                bytes@.len() == i,
                forall|j: int| 0 <= j < i ==> bytes@[j] == 0u8,
            decreases ID_BYTES - i,
        {
            bytes.push(0u8);
            i = i + 1;
        }
        proof {
            assert(bytes@ =~= zero_id());
        }
        U256 { bytes }
    }

    /// Reads one byte of the identifier.
    pub fn byte(&self, i: usize) -> (r: u8)
        requires
            i < ID_BYTES,
        ensures
            r == self@[i as int],
    {
        proof {
            use_type_invariant(self);
        }
        self.bytes[i]
    }

    /// Identifier equality is bitwise.
    pub fn equals(&self, other: &U256) -> (r: bool)
        ensures
            r == (self@ == other@),
    {
        proof {
            use_type_invariant(self);
            use_type_invariant(other);
        }
        let mut i: usize = 0;
        while i < ID_BYTES
            invariant
                i <= ID_BYTES,
                self@.len() == ID_BYTES,
                other@.len() == ID_BYTES,
                forall|j: int| 0 <= j < i ==> self@[j] == other@[j],
            decreases ID_BYTES - i,
        {
            if self.bytes[i] != other.bytes[i] {
                return false;
            }
            i = i + 1;
        }
        proof {
            assert(self@ =~= other@);
        }
        true
    }
}

impl Clone for U256 {
    fn clone(&self) -> (r: Self)
        ensures
            r@ == self@,
    {
        proof {
            use_type_invariant(self);
        }
        let mut bytes: Vec<u8> = Vec::new();
        let mut i: usize = 0;
        while i < ID_BYTES
            invariant
                i <= ID_BYTES,
                self@.len() == ID_BYTES,
                bytes@.len() == i,
                forall|j: int| 0 <= j < i ==> bytes@[j] == self@[j],
            decreases ID_BYTES - i,
        {
            bytes.push(self.bytes[i]);
            i = i + 1;
        }
        proof {
            assert(bytes@ =~= self@);
        }
        U256 { bytes }
    }
}

/// The all-zero 32-byte identifier value.
pub open spec fn zero_id() -> Seq<u8> {
    Seq::new(ID_BYTES as nat, |i: int| 0u8)
}

/// Bytewise XOR of two equal-length byte strings.
pub open spec fn xor_bytes(a: Seq<u8>, b: Seq<u8>) -> Seq<u8>
    recommends
        a.len() == b.len(),
{
    Seq::new(a.len(), |i: int| a[i] ^ b[i])
}

/// XOR distance between two identifiers, byte by byte.
pub fn distance(x: &U256, y: &U256) -> (r: U256)
    ensures
        r@ == xor_bytes(x@, y@),
{
    proof {
        use_type_invariant(x);
        use_type_invariant(y);
    }
    let mut bytes: Vec<u8> = Vec::new();
    let mut i: usize = 0;
    while i < ID_BYTES
        invariant
            i <= ID_BYTES,
            x@.len() == ID_BYTES,
            y@.len() == ID_BYTES,
            bytes@.len() == i,
            forall|j: int| 0 <= j < i ==> bytes@[j] == (x@[j] ^ y@[j]),
        decreases ID_BYTES - i,
    {
        bytes.push(x.byte(i) ^ y.byte(i));
        i = i + 1;
    }
    proof {
        assert(bytes@ =~= xor_bytes(x@, y@));
    }
    U256 { bytes }
}

/// The XOR distance is symmetric, and the distance of an identifier
/// to itself is the all-zero value.
pub proof fn lemma_distance_symmetric(a: Seq<u8>, b: Seq<u8>)
    requires
        a.len() == ID_BYTES,
        b.len() == ID_BYTES,
    ensures
        xor_bytes(a, b) == xor_bytes(b, a),
        xor_bytes(a, a) == zero_id(),
{
    assert(forall|x: u8, y: u8| #[trigger] (x ^ y) == (y ^ x)) by (bit_vector);
    assert(forall|x: u8| #[trigger] (x ^ x) == 0u8) by (bit_vector);
    assert(xor_bytes(a, b) =~= xor_bytes(b, a));
    assert(xor_bytes(a, a) =~= zero_id());
}

/// Lexicographic (big-endian unsigned) "less than or equal" on byte strings
/// of equal length.
pub open spec fn lex_le(a: Seq<u8>, b: Seq<u8>) -> bool
    recommends
        a.len() == b.len(),
    decreases a.len(),
{
    if a.len() == 0 || b.len() == 0 {
        true
    } else if a.first() < b.first() {
        true
    } else if a.first() > b.first() {
        false
    } else {
        lex_le(a.drop_first(), b.drop_first())
    }
}

/// Strict lexicographic (big-endian unsigned) "less than" on byte strings.
pub open spec fn lex_lt(a: Seq<u8>, b: Seq<u8>) -> bool {
    lex_le(a, b) && a != b
}

/// Every string is below itself.
pub proof fn lemma_lex_le_reflexive(a: Seq<u8>)
    ensures
        lex_le(a, a),
    decreases a.len(),
{
    if a.len() > 0 {
        lemma_lex_le_reflexive(a.drop_first());
    }
}

/// `lex_le` compares any two equal-length strings one way or the other.
pub proof fn lemma_lex_le_total(a: Seq<u8>, b: Seq<u8>)
    requires
        a.len() == b.len(),
    ensures
        lex_le(a, b) || lex_le(b, a),
    decreases a.len(),
{
    if a.len() > 0 && a.first() == b.first() {
        lemma_lex_le_total(a.drop_first(), b.drop_first());
    }
}

/// Two equal-length strings below each other are equal.
pub proof fn lemma_lex_le_antisymmetric(a: Seq<u8>, b: Seq<u8>)
    requires
        a.len() == b.len(),
        lex_le(a, b),
        lex_le(b, a),
    ensures
        a == b,
    decreases a.len(),
{
    if a.len() > 0 {
        lemma_lex_le_antisymmetric(a.drop_first(), b.drop_first());
        assert(a =~= seq![a.first()] + a.drop_first());
        assert(b =~= seq![b.first()] + b.drop_first());
    } else {
        assert(a =~= b);
    }
}

/// Identifiers at the same XOR distance from a point are the same
/// identifier.
pub proof fn lemma_xor_injective(point: Seq<u8>, a: Seq<u8>, b: Seq<u8>)
    requires
        a.len() == b.len(),
        b.len() == point.len(),
        xor_bytes(a, point) == xor_bytes(b, point),
    ensures
        a == b,
{
    assert(forall|x: u8, y: u8, p: u8| (x ^ p) == (y ^ p) ==> x == y) by (bit_vector);
    assert forall|i: int| 0 <= i < a.len() implies a[i] == b[i] by {
        assert(xor_bytes(a, point)[i] == (a[i] ^ point[i]));
        assert(xor_bytes(b, point)[i] == (b[i] ^ point[i]));
    }
    assert(a =~= b);
}

/// `lex_le` is transitive.
pub proof fn lemma_lex_le_transitive(a: Seq<u8>, b: Seq<u8>, c: Seq<u8>)
    requires
        a.len() == b.len(),
        b.len() == c.len(),
        lex_le(a, b),
        lex_le(b, c),
    ensures
        lex_le(a, c),
    decreases a.len(),
{
    if a.len() > 0 && a.first() == b.first() && b.first() == c.first() {
        lemma_lex_le_transitive(a.drop_first(), b.drop_first(), c.drop_first());
    }
}

/// Compares two identifiers in big-endian lexicographic order.
pub fn id_le(x: &U256, y: &U256) -> (r: bool)
    ensures
        r == lex_le(x@, y@),
{
    proof {
        use_type_invariant(x);
        use_type_invariant(y);
        assert(x@.skip(0) =~= x@);
        assert(y@.skip(0) =~= y@);
    }
    let mut i: usize = 0;
    while i < ID_BYTES
        invariant
            i <= ID_BYTES,
            x@.len() == ID_BYTES,
            y@.len() == ID_BYTES,
            forall|j: int| 0 <= j < i ==> x@[j] == y@[j],
            lex_le(x@, y@) == lex_le(x@.skip(i as int), y@.skip(i as int)),
        decreases ID_BYTES - i,
    {
        let xb = x.byte(i);
        let yb = y.byte(i);
        proof {
            assert(x@.skip(i as int).first() == x@[i as int]);
            assert(y@.skip(i as int).first() == y@[i as int]);
            assert(x@.skip(i as int).drop_first() =~= x@.skip(i as int + 1));
            assert(y@.skip(i as int).drop_first() =~= y@.skip(i as int + 1));
        }
        if xb < yb {
            return true;
        }
        if xb > yb {
            return false;
        }
        i = i + 1;
    }
    proof {
        assert(x@.skip(ID_BYTES as int).len() == 0);
    }
    true
}

} // verus!
