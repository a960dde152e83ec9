//! Three-way comparison of sequences.
use vstd::prelude::*;

use crate::text::chars_of;

verus! {

/// How one value stands to another.
#[derive(Clone, Copy, Debug, PartialEq, Eq, Structural)]
pub enum Order {
    Less,
    Equal,
    Greater,
}

impl Order {
    /// How the second value stands to the first.
    pub open spec fn reverse(self) -> Order {
        match self {
            Order::Less => Order::Greater,
            Order::Equal => Order::Equal,
            Order::Greater => Order::Less,
        }
    }

    /// This order, unless it is `Equal`: the other one decides.
    pub open spec fn or(self, other: Order) -> Order {
        if self is Equal {
            other
        } else {
            self
        }
    }
}

/// Numbers by size.
pub open spec fn number_order(a: int, b: int) -> Order {
    if a < b {
        Order::Less
    } else if a == b {
        Order::Equal
    } else {
        Order::Greater
    }
}

/// Sequences by their first difference; a proper prefix comes first.
pub open spec fn sequence_order(a: Seq<int>, b: Seq<int>) -> Order
    decreases a.len(),
{
    if a.len() == 0 || b.len() == 0 {
        number_order(a.len() as int, b.len() as int)
    } else {
        number_order(a[0], b[0]).or(sequence_order(a.skip(1), b.skip(1)))
    }
}

/// Bytes as numbers.
pub open spec fn byte_values(bytes: Seq<u8>) -> Seq<int> {
    Seq::new(bytes.len(), |i: int| bytes[i] as int)
}

/// Characters as their code points.
pub open spec fn char_values(chars: Seq<char>) -> Seq<int> {
    Seq::new(chars.len(), |i: int| chars[i] as int)
}

/// Bytes in lexicographic order.
pub open spec fn bytes_order(a: Seq<u8>, b: Seq<u8>) -> Order {
    sequence_order(byte_values(a), byte_values(b))
}

/// Text in lexicographic order.
pub open spec fn text_order(a: Seq<char>, b: Seq<char>) -> Order {
    sequence_order(char_values(a), char_values(b))
}

/// Two sequences are ordered alike from either side, equal only where they are the same.
pub proof fn lemma_sequence_order(a: Seq<int>, b: Seq<int>)
    ensures
        sequence_order(a, b) is Equal <==> a == b,
        sequence_order(b, a) == sequence_order(a, b).reverse(),
    decreases a.len(),
{
    if a.len() > 0 && b.len() > 0 {
        lemma_sequence_order(a.skip(1), b.skip(1));
        if a[0] == b[0] && a.skip(1) == b.skip(1) {
            assert(a =~= seq![a[0]] + a.skip(1));
            assert(b =~= seq![b[0]] + b.skip(1));
        }
    } else if a.len() == b.len() {
        assert(a =~= b);
    }
}

/// `Less` carries over a third sequence.
pub proof fn lemma_sequence_order_transitive(a: Seq<int>, b: Seq<int>, c: Seq<int>)
    requires
        sequence_order(a, b) is Less,
        sequence_order(b, c) is Less,
    ensures
        sequence_order(a, c) is Less,
    decreases a.len(),
{
    if a.len() > 0 && b.len() > 0 && c.len() > 0 {
        if a[0] == b[0] && b[0] == c[0] {
            lemma_sequence_order_transitive(a.skip(1), b.skip(1), c.skip(1));
        }
    }
}

/// What `lemma_sequence_order` says, of bytes.
pub proof fn lemma_bytes_order(a: Seq<u8>, b: Seq<u8>)
    ensures
        bytes_order(a, b) is Equal <==> a == b,
        bytes_order(b, a) == bytes_order(a, b).reverse(),
{
    lemma_sequence_order(byte_values(a), byte_values(b));
    if byte_values(a) == byte_values(b) {
        assert(a.len() == byte_values(a).len() == b.len());
        assert forall|i: int| 0 <= i < a.len() implies a[i] == b[i] by {
            assert(byte_values(a)[i] == byte_values(b)[i]);
        }
        assert(a =~= b);
    }
}

/// What `lemma_sequence_order` says, of text.
pub proof fn lemma_text_order(a: Seq<char>, b: Seq<char>)
    ensures
        text_order(a, b) is Equal <==> a == b,
        text_order(b, a) == text_order(a, b).reverse(),
{
    lemma_sequence_order(char_values(a), char_values(b));
    if char_values(a) == char_values(b) {
        assert(a.len() == char_values(a).len() == b.len());
        assert forall|i: int| 0 <= i < a.len() implies a[i] == b[i] by {
            assert(char_values(a)[i] == char_values(b)[i]);
        }
        assert(a =~= b);
    }
}

/// Compares bytes.
pub fn compare_bytes(a: &[u8], b: &[u8]) -> (order: Order)
    ensures
        order == bytes_order(a@, b@),
{
    let mut i: usize = 0;
    assert(byte_values(a@).skip(0) =~= byte_values(a@));
    assert(byte_values(b@).skip(0) =~= byte_values(b@));
    while i < a.len() && i < b.len()
        invariant
            i <= a@.len(),
            i <= b@.len(),
            bytes_order(a@, b@) == sequence_order(
                byte_values(a@).skip(i as int),
                byte_values(b@).skip(i as int),
            ),
        decreases a@.len() - i,
    {
        assert(byte_values(a@).skip(i as int).skip(1) =~= byte_values(a@).skip(i + 1));
        assert(byte_values(b@).skip(i as int).skip(1) =~= byte_values(b@).skip(i + 1));
        if a[i] < b[i] {
            return Order::Less;
        }
        if a[i] > b[i] {
            return Order::Greater;
        }
        i = i + 1;
    }
    if a.len() < b.len() {
        Order::Less
    } else if a.len() == b.len() {
        Order::Equal
    } else {
        Order::Greater
    }
}

/// Compares text.
pub fn compare_text(a: &str, b: &str) -> (order: Order)
    ensures
        order == text_order(a@, b@),
{
    let x: Vec<char> = chars_of(a);
    let y: Vec<char> = chars_of(b);
    let mut i: usize = 0;
    assert(char_values(a@).skip(0) =~= char_values(a@));
    assert(char_values(b@).skip(0) =~= char_values(b@));
    while i < x.len() && i < y.len()
        invariant
            x@ == a@,
            y@ == b@,
            i <= x@.len(),
            i <= y@.len(),
            text_order(a@, b@) == sequence_order(
                char_values(a@).skip(i as int),
                char_values(b@).skip(i as int),
            ),
        decreases x@.len() - i,
    {
        assert(char_values(a@).skip(i as int).skip(1) =~= char_values(a@).skip(i + 1));
        assert(char_values(b@).skip(i as int).skip(1) =~= char_values(b@).skip(i + 1));
        if x[i] < y[i] {
            return Order::Less;
        }
        if x[i] > y[i] {
            return Order::Greater;
        }
        i = i + 1;
    }
    if x.len() < y.len() {
        Order::Less
    } else if x.len() == y.len() {
        Order::Equal
    } else {
        Order::Greater
    }
}

/// Two sequences agree before position `k`, which lies within both or at the end of one.
pub open spec fn agree_before<T>(a: Seq<T>, b: Seq<T>, k: int) -> bool {
    &&& 0 <= k <= a.len()
    &&& k <= b.len()
    &&& forall|i: int| 0 <= i < k ==> #[trigger] a[i] == b[i]
}

proof fn lemma_first_difference(a: Seq<int>, b: Seq<int>, k: int)
    requires
        agree_before(a, b, k),
    ensures
        k < a.len() && k < b.len() && a[k] < b[k] ==> sequence_order(a, b) is Less,
        k == a.len() < b.len() ==> sequence_order(a, b) is Less,
    decreases k,
{
    if k > 0 {
        let a_rest = a.skip(1);
        let b_rest = b.skip(1);
        assert forall|i: int| 0 <= i < k - 1 implies #[trigger] a_rest[i] == b_rest[i] by {
            assert(a[i + 1] == b[i + 1]);
        }
        lemma_first_difference(a_rest, b_rest, k - 1);
        assert(a[0] == b[0]);
    }
}

/// Where bytes first differ, the smaller byte decides, whatever follows. Bytes that end there come
/// first.
pub proof fn law_bytes_order(a: Seq<u8>, b: Seq<u8>, k: int)
    requires
        agree_before(a, b, k),
    ensures
        k < a.len() && k < b.len() && a[k] < b[k] ==> bytes_order(a, b) is Less && bytes_order(
            b,
            a,
        ) is Greater,
        k == a.len() < b.len() ==> bytes_order(a, b) is Less && bytes_order(b, a) is Greater,
        bytes_order(a, b) is Equal <==> a == b,
{
    assert forall|i: int| 0 <= i < k implies #[trigger] byte_values(a)[i] == byte_values(b)[i] by {
        assert(a[i] == b[i]);
    }
    lemma_first_difference(byte_values(a), byte_values(b), k);
    lemma_bytes_order(a, b);
}

/// Where texts first differ, the character with the smaller code point decides, whatever follows. A
/// text that ends there comes first.
pub proof fn law_text_order(a: Seq<char>, b: Seq<char>, k: int)
    requires
        agree_before(a, b, k),
    ensures
        k < a.len() && k < b.len() && (a[k] as int) < b[k] as int ==> text_order(a, b) is Less
            && text_order(b, a) is Greater,
        k == a.len() < b.len() ==> text_order(a, b) is Less && text_order(b, a) is Greater,
        text_order(a, b) is Equal <==> a == b,
{
    assert forall|i: int| 0 <= i < k implies #[trigger] char_values(a)[i] == char_values(b)[i] by {
        assert(a[i] == b[i]);
    }
    lemma_first_difference(char_values(a), char_values(b), k);
    lemma_text_order(a, b);
}

} // verus!
