//! The order of names and the order of paths.
//!
//! Package names, content identifiers, checksums and paths are all kept in
//! sorted collections. Names are ordered as Rust orders strings: by the
//! bytes of their UTF-8 encoding, lexicographically. Paths are ordered by
//! their components: as strings too, but with the separator `/` before
//! every other byte, so that `/a/b` comes before `/a-b`. This module
//! defines both orders over `Seq<char>`, proves that each is a strict
//! total order, and gives the executable comparison.

use vstd::prelude::*;
use vstd::string::*;
use vstd::utf8::*;

verus! {

/// How the strings of a collection are ordered.
#[derive(Clone, Copy, Debug, PartialEq, Eq, Structural)]
pub enum NameOrder {
    /// By their bytes.
    Bytes,
    /// By their components as paths: by their bytes, with the separator
    /// `/` before every other byte.
    Components,
}

/// The place of a byte in an order: its value, but for the separator of
/// paths, which comes first among the bytes of paths.
pub open spec fn rank(b: u8, order: NameOrder) -> int {
    if order == NameOrder::Components && b == 0x2fu8 {
        -1
    } else {
        b as int
    }
}

/// Lexicographic `<` on byte sequences, looking only at positions from `i` on.
pub open spec fn bytes_lt_from(a: Seq<u8>, b: Seq<u8>, order: NameOrder, i: int) -> bool
    decreases a.len() - i,
{
    if i < 0 || i >= b.len() {
        false
    } else if i >= a.len() {
        true
    } else if a[i] != b[i] {
        rank(a[i], order) < rank(b[i], order)
    } else {
        bytes_lt_from(a, b, order, i + 1)
    }
}

/// `a` comes before `b` in the order `order`: lexicographically by the
/// ranks of their UTF-8 bytes.
pub open spec fn lt_by(order: NameOrder, a: Seq<char>, b: Seq<char>) -> bool {
    bytes_lt_from(encode_utf8(a), encode_utf8(b), order, 0)
}

/// The order of names: the lexicographic order of their UTF-8 bytes.
pub open spec fn name_lt(a: Seq<char>, b: Seq<char>) -> bool {
    lt_by(NameOrder::Bytes, a, b)
}

/// The order of paths: component by component, each component by its
/// bytes. A path comes before every path that goes on below it, and of
/// two paths that part inside a component, the one whose component ends
/// there comes first.
pub open spec fn path_lt(a: Seq<char>, b: Seq<char>) -> bool {
    lt_by(NameOrder::Components, a, b)
}

/// `a` comes before `b` in the order of names, or is `b`.
pub open spec fn name_le(a: Seq<char>, b: Seq<char>) -> bool {
    a == b || name_lt(a, b)
}

/// Every element comes strictly before every later one, in the order `order`.
pub open spec fn sorted_by(order: NameOrder, s: Seq<Seq<char>>) -> bool {
    forall|i: int, j: int|
        0 <= i < j < s.len() ==> lt_by(order, #[trigger] s[i], #[trigger] s[j])
}

/// Every element comes strictly before every later one, in the order of names.
pub open spec fn strictly_sorted(s: Seq<Seq<char>>) -> bool {
    sorted_by(NameOrder::Bytes, s)
}

/// The result of comparing two strings.
#[derive(Clone, Copy, Debug, PartialEq, Eq, Structural)]
pub enum Order {
    Less,
    Equal,
    Greater,
}

pub proof fn lemma_bytes_lt_irreflexive(a: Seq<u8>, order: NameOrder, i: int)
    ensures
        !bytes_lt_from(a, a, order, i),
    decreases a.len() - i,
{
    if 0 <= i < a.len() {
        lemma_bytes_lt_irreflexive(a, order, i + 1);
    }
}

pub proof fn lemma_bytes_lt_transitive(
    a: Seq<u8>,
    b: Seq<u8>,
    c: Seq<u8>,
    order: NameOrder,
    i: int,
)
    requires
        bytes_lt_from(a, b, order, i),
        bytes_lt_from(b, c, order, i),
    ensures
        bytes_lt_from(a, c, order, i),
    decreases a.len() - i,
{
    if i < a.len() && a[i] == b[i] && b[i] == c[i] {
        lemma_bytes_lt_transitive(a, b, c, order, i + 1);
    }
}

/// Two byte sequences that agree before `i`, neither of which is below the
/// other from `i` on, are the same sequence.
pub proof fn lemma_bytes_lt_connected(a: Seq<u8>, b: Seq<u8>, order: NameOrder, i: int)
    requires
        0 <= i <= a.len(),
        i <= b.len(),
        forall|k: int| 0 <= k < i ==> a[k] == b[k],
        !bytes_lt_from(a, b, order, i),
        !bytes_lt_from(b, a, order, i),
    ensures
        a == b,
    decreases a.len() - i,
{
    if i < a.len() && i < b.len() {
        lemma_bytes_lt_connected(a, b, order, i + 1);
    } else {
        assert(a =~= b);
    }
}

/// No string comes before itself.
pub proof fn lemma_lt_irreflexive(order: NameOrder, a: Seq<char>)
    ensures
        !lt_by(order, a, a),
{
    lemma_bytes_lt_irreflexive(encode_utf8(a), order, 0);
}

/// Each order is transitive.
pub proof fn lemma_lt_transitive(order: NameOrder, a: Seq<char>, b: Seq<char>, c: Seq<char>)
    requires
        lt_by(order, a, b),
        lt_by(order, b, c),
    ensures
        lt_by(order, a, c),
{
    lemma_bytes_lt_transitive(encode_utf8(a), encode_utf8(b), encode_utf8(c), order, 0);
}

/// No two strings come before each other.
pub proof fn lemma_lt_asymmetric(order: NameOrder, a: Seq<char>, b: Seq<char>)
    requires
        lt_by(order, a, b),
    ensures
        !lt_by(order, b, a),
        a != b,
{
    lemma_lt_irreflexive(order, a);
    if lt_by(order, b, a) {
        lemma_lt_transitive(order, a, b, a);
    }
}

/// Two strings with the same UTF-8 bytes are the same string.
pub proof fn lemma_encoding_injective(a: Seq<char>, b: Seq<char>)
    requires
        encode_utf8(a) == encode_utf8(b),
    ensures
        a == b,
{
    encode_utf8_decode_utf8(a);
    encode_utf8_decode_utf8(b);
}

/// Of two different strings one comes before the other.
pub proof fn lemma_lt_connected(order: NameOrder, a: Seq<char>, b: Seq<char>)
    ensures
        a == b || lt_by(order, a, b) || lt_by(order, b, a),
{
    if !lt_by(order, a, b) && !lt_by(order, b, a) {
        lemma_bytes_lt_connected(encode_utf8(a), encode_utf8(b), order, 0);
        lemma_encoding_injective(a, b);
    }
}

/// A sorted sequence holds no string twice.
pub proof fn lemma_sorted_by_no_duplicates(order: NameOrder, s: Seq<Seq<char>>)
    requires
        sorted_by(order, s),
    ensures
        s.no_duplicates(),
{
    assert forall|i: int, j: int| 0 <= i < s.len() && 0 <= j < s.len() && i != j implies s[i]
        != s[j] by {
        if i < j {
            lemma_lt_asymmetric(order, s[i], s[j]);
        } else {
            lemma_lt_asymmetric(order, s[j], s[i]);
        }
    }
}

/// A sequence sorted in the order of names holds no name twice.
pub proof fn lemma_sorted_no_duplicates(s: Seq<Seq<char>>)
    requires
        strictly_sorted(s),
    ensures
        s.no_duplicates(),
{
    lemma_sorted_by_no_duplicates(NameOrder::Bytes, s);
}

/// Two sequences sorted in one order that hold the same strings are the
/// same sequence.
pub proof fn lemma_sorted_by_unique(order: NameOrder, s: Seq<Seq<char>>, t: Seq<Seq<char>>)
    requires
        sorted_by(order, s),
        sorted_by(order, t),
        s.to_set() == t.to_set(),
    ensures
        s == t,
    decreases s.len(),
{
    if s.len() == 0 {
        if t.len() > 0 {
            assert(t.to_set().contains(t[0]));
            assert(s.to_set().contains(t[0]));
        }
        assert(s =~= t);
    } else if t.len() == 0 {
        assert(s.to_set().contains(s[0]));
        assert(t.to_set().contains(s[0]));
    } else {
        // The first elements are both the least string of the common set.
        assert(s.to_set().contains(s[0]));
        assert(t.to_set().contains(s[0]));
        let j = choose|j: int| 0 <= j < t.len() && t[j] == s[0];
        assert(t.to_set().contains(t[0]));
        assert(s.to_set().contains(t[0]));
        let i = choose|i: int| 0 <= i < s.len() && s[i] == t[0];
        if j > 0 {
            // t[0] < t[j] == s[0] <= s[i] == t[0]
            if i > 0 {
                lemma_lt_transitive(order, t[0], t[j], s[i]);
            }
            lemma_lt_irreflexive(order, t[0]);
            assert(false);
        }
        assert(s[0] == t[0]);
        let s1 = s.drop_first();
        let t1 = t.drop_first();
        assert(sorted_by(order, s1)) by {
            assert forall|a: int, b: int| 0 <= a < b < s1.len() implies lt_by(
                order,
                #[trigger] s1[a],
                #[trigger] s1[b],
            ) by {
                assert(s1[a] == s[a + 1] && s1[b] == s[b + 1]);
            }
        }
        assert(sorted_by(order, t1)) by {
            assert forall|a: int, b: int| 0 <= a < b < t1.len() implies lt_by(
                order,
                #[trigger] t1[a],
                #[trigger] t1[b],
            ) by {
                assert(t1[a] == t[a + 1] && t1[b] == t[b + 1]);
            }
        }
        assert(s1.to_set() =~= t1.to_set()) by {
            assert forall|x: Seq<char>| s1.to_set().contains(x) implies t1.to_set().contains(
                x,
            ) by {
                let a = choose|a: int| 0 <= a < s1.len() && s1[a] == x;
                assert(s[a + 1] == x);
                lemma_lt_asymmetric(order, s[0], s[a + 1]);
                assert(s.to_set().contains(x));
                assert(t.to_set().contains(x));
                let b = choose|b: int| 0 <= b < t.len() && t[b] == x;
                assert(b > 0);
                assert(t1[b - 1] == x);
            }
            assert forall|x: Seq<char>| t1.to_set().contains(x) implies s1.to_set().contains(
                x,
            ) by {
                let a = choose|a: int| 0 <= a < t1.len() && t1[a] == x;
                assert(t[a + 1] == x);
                lemma_lt_asymmetric(order, t[0], t[a + 1]);
                assert(t.to_set().contains(x));
                assert(s.to_set().contains(x));
                let b = choose|b: int| 0 <= b < s.len() && s[b] == x;
                assert(b > 0);
                assert(s1[b - 1] == x);
            }
        }
        lemma_sorted_by_unique(order, s1, t1);
        assert(s =~= t) by {
            assert(s.len() == t.len());
            assert forall|k: int| 0 <= k < s.len() implies s[k] == t[k] by {
                if k > 0 {
                    assert(s1[k - 1] == s[k]);
                    assert(t1[k - 1] == t[k]);
                }
            }
        }
    }
}

/// Two sequences sorted in the order of names that hold the same names
/// are the same sequence.
pub proof fn lemma_sorted_unique(s: Seq<Seq<char>>, t: Seq<Seq<char>>)
    requires
        strictly_sorted(s),
        strictly_sorted(t),
        s.to_set() == t.to_set(),
    ensures
        s == t,
{
    lemma_sorted_by_unique(NameOrder::Bytes, s, t);
}

fn rank_of(b: u8, order: NameOrder) -> (r: i16)
    ensures
        r == rank(b, order),
{
    match order {
        NameOrder::Components => if b == 0x2fu8 {
            -1
        } else {
            b as i16
        },
        NameOrder::Bytes => b as i16,
    }
}

/// Compares two strings in the order `order`.
pub fn compare_by(order: NameOrder, a: &str, b: &str) -> (r: Order)
    ensures
        r == Order::Less <==> lt_by(order, a@, b@),
        r == Order::Equal <==> a@ == b@,
        r == Order::Greater <==> lt_by(order, b@, a@),
{
    let x = a.as_bytes();
    let y = b.as_bytes();
    let ghost xs = encode_utf8(a@);
    let ghost ys = encode_utf8(b@);
    let mut i: usize = 0;
    while i < x.len() && i < y.len()
        invariant
            xs == encode_utf8(a@),
            ys == encode_utf8(b@),
            x@ == xs,
            y@ == ys,
            i <= xs.len(),
            i <= ys.len(),
            forall|k: int| 0 <= k < i ==> xs[k] == ys[k],
            bytes_lt_from(xs, ys, order, 0) == bytes_lt_from(xs, ys, order, i as int),
            bytes_lt_from(ys, xs, order, 0) == bytes_lt_from(ys, xs, order, i as int),
        decreases xs.len() - i,
    {
        if x[i] != y[i] {
            if rank_of(x[i], order) < rank_of(y[i], order) {
                proof {
                    lemma_lt_asymmetric(order, a@, b@);
                }
                return Order::Less;
            } else {
                proof {
                    assert(rank(ys[i as int], order) < rank(xs[i as int], order));
                    lemma_lt_asymmetric(order, b@, a@);
                }
                return Order::Greater;
            }
        }
        i += 1;
    }
    if i < y.len() {
        proof {
            lemma_lt_asymmetric(order, a@, b@);
        }
        Order::Less
    } else if i < x.len() {
        proof {
            lemma_lt_asymmetric(order, b@, a@);
        }
        Order::Greater
    } else {
        proof {
            lemma_lt_connected(order, a@, b@);
            lemma_lt_irreflexive(order, a@);
        }
        Order::Equal
    }
}

/// Compares two names by their UTF-8 bytes.
pub fn compare_names(a: &str, b: &str) -> (r: Order)
    ensures
        r == Order::Less <==> name_lt(a@, b@),
        r == Order::Equal <==> a@ == b@,
        r == Order::Greater <==> name_lt(b@, a@),
{
    compare_by(NameOrder::Bytes, a, b)
}

/// Compares two paths by their components.
pub fn compare_paths(a: &str, b: &str) -> (r: Order)
    ensures
        r == Order::Less <==> path_lt(a@, b@),
        r == Order::Equal <==> a@ == b@,
        r == Order::Greater <==> path_lt(b@, a@),
{
    compare_by(NameOrder::Components, a, b)
}

/// Whether two names are the same.
pub fn same_name(a: &str, b: &str) -> (r: bool)
    ensures
        r == (a@ == b@),
{
    match compare_names(a, b) {
        Order::Equal => true,
        _ => false,
    }
}

} // verus!
