//! A set of names kept in ascending order.
//!
//! The layered-package set, the provenance sets of a path and the paths of
//! an object are all sets of strings whose order of iteration must not
//! depend on the order of insertion. `NameSet` keeps its names strictly
//! sorted, so that its listing is a function of the set alone. A set is
//! made for one order and keeps it: names are ordered by their bytes,
//! paths by their components.

use vstd::prelude::*;
use crate::order::{
    compare_by, lemma_lt_asymmetric, lemma_lt_transitive, lemma_sorted_by_no_duplicates,
    lemma_sorted_by_unique, lt_by, name_le, sorted_by, NameOrder, Order,
};

verus! {

/// The views of a vector of strings.
pub open spec fn views(v: Seq<String>) -> Seq<Seq<char>> {
    v.map_values(|s: String| s@)
}

/// The view of an optional string.
pub open spec fn option_view(s: Option<String>) -> Option<Seq<char>> {
    match s {
        Some(t) => Some(t@),
        None => None,
    }
}

/// The view of an optional string slice.
pub open spec fn option_str(s: Option<&str>) -> Option<Seq<char>> {
    match s {
        Some(t) => Some(t@),
        None => None,
    }
}

/// The views of an optional vector of strings.
pub open spec fn option_views(l: Option<Vec<String>>) -> Option<Seq<Seq<char>>> {
    match l {
        Some(v) => Some(views(v@)),
        None => None,
    }
}

/// `idx` is where `name` stands, or would have to stand, in the sequence
/// `s`, which is sorted in the order `order`.
pub open spec fn is_position(
    order: NameOrder,
    s: Seq<Seq<char>>,
    name: Seq<char>,
    idx: int,
    found: bool,
) -> bool {
    &&& 0 <= idx <= s.len()
    &&& found ==> idx < s.len() && s[idx] == name
    &&& forall|i: int| 0 <= i < idx ==> lt_by(order, #[trigger] s[i], name)
    &&& forall|i: int|
        (if found {
            idx < i
        } else {
            idx <= i
        }) && i < s.len() ==> lt_by(order, name, #[trigger] s[i])
}

/// A sorted sequence holds `name` exactly if its position is an occupied one.
pub proof fn lemma_position_contains(
    order: NameOrder,
    s: Seq<Seq<char>>,
    name: Seq<char>,
    idx: int,
    found: bool,
)
    requires
        is_position(order, s, name, idx, found),
    ensures
        found == s.contains(name),
        found == s.to_set().contains(name),
{
    if !found {
        assert forall|i: int| 0 <= i < s.len() implies s[i] != name by {
            if i < idx {
                lemma_lt_asymmetric(order, s[i], name);
            } else {
                lemma_lt_asymmetric(order, name, s[i]);
            }
        }
    }
}

/// Inserting a missing name at its position keeps the sequence sorted and
/// adds the name to the set.
pub proof fn lemma_insert_sorted(order: NameOrder, s: Seq<Seq<char>>, name: Seq<char>, idx: int)
    requires
        sorted_by(order, s),
        is_position(order, s, name, idx, false),
    ensures
        sorted_by(order, s.insert(idx, name)),
        s.insert(idx, name).to_set() == s.to_set().insert(name),
{
    let t = s.insert(idx, name);
    assert forall|i: int, j: int| 0 <= i < j < t.len() implies lt_by(order, 
        #[trigger] t[i],
        #[trigger] t[j],
    ) by {
        if i < idx && j > idx {
            assert(t[i] == s[i] && t[j] == s[j - 1]);
        } else if i > idx {
            assert(t[i] == s[i - 1] && t[j] == s[j - 1]);
        }
    }
    assert(t.to_set() =~= s.to_set().insert(name)) by {
        assert forall|x: Seq<char>| t.to_set().contains(x) implies s.to_set().insert(
            name,
        ).contains(x) by {
            let k = choose|k: int| 0 <= k < t.len() && t[k] == x;
            if k < idx {
                assert(s[k] == x);
            } else if k > idx {
                assert(s[k - 1] == x);
            }
        }
        assert forall|x: Seq<char>| s.to_set().insert(name).contains(x) implies t.to_set().contains(
            x,
        ) by {
            if x == name {
                assert(t[idx] == x);
            } else {
                let k = choose|k: int| 0 <= k < s.len() && s[k] == x;
                if k < idx {
                    assert(t[k] == x);
                } else {
                    assert(t[k + 1] == x);
                }
            }
        }
    }
}

/// Removing a name at its position keeps the sequence sorted and takes the
/// name out of the set.
pub proof fn lemma_remove_sorted(order: NameOrder, s: Seq<Seq<char>>, name: Seq<char>, idx: int)
    requires
        sorted_by(order, s),
        is_position(order, s, name, idx, true),
    ensures
        sorted_by(order, s.remove(idx)),
        s.remove(idx).to_set() == s.to_set().remove(name),
{
    let t = s.remove(idx);
    assert forall|i: int, j: int| 0 <= i < j < t.len() implies lt_by(order, 
        #[trigger] t[i],
        #[trigger] t[j],
    ) by {
        if i < idx && j >= idx {
            assert(t[i] == s[i] && t[j] == s[j + 1]);
        } else if i >= idx {
            assert(t[i] == s[i + 1] && t[j] == s[j + 1]);
        }
    }
    assert(t.to_set() =~= s.to_set().remove(name)) by {
        assert forall|x: Seq<char>| t.to_set().contains(x) implies s.to_set().remove(
            name,
        ).contains(x) by {
            let k = choose|k: int| 0 <= k < t.len() && t[k] == x;
            if k < idx {
                assert(s[k] == x);
                lemma_lt_asymmetric(order, s[k], name);
            } else {
                assert(s[k + 1] == x);
                lemma_lt_asymmetric(order, name, s[k + 1]);
            }
        }
        assert forall|x: Seq<char>| s.to_set().remove(name).contains(x) implies t.to_set().contains(
            x,
        ) by {
            let k = choose|k: int| 0 <= k < s.len() && s[k] == x;
            if k < idx {
                assert(t[k] == x);
            } else {
                assert(k > idx);
                assert(t[k - 1] == x);
            }
        }
    }
}

/// Finds the position of `name` in a sorted vector by bisection.
pub fn position(order: NameOrder, names: &Vec<String>, name: &str) -> (r: (usize, bool))
    requires
        sorted_by(order, views(names@)),
    ensures
        is_position(order, views(names@), name@, r.0 as int, r.1),
{
    let ghost s = views(names@);
    let mut lo: usize = 0;
    let mut hi: usize = names.len();
    while lo < hi
        invariant
            s == views(names@),
            sorted_by(order, s),
            0 <= lo <= hi <= names.len(),
            forall|i: int| 0 <= i < lo ==> lt_by(order, #[trigger] s[i], name@),
            forall|i: int| hi <= i < s.len() ==> lt_by(order, name@, #[trigger] s[i]),
        decreases hi - lo,
    {
        let mid: usize = lo + (hi - lo) / 2;
        assert(s[mid as int] == names@[mid as int]@);
        match compare_by(order, names[mid].as_str(), name) {
            Order::Equal => {
                proof {
                    assert forall|i: int| 0 <= i < mid implies lt_by(order, #[trigger] s[i], name@) by {
                        assert(lt_by(order, s[i], s[mid as int]));
                    }
                    assert forall|i: int| mid < i < s.len() implies lt_by(order, 
                        name@,
                        #[trigger] s[i],
                    ) by {
                        assert(lt_by(order, s[mid as int], s[i]));
                    }
                }
                return (mid, true);
            },
            Order::Less => {
                proof {
                    assert forall|i: int| 0 <= i < mid + 1 implies lt_by(order, 
                        #[trigger] s[i],
                        name@,
                    ) by {
                        if i < mid {
                            assert(lt_by(order, s[i], s[mid as int]));
                            lemma_lt_transitive(order, s[i], s[mid as int], name@);
                        }
                    }
                }
                lo = mid + 1;
            },
            Order::Greater => {
                proof {
                    assert forall|i: int| mid <= i < s.len() implies lt_by(order, 
                        name@,
                        #[trigger] s[i],
                    ) by {
                        if mid < i {
                            assert(lt_by(order, s[mid as int], s[i]));
                            lemma_lt_transitive(order, name@, s[mid as int], s[i]);
                        }
                    }
                }
                hi = mid;
            },
        }
    }
    (lo, false)
}

/// The strings of a finite set in ascending order, in the order `order`.
pub open spec fn listing_by(order: NameOrder, s: Set<Seq<char>>) -> Seq<Seq<char>> {
    choose|l: Seq<Seq<char>>| sorted_by(order, l) && l.to_set() == s
}

/// The names of a finite set in ascending order.
pub open spec fn sorted_listing(s: Set<Seq<char>>) -> Seq<Seq<char>> {
    listing_by(NameOrder::Bytes, s)
}

/// The paths of a finite set in ascending order: by their components.
pub open spec fn path_listing(s: Set<Seq<char>>) -> Seq<Seq<char>> {
    listing_by(NameOrder::Components, s)
}

/// The least name of a set that is not empty.
pub open spec fn least_name(s: Set<Seq<char>>) -> Seq<char> {
    sorted_listing(s)[0]
}

/// A strictly ascending sequence is the listing of its set.
pub proof fn lemma_listing_of(order: NameOrder, l: Seq<Seq<char>>)
    requires
        sorted_by(order, l),
    ensures
        listing_by(order, l.to_set()) == l,
{
    let m = listing_by(order, l.to_set());
    assert(sorted_by(order, m) && m.to_set() == l.to_set());
    lemma_sorted_by_unique(order, m, l);
}

/// A copy of a vector of strings.
pub fn clone_names(v: &Vec<String>) -> (r: Vec<String>)
    ensures
        r@ == v@,
        views(r@) == views(v@),
{
    let mut r: Vec<String> = Vec::new();
    let mut i: usize = 0;
    while i < v.len()
        invariant
            0 <= i <= v.len(),
            r@ == v@.take(i as int),
        decreases v.len() - i,
    {
        let c = v[i].clone();
        r.push(c);
        assert(r@ =~= v@.take(i + 1));
        i += 1;
    }
    assert(v@.take(i as int) =~= v@);
    r
}

/// A finite set of names, listed in ascending order.
#[derive(Debug)]
pub struct NameSet {
    names: Vec<String>,
    order: NameOrder,
}

impl View for NameSet {
    type V = Set<Seq<char>>;

    /// The names held.
    open spec fn view(&self) -> Set<Seq<char>> {
        self.seq().to_set()
    }
}

impl NameSet {
    /// The names held, in ascending order.
    pub closed spec fn seq(&self) -> Seq<Seq<char>> {
        views(self.names@)
    }

    /// The order in which the set lists its names.
    pub closed spec fn order(&self) -> NameOrder {
        self.order
    }

    /// The listing is strictly ascending in the order of the set. The
    /// constructors establish this and every method keeps it.
    pub open spec fn wf(&self) -> bool {
        sorted_by(self.order(), self.seq())
    }

    /// The set is well formed and lists its names by their bytes.
    pub open spec fn wf_names(&self) -> bool {
        self.wf() && self.order() == NameOrder::Bytes
    }

    /// The set is well formed and lists its paths by their components.
    pub open spec fn wf_paths(&self) -> bool {
        self.wf() && self.order() == NameOrder::Components
    }

    /// The least name of a non-empty set.
    pub open spec fn least(&self) -> Seq<char>
        recommends
            self.seq().len() > 0,
    {
        self.seq()[0]
    }

    /// The first name of the listing comes before every other name of the set.
    pub proof fn lemma_least(&self)
        requires
            self.wf_names(),
            self.seq().len() > 0,
        ensures
            self@.contains(self.least()),
            forall|x: Seq<char>| self@.contains(x) ==> name_le(self.least(), x),
    {
        let s = self.seq();
        assert(s.to_set().contains(s[0]));
        assert forall|x: Seq<char>| self@.contains(x) implies name_le(self.least(), x) by {
            let k = choose|k: int| 0 <= k < s.len() && s[k] == x;
            if k > 0 {
                assert(lt_by(NameOrder::Bytes, s[0], s[k]));
            }
        }
    }

    /// The listing of a well-formed set is the ascending listing of its names.
    pub proof fn lemma_listing(&self)
        requires
            self.wf(),
        ensures
            listing_by(self.order(), self@) == self.seq(),
            self.order() == NameOrder::Bytes && self.seq().len() > 0 ==> least_name(self@)
                == self.least(),
    {
        lemma_listing_of(self.order(), self.seq());
    }

    /// The listing holds each name of the set once.
    pub proof fn lemma_len(&self)
        requires
            self.wf(),
        ensures
            self@.finite(),
            self@.len() == self.seq().len(),
    {
        lemma_sorted_by_no_duplicates(self.order(), self.seq());
        self.seq().unique_seq_to_set();
        vstd::seq_lib::seq_to_set_is_finite(self.seq());
    }

    /// The empty set of names.
    pub fn new() -> (s: NameSet)
        ensures
            s.seq() == Seq::<Seq<char>>::empty(),
            s@ == Set::<Seq<char>>::empty(),
            s.wf(),
            s.order() == NameOrder::Bytes,
    {
        NameSet::with_order(NameOrder::Bytes)
    }

    /// The empty set that lists what it holds in the order `order`.
    pub fn with_order(order: NameOrder) -> (s: NameSet)
        ensures
            s.seq() == Seq::<Seq<char>>::empty(),
            s@ == Set::<Seq<char>>::empty(),
            s.wf(),
            s.order() == order,
    {
        let s = NameSet { names: Vec::new(), order };
        assert(s.seq() =~= Seq::<Seq<char>>::empty());
        assert(s@ =~= Set::<Seq<char>>::empty());
        s
    }

    /// The number of names.
    pub fn len(&self) -> (n: usize)
        requires
            self.wf(),
        ensures
            n == self.seq().len(),
            n == self@.len(),
    {
        proof {
            self.lemma_len();
        }
        self.names.len()
    }

    /// Whether the set holds no name.
    pub fn is_empty(&self) -> (b: bool)
        ensures
            b == (self.seq().len() == 0),
            b == (self@ == Set::<Seq<char>>::empty()),
    {
        proof {
            if self.seq().len() > 0 {
                assert(self@.contains(self.seq()[0]));
            } else {
                assert(self@ =~= Set::<Seq<char>>::empty());
            }
        }
        self.names.len() == 0
    }

    /// Whether the set holds `name`.
    pub fn contains(&self, name: &str) -> (b: bool)
        requires
            self.wf(),
        ensures
            b == self@.contains(name@),
    {
        let (idx, found) = position(self.order, &self.names, name);
        proof {
            lemma_position_contains(self.order(), self.seq(), name@, idx as int, found);
        }
        found
    }

    /// Adds `name`; says whether it was new.
    pub fn insert(&mut self, name: String) -> (added: bool)
        requires
            old(self).wf(),
        ensures
            final(self)@ == old(self)@.insert(name@),
            added == !old(self)@.contains(name@),
            !added ==> final(self).seq() == old(self).seq(),
            final(self).wf(),
            final(self).order() == old(self).order(),
    {
        let (idx, found) = position(self.order, &self.names, name.as_str());
        proof {
            lemma_position_contains(self.order(), self.seq(), name@, idx as int, found);
        }
        if found {
            assert(self@.insert(name@) =~= self@);
            false
        } else {
            proof {
                lemma_insert_sorted(self.order(), self.seq(), name@, idx as int);
                assert(views(self.names@.insert(idx as int, name)) =~= self.seq().insert(
                    idx as int,
                    name@,
                ));
            }
            self.names.insert(idx, name);
            true
        }
    }

    /// Takes `name` out; says whether it was there.
    pub fn remove(&mut self, name: &str) -> (removed: bool)
        requires
            old(self).wf(),
        ensures
            final(self)@ == old(self)@.remove(name@),
            removed == old(self)@.contains(name@),
            !removed ==> final(self).seq() == old(self).seq(),
            final(self).wf(),
            final(self).order() == old(self).order(),
    {
        let (idx, found) = position(self.order, &self.names, name);
        proof {
            lemma_position_contains(self.order(), self.seq(), name@, idx as int, found);
        }
        if found {
            proof {
                lemma_remove_sorted(self.order(), self.seq(), name@, idx as int);
                assert(views(self.names@.remove(idx as int)) =~= self.seq().remove(idx as int));
            }
            let _ = self.names.remove(idx);
            true
        } else {
            assert(self@.remove(name@) =~= self@);
            false
        }
    }

    /// The name at place `i` of the ascending listing, if there is one.
    pub fn get(&self, i: usize) -> (r: Option<&String>)
        ensures
            i < self.seq().len() ==> r is Some && r->0@ == self.seq()[i as int],
            i >= self.seq().len() ==> r is None,
    {
        if i < self.names.len() {
            assert(self.seq()[i as int] == self.names@[i as int]@);
            Some(&self.names[i])
        } else {
            None
        }
    }

    /// The least name, if the set is not empty.
    pub fn first(&self) -> (r: Option<&String>)
        ensures
            self.seq().len() > 0 ==> r is Some && r->0@ == self.least(),
            self.seq().len() == 0 ==> r is None,
    {
        self.get(0)
    }

    /// The names in ascending order.
    pub fn to_vec(&self) -> (v: Vec<String>)
        ensures
            views(v@) == self.seq(),
    {
        clone_names(&self.names)
    }

    /// The set of the names of `v`.
    pub fn from_vec(v: Vec<String>) -> (s: NameSet)
        ensures
            s@ == views(v@).to_set(),
            s.wf(),
            s.order() == NameOrder::Bytes,
    {
        let mut s = NameSet::new();
        let mut i: usize = 0;
        while i < v.len()
            invariant
                0 <= i <= v.len(),
                s@ == views(v@).take(i as int).to_set(),
                s.wf(),
                s.order() == NameOrder::Bytes,
            decreases v.len() - i,
        {
            let ghost before = s@;
            s.insert(v[i].clone());
            proof {
                let t = views(v@);
                assert(t.take(i + 1) =~= t.take(i as int).push(t[i as int]));
                t.take(i as int).lemma_push_to_set_commute(t[i as int]);
            }
            i += 1;
        }
        assert(views(v@).take(i as int) =~= views(v@));
        s
    }
}

impl Clone for NameSet {
    fn clone(&self) -> (r: Self)
        ensures
            r.seq() == self.seq(),
            r@ == self@,
            r.order() == self.order(),
            self.wf() ==> r.wf(),
    {
        NameSet { names: clone_names(&self.names), order: self.order }
    }
}

} // verus!
