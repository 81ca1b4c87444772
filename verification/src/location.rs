//! Participant identity.
//!
//! A location is a named participant role.  Two locations are the same
//! participant exactly when their names are equal; locations carry no data.
//! Location sets are assembled either at the type level, as a heterogeneous
//! list of location types, or at run time as a list of names.

use vstd::prelude::*;

verus! {

/// A participant role.  Implementations are unit marker types whose name
/// identifies the participant.
pub trait ChoreographyLocation: Copy {
    /// The name, as a character sequence.
    spec fn spec_name() -> Seq<char>;

    /// Constructs the marker value.
    fn new() -> Self;

    /// The name of the location.
    fn name() -> (r: &'static str)
        ensures
            r@ == Self::spec_name(),
    ;
}

/// A set of locations, as a heterogeneous list of location types.
pub trait LocationSet: Sized {
    /// The names of the member locations.
    spec fn spec_names() -> Seq<Seq<char>>;

    /// Constructs the list value.
    fn new() -> Self;

    /// The names of the member locations.
    fn to_string_list() -> (r: Vec<&'static str>)
        ensures
            r@.map_values(|s: &'static str| s@) == Self::spec_names(),
    ;
}

/// The empty location set.
pub struct HNil;

/// A location set with head `Head` and tail `Tail`.
pub struct HCons<Head, Tail>(pub Head, pub Tail);

impl LocationSet for HNil {
    open spec fn spec_names() -> Seq<Seq<char>> {
        Seq::empty()
    }

    fn new() -> Self {
        HNil
    }

    fn to_string_list() -> (r: Vec<&'static str>) {
        let r: Vec<&'static str> = Vec::new();
        assert(r@.map_values(|s: &'static str| s@) =~= Self::spec_names());
        r
    }
}

impl<Head: ChoreographyLocation, Tail: LocationSet> LocationSet for HCons<Head, Tail> {
    open spec fn spec_names() -> Seq<Seq<char>> {
        Tail::spec_names().push(Head::spec_name())
    }

    fn new() -> Self {
        HCons(Head::new(), Tail::new())
    }

    fn to_string_list() -> (r: Vec<&'static str>) {
        let mut r = Tail::to_string_list();
        r.push(Head::name());
        assert(r@.map_values(|s: &'static str| s@) =~= Self::spec_names());
        r
    }
}

/// Marks the head position of a location set, for membership evidence.
pub struct Here;

/// Marks the head position of the enclosing set in nested evidence.
pub struct Here2;

/// Marks a position past the head, for membership evidence.
pub struct There<Index>(pub Index);

/// Evidence that a location is a member of a location set.  `Index` is
/// inferred; `Remainder` is the set without the member.
pub trait Member<L, Index> {
    /// The set without the member.
    type Remainder: LocationSet;
}

impl<Head, Tail: LocationSet> Member<HCons<Head, Tail>, Here> for Head {
    type Remainder = Tail;
}

impl<Head: ChoreographyLocation, Head1, Tail, X, TailIndex> Member<
    HCons<Head, HCons<Head1, Tail>>,
    There<TailIndex>,
> for X where X: Member<HCons<Head1, Tail>, TailIndex> {
    type Remainder = HCons<Head, <X as Member<HCons<Head1, Tail>, TailIndex>>::Remainder>;
}

/// Evidence that a location set is a subset of another.  `Index` is
/// inferred.
pub trait Subset<S, Index> {

}

impl<S> Subset<S, Here> for HNil {

}

impl<Head, Tail, S, Index1, Index2> Subset<S, (Index1, Index2)> for HCons<Head, Tail> where
    Head: Member<S, Index1>,
    Tail: Subset<S, Index2>,
 {

}

/// Whether two strings are equal.
pub fn string_eq(a: &String, b: &String) -> (r: bool)
    ensures
        r == (a@ == b@),
{
    a.eq(b)
}

/// The names of a type-level location set, as owned strings.
pub fn string_list_of<L: LocationSet>() -> (r: Vec<String>)
    ensures
        r@.map_values(|s: String| s@) == L::spec_names(),
{
    let raw = L::to_string_list();
    let mut r: Vec<String> = Vec::new();
    let n = raw.len();
    let mut i: usize = 0;
    while i < n
        invariant
            i <= n,
            n == raw@.len(),
            raw@.map_values(|s: &'static str| s@) == L::spec_names(),
            r@.len() == i,
            forall|j: int| 0 <= j < i ==> (#[trigger] r@[j])@ == L::spec_names()[j],
        decreases n - i,
    {
        assert(raw@.map_values(|s: &'static str| s@)[i as int] == raw@[i as int]@);
        r.push(raw[i].to_owned());
        i = i + 1;
    }
    assert forall|j: int| 0 <= j < n implies r@.map_values(|s: String| s@)[j] == L::spec_names()[j] by {
        assert(r@.map_values(|s: String| s@)[j] == r@[j]@);
    }
    assert(r@.map_values(|s: String| s@) =~= L::spec_names());
    r
}

/// Whether a name occurs in a list of locations.
pub fn contains_name(locs: &Vec<String>, x: &String) -> (b: bool)
    ensures
        b == crate::sem::names_of(locs@).contains(x@),
{
    let n = locs.len();
    let mut i: usize = 0;
    while i < n
        invariant
            i <= n,
            n == locs@.len(),
            forall|j: int| 0 <= j < i ==> crate::sem::names_of(locs@)[j] != x@,
        decreases n - i,
    {
        assert(crate::sem::names_of(locs@)[i as int] == locs@[i as int]@);
        if string_eq(&locs[i], x) {
            return true;
        }
        i = i + 1;
    }
    false
}

/// Whether every name of `a` occurs in `b`.
pub fn subset_names_exec(a: &Vec<String>, b: &Vec<String>) -> (r: bool)
    ensures
        r == crate::sem::names_subset(crate::sem::names_of(a@), crate::sem::names_of(b@)),
{
    let n = a.len();
    let mut i: usize = 0;
    while i < n
        invariant
            i <= n,
            n == a@.len(),
            forall|j: int|
                0 <= j < i ==> crate::sem::names_of(b@).contains(
                    #[trigger] crate::sem::names_of(a@)[j],
                ),
        decreases n - i,
    {
        if !contains_name(b, &a[i]) {
            assert(crate::sem::names_of(a@)[i as int] == a@[i as int]@);
            return false;
        }
        assert(crate::sem::names_of(a@)[i as int] == a@[i as int]@);
        i = i + 1;
    }
    true
}

/// Whether a list of locations is free of duplicate names.
pub fn distinct_names_exec(v: &Vec<String>) -> (r: bool)
    ensures
        r == crate::sem::names_distinct(crate::sem::names_of(v@)),
{
    let n = v.len();
    let mut i: usize = 0;
    while i < n
        invariant
            i <= n,
            n == v@.len(),
            forall|a: int, b: int|
                0 <= a < b < v@.len() && a < i ==> crate::sem::names_of(v@)[a]
                    != crate::sem::names_of(v@)[b],
        decreases n - i,
    {
        let mut j: usize = i + 1;
        while j < n
            invariant
                i < j <= n,
                i < n,
                n == v@.len(),
                forall|b: int|
                    i < b < j ==> crate::sem::names_of(v@)[i as int] != crate::sem::names_of(
                        v@,
                    )[b],
            decreases n - j,
        {
            assert(crate::sem::names_of(v@)[i as int] == v@[i as int]@);
            assert(crate::sem::names_of(v@)[j as int] == v@[j as int]@);
            if string_eq(&v[i], &v[j]) {
                return false;
            }
            j = j + 1;
        }
        i = i + 1;
    }
    true
}

/// The position of a name in a list of locations.
pub fn find_name(locs: &Vec<String>, x: &String) -> (r: Option<usize>)
    ensures
        match r {
            Some(k) => k < locs@.len() && crate::sem::names_of(locs@)[k as int] == x@,
            None => !crate::sem::names_of(locs@).contains(x@),
        },
{
    let n = locs.len();
    let mut i: usize = 0;
    while i < n
        invariant
            i <= n,
            n == locs@.len(),
            forall|j: int| 0 <= j < i ==> crate::sem::names_of(locs@)[j] != x@,
        decreases n - i,
    {
        assert(crate::sem::names_of(locs@)[i as int] == locs@[i as int]@);
        if string_eq(&locs[i], x) {
            return Some(i);
        }
        i = i + 1;
    }
    None
}

/// A copy of a list of location names.
pub fn clone_names(v: &Vec<String>) -> (r: Vec<String>)
    ensures
        r@ == v@,
{
    let n = v.len();
    let mut r: Vec<String> = Vec::new();
    let mut i: usize = 0;
    while i < n
        invariant
            i <= n,
            n == v@.len(),
            r@.len() == i,
            forall|j: int| 0 <= j < i ==> r@[j] == v@[j],
        decreases n - i,
    {
        r.push(v[i].clone());
        i = i + 1;
    }
    assert(r@ =~= v@);
    r
}

/// Whether two lists of locations carry the same names in the same order.
pub fn names_eq(a: &Vec<String>, b: &Vec<String>) -> (r: bool)
    ensures
        r == (crate::sem::names_of(a@) == crate::sem::names_of(b@)),
{
    let n = a.len();
    if n != b.len() {
        assert(crate::sem::names_of(a@).len() != crate::sem::names_of(b@).len());
        return false;
    }
    let mut i: usize = 0;
    while i < n
        invariant
            i <= n,
            n == a@.len(),
            n == b@.len(),
            forall|j: int|
                0 <= j < i ==> crate::sem::names_of(a@)[j] == #[trigger] crate::sem::names_of(
                    b@,
                )[j],
        decreases n - i,
    {
        assert(crate::sem::names_of(a@)[i as int] == a@[i as int]@);
        assert(crate::sem::names_of(b@)[i as int] == b@[i as int]@);
        if !string_eq(&a[i], &b[i]) {
            return false;
        }
        i = i + 1;
    }
    assert(crate::sem::names_of(a@) =~= crate::sem::names_of(b@));
    true
}

} // verus!
