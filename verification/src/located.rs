//! Located values.
//!
//! A located value holds `Some` payload exactly where the projection target
//! owns it and is absent everywhere else; which of the two holds is decided
//! by the engine from the program text alone, never by timing.

use vstd::prelude::*;

use crate::location::ChoreographyLocation;

verus! {

/// A value that is present at the locations that own it and absent
/// elsewhere.  At a given projection target it is simply "present" or
/// "absent".
#[derive(Debug, PartialEq)]
pub struct MultiplyLocated<V> {
    value: Option<V>,
}

/// A value located at a single location: the same container, under the name
/// the authoring API uses for the one-owner case.
pub type Located<V> = MultiplyLocated<V>;

impl<V> MultiplyLocated<V> {
    /// The payload, if present here.
    pub closed spec fn opt(self) -> Option<V> {
        self.value
    }

    /// Whether the value is present here.
    pub open spec fn is_present(self) -> bool {
        self.opt() is Some
    }

    /// Builds a value that is present here.
    pub fn local(value: V) -> (r: Self)
        ensures
            r.opt() == Some(value),
    {
        MultiplyLocated { value: Some(value) }
    }

    /// Builds a value that is absent here.
    pub fn remote() -> (r: Self)
        ensures
            r.opt() is None,
    {
        MultiplyLocated { value: None }
    }

    /// Whether the value is present here, as an executable test.
    pub fn has_value(&self) -> (b: bool)
        ensures
            b == self.is_present(),
    {
        self.value.is_some()
    }

    /// Takes the payload out of a value that is present here.
    pub fn into_value(self) -> (r: V)
        requires
            self.is_present(),
        ensures
            Some(r) == self.opt(),
    {
        match self {
            MultiplyLocated { value: Some(v) } => v,
            MultiplyLocated { value: None } => vstd::pervasive::unreached(),
        }
    }
}

impl<V> MultiplyLocated<MultiplyLocated<V>> {
    /// Flattens a located located value: present exactly when both layers
    /// are.
    pub fn flatten(self) -> (r: MultiplyLocated<V>)
        ensures
            match self.opt() {
                Some(inner) => r.opt() == inner.opt(),
                None => r.opt() is None,
            },
    {
        match self {
            MultiplyLocated { value: Some(inner) } => inner,
            MultiplyLocated { value: None } => MultiplyLocated { value: None },
        }
    }
}

/// A composite that can be built fully absent, to stand for the result of a
/// sub-protocol that did not run here.
pub trait Superposition: Sized {
    /// Builds the fully absent value.
    fn remote() -> Self;
}

impl Superposition for () {
    fn remote() -> Self {
    }
}

impl<V> Superposition for MultiplyLocated<V> {
    fn remote() -> Self {
        MultiplyLocated { value: None }
    }
}

/// Reads located values at one location.  Handed to a `locally` computation
/// so it can open values that are known to be owned there.
pub struct Unwrapper {
    /// The location this capability is scoped to.
    pub at: String,
}

impl Unwrapper {
    /// Opens a located value that is present here.
    pub fn unwrap<'a, V>(&self, mlv: &'a MultiplyLocated<V>) -> (r: &'a V)
        requires
            mlv.is_present(),
        ensures
            Some(*r) == mlv.opt(),
    {
        match &mlv.value {
            Some(v) => v,
            None => vstd::pervasive::unreached(),
        }
    }

    /// Opens the facet of this capability's location in a faceted value; a
    /// facet for the location must exist.
    pub fn unwrap3<'a, V>(&self, faceted: &'a Faceted<V>) -> (r: &'a V)
        requires
            exists|i: int|
                0 <= i < faceted.spec_entries().len() && (#[trigger] faceted.spec_entries()[i]).0@
                    == self.at@,
        ensures
            exists|i: int|
                0 <= i < faceted.spec_entries().len() && (#[trigger] faceted.spec_entries()[i]).0@
                    == self.at@ && *r == faceted.spec_entries()[i].1,
    {
        let n = faceted.entries.len();
        let mut k: usize = 0;
        while k < n
            invariant
                k <= n,
                n == faceted.spec_entries().len(),
                exists|i: int|
                    k <= i < faceted.spec_entries().len() && (#[trigger] faceted.spec_entries()[
                    i]).0@ == self.at@,
            decreases n - k,
        {
            if crate::location::string_eq(&faceted.entries[k].0, &self.at) {
                return &faceted.entries[k].1;
            }
            proof {
                let i = choose|i: int|
                    k <= i < faceted.spec_entries().len() && (#[trigger] faceted.spec_entries()[
                    i]).0@ == self.at@;
                assert(i != k);
            }
            k = k + 1;
        }
        vstd::pervasive::unreached()
    }
}

/// The value bound to a name in an association list whose names are kept
/// unique: the first binding wins.
pub open spec fn assoc_lookup<V>(entries: Seq<(String, V)>, name: Seq<char>) -> Option<V>
    decreases entries.len(),
{
    if entries.len() == 0 {
        Option::None
    } else if entries[0].0@ == name {
        Option::Some(entries[0].1)
    } else {
        assoc_lookup(entries.drop_first(), name)
    }
}

/// Replacing the first binding of a name rebinds that name and leaves every
/// other name's binding unchanged.
pub proof fn lemma_assoc_update<V>(entries: Seq<(String, V)>, i: int, e: (String, V))
    requires
        0 <= i < entries.len(),
        entries[i].0@ == e.0@,
        forall|j: int| 0 <= j < i ==> (#[trigger] entries[j]).0@ != e.0@,
    ensures
        assoc_lookup(entries.update(i, e), e.0@) == Option::Some(e.1),
        forall|n: Seq<char>|
            n != e.0@ ==> #[trigger] assoc_lookup(entries.update(i, e), n) == assoc_lookup(
                entries,
                n,
            ),
    decreases i,
{
    let upd = entries.update(i, e);
    if i == 0 {
        assert(upd.drop_first() =~= entries.drop_first());
        assert(upd[0] == e);
        assert forall|n: Seq<char>|
            n != e.0@ implies #[trigger] assoc_lookup(upd, n) == assoc_lookup(entries, n) by {
            assert(entries[0].0@ == e.0@);
        }
    } else {
        assert(upd.drop_first() =~= entries.drop_first().update(i - 1, e));
        lemma_assoc_update(entries.drop_first(), i - 1, e);
        assert(upd[0] == entries[0]);
        assert(entries[0].0@ != e.0@);
        assert forall|n: Seq<char>|
            n != e.0@ implies #[trigger] assoc_lookup(upd, n) == assoc_lookup(entries, n) by {
            if upd[0].0@ != n {
                assert(assoc_lookup(upd.drop_first(), n) == assoc_lookup(entries.drop_first(), n));
            }
        }
    }
}

/// Appending a binding for a fresh name binds that name and leaves every
/// other name's binding unchanged.
pub proof fn lemma_assoc_push<V>(entries: Seq<(String, V)>, e: (String, V))
    requires
        forall|j: int| 0 <= j < entries.len() ==> (#[trigger] entries[j]).0@ != e.0@,
    ensures
        assoc_lookup(entries.push(e), e.0@) == Option::Some(e.1),
        forall|n: Seq<char>|
            n != e.0@ ==> #[trigger] assoc_lookup(entries.push(e), n) == assoc_lookup(entries, n),
    decreases entries.len(),
{
    let pushed = entries.push(e);
    if entries.len() == 0 {
        assert(pushed[0] == e);
        assert(pushed.drop_first() =~= Seq::<(String, V)>::empty());
        assert forall|n: Seq<char>|
            n != e.0@ implies #[trigger] assoc_lookup(pushed, n) == assoc_lookup(entries, n) by {
            assert(assoc_lookup(pushed.drop_first(), n) is None);
        }
    } else {
        assert(pushed[0] == entries[0]);
        assert(pushed.drop_first() =~= entries.drop_first().push(e));
        lemma_assoc_push(entries.drop_first(), e);
        assert forall|n: Seq<char>|
            n != e.0@ implies #[trigger] assoc_lookup(pushed, n) == assoc_lookup(entries, n) by {
            if pushed[0].0@ != n {
                assert(assoc_lookup(pushed.drop_first(), n) == assoc_lookup(
                    entries.drop_first(),
                    n,
                ));
            }
        }
    }
}

/// A mapping from location names to values, the aggregate of a fan-in.
pub struct Quire<V> {
    entries: Vec<(String, V)>,
}

impl<V> Quire<V> {
    /// The entries, in insertion order.
    pub closed spec fn spec_entries(self) -> Seq<(String, V)> {
        self.entries@
    }

    /// Builds an empty quire.
    pub fn new() -> (r: Self)
        ensures
            r.spec_entries() == Seq::<(String, V)>::empty(),
    {
        Quire { entries: Vec::new() }
    }

    /// Adds a value located at a location; adding under a name that is
    /// already bound replaces the prior binding, as in a map keyed by
    /// location name.
    #[verifier::loop_isolation(false)]
    pub fn add<L: ChoreographyLocation>(self, location: L, value: V) -> (r: Self)
        ensures
            assoc_lookup(r.spec_entries(), L::spec_name()) == Option::Some(value),
            forall|n: Seq<char>|
                n != L::spec_name() ==> #[trigger] assoc_lookup(r.spec_entries(), n)
                    == assoc_lookup(self.spec_entries(), n),
    {
        let _ = location;
        let ghost orig = self.spec_entries();
        let name: String = L::name().to_owned();
        let mut entries = self.entries;
        assert(entries@ == orig);
        let n = entries.len();
        let mut i: usize = 0;
        while i < n
            invariant
                i <= n,
                n == entries@.len(),
                entries@ == orig,
                name@ == L::spec_name(),
                forall|j: int| 0 <= j < i ==> (#[trigger] entries@[j]).0@ != name@,
            decreases n - i,
        {
            if crate::location::string_eq(&entries[i].0, &name) {
                let pair = (name, value);
                let ghost pe = pair;
                entries.set(i, pair);
                let ghost newents = entries@;
                let result = Quire { entries };
                proof {
                    lemma_assoc_update(orig, i as int, pe);
                    assert(newents == orig.update(i as int, pe));
                    assert(pe.0@ == L::spec_name());
                    assert(result.spec_entries() == newents);
                    assert forall|n: Seq<char>|
                        n != L::spec_name() implies #[trigger] assoc_lookup(
                        result.spec_entries(),
                        n,
                    ) == assoc_lookup(orig, n) by {
                        assert(assoc_lookup(orig.update(i as int, pe), n) == assoc_lookup(
                            orig,
                            n,
                        ));
                        assert(assoc_lookup(result.spec_entries(), n) == assoc_lookup(
                            orig.update(i as int, pe),
                            n,
                        ));
                    }
                }
                return result;
            }
            i = i + 1;
        }
        let pair = (name, value);
        let ghost pe = pair;
        entries.push(pair);
        let ghost newents = entries@;
        let result = Quire { entries };
        proof {
            lemma_assoc_push(orig, pe);
            assert(newents == orig.push(pe));
            assert(pe.0@ == L::spec_name());
            assert(result.spec_entries() == newents);
            assert forall|n: Seq<char>|
                n != L::spec_name() implies #[trigger] assoc_lookup(result.spec_entries(), n)
                == assoc_lookup(orig, n) by {
                assert(assoc_lookup(orig.push(pe), n) == assoc_lookup(orig, n));
                assert(assoc_lookup(result.spec_entries(), n) == assoc_lookup(orig.push(pe), n));
            }
        }
        result
    }

    /// Hands the entries out as a list of pairs of location name and value.
    pub fn get_map(self) -> (r: Vec<(String, V)>)
        ensures
            r@ == self.spec_entries(),
    {
        self.entries
    }
}

/// Possibly different values at different locations, the result of a
/// parallel or fanned-out computation; at a projection target only that
/// target's facet is present.
pub struct Faceted<V> {
    entries: Vec<(String, V)>,
}

impl<V> Faceted<V> {
    /// The facets, keyed by location name.
    pub closed spec fn spec_entries(self) -> Seq<(String, V)> {
        self.entries@
    }

    /// Builds a faceted value from its facets.
    pub fn from_entries(entries: Vec<(String, V)>) -> (r: Self)
        ensures
            r.spec_entries() == entries@,
    {
        Faceted { entries }
    }

    /// Hands the facets out as a list of pairs of location name and value.
    pub fn get_map(self) -> (r: Vec<(String, V)>)
        ensures
            r@ == self.spec_entries(),
    {
        self.entries
    }
}

} // verus!
