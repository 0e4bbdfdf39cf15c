//! Building blocks shared by every static data table.

use vstd::prelude::*;
use vstd::string::StringSliceAdditionalSpecFns;

verus! {

broadcast use vstd::utf8::encode_utf8_decode_utf8;

/// Compares two strings byte by byte.
pub fn str_eq(a: &str, b: &str) -> (r: bool)
    ensures
        r == (a@ == b@),
{
    let x = a.as_bytes();
    let y = b.as_bytes();
    if x.len() != y.len() {
        return false;
    }
    let mut i: usize = 0;
    while i < x.len()
        invariant
            x@.len() == y@.len(),
            x@ == a.spec_bytes(),
            y@ == b.spec_bytes(),
            i <= x@.len(),
            forall|j: int| 0 <= j < i ==> x@[j] == y@[j],
        decreases x@.len() - i,
    {
        if x[i] != y[i] {
            return false;
        }
        i = i + 1;
    }
    proof {
        assert(x@ =~= y@);
        assert(vstd::utf8::decode_utf8(a.spec_bytes()) == a@);
        assert(vstd::utf8::decode_utf8(b.spec_bytes()) == b@);
    }
    true
}

/// Stable textual identifier of a static definition.
///
/// The text is chosen once and for all: it is meant to be written in saves
/// and sent over the network.
#[derive(Debug, Clone, Copy, PartialEq, Eq, Hash, PartialOrd, Ord)]
pub struct Id(pub &'static str);

impl View for Id {
    type V = Seq<char>;

    open spec fn view(&self) -> Seq<char> {
        self.0@
    }
}

impl Id {
    pub fn as_str(self) -> (r: &'static str)
        ensures
            r == self.0,
    {
        self.0
    }

    /// Equality of the identifiers' texts.
    pub fn const_eq(self, other: Id) -> (r: bool)
        ensures
            r == (self@ == other@),
    {
        str_eq(self.0, other.0)
    }
}

/// A static definition, entry of a [`Registry`].
pub trait Definition: Sized {
    /// Name of the family of data, used in error reports.
    fn kind() -> &'static str;

    spec fn spec_id(&self) -> Id;

    fn id(&self) -> (r: Id)
        ensures
            r == self.spec_id(),
    ;
}

/// Some entry of `entries` has this identifier.
pub open spec fn has_id<T: Definition>(entries: Seq<T>, id: Id) -> bool {
    exists|i: int| 0 <= i < entries.len() && (#[trigger] entries[i].spec_id())@ == id@
}

/// `i` is the first entry of `entries` with this identifier.
pub open spec fn first_with_id<T: Definition>(entries: Seq<T>, id: Id, i: int) -> bool {
    &&& 0 <= i < entries.len()
    &&& entries[i].spec_id()@ == id@
    &&& forall|j: int| 0 <= j < i ==> (#[trigger] entries[j].spec_id())@ != id@
}

/// No identifier is declared twice.
pub open spec fn ids_unique<T: Definition>(entries: Seq<T>) -> bool {
    forall|i: int, j: int|
        0 <= i < j < entries.len() ==> (#[trigger] entries[i].spec_id())@ != (
        #[trigger] entries[j].spec_id())@
}

/// An entry before the `j`-th has its identifier.
pub open spec fn declared_before<T: Definition>(entries: Seq<T>, j: int) -> bool {
    exists|i: int| 0 <= i < j && (#[trigger] entries[i].spec_id())@ == entries[j].spec_id()@
}

/// From the `j`-th entry on, the identifier of the first entry that an
/// earlier entry already has.
pub open spec fn first_duplicate_from<T: Definition>(entries: Seq<T>, j: int) -> Option<Id>
    decreases entries.len() - j,
{
    if j < 0 || j >= entries.len() {
        None
    } else if declared_before(entries, j) {
        Some(entries[j].spec_id())
    } else {
        first_duplicate_from(entries, j + 1)
    }
}

/// The identifier of the first entry, in declaration order, that an
/// earlier entry already has.
pub open spec fn first_duplicate<T: Definition>(entries: Seq<T>) -> Option<Id> {
    first_duplicate_from(entries, 0)
}

/// Skipping entries that repeat no earlier identifier does not change the
/// first duplicate; there is none exactly when no entry from `j` on repeats
/// an earlier identifier.
pub proof fn lemma_first_duplicate_from<T: Definition>(entries: Seq<T>, a: int, j: int)
    requires
        0 <= a <= j <= entries.len(),
        forall|k: int| a <= k < j ==> !declared_before(entries, k),
    ensures
        first_duplicate_from(entries, a) == first_duplicate_from(entries, j),
        first_duplicate_from(entries, j) is None <==> forall|k: int|
            j <= k < entries.len() ==> !declared_before(entries, k),
    decreases entries.len() - a,
{
    if a < j {
        lemma_first_duplicate_from(entries, a + 1, j);
    } else if j < entries.len() {
        if !declared_before(entries, j) {
            lemma_first_duplicate_from(entries, j + 1, j + 1);
            assert forall|k: int| j <= k < entries.len() && first_duplicate_from(entries, j + 1) is None
                implies !declared_before(entries, k) by {
                if k > j {
                    assert(j + 1 <= k);
                }
            }
        }
    }
}

/// No identifier is declared twice exactly when no entry repeats an
/// earlier one.
pub proof fn lemma_unique_iff_no_repeat<T: Definition>(entries: Seq<T>)
    ensures
        ids_unique(entries) <==> forall|k: int| 0 <= k < entries.len() ==> !declared_before(
            entries,
            k,
        ),
{
    if ids_unique(entries) {
        assert forall|k: int| 0 <= k < entries.len() implies !declared_before(entries, k) by {
            if declared_before(entries, k) {
                let i = choose|i: int| 0 <= i < k && (#[trigger] entries[i].spec_id())@
                    == entries[k].spec_id()@;
                assert(entries[i].spec_id()@ != entries[k].spec_id()@);
            }
        }
    }
    if forall|k: int| 0 <= k < entries.len() ==> !declared_before(entries, k) {
        assert forall|i: int, j: int| 0 <= i < j < entries.len() implies (
        #[trigger] entries[i].spec_id())@ != (#[trigger] entries[j].spec_id())@ by {
            assert(!declared_before(entries, j));
        }
    }
}

/// Immutable table of definitions.
///
/// Lookup is linear: the tables hold at most a few hundred entries, and ids
/// are resolved when loading, not at every tick.
pub struct Registry<T: Definition> {
    entries: Vec<T>,
}

impl<T: Definition> View for Registry<T> {
    type V = Seq<T>;

    closed spec fn view(&self) -> Seq<T> {
        self.entries@
    }
}

impl<T: Definition> Registry<T> {
    pub fn new(entries: Vec<T>) -> (r: Self)
        ensures
            r@ == entries@,
    {
        Registry { entries }
    }

    /// Every entry, in declaration order.
    pub fn all(&self) -> (r: &[T])
        ensures
            r@ == self@,
    {
        self.entries.as_slice()
    }

    pub fn len(&self) -> (r: usize)
        ensures
            r == self@.len(),
    {
        self.entries.len()
    }

    pub fn is_empty(&self) -> (r: bool)
        ensures
            r == (self@.len() == 0),
    {
        self.entries.len() == 0
    }

    /// Iterator over every entry, in declaration order.
    pub fn iter(&self) -> (r: core::slice::Iter<'_, T>)
        ensures
            vstd::std_specs::slice::into_iter_elts(r) == self@,
    {
        broadcast use vstd::std_specs::slice::axiom_spec_slice_iter;

        let r = self.entries.as_slice().iter();
        proof {
            assert(self@.as_ref().unref() =~= self@);
        }
        r
    }

    /// Position of the first entry with this identifier.
    fn position(&self, id: Id) -> (r: Option<usize>)
        ensures
            r is Some <==> has_id(self@, id),
            r matches Some(i) ==> first_with_id(self@, id, i as int),
    {
        let mut i: usize = 0;
        while i < self.entries.len()
            invariant
                i <= self.entries@.len(),
                forall|j: int| 0 <= j < i ==> (#[trigger] self.entries@[j].spec_id())@ != id@,
            decreases self.entries@.len() - i,
        {
            if self.entries[i].id().const_eq(id) {
                return Some(i);
            }
            i = i + 1;
        }
        None
    }

    /// Looks a definition up by identifier: the first one declared with it.
    pub fn get(&self, id: Id) -> (r: Option<&T>)
        ensures
            r is Some <==> has_id(self@, id),
            r matches Some(entry) ==> exists|i: int|
                first_with_id(self@, id, i) && *entry == #[trigger] self@[i],
    {
        match self.position(id) {
            Some(i) => Some(&self.entries[i]),
            None => None,
        }
    }

    /// Like [`Registry::get`], for identifiers known to be declared, such as
    /// those written in the code itself.
    pub fn expect(&self, id: Id) -> (r: &T)
        requires
            has_id(self@, id),
        ensures
            exists|i: int| first_with_id(self@, id, i) && *r == #[trigger] self@[i],
    {
        match self.position(id) {
            Some(i) => &self.entries[i],
            None => {
                proof {
                    assert(false);
                }
                &self.entries[0]
            },
        }
    }

    pub fn contains(&self, id: Id) -> (r: bool)
        ensures
            r == has_id(self@, id),
    {
        self.position(id).is_some()
    }

    /// Checks that no identifier is declared twice; on failure, names the
    /// first entry, in declaration order, whose identifier an earlier entry
    /// already has.
    pub fn assert_unique_ids(&self) -> (r: Result<(), Id>)
        ensures
            r == (match first_duplicate(self@) {
                Some(id) => Err(id),
                None => Ok(()),
            }),
            r is Ok <==> ids_unique(self@),
    {
        proof {
            lemma_unique_iff_no_repeat(self@);
        }
        let mut j: usize = 0;
        while j < self.entries.len()
            invariant
                j <= self.entries@.len(),
                forall|k: int| 0 <= k < j ==> !declared_before(self.entries@, k),
                ids_unique(self@) <==> forall|k: int|
                    0 <= k < self@.len() ==> !declared_before(self@, k),
            decreases self.entries@.len() - j,
        {
            let id = self.entries[j].id();
            let mut i: usize = 0;
            while i < j
                invariant
                    i <= j,
                    j < self.entries@.len(),
                    forall|k: int| 0 <= k < j ==> !declared_before(self.entries@, k),
                    id == self.entries@[j as int].spec_id(),
                    forall|a: int| 0 <= a < i ==> (#[trigger] self.entries@[a].spec_id())@ != id@,
                decreases j - i,
            {
                if self.entries[i].id().const_eq(id) {
                    proof {
                        assert(declared_before(self.entries@, j as int));
                        lemma_first_duplicate_from(self.entries@, 0, j as int);
                    }
                    return Err(id);
                }
                i = i + 1;
            }
            proof {
                assert(!declared_before(self.entries@, j as int));
            }
            j = j + 1;
        }
        proof {
            lemma_first_duplicate_from(self.entries@, 0, j as int);
        }
        Ok(())
    }
}

impl<'a, T: Definition> IntoIterator for &'a Registry<T> {
    type Item = &'a T;
    type IntoIter = core::slice::Iter<'a, T>;

    /// Every entry, in declaration order.
    fn into_iter(self) -> (r: core::slice::Iter<'a, T>)
        ensures
            vstd::std_specs::slice::into_iter_elts(r) == self@,
    {
        self.iter()
    }
}

} // verus!
