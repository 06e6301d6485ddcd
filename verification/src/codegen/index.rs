//! The insertion-ordered sets and the bit sets that the generator keeps its
//! tables in, with what the generator relies on of them.

use bit_set::BitSet;
use indexmap::IndexSet;
use vstd::prelude::*;

verus! {

#[verifier::external_type_specification]
#[verifier::external_body]
#[verifier::reject_recursive_types(T)]
#[verifier::reject_recursive_types(S)]
pub struct ExIndexSet<T, S>(IndexSet<T, S>);

/// A set of block numbers, held in a `BitSet`.
#[verifier::external_body]
pub struct Bits {
    inner: BitSet,
}

/// The names that a set of names holds, in the order in which they came in.
pub uninterp spec fn name_set_items(s: IndexSet<String>) -> Seq<Seq<char>>;

/// The ids that a set of ids holds, in the order in which they came in.
pub uninterp spec fn id_set_items(s: IndexSet<u64>) -> Seq<u64>;

/// The numbers that a bit set holds.
pub uninterp spec fn bit_set_members(s: Bits) -> Set<usize>;

/// `IndexSet::new`: a set that holds nothing.
#[verifier::external_body]
pub(crate) fn name_set_new() -> (s: IndexSet<String>)
    ensures
        name_set_items(s) == Seq::<Seq<char>>::empty(),
{
    IndexSet::new()
}

/// `IndexSet::insert_full`: a name that the set holds stays where it is, and
/// its index comes back with `false`; a new name goes behind the last one,
/// and its index comes back with `true`.
#[verifier::external_body]
pub(crate) fn name_set_insert(s: &mut IndexSet<String>, name: String) -> (r: (usize, bool))
    ensures
        r.1 ==> !name_set_items(*old(s)).contains(name@) && r.0 == name_set_items(*old(s)).len()
            && name_set_items(*final(s)) == name_set_items(*old(s)).push(name@),
        !r.1 ==> r.0 < name_set_items(*old(s)).len() && name_set_items(*old(s))[r.0 as int]
            == name@ && name_set_items(*final(s)) == name_set_items(*old(s)),
{
    s.insert_full(name)
}

/// `IndexSet::get_index_of`: the index of the name, the only one at which
/// the set holds it, or nothing where the set does not hold it.
#[verifier::external_body]
pub(crate) fn name_set_index_of(s: &IndexSet<String>, name: &str) -> (r: Option<usize>)
    ensures
        match r {
            Some(i) => i < name_set_items(*s).len() && forall|j: int|
                0 <= j < name_set_items(*s).len() ==> (#[trigger] name_set_items(*s)[j] == name@
                    <==> j == i),
            None => !name_set_items(*s).contains(name@),
        },
{
    s.get_index_of(name)
}

/// `IndexSet::len`: the number of names that the set holds.
#[verifier::external_body]
pub(crate) fn name_set_len(s: &IndexSet<String>) -> (n: usize)
    ensures
        n == name_set_items(*s).len(),
{
    s.len()
}

/// `IndexSet::new`: a set that holds nothing.
#[verifier::external_body]
pub(crate) fn id_set_new() -> (s: IndexSet<u64>)
    ensures
        id_set_items(s) == Seq::<u64>::empty(),
{
    IndexSet::new()
}

/// `IndexSet::insert_full`: an id that the set holds stays where it is, and
/// its index comes back with `false`; a new id goes behind the last one, and
/// its index comes back with `true`.
#[verifier::external_body]
pub(crate) fn id_set_insert(s: &mut IndexSet<u64>, id: u64) -> (r: (usize, bool))
    ensures
        r.1 ==> !id_set_items(*old(s)).contains(id) && r.0 == id_set_items(*old(s)).len()
            && id_set_items(*final(s)) == id_set_items(*old(s)).push(id),
        !r.1 ==> r.0 < id_set_items(*old(s)).len() && id_set_items(*old(s))[r.0 as int] == id
            && id_set_items(*final(s)) == id_set_items(*old(s)),
{
    s.insert_full(id)
}

/// `IndexSet::get_index_of`: the index of the id, the only one at which the
/// set holds it, or nothing where the set does not hold it.
#[verifier::external_body]
pub(crate) fn id_set_index_of(s: &IndexSet<u64>, id: u64) -> (r: Option<usize>)
    ensures
        match r {
            Some(i) => i < id_set_items(*s).len() && forall|j: int|
                0 <= j < id_set_items(*s).len() ==> (#[trigger] id_set_items(*s)[j] == id <==> j
                    == i),
            None => !id_set_items(*s).contains(id),
        },
{
    s.get_index_of(&id)
}

/// `BitSet::new`: a set that holds nothing.
#[verifier::external_body]
pub(crate) fn bit_set_new() -> (s: Bits)
    ensures
        bit_set_members(s) == Set::<usize>::empty(),
{
    Bits { inner: BitSet::new() }
}

/// `BitSet::contains`: whether the set holds the number.
#[verifier::external_body]
pub(crate) fn bit_set_contains(s: &Bits, value: usize) -> (r: bool)
    ensures
        r == bit_set_members(*s).contains(value),
{
    s.inner.contains(value)
}

/// `BitSet::insert`: the set holds the number afterwards; `true` comes back
/// where it did not hold it before.
#[verifier::external_body]
pub(crate) fn bit_set_insert(s: &mut Bits, value: usize) -> (r: bool)
    requires
        value < usize::MAX,
    ensures
        r == !bit_set_members(*old(s)).contains(value),
        bit_set_members(*final(s)) == bit_set_members(*old(s)).insert(value),
{
    s.inner.insert(value)
}

/// `BitSet::remove`: the set does not hold the number afterwards; `true`
/// comes back where it held it before.
#[verifier::external_body]
pub(crate) fn bit_set_remove(s: &mut Bits, value: usize) -> (r: bool)
    ensures
        r == bit_set_members(*old(s)).contains(value),
        bit_set_members(*final(s)) == bit_set_members(*old(s)).remove(value),
{
    s.inner.remove(value)
}

} // verus!
