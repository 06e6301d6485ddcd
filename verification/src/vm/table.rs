//! The two-way table that the debugger keeps its breakpoints in, with what
//! the debugger relies on of it.

use bimap::BiBTreeMap;
use vstd::prelude::*;

verus! {

#[verifier::external_type_specification]
#[verifier::external_body]
#[verifier::reject_recursive_types(L)]
#[verifier::reject_recursive_types(R)]
pub struct ExBiBTreeMap<L, R>(BiBTreeMap<L, R>);

/// A place in a program: a function id and an offset in the function.
pub type Spot = (u32, usize);

/// The pairs that a table holds: a place under each number.
pub uninterp spec fn table_pairs(t: BiBTreeMap<usize, Spot>) -> Map<usize, Spot>;

/// No pairs.
pub open spec fn no_pairs() -> Map<usize, Spot> {
    Map::empty()
}

/// The pairs without those of the given place.
pub open spec fn without_place(pairs: Map<usize, Spot>, place: Spot) -> Map<usize, Spot> {
    Map::new(|id: usize| pairs.dom().contains(id) && pairs[id] != place, |id: usize| pairs[id])
}

/// `BiBTreeMap::new`: a table that holds nothing.
#[verifier::external_body]
pub(crate) fn table_new() -> (table: BiBTreeMap<usize, Spot>)
    ensures
        table_pairs(table) == no_pairs(),
{
    BiBTreeMap::new()
}

/// `BiBTreeMap::insert`: the pair goes in; the pair that had the number
/// goes, and so does the pair that had the place.
#[verifier::external_body]
pub(crate) fn table_insert(t: &mut BiBTreeMap<usize, Spot>, id: usize, place: Spot)
    ensures
        table_pairs(*final(t)) == without_place(table_pairs(*old(t)).remove(id), place).insert(
            id,
            place,
        ),
{
    let _ = t.insert(id, place);
}

/// `BiBTreeMap::get_by_right`: a number that the table holds the place
/// under, or nothing where it holds the place under no number.
#[verifier::external_body]
pub(crate) fn table_get_by_right(t: &BiBTreeMap<usize, Spot>, place: Spot) -> (r:
    Option<usize>)
    ensures
        match r {
            Some(id) => table_pairs(*t).dom().contains(id) && table_pairs(*t)[id] == place,
            None => forall|id: usize|
                table_pairs(*t).dom().contains(id) ==> #[trigger] table_pairs(*t)[id] != place,
        },
{
    t.get_by_right(&place).copied()
}

/// `BiBTreeMap::remove_by_left`: the pair of the number goes, and its
/// place comes back; nothing where the table holds nothing under the
/// number.
#[verifier::external_body]
pub(crate) fn table_remove_by_left(t: &mut BiBTreeMap<usize, Spot>, id: usize) -> (r:
    Option<Spot>)
    ensures
        match r {
            Some(place) => table_pairs(*old(t)).dom().contains(id) && table_pairs(*old(t))[id]
                == place && table_pairs(*final(t)) == table_pairs(*old(t)).remove(id),
            None => !table_pairs(*old(t)).dom().contains(id) && table_pairs(*final(t))
                == table_pairs(*old(t)),
        },
{
    t.remove_by_left(&id).map(|pair| pair.1)
}

/// `BiBTreeMap::iter`: the pairs of the table, each once, in ascending
/// order of their numbers.
#[verifier::external_body]
pub(crate) fn table_list(t: &BiBTreeMap<usize, Spot>) -> (v: Vec<(usize, Spot)>)
    ensures
        forall|i: int, j: int| 0 <= i < j < v@.len() ==> v@[i].0 < v@[j].0,
        forall|i: int|
            0 <= i < v@.len() ==> table_pairs(*t).dom().contains(#[trigger] v@[i].0)
                && table_pairs(*t)[v@[i].0] == v@[i].1,
        forall|id: usize|
            table_pairs(*t).dom().contains(id) ==> exists|i: int|
                0 <= i < v@.len() && #[trigger] v@[i].0 == id,
{
    t.iter().map(|(id, place)| (*id, *place)).collect()
}

} // verus!
