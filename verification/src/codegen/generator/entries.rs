//! The tables of a compilation: the functions by name, and the globals by
//! the id of the symbol that they belong to.

use crate::codegen::index::{
    id_set_index_of, id_set_insert, id_set_items, id_set_new, name_set_index_of, name_set_insert,
    name_set_items, name_set_new,
};
use crate::s0::{GlobalValue, GlobalValueView};
use indexmap::IndexSet;
use vstd::prelude::*;
use vstd::string::*;

verus! {

/// The index of an item in a sequence, where the sequence holds the item and
/// the index fits the operand of an instruction.
pub open spec fn index_u32<T>(s: Seq<T>, x: T) -> Option<u32> {
    if s.contains(x) && s.index_of(x) <= u32::MAX {
        Some(s.index_of(x) as u32)
    } else {
        None
    }
}

proof fn lemma_index_unique<T>(s: Seq<T>, i: int)
    requires
        s.no_duplicates(),
        0 <= i < s.len(),
    ensures
        s.contains(s[i]),
        s.index_of(s[i]) == i,
{
    assert(s.contains(s[i]));
    let k = s.index_of(s[i]);
    assert(s[k] == s[i]);
}

/// The functions and the globals of the module that is generated, each in
/// the order in which it was entered: the index of an entry is its id in the
/// module.
pub struct GlobalEntries {
    functions: IndexSet<String>,
    value_ids: IndexSet<u64>,
    values: Vec<GlobalValue>,
}

impl GlobalEntries {
    /// The names of the functions, by function id.
    pub closed spec fn functions(&self) -> Seq<Seq<char>> {
        name_set_items(self.functions)
    }

    /// The symbol ids of the globals, by global id.
    pub closed spec fn value_ids(&self) -> Seq<u64> {
        id_set_items(self.value_ids)
    }

    /// The globals, by global id.
    pub closed spec fn values(&self) -> Seq<GlobalValueView> {
        Seq::new(self.values@.len(), |i: int| self.values@[i]@)
    }

    /// Each global has its symbol id, no function and no symbol is entered
    /// twice, and every id fits an instruction.
    pub open spec fn wf(&self) -> bool {
        &&& self.value_ids().len() == self.values().len()
        &&& self.value_ids().no_duplicates()
        &&& self.functions().no_duplicates()
        &&& self.values().len() <= u32::MAX
        &&& self.functions().len() <= u32::MAX
    }

    /// The tables of a module that has only its entry function, `_start`.
    pub fn new() -> (e: GlobalEntries)
        ensures
            e.wf(),
            e.functions() == seq!["_start"@],
            e.values() == Seq::<GlobalValueView>::empty(),
            e.value_ids() == Seq::<u64>::empty(),
    {
        let mut functions = name_set_new();
        let _ = name_set_insert(&mut functions, String::from_str("_start"));
        let e = GlobalEntries { functions, value_ids: id_set_new(), values: Vec::new() };
        assert(e.functions() =~= seq!["_start"@]);
        assert(e.values() =~= Seq::<GlobalValueView>::empty());
        e
    }

    /// The id of the function with the given name, where the functions hold
    /// it and the id fits an instruction.
    pub fn function_id(&self, func_name: &str) -> (r: Option<u32>)
        requires
            self.wf(),
        ensures
            r == index_u32(self.functions(), func_name@),
            match r {
                Some(id) => id < self.functions().len() && self.functions()[id as int]
                    == func_name@,
                None => !self.functions().contains(func_name@) || self.functions().len()
                    > u32::MAX,
            },
    {
        match name_set_index_of(&self.functions, func_name) {
            Some(i) => {
                proof {
                    assert(self.functions()[i as int] == func_name@);
                    lemma_index_unique(self.functions(), i as int);
                }
                if i <= u32::MAX as usize {
                    Some(i as u32)
                } else {
                    None
                }
            },
            None => None,
        }
    }

    /// The id of the global of the symbol with the given id, where the
    /// globals hold one and the id fits an instruction.
    pub fn value_id(&self, symbol_id: u64) -> (r: Option<u32>)
        requires
            self.wf(),
        ensures
            r == index_u32(self.value_ids(), symbol_id),
            match r {
                Some(id) => id < self.value_ids().len() && self.value_ids()[id as int]
                    == symbol_id,
                None => !self.value_ids().contains(symbol_id) || self.value_ids().len()
                    > u32::MAX,
            },
    {
        match id_set_index_of(&self.value_ids, symbol_id) {
            Some(i) => {
                proof {
                    assert(self.value_ids()[i as int] == symbol_id);
                    lemma_index_unique(self.value_ids(), i as int);
                }
                if i <= u32::MAX as usize {
                    Some(i as u32)
                } else {
                    None
                }
            },
            None => None,
        }
    }

    /// The number of functions.
    pub fn function_count(&self) -> (n: usize)
        ensures
            n == self.functions().len(),
    {
        crate::codegen::index::name_set_len(&self.functions)
    }

    /// Enters a function behind the functions that are there, and gives its
    /// id. A name that the functions hold already is refused, and so is one
    /// whose id would not fit an instruction.
    pub fn add_function(&mut self, name: String) -> (r: Option<u32>)
        requires
            old(self).wf(),
        ensures
            final(self).wf(),
            final(self).values() == old(self).values(),
            final(self).value_ids() == old(self).value_ids(),
            r is Some <==> !old(self).functions().contains(name@) && old(self).functions().len()
                < u32::MAX,
            match r {
                Some(id) => !old(self).functions().contains(name@) && id == old(self).functions().len() && final(self).functions() == old(self).functions().push(
                    name@,
                ),
                None => final(self).functions() == old(self).functions() && (old(self).functions().contains(name@) || old(self).functions().len() >= u32::MAX),
            },
    {
        let n = crate::codegen::index::name_set_len(&self.functions);
        if n >= u32::MAX as usize {
            return None;
        }
        match name_set_index_of(&self.functions, name.as_str()) {
            Some(i) => {
                assert(self.functions()[i as int] == name@);
                None
            },
            None => {
                let ghost before = self.functions();
                let ghost text = name@;
                let placed = name_set_insert(&mut self.functions, name);
                proof {
                    if !placed.1 {
                        assert(before[placed.0 as int] == text);
                        assert(before.contains(text));
                    }
                    assert forall|i: int, j: int|
                        0 <= i < self.functions().len() && 0 <= j < self.functions().len() && i
                            != j implies self.functions()[i] != self.functions()[j] by {
                        if i < before.len() && j < before.len() {
                            assert(before[i] != before[j]);
                        } else if i < before.len() {
                            assert(before.contains(before[i]));
                        } else if j < before.len() {
                            assert(before.contains(before[j]));
                        }
                    }
                }
                Some(n as u32)
            },
        }
    }

    /// Enters the global of the symbol with the given id behind the globals
    /// that are there, and gives its id. A symbol that has a global already
    /// gets the new bytes in place of the old ones. A global whose id would
    /// not fit an instruction is refused.
    pub fn insert_value(&mut self, val_id: u64, bytes: Vec<u8>, is_const: bool) -> (r: Option<u32>)
        requires
            old(self).wf(),
        ensures
            final(self).wf(),
            final(self).functions() == old(self).functions(),
            final(self).values().len() >= old(self).values().len(),
            r is Some <==> old(self).values().len() < u32::MAX,
            r matches Some(id) ==> Some(id) == index_u32(final(self).value_ids(), val_id),
            match r {
                Some(id) => id < final(self).values().len() && final(self).values()[id as int] == (
                GlobalValueView { is_const, bytes: bytes@ }) && final(self).value_ids()[id as int]
                    == val_id && (if old(self).value_ids().contains(val_id) {
                    final(self).values() == old(self).values().update(
                        id as int,
                        GlobalValueView { is_const, bytes: bytes@ },
                    ) && final(self).value_ids() == old(self).value_ids()
                } else {
                    id == old(self).values().len() && final(self).values() == old(self).values().push(GlobalValueView { is_const, bytes: bytes@ }) && final(self).value_ids() == old(self).value_ids().push(val_id)
                }),
                None => final(self).values() == old(self).values() && final(self).value_ids()
                    == old(self).value_ids() && old(self).values().len() >= u32::MAX,
            },
    {
        let n = self.values.len();
        if n >= u32::MAX as usize {
            return None;
        }
        let ghost ids_before = self.value_ids();
        let ghost values_before = self.values();
        let ghost view = GlobalValueView { is_const, bytes: bytes@ };
        let placed = id_set_insert(&mut self.value_ids, val_id);
        if placed.1 {
            self.values.push(GlobalValue { is_const, bytes });
            assert(self.values() =~= values_before.push(view));
            proof {
                assert forall|i: int, j: int|
                    0 <= i < self.value_ids().len() && 0 <= j < self.value_ids().len() && i
                        != j implies self.value_ids()[i] != self.value_ids()[j] by {
                    if i < ids_before.len() && j < ids_before.len() {
                        assert(ids_before[i] != ids_before[j]);
                    } else if i < ids_before.len() {
                        assert(ids_before.contains(ids_before[i]));
                    } else if j < ids_before.len() {
                        assert(ids_before.contains(ids_before[j]));
                    }
                }
                lemma_index_unique(self.value_ids(), placed.0 as int);
            }
            Some(placed.0 as u32)
        } else {
            self.values.set(placed.0, GlobalValue { is_const, bytes });
            assert(self.values() =~= values_before.update(placed.0 as int, view));
            assert(ids_before.contains(val_id));
            proof {
                lemma_index_unique(self.value_ids(), placed.0 as int);
            }
            Some(placed.0 as u32)
        }
    }

    /// Enters a global constant that holds the bytes of a string, for the
    /// symbol with the given id, and gives its id.
    pub fn insert_string_literal(&mut self, s: &str, val_id: u64) -> (r: Option<u32>)
        requires
            old(self).wf(),
        ensures
            final(self).wf(),
            final(self).functions() == old(self).functions(),
            final(self).values().len() >= old(self).values().len(),
            r is Some <==> old(self).values().len() < u32::MAX,
            match r {
                Some(id) => id < final(self).values().len() && final(self).values()[id as int] == (
                GlobalValueView { is_const: true, bytes: s.spec_bytes() }) && Some(id) == index_u32(
                    final(self).value_ids(),
                    val_id,
                ) && (if old(self).value_ids().contains(val_id) {
                    final(self).values() == old(self).values().update(
                        id as int,
                        GlobalValueView { is_const: true, bytes: s.spec_bytes() },
                    ) && final(self).value_ids() == old(self).value_ids()
                } else {
                    final(self).values() == old(self).values().push(
                        GlobalValueView { is_const: true, bytes: s.spec_bytes() },
                    ) && final(self).value_ids() == old(self).value_ids().push(val_id)
                }),
                None => final(self).values() == old(self).values() && final(self).value_ids()
                    == old(self).value_ids(),
            },
    {
        self.insert_value(val_id, s.as_bytes_vec(), true)
    }

    /// The globals, by global id.
    pub fn into_values(self) -> (v: Vec<GlobalValue>)
        ensures
            Seq::new(v@.len(), |i: int| v@[i]@) == self.values(),
    {
        self.values
    }

    /// The number of globals.
    pub fn value_count(&self) -> (n: usize)
        ensures
            n == self.values().len(),
    {
        self.values.len()
    }
}

} // verus!
