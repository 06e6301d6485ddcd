//! Lexical scopes and the symbols that they hold.

use crate::codegen::index::{name_set_index_of, name_set_insert, name_set_items, name_set_new};
use crate::codegen::ty::{Ty, TyView};
use indexmap::IndexSet;
use vstd::prelude::*;

verus! {

/// The source of symbol ids: each id is given out once.
#[derive(Debug)]
pub struct SymbolIdGenerator {
    next_id: u64,
}

impl SymbolIdGenerator {
    /// The id that is given out next.
    pub closed spec fn upcoming(&self) -> u64 {
        self.next_id
    }

    /// A generator that has given out no id.
    pub fn new() -> (g: SymbolIdGenerator)
        ensures
            g.upcoming() == 0,
    {
        SymbolIdGenerator { next_id: 0 }
    }

    /// Gives out the next id.
    pub fn next(&mut self) -> (id: u64)
        requires
            old(self).upcoming() < u64::MAX,
        ensures
            id == old(self).upcoming(),
            final(self).upcoming() == id + 1,
    {
        let id = self.next_id;
        self.next_id = self.next_id + 1;
        id
    }

    /// Gives out the next id, unless all ids are used up.
    pub fn try_next(&mut self) -> (r: Option<u64>)
        ensures
            match r {
                Some(id) => id == old(self).upcoming() && final(self).upcoming() == id + 1,
                None => old(self).upcoming() == u64::MAX && final(self).upcoming() == u64::MAX,
            },
    {
        if self.next_id < u64::MAX {
            Some(self.next())
        } else {
            None
        }
    }
}

/// A named value or function: its id, which no other symbol of the
/// compilation has, its type, and whether it is constant.
#[derive(Debug)]
pub struct Symbol {
    pub id: u64,
    pub ty: Ty,
    pub is_const: bool,
}

impl Symbol {
    /// A symbol that has no id yet.
    pub fn new(ty: Ty, is_const: bool) -> (s: Symbol)
        ensures
            s.id == 0,
            s.ty == ty,
            s.is_const == is_const,
    {
        Symbol { ty, is_const, id: 0 }
    }
}

/// What a symbol holds.
pub struct SymbolView {
    pub id: u64,
    pub ty: TyView,
    pub is_const: bool,
}

impl View for Symbol {
    type V = SymbolView;

    open spec fn view(&self) -> SymbolView {
        SymbolView { id: self.id, ty: self.ty@, is_const: self.is_const }
    }
}

/// What one scope declares: the names, and for each name its symbol.
pub struct FrameView {
    pub names: Seq<Seq<char>>,
    pub symbols: Seq<SymbolView>,
}

/// The scope that declares nothing.
pub open spec fn empty_frame() -> FrameView {
    FrameView { names: Seq::empty(), symbols: Seq::empty() }
}

/// The symbol that a name stands for in a chain of scopes, innermost first,
/// and whether the outermost scope declares it.
pub open spec fn frames_lookup(frames: Seq<FrameView>, name: Seq<char>) -> Option<
    (SymbolView, bool),
>
    decreases frames.len(),
{
    if frames.len() == 0 {
        None
    } else if frames[0].names.contains(name) {
        Some((frames[0].symbols[frames[0].names.index_of(name)], frames.len() == 1))
    } else {
        frames_lookup(frames.skip(1), name)
    }
}

/// A chain of scopes with one more declaration in its innermost scope.
pub open spec fn frames_declare(frames: Seq<FrameView>, name: Seq<char>, symbol: SymbolView) -> Seq<
    FrameView,
> {
    frames.update(
        0,
        FrameView { names: frames[0].names.push(name), symbols: frames[0].symbols.push(symbol) },
    )
}

/// A lexical scope: its own symbols by name, in the order in which they were
/// declared, and the scope around it. The root scope is the global one.
pub struct Scope<'p> {
    parent: Option<&'p Scope<'p>>,
    names: IndexSet<String>,
    symbols: Vec<Symbol>,
}

impl<'p> Scope<'p> {
    /// The scope around this one, if this one is not the root.
    pub closed spec fn outer(&self) -> Option<&'p Scope<'p>> {
        self.parent
    }

    /// The names that the scope itself declares, in the order of declaration.
    pub closed spec fn names(&self) -> Seq<Seq<char>> {
        name_set_items(self.names)
    }

    /// The symbols that the scope itself declares, in the order of
    /// declaration.
    pub closed spec fn symbols(&self) -> Seq<Symbol> {
        self.symbols@
    }

    /// What the scope itself declares.
    pub open spec fn frame(&self) -> FrameView {
        FrameView {
            names: self.names(),
            symbols: Seq::new(self.symbols().len(), |i: int| self.symbols()[i]@),
        }
    }

    /// The chain of scopes from this one outward.
    pub open spec fn chain(&self) -> Seq<FrameView>
        decreases self,
    {
        seq![self.frame()] + match self.outer() {
            Some(p) => p.chain(),
            None => Seq::empty(),
        }
    }

    /// The chain of a scope begins with the scope itself; behind it comes
    /// the chain of the scope around it.
    pub proof fn lemma_chain(&self)
        ensures
            self.chain().len() >= 1,
            self.chain()[0] == self.frame(),
            self.chain().skip(1) == match self.outer() {
                Some(p) => p.chain(),
                None => Seq::empty(),
            },
            self.outer() is None ==> self.chain().len() == 1,
            self.outer() matches Some(p) ==> self.chain().len() == p.chain().len() + 1,
    {
        let rest = match self.outer() {
            Some(p) => p.chain(),
            None => Seq::empty(),
        };
        assert(self.chain() == seq![self.frame()] + rest);
        assert((seq![self.frame()] + rest).skip(1) =~= rest);
    }

    /// A name is looked up in a chain in the scope itself first, and then in
    /// the chain of the scope around it.
    pub proof fn lemma_lookup_chain(&self, name: Seq<char>)
        ensures
            self.wf() ==> frames_lookup(self.chain(), name) == if self.names().contains(name) {
                Some((self.symbols()[self.names().index_of(name)]@, self.outer() is None))
            } else {
                match self.outer() {
                    Some(p) => frames_lookup(p.chain(), name),
                    None => None,
                }
            },
    {
        self.lemma_chain();
        if let Some(p) = self.outer() {
            p.lemma_chain();
        } else {
            assert(frames_lookup(Seq::<FrameView>::empty(), name) is None);
        }
    }

    /// Each name has its symbol, and no name is declared twice.
    pub open spec fn wf(&self) -> bool {
        &&& self.names().len() == self.symbols().len()
        &&& self.names().no_duplicates()
    }

    /// The whole chain of scopes is well-formed.
    pub open spec fn chain_wf(&self) -> bool
        decreases self,
    {
        self.wf() && match self.outer() {
            Some(p) => p.chain_wf(),
            None => true,
        }
    }

    /// The scope of the chain that declares a name, counted from this scope
    /// outward, if one does: the innermost one.
    pub open spec fn depth_of(&self, name: Seq<char>) -> Option<nat>
        decreases self,
    {
        if self.names().contains(name) {
            Some(0)
        } else {
            match self.outer() {
                Some(p) => match p.depth_of(name) {
                    Some(d) => Some(d + 1),
                    None => None,
                },
                None => None,
            }
        }
    }

    /// The symbol that a name stands for in this scope: the one that the
    /// innermost scope around declares under the name.
    pub open spec fn lookup(&self, name: Seq<char>) -> Option<Symbol>
        decreases self,
    {
        if self.names().contains(name) {
            Some(self.symbols()[self.names().index_of(name)])
        } else {
            match self.outer() {
                Some(p) => p.lookup(name),
                None => None,
            }
        }
    }

    /// Whether the scope of the chain that declares a name is the root.
    pub open spec fn declared_in_root(&self, name: Seq<char>) -> bool
        decreases self,
    {
        if self.names().contains(name) {
            self.outer() is None
        } else {
            match self.outer() {
                Some(p) => p.declared_in_root(name),
                None => false,
            }
        }
    }

    /// An empty scope inside `parent`.
    pub fn new_with_parent(parent: &'p Scope<'p>) -> (s: Scope<'p>)
        ensures
            s.outer() == Some(parent),
            s.names() == Seq::<Seq<char>>::empty(),
            s.symbols() == Seq::<Symbol>::empty(),
            s.wf(),
            s.chain() == seq![empty_frame()] + parent.chain(),
            parent.chain_wf() ==> s.chain_wf(),
    {
        let s = Scope { parent: Some(parent), names: name_set_new(), symbols: Vec::new() };
        assert(s.frame().symbols =~= empty_frame().symbols);
        s
    }

    /// An empty root scope.
    pub fn new() -> (s: Scope<'p>)
        ensures
            s.outer() is None,
            s.names() == Seq::<Seq<char>>::empty(),
            s.symbols() == Seq::<Symbol>::empty(),
            s.wf(),
            s.chain_wf(),
            s.chain() == seq![empty_frame()],
    {
        let s = Scope { parent: None, names: name_set_new(), symbols: Vec::new() };
        assert(s.frame().symbols =~= empty_frame().symbols);
        assert(s.chain() =~= seq![empty_frame()]);
        s
    }

    /// The symbol that the scope itself declares under a name.
    pub fn find_in_self(&self, ident: &str) -> (r: Option<&Symbol>)
        requires
            self.wf(),
        ensures
            match r {
                Some(s) => self.names().contains(ident@) && *s == self.symbols()[self.names().index_of(
                    ident@,
                )],
                None => !self.names().contains(ident@),
            },
    {
        match name_set_index_of(&self.names, ident) {
            Some(i) => {
                proof {
                    let k = self.names().index_of(ident@);
                    assert(self.names()[i as int] == ident@);
                    assert(self.names().contains(ident@));
                    assert(self.names()[k] == ident@);
                }
                Some(&self.symbols[i])
            },
            None => None,
        }
    }

    /// The symbol that a name stands for in this scope.
    pub fn find(&self, ident: &str) -> (r: Option<&Symbol>)
        requires
            self.chain_wf(),
        ensures
            match r {
                Some(s) => self.lookup(ident@) == Some(*s) && (frames_lookup(self.chain(), ident@)
                    matches Some((x, _)) && x == s@),
                None => self.lookup(ident@) is None && frames_lookup(self.chain(), ident@) is None,
            },
        decreases self,
    {
        proof {
            self.lemma_lookup_chain(ident@);
        }
        match self.find_in_self(ident) {
            Some(s) => Some(s),
            None => match self.parent {
                Some(p) => p.find(ident),
                None => None,
            },
        }
    }

    /// Whether the scope is the root of its chain.
    pub fn is_root_scope(&self) -> (r: bool)
        ensures
            r == (self.outer() is None),
    {
        self.parent.is_none()
    }

    /// The scope around this one, if this one is not the root.
    pub fn parent(&self) -> (r: Option<&'p Scope<'p>>)
        ensures
            r == self.outer(),
    {
        self.parent
    }

    /// The symbol that a name stands for in this scope, and whether the root
    /// scope declares it.
    pub fn find_is_global(&self, ident: &str) -> (r: Option<(&Symbol, bool)>)
        requires
            self.chain_wf(),
        ensures
            match r {
                Some((s, global)) => self.lookup(ident@) == Some(*s) && global
                    == self.declared_in_root(ident@) && frames_lookup(self.chain(), ident@)
                    == Some((s@, global)),
                None => self.lookup(ident@) is None && frames_lookup(self.chain(), ident@) is None,
            },
        decreases self,
    {
        proof {
            self.lemma_lookup_chain(ident@);
        }
        match self.find_in_self(ident) {
            Some(s) => Some((s, self.is_root_scope())),
            None => match self.parent {
                Some(p) => p.find_is_global(ident),
                None => None,
            },
        }
    }

    /// Declares a symbol under a name, with a fresh id, and gives the id.
    /// A name that the scope itself declares already is refused, whatever the
    /// scopes around declare; so is every name once the ids are used up.
    pub fn insert(&mut self, symbol_gen: &mut SymbolIdGenerator, ident: String, symbol: Symbol) -> (r:
        Option<u64>)
        requires
            old(self).wf(),
        ensures
            final(self).wf(),
            final(self).outer() == old(self).outer(),
            old(self).chain_wf() ==> final(self).chain_wf(),
            final(self).chain().len() == old(self).chain().len(),
            match r {
                Some(id) => final(self).chain() == frames_declare(
                    old(self).chain(),
                    ident@,
                    SymbolView { id, ty: symbol.ty@, is_const: symbol.is_const },
                ),
                None => final(self).chain() == old(self).chain(),
            },
            match r {
                Some(id) => !old(self).names().contains(ident@) && id == old(symbol_gen).upcoming()
                    && final(symbol_gen).upcoming() == id + 1 && final(self).names() == old(self).names().push(ident@) && final(self).symbols() == old(self).symbols().push(
                    Symbol { id, ty: symbol.ty, is_const: symbol.is_const },
                ),
                None => (old(self).names().contains(ident@) || old(symbol_gen).upcoming()
                    == u64::MAX) && final(self).names() == old(self).names() && final(self).symbols() == old(self).symbols() && final(symbol_gen).upcoming() == old(symbol_gen).upcoming(),
            },
    {
        proof {
            self.lemma_chain();
        }
        let ghost chain_before = self.chain();
        match name_set_index_of(&self.names, ident.as_str()) {
            Some(i) => {
                assert(self.names()[i as int] == ident@);
                None
            },
            None => {
                match symbol_gen.try_next() {
                    None => None,
                    Some(id) => {
                        let ghost before = self.names();
                        let ghost name = ident@;
                        let placed = name_set_insert(&mut self.names, ident);
                        proof {
                            if !placed.1 {
                                assert(before[placed.0 as int] == name);
                                assert(before.contains(name));
                            }
                        }
                        self.symbols.push(Symbol { id, ty: symbol.ty, is_const: symbol.is_const });
                        proof {
                            assert forall|i: int, j: int|
                                0 <= i < self.names().len() && 0 <= j < self.names().len() && i
                                    != j implies self.names()[i] != self.names()[j] by {
                                if i < before.len() && j < before.len() {
                                    assert(before[i] != before[j]);
                                } else if i < before.len() {
                                    assert(before.contains(before[i]));
                                } else if j < before.len() {
                                    assert(before.contains(before[j]));
                                }
                            }
                        }
                        proof {
                            self.lemma_chain();
                            assert(self.frame().symbols =~= old(self).frame().symbols.push(
                                SymbolView { id, ty: symbol.ty@, is_const: symbol.is_const },
                            ));
                            assert(self.chain() =~= frames_declare(
                                chain_before,
                                name,
                                SymbolView { id, ty: symbol.ty@, is_const: symbol.is_const },
                            ));
                        }
                        Some(id)
                    },
                }
            },
        }
    }
}

} // verus!
