//! The symbol table: one scope's name-to-slot mapping, chained to an
//! immutable snapshot of the enclosing scope. Slot indices are dense from
//! zero in declaration order, and a name already present locally reuses
//! its slot.

use vstd::prelude::*;
use crate::text::str_eq;

verus! {

/// A scope's names, with the snapshot of its enclosing scope.
pub struct SymTab {
    pub names: Vec<String>,
    pub parent: Option<Box<SymTab>>,
}

/// The whole visible chain as data: this scope's names first, then each
/// ancestor's, outward.
pub open spec fn sym_levels(s: SymTab) -> Seq<Seq<Seq<char>>>
    decreases s,
{
    match s.parent {
        Option::None => seq![s.names@.map_values(|n: String| n@)],
        Option::Some(p) => seq![s.names@.map_values(|n: String| n@)] + sym_levels(*p),
    }
}

/// Whether one scope level holds `name`.
pub open spec fn level_has(level: Seq<Seq<char>>, name: Seq<char>) -> bool {
    exists|j: int| 0 <= j < level.len() && level[j] == name
}

/// Whether any level of the chain holds `name`.
pub open spec fn chain_has(levels: Seq<Seq<Seq<char>>>, name: Seq<char>) -> bool {
    exists|lv: int| 0 <= lv < levels.len() && level_has(#[trigger] levels[lv], name)
}

/// The slot and ancestor distance a lookup of `name` reports: the first
/// matching slot of the innermost level that holds the name.
pub open spec fn resolves_to(
    levels: Seq<Seq<Seq<char>>>,
    name: Seq<char>,
    idx: int,
    lv: int,
) -> bool {
    &&& 0 <= lv < levels.len()
    &&& 0 <= idx < levels[lv].len()
    &&& levels[lv][idx] == name
    &&& forall|l2: int| 0 <= l2 < lv ==> !level_has(#[trigger] levels[l2], name)
    &&& forall|k: int| 0 <= k < idx ==> levels[lv][k] != name
}

/// The first slot of a level that holds `name`.
pub open spec fn first_idx(level: Seq<Seq<char>>, name: Seq<char>) -> int
    decreases level.len(),
{
    if level.len() == 0 {
        0
    } else if level[0] == name {
        0
    } else {
        1 + first_idx(level.drop_first(), name)
    }
}

pub proof fn lemma_first_idx(level: Seq<Seq<char>>, name: Seq<char>)
    requires
        level_has(level, name),
    ensures
        0 <= first_idx(level, name) < level.len(),
        level[first_idx(level, name)] == name,
        forall|k: int| 0 <= k < first_idx(level, name) ==> level[k] != name,
    decreases level.len(),
{
    if level.len() > 0 && level[0] != name {
        let rest = level.drop_first();
        assert(level_has(rest, name)) by {
            let j = choose|j: int| 0 <= j < level.len() && level[j] == name;
            assert(rest[j - 1] == level[j]);
        }
        lemma_first_idx(rest, name);
        assert forall|k: int| 0 <= k < first_idx(level, name) implies level[k] != name by {
            if k > 0 {
                assert(rest[k - 1] == level[k]);
            }
        }
    }
}

/// The ancestor distance at which a lookup of `name` stops: the first
/// level that holds it.
pub open spec fn resolve_lv(levels: Seq<Seq<Seq<char>>>, name: Seq<char>) -> int
    decreases levels.len(),
{
    if levels.len() == 0 {
        0
    } else if level_has(levels[0], name) {
        0
    } else {
        1 + resolve_lv(levels.drop_first(), name)
    }
}

pub proof fn lemma_resolve_lv(levels: Seq<Seq<Seq<char>>>, name: Seq<char>)
    requires
        chain_has(levels, name),
    ensures
        0 <= resolve_lv(levels, name) < levels.len(),
        level_has(levels[resolve_lv(levels, name)], name),
        forall|l2: int| 0 <= l2 < resolve_lv(levels, name) ==> !level_has(
            #[trigger] levels[l2],
            name,
        ),
    decreases levels.len(),
{
    if levels.len() > 0 && !level_has(levels[0], name) {
        let rest = levels.drop_first();
        assert(chain_has(rest, name)) by {
            let lv = choose|lv: int| 0 <= lv < levels.len() && level_has(levels[lv], name);
            assert(rest[lv - 1] == levels[lv]);
        }
        lemma_resolve_lv(rest, name);
        assert(levels[resolve_lv(levels, name)] == rest[resolve_lv(rest, name)]);
        assert forall|l2: int| 0 <= l2 < resolve_lv(levels, name) implies !level_has(
            #[trigger] levels[l2],
            name,
        ) by {
            if l2 > 0 {
                assert(rest[l2 - 1] == levels[l2]);
            }
        }
    }
}

/// A lookup answer determines the slot and distance uniquely: they are the
/// first level holding the name and the first matching slot there.
pub proof fn lemma_resolution_unique(
    levels: Seq<Seq<Seq<char>>>,
    name: Seq<char>,
    idx: int,
    lv: int,
)
    requires
        resolves_to(levels, name, idx, lv),
    ensures
        chain_has(levels, name),
        lv == resolve_lv(levels, name),
        idx == first_idx(levels[lv], name),
{
    assert(chain_has(levels, name));
    lemma_resolve_lv(levels, name);
    let rl = resolve_lv(levels, name);
    if lv < rl {
        assert(level_has(levels[lv], name));
    }
    if rl < lv {
        assert(!level_has(levels[rl], name));
    }
    lemma_first_idx(levels[lv], name);
    let fi = first_idx(levels[lv], name);
    if idx < fi {
        assert(levels[lv][idx] != name);
    }
    if fi < idx {
        assert(levels[lv][fi] != name);
    }
}

impl SymTab {
    /// An empty root scope with no ancestor.
    pub fn global() -> (s: SymTab)
        ensures
            sym_levels(s) == seq![Seq::<Seq<char>>::empty()],
    {
        let s = SymTab { names: Vec::new(), parent: None };
        proof {
            assert(s.names@.map_values(|n: String| n@) =~= Seq::<Seq<char>>::empty());
            assert(sym_levels(s) =~= seq![Seq::<Seq<char>>::empty()]);
        }
        s
    }

    /// A child scope pre-seeded with `names`, chained to the snapshot
    /// `parent`.
    pub fn new(parent: SymTab, names: Vec<String>) -> (s: SymTab)
        ensures
            sym_levels(s) == seq![names@.map_values(|n: String| n@)] + sym_levels(parent),
    {
        SymTab { names, parent: Some(Box::new(parent)) }
    }

    /// The first local slot holding `name`, if any.
    fn find_local(&self, name: &str) -> (r: Option<usize>)
        ensures
            match r {
                Some(j) => (j as int) < self.names@.len() && self.names@[j as int]@ == name@
                    && forall|k: int| 0 <= k < j ==> self.names@[k]@ != name@,
                None => forall|k: int| 0 <= k < self.names@.len() ==> self.names@[k]@ != name@,
            },
    {
        let mut i: usize = 0;
        while i < self.names.len()
            invariant
                i <= self.names@.len(),
                forall|k: int| 0 <= k < i ==> self.names@[k]@ != name@,
            decreases self.names@.len() - i,
        {
            if str_eq(self.names[i].as_str(), name) {
                return Some(i);
            }
            i = i + 1;
        }
        None
    }

    /// The local level of this scope, as data.
    pub open spec fn local_level(self) -> Seq<Seq<char>> {
        self.names@.map_values(|n: String| n@)
    }

    /// Allocate a slot for `name`, reusing the existing one when the name
    /// is already present in this scope.
    pub fn add_name(&mut self, name: &str) -> (idx: usize)
        ensures
            final(self).parent == old(self).parent,
            if level_has(old(self).local_level(), name@) {
                &&& final(self).names == old(self).names
                &&& idx as int == first_idx(old(self).local_level(), name@)
            } else {
                &&& final(self).names@.len() == old(self).names@.len() + 1
                &&& (forall|k: int|
                    0 <= k < old(self).names@.len() ==> final(self).names@[k] == old(
                        self,
                    ).names@[k])
                &&& final(self).names@[old(self).names@.len() as int]@ == name@
                &&& idx as int == old(self).names@.len()
                &&& final(self).local_level() == old(self).local_level().push(name@)
            },
    {
        let ghost lv0 = self.local_level();
        match self.find_local(name) {
            Some(j) => {
                proof {
                    assert(lv0[j as int] == self.names@[j as int]@);
                    assert(level_has(lv0, name@));
                    lemma_first_idx(lv0, name@);
                    assert forall|k: int| 0 <= k < j implies lv0[k] != name@ by {
                        assert(lv0[k] == self.names@[k]@);
                    }
                    let fi = first_idx(lv0, name@);
                    if (j as int) < fi {
                        assert(lv0[j as int] != name@);
                    }
                    if fi < j as int {
                        assert(lv0[fi] != name@);
                    }
                }
                j
            },
            None => {
                proof {
                    assert forall|k: int| 0 <= k < lv0.len() implies lv0[k] != name@ by {
                        assert(lv0[k] == self.names@[k]@);
                    }
                    assert(!level_has(lv0, name@));
                }
                let idx = self.names.len();
                self.names.push(name.to_owned());
                proof {
                    assert(final(self).local_level() =~= lv0.push(name@));
                }
                idx
            },
        }
    }

    /// Look `name` up along the scope chain, innermost first, reporting
    /// the slot index and the number of ancestor hops.
    pub fn get_name(&self, name: &str) -> (r: Option<(usize, usize)>)
        requires
            sym_levels(*self).len() <= usize::MAX,
        ensures
            r is Some <==> chain_has(sym_levels(*self), name@),
            r matches Some(p) ==> resolves_to(sym_levels(*self), name@, p.0 as int, p.1 as int),
        decreases *self,
    {
        let ghost levels = sym_levels(*self);
        let ghost lv0 = self.local_level();
        proof {
            assert(levels[0] == lv0);
        }
        match self.find_local(name) {
            Some(j) => {
                proof {
                    assert(lv0[j as int] == self.names@[j as int]@);
                    assert forall|k: int| 0 <= k < j implies lv0[k] != name@ by {
                        assert(lv0[k] == self.names@[k]@);
                    }
                    assert(resolves_to(levels, name@, j as int, 0));
                }
                Some((j, 0))
            },
            None => {
                proof {
                    assert forall|k: int| 0 <= k < lv0.len() implies lv0[k] != name@ by {
                        assert(lv0[k] == self.names@[k]@);
                    }
                    assert(!level_has(lv0, name@));
                }
                match &self.parent {
                    Some(p) => {
                        let ghost plevels = sym_levels(**p);
                        proof {
                            assert(levels =~= seq![lv0] + plevels);
                            assert forall|lv: int| 0 <= lv < plevels.len() implies levels[lv + 1]
                                == plevels[lv] by {}
                        }
                        match p.get_name(name) {
                            Some((j, lv)) => {
                                proof {
                                    assert(resolves_to(plevels, name@, j as int, lv as int));
                                    assert(resolves_to(levels, name@, j as int, lv + 1)) by {
                                        assert forall|l2: int| 0 <= l2 < lv + 1 implies !level_has(
                                            #[trigger] levels[l2],
                                            name@,
                                        ) by {
                                            if l2 > 0 {
                                                assert(levels[l2] == plevels[l2 - 1]);
                                            }
                                        }
                                    }
                                    assert(chain_has(levels, name@)) by {
                                        assert(level_has(levels[lv + 1], name@));
                                    }
                                }
                                Some((j, lv + 1))
                            },
                            None => {
                                proof {
                                    assert(!chain_has(levels, name@)) by {
                                        if chain_has(levels, name@) {
                                            let lv = choose|lv: int|
                                                0 <= lv < levels.len() && level_has(
                                                    #[trigger] levels[lv],
                                                    name@,
                                                );
                                            if lv > 0 {
                                                assert(levels[lv] == plevels[lv - 1]);
                                                assert(chain_has(plevels, name@));
                                            }
                                        }
                                    }
                                }
                                None
                            },
                        }
                    },
                    None => {
                        proof {
                            assert(levels =~= seq![lv0]);
                            assert(!chain_has(levels, name@)) by {
                                if chain_has(levels, name@) {
                                    let lv = choose|lv: int|
                                        0 <= lv < levels.len() && level_has(
                                            #[trigger] levels[lv],
                                            name@,
                                        );
                                    assert(lv == 0);
                                }
                            }
                        }
                        None
                    },
                }
            },
        }
    }

    /// An independent copy of this scope chain: same names at every level.
    pub fn duplicate(&self) -> (r: SymTab)
        ensures
            sym_levels(r) == sym_levels(*self),
        decreases *self,
    {
        let mut names: Vec<String> = Vec::new();
        let mut i: usize = 0;
        while i < self.names.len()
            invariant
                i <= self.names@.len(),
                names@.len() == i,
                forall|k: int| 0 <= k < i ==> names@[k] == self.names@[k],
            decreases self.names@.len() - i,
        {
            names.push(self.names[i].clone());
            i = i + 1;
        }
        proof {
            assert(names@ =~= self.names@);
        }
        let parent = match &self.parent {
            Some(p) => Some(Box::new(p.duplicate())),
            None => None,
        };
        let r = SymTab { names, parent };
        proof {
            assert(sym_levels(r) =~= sym_levels(*self));
        }
        r
    }
}

} // verus!
