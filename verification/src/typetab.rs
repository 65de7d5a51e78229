//! The type table: per-slot histories of `(type, nesting depth)` entries,
//! parallel to the symbol table's slots and chained to the enclosing
//! scope's snapshot the same way. A slot's recorded type may be refined at
//! a deeper nesting level by appending an entry, never by overwriting.

use vstd::prelude::*;
use crate::types::Type;

verus! {

/// A scope's slot histories, with the snapshot of its enclosing scope.
pub struct TypeTab {
    pub slots: Vec<Vec<(Type, u32)>>,
    pub parent: Option<Box<TypeTab>>,
}

/// The whole visible chain as data: this scope's slot histories first,
/// then each ancestor's, outward.
pub open spec fn type_levels(t: TypeTab) -> Seq<Seq<Seq<(Type, u32)>>>
    decreases t,
{
    match t.parent {
        Option::None => seq![t.slots@.map_values(|h: Vec<(Type, u32)>| h@)],
        Option::Some(p) => seq![t.slots@.map_values(|h: Vec<(Type, u32)>| h@)] + type_levels(*p),
    }
}

/// The type a slot history resolves to: its most recent entry, or `Nil`
/// while nothing has been recorded yet.
pub open spec fn spec_slot_type(hist: Seq<(Type, u32)>) -> Type {
    if hist.len() == 0 {
        Type::Nil
    } else {
        hist.last().0
    }
}

impl TypeTab {
    /// This scope's own slot histories, as data.
    pub open spec fn local_level(self) -> Seq<Seq<(Type, u32)>> {
        self.slots@.map_values(|h: Vec<(Type, u32)>| h@)
    }

    /// An empty root table with no ancestor.
    pub fn global() -> (t: TypeTab)
        ensures
            type_levels(t) == seq![Seq::<Seq<(Type, u32)>>::empty()],
    {
        let t = TypeTab { slots: Vec::new(), parent: None };
        proof {
            assert(t.slots@.map_values(|h: Vec<(Type, u32)>| h@) =~= Seq::<
                Seq<(Type, u32)>,
            >::empty());
            assert(type_levels(t) =~= seq![Seq::<Seq<(Type, u32)>>::empty()]);
        }
        t
    }

    /// A child table pre-seeded with `slots`, chained to the snapshot
    /// `parent`.
    pub fn new(parent: TypeTab, slots: Vec<Vec<(Type, u32)>>) -> (t: TypeTab)
        ensures
            type_levels(t) == seq![slots@.map_values(|h: Vec<(Type, u32)>| h@)] + type_levels(
                parent,
            ),
    {
        TypeTab { slots, parent: Some(Box::new(parent)) }
    }

    /// Append one fresh, empty slot history, aligned with a newly added
    /// symbol slot.
    pub fn grow(&mut self)
        ensures
            type_levels(*final(self)) == type_levels(*old(self)).update(
                0,
                old(self).local_level().push(Seq::empty()),
            ),
    {
        self.slots.push(Vec::new());
        proof {
            assert(final(self).local_level() =~= old(self).local_level().push(Seq::empty()));
            assert(type_levels(*final(self)) =~= type_levels(*old(self)).update(
                0,
                old(self).local_level().push(Seq::empty()),
            ));
        }
    }

    /// Append a type-history entry for the slot reached after `env_index`
    /// ancestor hops; fails when no such slot exists at that level.
    pub fn set_type(&mut self, index: usize, env_index: usize, entry: (Type, u32)) -> (r: Result<
        (),
        (),
    >)
        ensures
            ({
                let levels = type_levels(*old(self));
                if env_index < levels.len() && index < levels[env_index as int].len() {
                    &&& r is Ok
                    &&& type_levels(*final(self)) == levels.update(
                        env_index as int,
                        levels[env_index as int].update(
                            index as int,
                            levels[env_index as int][index as int].push(entry),
                        ),
                    )
                } else {
                    &&& r is Err
                    &&& *final(self) == *old(self)
                }
            }),
        decreases *old(self),
    {
        let ghost levels = type_levels(*old(self));
        if env_index == 0 {
            if index < self.slots.len() {
                self.slots[index].push(entry);
                proof {
                    assert(final(self).local_level() =~= old(self).local_level().update(
                        index as int,
                        old(self).local_level()[index as int].push(entry),
                    ));
                    assert(type_levels(*final(self)) =~= levels.update(
                        0,
                        levels[0].update(index as int, levels[0][index as int].push(entry)),
                    ));
                }
                Ok(())
            } else {
                Err(())
            }
        } else {
            match &mut self.parent {
                Some(p) => {
                    let ghost plevels = type_levels(**p);
                    let r = p.set_type(index, env_index - 1, entry);
                    proof {
                        assert(levels =~= seq![old(self).local_level()] + plevels);
                        if env_index < levels.len() && index < levels[env_index as int].len() {
                            assert(levels[env_index as int] == plevels[env_index - 1]);
                            assert(type_levels(*final(self)) =~= levels.update(
                                env_index as int,
                                levels[env_index as int].update(
                                    index as int,
                                    levels[env_index as int][index as int].push(entry),
                                ),
                            ));
                        }
                    }
                    r
                },
                None => Err(()),
            }
        }
    }

    /// Resolve the type recorded for the slot reached after `env_index`
    /// ancestor hops: the most recent entry of its history, or `Nil` while
    /// the history is still empty; fails when no such slot exists.
    pub fn get_type(&self, index: usize, env_index: usize) -> (r: Result<Type, ()>)
        ensures
            ({
                let levels = type_levels(*self);
                if env_index < levels.len() && index < levels[env_index as int].len() {
                    r matches Ok(t) && t == spec_slot_type(levels[env_index as int][index as int])
                } else {
                    r is Err
                }
            }),
        decreases *self,
    {
        if env_index == 0 {
            if index < self.slots.len() {
                let n = self.slots[index].len();
                if n == 0 {
                    Ok(Type::Nil)
                } else {
                    Ok(self.slots[index][n - 1].0.dup())
                }
            } else {
                Err(())
            }
        } else {
            match &self.parent {
                Some(p) => {
                    let ghost levels = type_levels(*self);
                    let ghost plevels = type_levels(**p);
                    proof {
                        assert(levels =~= seq![self.local_level()] + plevels);
                        if env_index < levels.len() {
                            assert(levels[env_index as int] == plevels[env_index - 1]);
                        }
                    }
                    p.get_type(index, env_index - 1)
                },
                None => Err(()),
            }
        }
    }

    /// An independent copy of this table chain: the same histories at
    /// every level.
    pub fn duplicate(&self) -> (r: TypeTab)
        ensures
            type_levels(r) == type_levels(*self),
        decreases *self,
    {
        let mut slots: Vec<Vec<(Type, u32)>> = Vec::new();
        let mut i: usize = 0;
        while i < self.slots.len()
            invariant
                i <= self.slots@.len(),
                slots@.len() == i,
                forall|k: int| 0 <= k < i ==> slots@[k]@ == self.slots@[k]@,
            decreases self.slots@.len() - i,
        {
            let mut hist: Vec<(Type, u32)> = Vec::new();
            let mut j: usize = 0;
            while j < self.slots[i].len()
                invariant
                    i < self.slots@.len(),
                    j <= self.slots@[i as int]@.len(),
                    hist@.len() == j,
                    forall|k: int| 0 <= k < j ==> hist@[k] == self.slots@[i as int]@[k],
                decreases self.slots@[i as int]@.len() - j,
            {
                let t = self.slots[i][j].0.dup();
                let d = self.slots[i][j].1;
                hist.push((t, d));
                j = j + 1;
            }
            proof {
                assert(hist@ =~= self.slots@[i as int]@);
            }
            slots.push(hist);
            i = i + 1;
        }
        let parent = match &self.parent {
            Some(p) => Some(Box::new(p.duplicate())),
            None => None,
        };
        let r = TypeTab { slots, parent };
        proof {
            assert(r.local_level() =~= self.local_level());
            assert(type_levels(r) =~= type_levels(*self));
        }
        r
    }
}

} // verus!
