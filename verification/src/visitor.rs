//! The resolver: a depth-first walk of the statement sequence that keeps
//! a stack of scope pairs (symbol table + type table), resolves every
//! identifier against the scope chain, checks or infers declared types,
//! and archives every closed scope for later inspection.
//!
//! Each operation is specified against a model of the scope pair — the
//! name levels and the slot-history levels as plain sequences — and the
//! executable code is proved to transform the model exactly as the
//! functional description (`spec_visit_seq` and its helpers) says.

use vstd::prelude::*;
use crate::ast::{Expression, ExpressionNode, Statement, StatementNode};
use crate::error::{SemanticError, SemanticErrorKind};
use crate::token::Position;
use crate::symtab::{
    chain_has, first_idx, lemma_resolution_unique, level_has, resolve_lv, sym_levels, SymTab,
};
use crate::typetab::{spec_slot_type, type_levels, TypeTab};
use crate::types::{type_eq, Type};

verus! {

/// A scope pair as data: the name levels and the slot-history levels of
/// the visible chain, innermost first.
pub struct ScopeModel {
    pub syms: Seq<Seq<Seq<char>>>,
    pub typs: Seq<Seq<Seq<(Type, u32)>>>,
}

/// The model of one scope pair.
pub open spec fn pair_model(st: SymTab, tt: TypeTab) -> ScopeModel {
    ScopeModel { syms: sym_levels(st), typs: type_levels(tt) }
}

/// The tables stay aligned: as many type levels as name levels, and at
/// every level at least one slot history per name.
pub open spec fn model_wf(m: ScopeModel) -> bool {
    &&& m.syms.len() == m.typs.len()
    &&& m.syms.len() > 0
    &&& forall|lv: int| 0 <= lv < m.syms.len() ==> (#[trigger] m.typs[lv]).len() >= m.syms[lv].len()
}

/// The model of the empty root scope.
pub open spec fn model_global() -> ScopeModel {
    ScopeModel {
        syms: seq![Seq::<Seq<char>>::empty()],
        typs: seq![Seq::<Seq<(Type, u32)>>::empty()],
    }
}

/// Entering a nested scope: a fresh empty level in front of the snapshot
/// of the current chain.
pub open spec fn model_push(m: ScopeModel) -> ScopeModel {
    ScopeModel {
        syms: seq![Seq::<Seq<char>>::empty()] + m.syms,
        typs: seq![Seq::<Seq<(Type, u32)>>::empty()] + m.typs,
    }
}

/// Allocating the slot for a declared name: the existing local slot when
/// the name is present in the innermost level, a fresh one otherwise, and
/// in either case one fresh empty slot history.
pub open spec fn model_declare_slot(m: ScopeModel, name: Seq<char>) -> (ScopeModel, int) {
    let lv0 = m.syms[0];
    let idx: int = if level_has(lv0, name) {
        first_idx(lv0, name)
    } else {
        lv0.len() as int
    };
    let syms1 = if level_has(lv0, name) {
        m.syms
    } else {
        m.syms.update(0, lv0.push(name))
    };
    let typs1 = m.typs.update(0, m.typs[0].push(Seq::empty()));
    (ScopeModel { syms: syms1, typs: typs1 }, idx)
}

/// Recording a type for a local slot: one entry appended to its history.
pub open spec fn model_record(m: ScopeModel, idx: int, entry: (Type, u32)) -> ScopeModel {
    ScopeModel {
        syms: m.syms,
        typs: m.typs.update(0, m.typs[0].update(idx, m.typs[0][idx].push(entry))),
    }
}

/// Visiting an expression resolves identifiers and accepts everything
/// else; an identifier with no visible declaration is the error, carrying
/// its name and position.
pub open spec fn spec_visit_expression(m: ScopeModel, e: Expression) -> Result<(), SemanticError> {
    match e.node {
        ExpressionNode::Identifier(name) => if chain_has(m.syms, name@) {
            Ok(())
        } else {
            Err(SemanticError { kind: SemanticErrorKind::Unresolved(name), position: e.pos })
        },
        _ => Ok(()),
    }
}

/// The type of an expression: literals type themselves, an identifier
/// resolves through the chain to its slot's recorded type, and every
/// other node is `Nil`.
pub open spec fn spec_type_expression(m: ScopeModel, e: Expression) -> Result<Type, SemanticError> {
    match e.node {
        ExpressionNode::Identifier(name) => if chain_has(m.syms, name@) {
            let lv = resolve_lv(m.syms, name@);
            let idx = first_idx(m.syms[lv], name@);
            Ok(spec_slot_type(m.typs[lv][idx]))
        } else {
            Err(SemanticError { kind: SemanticErrorKind::Unresolved(name), position: e.pos })
        },
        ExpressionNode::Str(_) => Ok(Type::Str),
        ExpressionNode::Char(_) => Ok(Type::Char),
        ExpressionNode::Bool(_) => Ok(Type::Bool),
        ExpressionNode::Int(_) => Ok(Type::Int),
        ExpressionNode::Float(_) => Ok(Type::Float),
        _ => Ok(Type::Nil),
    }
}

/// Visiting a declaration: allocate or reuse the local slot and grow the
/// type table; then, with an initializer, resolve it, infer its type, and
/// check a declared type against it — the only accepted widening is an
/// integer literal under declared `Int` or `Float` — recording the
/// declared type on success, the inferred one under inference, and the
/// declared type unconditionally when there is no initializer.
pub open spec fn spec_visit_variable(m: ScopeModel, depth: u32, node: StatementNode) -> (
    Result<(), SemanticError>,
    ScopeModel,
) {
    match node {
        StatementNode::Variable(vt, left, right) => match left.node {
            ExpressionNode::Identifier(name) => {
                let dm = model_declare_slot(m, name@);
                let m1 = dm.0;
                let idx = dm.1;
                match right {
                    Some(r) => match spec_visit_expression(m1, r) {
                        Err(e) => (Err(e), m1),
                        Ok(u) => match spec_type_expression(m1, r) {
                            Err(e) => (Err(e), m1),
                            Ok(rt) => if !(vt is Nil) {
                                if !vt.spec_check_expression(r.node) && !type_eq(vt, rt) {
                                    (
                                        Err(SemanticError {
                                            kind: SemanticErrorKind::MismatchedTypes(vt, rt),
                                            position: r.pos,
                                        }),
                                        m1,
                                    )
                                } else {
                                    (Ok(()), model_record(m1, idx, (vt, depth)))
                                }
                            } else {
                                (Ok(()), model_record(m1, idx, (rt, depth)))
                            },
                        },
                    },
                    None => (Ok(()), model_record(m1, idx, (vt, depth))),
                }
            },
            _ => (
                Err(SemanticError {
                    kind: SemanticErrorKind::MalformedDeclaration,
                    position: left.pos,
                }),
                m,
            ),
        },
        _ => (Ok(()), m),
    }
}

/// Visiting one statement: expression statements resolve their
/// expression; declarations are visited only when their name expression
/// is an identifier, and pass through silently otherwise.
pub open spec fn spec_visit_statement(m: ScopeModel, depth: u32, s: Statement) -> (
    Result<(), SemanticError>,
    ScopeModel,
) {
    match s.node {
        StatementNode::Expression(e) => (spec_visit_expression(m, e), m),
        StatementNode::Variable(vt, left, right) => if left.node is Identifier {
            spec_visit_variable(m, depth, s.node)
        } else {
            (Ok(()), m)
        },
    }
}

/// Visiting a statement sequence in order, stopping at the first error;
/// the model reached so far is kept either way.
pub open spec fn spec_visit_seq(m: ScopeModel, depth: u32, stmts: Seq<Statement>) -> (
    Result<(), SemanticError>,
    ScopeModel,
)
    decreases stmts.len(),
{
    if stmts.len() == 0 {
        (Ok(()), m)
    } else {
        let step = spec_visit_statement(m, depth, stmts[0]);
        match step.0 {
            Err(e) => (Err(e), step.1),
            Ok(u) => spec_visit_seq(step.1, depth, stmts.drop_first()),
        }
    }
}

/// The resolver's state: the stack of open scope pairs, innermost last;
/// the archive of closed pairs in closing order; and the nesting depth.
pub struct Visitor {
    pub tabs: Vec<(SymTab, TypeTab)>,
    pub tab_frames: Vec<(SymTab, TypeTab)>,
    pub depth: u32,
}

impl Visitor {
    /// One open pair per nesting level, each aligned, with the chain of
    /// the pair at position `k` exactly `k + 1` levels deep.
    pub open spec fn pair_wf(pair: (SymTab, TypeTab), k: int) -> bool {
        &&& sym_levels(pair.0).len() == k + 1
        &&& type_levels(pair.1).len() == k + 1
        &&& model_wf(pair_model(pair.0, pair.1))
    }

    pub open spec fn wf(self) -> bool {
        &&& self.tabs@.len() == self.depth + 1
        &&& forall|k: int| 0 <= k < self.tabs@.len() ==> Self::pair_wf(#[trigger] self.tabs@[k], k)
    }

    /// The model of the innermost, currently mutable scope pair.
    pub open spec fn cur_model(self) -> ScopeModel {
        pair_model(self.tabs@.last().0, self.tabs@.last().1)
    }

    /// A resolver over one empty global scope.
    pub fn new() -> (v: Visitor)
        ensures
            v.wf(),
            v.depth == 0,
            v.tabs@.len() == 1,
            v.tab_frames@ == Seq::<(SymTab, TypeTab)>::empty(),
            v.cur_model() == model_global(),
    {
        let mut tabs: Vec<(SymTab, TypeTab)> = Vec::new();
        tabs.push((SymTab::global(), TypeTab::global()));
        let v = Visitor { tabs, tab_frames: Vec::new(), depth: 0 };
        proof {
            assert(v.tabs@.last() == v.tabs@[0]);
        }
        v
    }

    /// The innermost scope pair, open for mutation.
    pub fn current_tab(&mut self) -> (ret: &mut (SymTab, TypeTab))
        requires
            old(self).tabs@.len() > 0,
        ensures
            *ret == old(self).tabs@.last(),
            final(self).tabs@ == old(self).tabs@.update(
                old(self).tabs@.len() - 1,
                *final(ret),
            ),
            final(self).tab_frames == old(self).tab_frames,
            final(self).depth == old(self).depth,
    {
        let n = self.tabs.len() - 1;
        &mut self.tabs[n]
    }

    /// Resolve every identifier of one expression; everything else is
    /// accepted as it stands.
    pub fn visit_expression(&mut self, expression: &Expression) -> (r: Result<(), SemanticError>)
        requires
            old(self).wf(),
        ensures
            *final(self) == *old(self),
            r == spec_visit_expression(old(self).cur_model(), *expression),
    {
        match &expression.node {
            ExpressionNode::Identifier(name) => {
                let n = self.tabs.len() - 1;
                proof {
                    assert(self.tabs@.last() == self.tabs@[n as int]);
                    assert(Self::pair_wf(self.tabs@[n as int], n as int));
                }
                if self.tabs[n].0.get_name(name.as_str()).is_none() {
                    Err(SemanticError {
                        kind: SemanticErrorKind::Unresolved(name.clone()),
                        position: expression.pos,
                    })
                } else {
                    Ok(())
                }
            },
            _ => Ok(()),
        }
    }

    /// The type of one expression in the current scope chain.
    pub fn type_expression(&mut self, expression: &Expression) -> (r: Result<Type, SemanticError>)
        requires
            old(self).wf(),
        ensures
            *final(self) == *old(self),
            r == spec_type_expression(old(self).cur_model(), *expression),
    {
        match &expression.node {
            ExpressionNode::Identifier(name) => {
                let n = self.tabs.len() - 1;
                proof {
                    assert(self.tabs@.last() == self.tabs@[n as int]);
                    assert(Self::pair_wf(self.tabs@[n as int], n as int));
                }
                match self.tabs[n].0.get_name(name.as_str()) {
                    Some((index, env_index)) => {
                        proof {
                            let m = self.cur_model();
                            lemma_resolution_unique(m.syms, name@, index as int, env_index as int);
                            assert(m.typs[env_index as int].len() >= m.syms[env_index as int].len());
                        }
                        match self.tabs[n].1.get_type(index, env_index) {
                            Ok(t) => Ok(t),
                            Err(u) => {
                                proof {
                                    assert(false);
                                }
                                vstd::pervasive::unreached()
                            },
                        }
                    },
                    None => Err(SemanticError {
                        kind: SemanticErrorKind::Unresolved(name.clone()),
                        position: expression.pos,
                    }),
                }
            },
            ExpressionNode::Str(_) => Ok(Type::Str),
            ExpressionNode::Char(_) => Ok(Type::Char),
            ExpressionNode::Bool(_) => Ok(Type::Bool),
            ExpressionNode::Int(_) => Ok(Type::Int),
            ExpressionNode::Float(_) => Ok(Type::Float),
            _ => Ok(Type::Nil),
        }
    }

    /// Visit one declaration, as `spec_visit_variable` describes.
    fn visit_variable(&mut self, variable: &StatementNode) -> (r: Result<(), SemanticError>)
        requires
            old(self).wf(),
            *variable is Variable,
        ensures
            final(self).wf(),
            final(self).depth == old(self).depth,
            final(self).tab_frames == old(self).tab_frames,
            final(self).tabs@.len() == old(self).tabs@.len(),
            forall|k: int|
                0 <= k < old(self).tabs@.len() - 1 ==> final(self).tabs@[k] == old(self).tabs@[k],
            ({
                let sv = spec_visit_variable(old(self).cur_model(), old(self).depth, *variable);
                r == sv.0 && final(self).cur_model() == sv.1
            }),
    {
        let ghost m0 = self.cur_model();
        match variable {
            StatementNode::Variable(variable_type, left, right) => match &left.node {
                ExpressionNode::Identifier(name) => {
                    let n = self.tabs.len() - 1;
                    proof {
                        assert(self.tabs@.last() == self.tabs@[n as int]);
                        assert(Self::pair_wf(self.tabs@[n as int], n as int));
                    }
                    let pair = &mut self.tabs[n];
                    let ghost st0 = pair.0;
                    let ghost tt0 = pair.1;
                    let index = pair.0.add_name(name.as_str());
                    pair.1.grow();
                    proof {
                        assert(sym_levels(st0)[0] == st0.local_level());
                        assert(sym_levels(pair.0)[0] == pair.0.local_level());
                        if !level_has(st0.local_level(), name@) {
                            assert(sym_levels(pair.0) =~= sym_levels(st0).update(
                                0,
                                st0.local_level().push(name@),
                            ));
                        } else {
                            assert(sym_levels(pair.0) == sym_levels(st0));
                        }
                    }
                    let ghost dm = model_declare_slot(m0, name@);
                    proof {
                        assert(pair_model(pair.0, pair.1).syms =~= dm.0.syms);
                        assert(pair_model(pair.0, pair.1).typs =~= dm.0.typs);
                        assert(index as int == dm.1);
                    }
                    let ghost m1 = self.cur_model();
                    proof {
                        assert(self.tabs@.last() == self.tabs@[n as int]);
                        assert(m1.syms =~= dm.0.syms && m1.typs =~= dm.0.typs);
                        assert(m1.syms.len() == m0.syms.len() && m1.typs.len() == m0.typs.len());
                        if level_has(m0.syms[0], name@) {
                            crate::symtab::lemma_first_idx(m0.syms[0], name@);
                        }
                        assert(m0.typs[0].len() >= m0.syms[0].len());
                        assert(index < m1.typs[0].len());
                        assert forall|lv: int| 0 <= lv < m1.syms.len() implies (
                        #[trigger] m1.typs[lv]).len() >= m1.syms[lv].len() by {
                            assert(m0.typs[lv].len() >= m0.syms[lv].len());
                        }
                        assert(Self::pair_wf(self.tabs@[n as int], n as int));
                        assert forall|k: int| 0 <= k < self.tabs@.len() implies Self::pair_wf(
                            #[trigger] self.tabs@[k],
                            k,
                        ) by {
                            if k < n {
                                assert(Self::pair_wf(old(self).tabs@[k], k));
                            }
                        }
                        assert(self.wf());
                    }
                    match right {
                        Some(right_e) => {
                            match self.visit_expression(right_e) {
                                Ok(u) => {},
                                Err(e) => {
                                    return Err(e);
                                },
                            }
                            let right_type = match self.type_expression(right_e) {
                                Ok(t) => t,
                                Err(e) => {
                                    return Err(e);
                                },
                            };
                            let is_nil = match variable_type {
                                Type::Nil => true,
                                _ => false,
                            };
                            if !is_nil {
                                if !variable_type.check_expression(&right_e.node)
                                    && !(*variable_type == right_type) {
                                    return Err(SemanticError {
                                        kind: SemanticErrorKind::MismatchedTypes(
                                            variable_type.dup(),
                                            right_type,
                                        ),
                                        position: right_e.pos,
                                    });
                                } else {
                                    let depth = self.depth;
                                    self.record_type(index, (variable_type.dup(), depth));
                                }
                            } else {
                                let depth = self.depth;
                                self.record_type(index, (right_type, depth));
                            }
                        },
                        None => {
                            let depth = self.depth;
                            self.record_type(index, (variable_type.dup(), depth));
                        },
                    }
                    Ok(())
                },
                _ => Err(SemanticError {
                    kind: SemanticErrorKind::MalformedDeclaration,
                    position: left.pos,
                }),
            },
            _ => {
                proof {
                    assert(false);
                }
                vstd::pervasive::unreached()
            },
        }
    }

    /// Append one entry to a local slot's history. The slot exists: the
    /// tables are aligned and the slot was just allocated or reused.
    fn record_type(&mut self, index: usize, entry: (Type, u32))
        requires
            old(self).wf(),
            index < old(self).cur_model().typs[0].len(),
        ensures
            final(self).wf(),
            final(self).depth == old(self).depth,
            final(self).tab_frames == old(self).tab_frames,
            final(self).tabs@.len() == old(self).tabs@.len(),
            forall|k: int|
                0 <= k < old(self).tabs@.len() - 1 ==> final(self).tabs@[k] == old(self).tabs@[k],
            final(self).cur_model() == model_record(old(self).cur_model(), index as int, entry),
    {
        let ghost m0 = self.cur_model();
        let n = self.tabs.len() - 1;
        proof {
            assert(self.tabs@.last() == self.tabs@[n as int]);
            assert(Self::pair_wf(self.tabs@[n as int], n as int));
        }
        let pair = &mut self.tabs[n];
        let ghost tt0 = pair.1;
        match pair.1.set_type(index, 0, entry) {
            Ok(u) => {},
            Err(u) => {
                proof {
                    assert(false);
                }
            },
        }
        proof {
            assert(final(self).tabs@.last() == final(self).tabs@[n as int]);
            assert(final(self).cur_model().typs =~= model_record(m0, index as int, entry).typs);
            assert(final(self).cur_model().syms == m0.syms);
            let mr = model_record(m0, index as int, entry);
            assert(Self::pair_wf(final(self).tabs@[n as int], n as int)) by {
                assert(mr.typs[0].len() == m0.typs[0].len());
                assert forall|lv: int| 0 <= lv < m0.syms.len() implies (#[trigger] mr.typs[lv]).len()
                    >= m0.syms[lv].len() by {
                    assert(m0.typs[lv].len() >= m0.syms[lv].len());
                }
            }
        }
    }

    /// Visit one statement, as `spec_visit_statement` describes.
    pub fn visit_statement(&mut self, statement: &Statement) -> (r: Result<(), SemanticError>)
        requires
            old(self).wf(),
        ensures
            final(self).wf(),
            final(self).depth == old(self).depth,
            final(self).tab_frames == old(self).tab_frames,
            final(self).tabs@.len() == old(self).tabs@.len(),
            forall|k: int|
                0 <= k < old(self).tabs@.len() - 1 ==> final(self).tabs@[k] == old(self).tabs@[k],
            ({
                let sv = spec_visit_statement(old(self).cur_model(), old(self).depth, *statement);
                r == sv.0 && final(self).cur_model() == sv.1
            }),
    {
        match &statement.node {
            StatementNode::Expression(expression) => self.visit_expression(expression),
            StatementNode::Variable(_, left, _) => match &left.node {
                ExpressionNode::Identifier(_) => self.visit_variable(&statement.node),
                _ => Ok(()),
            },
        }
    }

    /// Visit every statement in order, stopping at the first error; on
    /// success the final scope pair is archived into the history.
    #[verifier::loop_isolation(false)]
    pub fn visit(&mut self, ast: &Vec<Statement>) -> (r: Result<(), SemanticError>)
        requires
            old(self).wf(),
        ensures
            final(self).wf(),
            final(self).depth == old(self).depth,
            final(self).tabs@.len() == old(self).tabs@.len(),
            forall|k: int|
                0 <= k < old(self).tabs@.len() - 1 ==> final(self).tabs@[k] == old(self).tabs@[k],
            ({
                let sv = spec_visit_seq(old(self).cur_model(), old(self).depth, ast@);
                &&& r == sv.0
                &&& final(self).cur_model() == sv.1
                &&& (r is Ok ==> final(self).tab_frames@.len() == old(self).tab_frames@.len() + 1
                    && (forall|k: int|
                        0 <= k < old(self).tab_frames@.len() ==> final(self).tab_frames@[k] == old(
                            self,
                        ).tab_frames@[k])
                    && pair_model(
                        final(self).tab_frames@.last().0,
                        final(self).tab_frames@.last().1,
                    ) == sv.1)
                &&& (r is Err ==> final(self).tab_frames == old(self).tab_frames)
            }),
    {
        let ghost m0 = self.cur_model();
        let ghost d0 = self.depth;
        proof {
            assert(ast@.skip(0) =~= ast@);
        }
        let mut i: usize = 0;
        while i < ast.len()
            invariant
                self.wf(),
                i <= ast@.len(),
                self.depth == d0,
                self.tab_frames == old(self).tab_frames,
                self.tabs@.len() == old(self).tabs@.len(),
                forall|k: int|
                    0 <= k < old(self).tabs@.len() - 1 ==> self.tabs@[k] == old(self).tabs@[k],
                spec_visit_seq(m0, d0, ast@) == spec_visit_seq(
                    self.cur_model(),
                    d0,
                    ast@.skip(i as int),
                ),
            decreases ast@.len() - i,
        {
            let ghost gm = self.cur_model();
            let ghost gi = i as int;
            proof {
                assert(ast@.skip(gi)[0] == ast@[gi]);
            }
            match self.visit_statement(&ast[i]) {
                Ok(u) => {},
                Err(e) => {
                    proof {
                        assert(spec_visit_seq(m0, d0, ast@) == (
                        Err::<(), SemanticError>(e),
                        self.cur_model(),
                        ));
                    }
                    return Err(e);
                },
            }
            i = i + 1;
            proof {
                assert(ast@.skip(gi).drop_first() =~= ast@.skip(i as int));
            }
        }
        proof {
            assert(ast@.skip(ast@.len() as int) =~= Seq::<Statement>::empty());
        }
        let n = self.tabs.len() - 1;
        proof {
            assert(self.tabs@.last() == self.tabs@[n as int]);
        }
        let snapshot_sym = self.tabs[n].0.duplicate();
        let snapshot_typ = self.tabs[n].1.duplicate();
        self.tab_frames.push((snapshot_sym, snapshot_typ));
        Ok(())
    }

    /// Enter a nested scope: the current pair is snapshotted as the
    /// read-only ancestor of a fresh, empty, mutable pair, and the
    /// nesting depth grows by one.
    pub fn push_scope(&mut self)
        requires
            old(self).wf(),
            old(self).depth < u32::MAX,
        ensures
            final(self).wf(),
            final(self).depth == old(self).depth + 1,
            final(self).tab_frames == old(self).tab_frames,
            final(self).tabs@.len() == old(self).tabs@.len() + 1,
            forall|k: int|
                0 <= k < old(self).tabs@.len() ==> final(self).tabs@[k] == old(self).tabs@[k],
            final(self).cur_model() == model_push(old(self).cur_model()),
    {
        let n = self.tabs.len() - 1;
        proof {
            assert(self.tabs@.last() == self.tabs@[n as int]);
            assert(Self::pair_wf(self.tabs@[n as int], n as int));
        }
        let snapshot_sym = self.tabs[n].0.duplicate();
        let snapshot_typ = self.tabs[n].1.duplicate();
        let local_symtab = SymTab::new(snapshot_sym, Vec::new());
        let local_typetab = TypeTab::new(snapshot_typ, Vec::new());
        proof {
            assert(Seq::<String>::empty().map_values(|x: String| x@) =~= Seq::<Seq<char>>::empty());
            assert(Seq::<Vec<(Type, u32)>>::empty().map_values(|h: Vec<(Type, u32)>| h@) =~= Seq::<
                Seq<(Type, u32)>,
            >::empty());
        }
        self.tabs.push((local_symtab, local_typetab));
        self.depth = self.depth + 1;
        proof {
            assert(final(self).tabs@.last() == final(self).tabs@[n + 1]);
            assert(final(self).cur_model().syms =~= model_push(
                pair_model(old(self).tabs@.last().0, old(self).tabs@.last().1),
            ).syms);
            assert(final(self).cur_model().typs =~= model_push(
                pair_model(old(self).tabs@.last().0, old(self).tabs@.last().1),
            ).typs);
            assert forall|k: int| 0 <= k < final(self).tabs@.len() implies Self::pair_wf(
                #[trigger] final(self).tabs@[k],
                k,
            ) by {
                if k < old(self).tabs@.len() {
                    assert(Self::pair_wf(old(self).tabs@[k], k));
                }
            }
        }
    }

    /// Leave the innermost scope: its pair moves into the history archive,
    /// the enclosing pair — untouched since its snapshot was taken —
    /// becomes current again, and the nesting depth shrinks by one.
    pub fn pop_scope(&mut self)
        requires
            old(self).wf(),
            old(self).depth > 0,
        ensures
            final(self).wf(),
            final(self).depth == old(self).depth - 1,
            final(self).tabs@ == old(self).tabs@.drop_last(),
            final(self).tab_frames@ == old(self).tab_frames@.push(old(self).tabs@.last()),
    {
        let frame = match self.tabs.pop() {
            Some(pair) => pair,
            None => {
                proof {
                    assert(false);
                }
                vstd::pervasive::unreached()
            },
        };
        self.tab_frames.push(frame);
        self.depth = self.depth - 1;
        proof {
            assert forall|k: int| 0 <= k < final(self).tabs@.len() implies Self::pair_wf(
                #[trigger] final(self).tabs@[k],
                k,
            ) by {
                assert(Self::pair_wf(old(self).tabs@[k], k));
            }
        }
    }
}


// === Laws of scope isolation ===
//
// Entering a scope snapshots the enclosing chain, and only the innermost
// level is ever written; leaving a scope discards that level, so the
// enclosing pair stands after `pop_scope` exactly as it stood before
// `push_scope` (its `ensures` say so pair for pair). The lemmas below
// state the model-level halves of that picture.

/// A name visible in a scope stays visible inside a scope nested in it,
/// and entering a scope makes no name visible that was not.
pub proof fn lemma_outer_name_visible_inside(m: ScopeModel, name: Seq<char>)
    ensures
        chain_has(model_push(m).syms, name) == chain_has(m.syms, name),
{
    let mp = model_push(m);
    assert(mp.syms[0] =~= Seq::<Seq<char>>::empty());
    if chain_has(m.syms, name) {
        let lv = choose|lv: int| 0 <= lv < m.syms.len() && level_has(#[trigger] m.syms[lv], name);
        assert(mp.syms[lv + 1] == m.syms[lv]);
        assert(chain_has(mp.syms, name));
    }
    if chain_has(mp.syms, name) {
        let lv = choose|lv: int| 0 <= lv < mp.syms.len() && level_has(#[trigger] mp.syms[lv], name);
        assert(lv != 0);
        assert(mp.syms[lv] == m.syms[lv - 1]);
        assert(chain_has(m.syms, name));
    }
}

/// A declaration visited inside a nested scope writes only that scope's
/// own level: every ancestor level — the snapshot of the enclosing chain —
/// holds afterwards exactly what it held before. With `pop_scope`
/// discarding the local level, nothing declared inside the scope is
/// visible after it closes.
pub proof fn lemma_nested_declarations_stay_local(m: ScopeModel, depth: u32, node: StatementNode)
    ensures
        ({
            let m2 = spec_visit_variable(model_push(m), depth, node).1;
            m2.syms.skip(1) == m.syms && m2.typs.skip(1) == m.typs
        }),
{
    let mp = model_push(m);
    assert(mp.syms.skip(1) =~= m.syms);
    assert(mp.typs.skip(1) =~= m.typs);
    match node {
        StatementNode::Variable(vt, left, right) => match left.node {
            ExpressionNode::Identifier(name) => {
                let dm = model_declare_slot(mp, name@);
                let m1 = dm.0;
                assert(m1.syms.skip(1) =~= m.syms);
                assert(m1.typs.skip(1) =~= m.typs);
                let m2 = spec_visit_variable(mp, depth, node).1;
                assert(m2.syms.skip(1) =~= m.syms);
                assert(m2.typs.skip(1) =~= m.typs);
            },
            _ => {},
        },
        _ => {},
    }
}

/// Redeclaring a name inside a nested scope shadows it there: after the
/// declaration, lookups resolve the name at the local level, to the type
/// just declared, while every ancestor level is untouched (previous
/// lemma), so the outer slot reappears unchanged when the scope closes.
pub proof fn lemma_local_redeclaration_shadows(
    m: ScopeModel,
    depth: u32,
    t: Type,
    name: String,
    pos: Position,
)
    ensures
        ({
            let node = StatementNode::Variable(
                t,
                Expression { node: ExpressionNode::Identifier(name), pos },
                None,
            );
            let sv = spec_visit_variable(model_push(m), depth, node);
            &&& sv.0 == Ok::<(), SemanticError>(())
            &&& chain_has(sv.1.syms, name@)
            &&& resolve_lv(sv.1.syms, name@) == 0
            &&& spec_slot_type(sv.1.typs[0][first_idx(sv.1.syms[0], name@)]) == t
        }),
{
    let mp = model_push(m);
    let node = StatementNode::Variable(
        t,
        Expression { node: ExpressionNode::Identifier(name), pos },
        None,
    );
    assert(mp.syms[0] =~= Seq::<Seq<char>>::empty());
    assert(!level_has(mp.syms[0], name@));
    let dm = model_declare_slot(mp, name@);
    let sv = spec_visit_variable(mp, depth, node);
    assert(sv.1 == model_record(dm.0, 0, (t, depth)));
    assert(sv.1.syms[0] == mp.syms[0].push(name@));
    assert(sv.1.syms[0][0] == name@);
    assert(level_has(sv.1.syms[0], name@));
    assert(chain_has(sv.1.syms, name@));
    assert(resolve_lv(sv.1.syms, name@) == 0);
    assert(first_idx(sv.1.syms[0], name@) == 0);
    assert(sv.1.typs[0][0] =~= Seq::<(Type, u32)>::empty().push((t, depth)));
    assert(spec_slot_type(sv.1.typs[0][0]) == t);
}

} // verus!
