//! The borrow engine: the bidirectional reference graph.
//!
//! A reference records the set of variables it aliases (`points_to`), and
//! every variable records the references that claim to point at it.  A
//! mutable borrow invalidates every existing borrow of the pointee; a
//! shared borrow invalidates only the mutable ones.  Using a reference
//! whose pointee is out of scope, no longer recognizes it, or was never
//! set, is reported at the use site.

use vstd::prelude::*;

use crate::checker::spec_scope_of;
use crate::checker::BorrowChecker;
use crate::diagnostics::Diagnostic;
use crate::variable::Id;
use crate::variable::IdView;
use crate::variable::Variable;
use crate::variable::VariableView;
use crate::variable::VarType;
use crate::variable::VarTypeView;

verus! {

/// `v` with its points-to set emptied; other kinds are left alone.
pub open spec fn with_points_cleared(v: VariableView) -> VariableView {
    VariableView {
        id: v.id,
        var_type: match v.var_type {
            VarTypeView::ConstRef { .. } => VarTypeView::ConstRef { points_to: Set::empty() },
            VarTypeView::MutRef { .. } => VarTypeView::MutRef { points_to: Set::empty() },
            other => other,
        },
        const_refs: v.const_refs,
        mut_refs: v.mut_refs,
    }
}

/// `v` with `rid` removed from the chosen reverse-edge set.
pub open spec fn refs_without(v: VariableView, rid: IdView, mutable: bool) -> VariableView {
    VariableView {
        id: v.id,
        var_type: v.var_type,
        const_refs: if mutable {
            v.const_refs
        } else {
            v.const_refs.remove(rid)
        },
        mut_refs: if mutable {
            v.mut_refs.remove(rid)
        } else {
            v.mut_refs
        },
    }
}

/// Whether one of the first `j` stored pointees names the entry `(a, kk)`.
pub open spec fn among(items: Seq<Id>, j: int, a: int, kk: Seq<char>) -> bool
    decreases j,
{
    if j <= 0 {
        false
    } else {
        (items[j - 1].scope as int == a && items[j - 1].name@ == kk) || among(items, j - 1, a, kk)
    }
}

/// With pairwise-distinct pointees, the entry a later pointee names is not
/// among the earlier ones.
pub proof fn lemma_not_among(items: Seq<Id>, j: int, a: int, kk: Seq<char>, idx: int)
    requires
        crate::variable::distinct_views(items),
        0 <= j <= idx < items.len(),
        items[idx].scope as int == a,
        items[idx].name@ == kk,
    ensures
        !among(items, j, a, kk),
    decreases j,
{
    if j > 0 {
        lemma_not_among(items, j - 1, a, kk, idx);
        assert(items[j - 1]@ != items[idx]@);
    }
}

/// One entry of the environment after unlinking the reference at
/// `(s0, n0)`: a pointee of the reference drops it from the reverse-edge
/// set of the reference's kind, the reference's own points-to set is
/// emptied, and everything else stays.
pub open spec fn unlinked_entry(
    pre: Seq<Map<Seq<char>, VariableView>>,
    a: int,
    kk: Seq<char>,
    s0: int,
    n0: Seq<char>,
    rid: IdView,
    mutable: bool,
    items: Seq<Id>,
) -> VariableView {
    let base = if among(items, items.len() as int, a, kk) {
        refs_without(pre[a][kk], rid, mutable)
    } else {
        pre[a][kk]
    };
    if a == s0 && kk == n0 {
        VariableView {
            id: base.id,
            var_type: with_points_cleared(base).var_type,
            const_refs: base.const_refs,
            mut_refs: base.mut_refs,
        }
    } else {
        base
    }
}

/// The environment after unlinking the reference `rid` from the first `j`
/// stored pointees, one at a time: each pointee still present drops `rid`
/// from the reverse-edge set of the reference's kind.
pub open spec fn unlink_fold(
    pre: Seq<Map<Seq<char>, VariableView>>,
    items: Seq<Id>,
    j: int,
    rid: IdView,
    mutable: bool,
) -> Seq<Map<Seq<char>, VariableView>>
    decreases j,
{
    if j <= 0 {
        pre
    } else {
        let m = unlink_fold(pre, items, j - 1, rid, mutable);
        let p = items[j - 1];
        if p.scope < m.len() && m[p.scope as int].contains_key(p.name@) {
            m.update(
                p.scope as int,
                m[p.scope as int].insert(
                    p.name@,
                    refs_without(m[p.scope as int][p.name@], rid, mutable),
                ),
            )
        } else {
            m
        }
    }
}

/// The unlink fold keeps every frame's names and, with pairwise-distinct
/// pointees, reads pointwise: a stored pointee's entry loses `rid` from
/// the matching reverse-edge set, every other entry stays.
pub proof fn lemma_unlink_fold_pointwise(
    pre: Seq<Map<Seq<char>, VariableView>>,
    items: Seq<Id>,
    j: int,
    rid: IdView,
    mutable: bool,
)
    requires
        0 <= j <= items.len(),
        crate::variable::distinct_views(items),
    ensures
        unlink_fold(pre, items, j, rid, mutable).len() == pre.len(),
        forall|a: int, kk: Seq<char>|
            #![trigger unlink_fold(pre, items, j, rid, mutable)[a].contains_key(kk)]
            0 <= a < pre.len() ==> (unlink_fold(pre, items, j, rid, mutable)[a].contains_key(kk)
                <==> pre[a].contains_key(kk)),
        forall|a: int, kk: Seq<char>|
            #![trigger pre[a].contains_key(kk)]
            0 <= a < pre.len() && pre[a].contains_key(kk) ==> unlink_fold(
                pre,
                items,
                j,
                rid,
                mutable,
            )[a][kk] == (if among(items, j, a, kk) {
                refs_without(pre[a][kk], rid, mutable)
            } else {
                pre[a][kk]
            }),
    decreases j,
{
    if j > 0 {
        lemma_unlink_fold_pointwise(pre, items, j - 1, rid, mutable);
        let m = unlink_fold(pre, items, j - 1, rid, mutable);
        let p = items[j - 1];
        assert(unlink_fold(pre, items, j, rid, mutable).len() == pre.len());
        assert forall|a: int, kk: Seq<char>|
            #![trigger unlink_fold(pre, items, j, rid, mutable)[a].contains_key(kk)]
            0 <= a < pre.len() implies (unlink_fold(pre, items, j, rid, mutable)[a].contains_key(
            kk,
        ) <==> pre[a].contains_key(kk)) by {
            assert(m[a].contains_key(kk) <==> pre[a].contains_key(kk));
        }
        assert forall|a: int, kk: Seq<char>|
            #![trigger pre[a].contains_key(kk)]
            0 <= a < pre.len() && pre[a].contains_key(kk) implies unlink_fold(
            pre,
            items,
            j,
            rid,
            mutable,
        )[a][kk] == (if among(items, j, a, kk) {
            refs_without(pre[a][kk], rid, mutable)
        } else {
            pre[a][kk]
        }) by {
            assert(m[a].contains_key(kk));
            if p.scope as int == a && p.name@ == kk {
                lemma_not_among(items, j - 1, a, kk, j - 1);
                assert(m[a][kk] == pre[a][kk]);
                assert(among(items, j, a, kk));
            } else {
                assert(unlink_fold(pre, items, j, rid, mutable)[a][kk] == m[a][kk]);
                assert(among(items, j, a, kk) == among(items, j - 1, a, kk));
            }
        }
    }
}

/// One pointee's reverse edges after a pointer copy: the destination is
/// recorded in the set of its kind, and on a mutable or mismatched copy the
/// source's edge of its kind is withdrawn.
pub open spec fn coerced_pointee(
    v: VariableView,
    dest_id: IdView,
    src_id: IdView,
    dest_mut: bool,
    src_mut: bool,
) -> VariableView {
    VariableView {
        id: v.id,
        var_type: v.var_type,
        const_refs: if !dest_mut && !src_mut {
            v.const_refs.insert(dest_id)
        } else if !dest_mut && src_mut {
            v.const_refs.insert(dest_id)
        } else if dest_mut && src_mut {
            v.const_refs
        } else {
            v.const_refs.remove(src_id)
        },
        mut_refs: if !dest_mut && !src_mut {
            v.mut_refs
        } else if !dest_mut && src_mut {
            v.mut_refs.remove(src_id)
        } else if dest_mut && src_mut {
            v.mut_refs.remove(src_id).insert(dest_id)
        } else {
            v.mut_refs.insert(dest_id)
        },
    }
}

/// The environment after moving the reverse edges of the first `j` stored
/// pointees of the source over to the destination, one at a time.
pub open spec fn coerce_fold(
    pre: Seq<Map<Seq<char>, VariableView>>,
    items: Seq<Id>,
    j: int,
    dest_id: IdView,
    src_id: IdView,
    dest_mut: bool,
    src_mut: bool,
) -> Seq<Map<Seq<char>, VariableView>>
    decreases j,
{
    if j <= 0 {
        pre
    } else {
        let m = coerce_fold(pre, items, j - 1, dest_id, src_id, dest_mut, src_mut);
        let p = items[j - 1];
        if p.scope < m.len() && m[p.scope as int].contains_key(p.name@) {
            m.update(
                p.scope as int,
                m[p.scope as int].insert(
                    p.name@,
                    coerced_pointee(
                        m[p.scope as int][p.name@],
                        dest_id,
                        src_id,
                        dest_mut,
                        src_mut,
                    ),
                ),
            )
        } else {
            m
        }
    }
}

/// The coercion fold keeps every frame's names and, with pairwise-distinct
/// pointees, reads pointwise.
pub proof fn lemma_coerce_fold_pointwise(
    pre: Seq<Map<Seq<char>, VariableView>>,
    items: Seq<Id>,
    j: int,
    dest_id: IdView,
    src_id: IdView,
    dest_mut: bool,
    src_mut: bool,
)
    requires
        0 <= j <= items.len(),
        crate::variable::distinct_views(items),
    ensures
        coerce_fold(pre, items, j, dest_id, src_id, dest_mut, src_mut).len() == pre.len(),
        forall|a: int, kk: Seq<char>|
            #![trigger pre[a].contains_key(kk)]
            0 <= a < pre.len() ==> (coerce_fold(
                pre,
                items,
                j,
                dest_id,
                src_id,
                dest_mut,
                src_mut,
            )[a].contains_key(kk) <==> pre[a].contains_key(kk)),
        forall|a: int, kk: Seq<char>|
            #![trigger pre[a].contains_key(kk)]
            0 <= a < pre.len() && pre[a].contains_key(kk) ==> coerce_fold(
                pre,
                items,
                j,
                dest_id,
                src_id,
                dest_mut,
                src_mut,
            )[a][kk] == (if among(items, j, a, kk) {
                coerced_pointee(pre[a][kk], dest_id, src_id, dest_mut, src_mut)
            } else {
                pre[a][kk]
            }),
    decreases j,
{
    if j > 0 {
        lemma_coerce_fold_pointwise(pre, items, j - 1, dest_id, src_id, dest_mut, src_mut);
        let m = coerce_fold(pre, items, j - 1, dest_id, src_id, dest_mut, src_mut);
        let p = items[j - 1];
        assert forall|a: int, kk: Seq<char>|
            #![trigger pre[a].contains_key(kk)]
            0 <= a < pre.len() implies (coerce_fold(
            pre,
            items,
            j,
            dest_id,
            src_id,
            dest_mut,
            src_mut,
        )[a].contains_key(kk) <==> pre[a].contains_key(kk)) by {
            assert(m[a].contains_key(kk) <==> pre[a].contains_key(kk));
        }
        assert forall|a: int, kk: Seq<char>|
            #![trigger pre[a].contains_key(kk)]
            0 <= a < pre.len() && pre[a].contains_key(kk) implies coerce_fold(
            pre,
            items,
            j,
            dest_id,
            src_id,
            dest_mut,
            src_mut,
        )[a][kk] == (if among(items, j, a, kk) {
            coerced_pointee(pre[a][kk], dest_id, src_id, dest_mut, src_mut)
        } else {
            pre[a][kk]
        }) by {
            assert(m[a].contains_key(kk));
            if p.scope as int == a && p.name@ == kk {
                lemma_not_among(items, j - 1, a, kk, j - 1);
                assert(m[a][kk] == pre[a][kk]);
                assert(among(items, j, a, kk));
            } else {
                assert(coerce_fold(pre, items, j, dest_id, src_id, dest_mut, src_mut)[a][kk]
                    == m[a][kk]);
                assert(among(items, j, a, kk) == among(items, j - 1, a, kk));
            }
        }
    }
}

/// Whether every pointee of the reference variable `r` is still alive and
/// still recognizes `r`: in scope, present, and carrying `r`'s id in the
/// reverse-edge set of `r`'s kind.  A reference to no value at all does not
/// qualify.  Non-reference variables qualify trivially.
pub open spec fn reference_ok(
    env: Seq<Map<Seq<char>, VariableView>>,
    r: VariableView,
) -> bool {
    match r.var_type {
        VarTypeView::ConstRef { points_to } => {
            &&& (exists|p: IdView| points_to.contains(p))
            &&& forall|p: IdView|
                points_to.contains(p) ==> (#[trigger] p.scope) < env.len() && env[p.scope as int].contains_key(p.name) && env[p.scope as int][p.name].const_refs.contains(r.id)
        },
        VarTypeView::MutRef { points_to } => {
            &&& (exists|p: IdView| points_to.contains(p))
            &&& forall|p: IdView|
                points_to.contains(p) ==> (#[trigger] p.scope) < env.len() && env[p.scope as int].contains_key(p.name) && env[p.scope as int][p.name].mut_refs.contains(r.id)
        },
        _ => true,
    }
}

impl BorrowChecker {
    /// Clears the pointee's mutable borrows and records `ref_id` as a
    /// shared borrow of it; nothing happens when the pointee is gone.
    pub fn add_const_ref(&mut self, var_id: &Id, ref_id: &Id)
        requires
            old(self).env_wf(),
        ensures
            final(self).env_wf(),
            final(self).scopes@.len() == old(self).scopes@.len(),
            final(self).structs == old(self).structs,
            final(self).functions == old(self).functions,
            final(self).diagnostics == old(self).diagnostics,
            Self::same_config(*old(self), *final(self)),
            Self::same_scratch(*old(self), *final(self)),
            var_id.scope < old(self).scopes@.len() && old(self).env()[var_id.scope as int].contains_key(var_id.name@) ==> ({
                let v = old(self).env()[var_id.scope as int][var_id.name@];
                final(self).env() == old(self).env().update(
                    var_id.scope as int,
                    old(self).env()[var_id.scope as int].insert(
                        var_id.name@,
                        VariableView {
                            id: v.id,
                            var_type: v.var_type,
                            const_refs: v.const_refs.insert(ref_id@),
                            mut_refs: Set::empty(),
                        },
                    ),
                )
            }),
            var_id.scope >= old(self).scopes@.len() || !old(self).env()[var_id.scope as int].contains_key(var_id.name@) ==> *final(self) == *old(self),
    {
        let v = match self.id_to_var(var_id) {
            Option::Some(v) => v.clone(),
            Option::None => {
                return ;
            },
        };
        let mut v2 = v;
        v2.mut_refs.clear();
        v2.const_refs.insert(ref_id.clone());
        self.put_var(v2);
    }

    /// Clears every borrow of the pointee and records `ref_id` as its one
    /// mutable borrow; nothing happens when the pointee is gone.
    pub fn add_mut_ref(&mut self, var_id: &Id, ref_id: &Id)
        requires
            old(self).env_wf(),
        ensures
            final(self).env_wf(),
            final(self).scopes@.len() == old(self).scopes@.len(),
            final(self).structs == old(self).structs,
            final(self).functions == old(self).functions,
            final(self).diagnostics == old(self).diagnostics,
            Self::same_config(*old(self), *final(self)),
            Self::same_scratch(*old(self), *final(self)),
            var_id.scope < old(self).scopes@.len() && old(self).env()[var_id.scope as int].contains_key(var_id.name@) ==> ({
                let v = old(self).env()[var_id.scope as int][var_id.name@];
                final(self).env() == old(self).env().update(
                    var_id.scope as int,
                    old(self).env()[var_id.scope as int].insert(
                        var_id.name@,
                        VariableView {
                            id: v.id,
                            var_type: v.var_type,
                            const_refs: Set::empty(),
                            mut_refs: Set::<IdView>::empty().insert(ref_id@),
                        },
                    ),
                )
            }),
            var_id.scope >= old(self).scopes@.len() || !old(self).env()[var_id.scope as int].contains_key(var_id.name@) ==> *final(self) == *old(self),
    {
        let v = match self.id_to_var(var_id) {
            Option::Some(v) => v.clone(),
            Option::None => {
                return ;
            },
        };
        let mut v2 = v;
        v2.const_refs.clear();
        v2.mut_refs.clear();
        v2.mut_refs.insert(ref_id.clone());
        self.put_var(v2);
    }

    /// Unlinks the reference `id` from everything it points to: each
    /// pointee drops `id` from the reverse-edge set of `id`'s kind, the
    /// reference's own points-to set is emptied, and nothing else changes.
    pub fn clear_points_to(&mut self, id: &Id)
        requires
            old(self).env_wf(),
        ensures
            final(self).env_wf(),
            final(self).scopes@.len() == old(self).scopes@.len(),
            final(self).structs == old(self).structs,
            final(self).functions == old(self).functions,
            final(self).diagnostics == old(self).diagnostics,
            Self::same_config(*old(self), *final(self)),
            Self::same_scratch(*old(self), *final(self)),
            forall|i: int, kk: Seq<char>|
                #![trigger old(self).env()[i].contains_key(kk), final(self).env()[i].contains_key(kk)]
                0 <= i < old(self).env().len() ==> (old(self).env()[i].contains_key(kk) <==> final(self).env()[i].contains_key(kk)),
            id.scope >= old(self).scopes@.len() || !old(self).env()[id.scope as int].contains_key(
                id.name@,
            ) ==> *final(self) == *old(self),
            id.scope < old(self).scopes@.len() && old(self).env()[id.scope as int].contains_key(
                id.name@,
            ) ==> ({
                let v = final(self).env()[id.scope as int][id.name@];
                &&& final(self).env()[id.scope as int].contains_key(id.name@)
                &&& v.var_type == with_points_cleared(
                    old(self).env()[id.scope as int][id.name@],
                ).var_type
            }),
            id.scope < old(self).scopes@.len() && old(self).env()[id.scope as int].contains_key(
                id.name@,
            ) ==> ({
                let fr = old(self).scopes@[id.scope as int];
                let stored = fr.vars@[crate::scope::index_of_name(fr.vars@, id.name@)];
                match stored.var_type {
                    VarType::ConstRef(st) => forall|a: int, kk: Seq<char>|
                        #![trigger final(self).env()[a].contains_key(kk)]
                        0 <= a < old(self).env().len() && old(self).env()[a].contains_key(kk)
                            ==> final(self).env()[a][kk] == unlinked_entry(
                            old(self).env(),
                            a,
                            kk,
                            id.scope as int,
                            id.name@,
                            id@,
                            false,
                            st.items@,
                        ),
                    VarType::MutRef(st) => forall|a: int, kk: Seq<char>|
                        #![trigger final(self).env()[a].contains_key(kk)]
                        0 <= a < old(self).env().len() && old(self).env()[a].contains_key(kk)
                            ==> final(self).env()[a][kk] == unlinked_entry(
                            old(self).env(),
                            a,
                            kk,
                            id.scope as int,
                            id.name@,
                            id@,
                            true,
                            st.items@,
                        ),
                    _ => *final(self) == *old(self),
                }
            }),
    {
        let ghost s0 = id.scope as int;
        let ghost n0 = id.name@;
        let (kind_const, points): (bool, Option<crate::variable::IdSet>) = match self.id_to_var(
            id,
        ) {
            Option::Some(v) => {
                proof {
                    let fr = self.scopes@[s0];
                    let i0 = choose|i0: int| 0 <= i0 < fr.vars@.len() && fr.vars@[i0] == *v;
                    crate::scope::lemma_index_of_name_unique(fr.vars@, n0, i0);
                    assert(fr.vars@[crate::scope::index_of_name(fr.vars@, n0)] == *v);
                }
                match &v.var_type {
                    VarType::ConstRef(st) => (true, Option::Some(st.clone())),
                    VarType::MutRef(st) => (false, Option::Some(st.clone())),
                    _ => (true, Option::None),
                }
            },
            Option::None => {
                return ;
            },
        };
        let ghost fr = self.scopes@[s0];
        let ghost stored = fr.vars@[crate::scope::index_of_name(fr.vars@, n0)];
        let ghost rid = id@;
        let ghost mutable = !kind_const;
        let points = match points {
            Option::Some(p) => p,
            Option::None => {
                return ;
            },
        };
        proof {
            assert(stored.wf());
            assert(points.wf());
            assert(match stored.var_type {
                VarType::ConstRef(st) => points.items@ == st.items@ && kind_const,
                VarType::MutRef(st) => points.items@ == st.items@ && !kind_const,
                _ => false,
            });
        }
        let n = points.len();
        let mut i: usize = 0;
        while i < n
            invariant
                self.env_wf(),
                n == points.items@.len(),
                i <= n,
                points.wf(),
                s0 == id.scope as int,
                n0 == id.name@,
                rid == id@,
                mutable == !kind_const,
                0 <= s0 < old(self).env().len(),
                old(self).env()[s0].contains_key(n0),
                self.scopes@.len() == old(self).scopes@.len(),
                self.structs == old(self).structs,
                self.functions == old(self).functions,
                self.diagnostics == old(self).diagnostics,
                Self::same_config(*old(self), *self),
                Self::same_scratch(*old(self), *self),
                self.env() == unlink_fold(old(self).env(), points.items@, i as int, rid, mutable),
            decreases n - i,
        {
            proof {
                lemma_unlink_fold_pointwise(
                    old(self).env(),
                    points.items@,
                    i as int,
                    rid,
                    mutable,
                );
            }
            let pid = points.get(i).clone();
            let pv = match self.id_to_var(&pid) {
                Option::Some(pv) => Option::Some(pv.clone()),
                Option::None => Option::None,
            };
            match pv {
                Option::Some(pv0) => {
                    let mut pv2 = pv0;
                    if kind_const {
                        pv2.const_refs.remove(id);
                    } else {
                        pv2.mut_refs.remove(id);
                    }
                    let ghost before_put = *self;
                    self.put_var(pv2);
                    proof {
                        assert(pv2@ == refs_without(
                            before_put.env()[pid.scope as int][pid.name@],
                            rid,
                            mutable,
                        ));
                        assert(self.env() == unlink_fold(
                            old(self).env(),
                            points.items@,
                            i as int + 1,
                            rid,
                            mutable,
                        ));
                    }
                },
                Option::None => {
                    proof {
                        assert(self.env() == unlink_fold(
                            old(self).env(),
                            points.items@,
                            i as int + 1,
                            rid,
                            mutable,
                        ));
                    }
                },
            }
            i = i + 1;
        }
        proof {
            lemma_unlink_fold_pointwise(old(self).env(), points.items@, n as int, rid, mutable);
            assert(self.env()[s0].contains_key(n0));
        }
        let v2 = match self.id_to_var(id) {
            Option::Some(cur) => cur.clone(),
            Option::None => {
                proof {
                    assert(false);
                }
                vstd::pervasive::unreached()
            },
        };
        let ghost v2v = v2@;
        let Variable { id: vid, var_type, const_refs, mut_refs } = v2;
        let new_vt = match var_type {
            VarType::ConstRef(_) => VarType::ConstRef(crate::variable::IdSet::new()),
            VarType::MutRef(_) => VarType::MutRef(crate::variable::IdSet::new()),
            other => other,
        };
        let v3 = Variable { id: vid, var_type: new_vt, const_refs, mut_refs };
        let ghost before_last = *self;
        self.put_var(v3);
        proof {
            lemma_unlink_fold_pointwise(old(self).env(), points.items@, n as int, rid, mutable);
            assert(self.env()[s0].contains_key(n0));
            assert(before_last.env()[s0].contains_key(n0));
            assert(before_last.env()[s0][n0] == v2v);
            assert forall|a: int, kk: Seq<char>|
                #![trigger self.env()[a].contains_key(kk)]
                0 <= a < old(self).env().len() && old(self).env()[a].contains_key(kk) implies
                self.env()[a][kk] == unlinked_entry(
                old(self).env(),
                a,
                kk,
                s0,
                n0,
                rid,
                mutable,
                points.items@,
            ) by {
                assert(before_last.env()[a].contains_key(kk));
                if a == s0 && kk == n0 {
                    assert(v3@ == self.env()[s0][n0]);
                } else {
                    assert(self.env()[a][kk] == before_last.env()[a][kk]);
                }
            }
        }
    }

    /// Copies every pointee of `source` into `destination`, moving the
    /// reverse edges along (see [`coerced_pointee`] and
    /// [`lemma_coerce_fold_pointwise`] for the pointwise reading); copying
    /// between reference kinds that disagree is reported and the pointees
    /// are coerced to the destination's kind.
    pub fn copy_points_to(&mut self, destination: &Id, source: &Id, span: usize)
        requires
            old(self).env_wf(),
        ensures
            final(self).env_wf(),
            final(self).scopes@.len() == old(self).scopes@.len(),
            final(self).structs == old(self).structs,
            final(self).functions == old(self).functions,
            Self::same_config(*old(self), *final(self)),
            Self::same_scratch(*old(self), *final(self)),
            Self::diags_extended(*old(self), *final(self)),
            forall|i: int, kk: Seq<char>|
                #![trigger old(self).env()[i].contains_key(kk), final(self).env()[i].contains_key(kk)]
                0 <= i < old(self).env().len() ==> (old(self).env()[i].contains_key(kk) <==> final(self).env()[i].contains_key(kk)),
            destination.scope >= old(self).scopes@.len() || !old(self).env()[destination.scope as int].contains_key(destination.name@) || source.scope >= old(self).scopes@.len() || !old(self).env()[source.scope as int].contains_key(source.name@) ==> *final(self) == *old(self),
            ({
                &&& destination.scope < old(self).scopes@.len()
                &&& old(self).env()[destination.scope as int].contains_key(destination.name@)
                &&& source.scope < old(self).scopes@.len()
                &&& old(self).env()[source.scope as int].contains_key(source.name@)
            }) ==> ({
                let dv = old(self).env()[destination.scope as int][destination.name@];
                let sv = old(self).env()[source.scope as int][source.name@];
                match (dv.var_type, sv.var_type) {
                    (
                        VarTypeView::ConstRef { points_to: dp },
                        VarTypeView::ConstRef { points_to: sp },
                    ) => final(self).diagnostics == old(self).diagnostics && final(self).env()[destination.scope as int][destination.name@].var_type == (VarTypeView::ConstRef { points_to: dp + sp }),
                    (
                        VarTypeView::MutRef { points_to: dp },
                        VarTypeView::MutRef { points_to: sp },
                    ) => final(self).diagnostics == old(self).diagnostics && final(self).env()[destination.scope as int][destination.name@].var_type == (VarTypeView::MutRef { points_to: dp + sp }),
                    (
                        VarTypeView::ConstRef { points_to: dp },
                        VarTypeView::MutRef { points_to: sp },
                    ) => final(self).diagnostics@ == old(self).diagnostics@.push(
                        Diagnostic::MutToConstMove {
                            from: source.name,
                            to: destination.name,
                            offset: span,
                        },
                    ) && final(self).env()[destination.scope as int][destination.name@].var_type
                        == (VarTypeView::ConstRef { points_to: dp + sp }),
                    (
                        VarTypeView::MutRef { points_to: dp },
                        VarTypeView::ConstRef { points_to: sp },
                    ) => final(self).diagnostics@ == old(self).diagnostics@.push(
                        Diagnostic::ConstToMutMove {
                            from: source.name,
                            to: destination.name,
                            offset: span,
                        },
                    ) && final(self).env()[destination.scope as int][destination.name@].var_type
                        == (VarTypeView::MutRef { points_to: dp + sp }),
                    _ => *final(self) == *old(self),
                }
            }),
            ({
                &&& destination.scope < old(self).scopes@.len()
                &&& old(self).env()[destination.scope as int].contains_key(destination.name@)
                &&& source.scope < old(self).scopes@.len()
                &&& old(self).env()[source.scope as int].contains_key(source.name@)
            }) ==> ({
                let dk = destination.scope as int;
                let dn = destination.name@;
                let dv = old(self).env()[dk][dn];
                let sfr = old(self).scopes@[source.scope as int];
                let stored = sfr.vars@[crate::scope::index_of_name(sfr.vars@, source.name@)];
                let sv = old(self).env()[source.scope as int][source.name@];
                match (dv.var_type, stored.var_type) {
                    (VarTypeView::ConstRef { points_to: dp }, VarType::ConstRef(st)) => final(self).env() == coerce_fold(
                        old(self).env().update(
                            dk,
                            old(self).env()[dk].insert(
                                dn,
                                VariableView {
                                    id: dv.id,
                                    var_type: VarTypeView::ConstRef { points_to: dp + st@ },
                                    const_refs: dv.const_refs,
                                    mut_refs: dv.mut_refs,
                                },
                            ),
                        ),
                        st.items@,
                        st.items@.len() as int,
                        destination@,
                        source@,
                        false,
                        false,
                    ),
                    (VarTypeView::ConstRef { points_to: dp }, VarType::MutRef(st)) => final(self).env() == coerce_fold(
                        old(self).env().update(
                            dk,
                            old(self).env()[dk].insert(
                                dn,
                                VariableView {
                                    id: dv.id,
                                    var_type: VarTypeView::ConstRef { points_to: dp + st@ },
                                    const_refs: dv.const_refs,
                                    mut_refs: dv.mut_refs,
                                },
                            ),
                        ),
                        st.items@,
                        st.items@.len() as int,
                        destination@,
                        source@,
                        false,
                        true,
                    ),
                    (VarTypeView::MutRef { points_to: dp }, VarType::MutRef(st)) => final(self).env() == coerce_fold(
                        old(self).env().update(
                            dk,
                            old(self).env()[dk].insert(
                                dn,
                                VariableView {
                                    id: dv.id,
                                    var_type: VarTypeView::MutRef { points_to: dp + st@ },
                                    const_refs: dv.const_refs,
                                    mut_refs: dv.mut_refs,
                                },
                            ),
                        ),
                        st.items@,
                        st.items@.len() as int,
                        destination@,
                        source@,
                        true,
                        true,
                    ),
                    (VarTypeView::MutRef { points_to: dp }, VarType::ConstRef(st)) => final(self).env() == coerce_fold(
                        old(self).env().update(
                            dk,
                            old(self).env()[dk].insert(
                                dn,
                                VariableView {
                                    id: dv.id,
                                    var_type: VarTypeView::MutRef { points_to: dp + st@ },
                                    const_refs: dv.const_refs,
                                    mut_refs: dv.mut_refs,
                                },
                            ),
                        ),
                        st.items@,
                        st.items@.len() as int,
                        destination@,
                        source@,
                        true,
                        false,
                    ),
                    _ => true,
                }
            }),
    {
        let dv = match self.id_to_var(destination) {
            Option::Some(v) => v.clone(),
            Option::None => {
                return ;
            },
        };
        let ghost sk = source.scope as int;
        let ghost sn = source.name@;
        let (src_const, src_points): (bool, crate::variable::IdSet) = match self.id_to_var(
            source,
        ) {
            Option::Some(v) => {
                proof {
                    let sfr = self.scopes@[sk];
                    let i0 = choose|i0: int| 0 <= i0 < sfr.vars@.len() && sfr.vars@[i0] == *v;
                    crate::scope::lemma_index_of_name_unique(sfr.vars@, sn, i0);
                    assert(sfr.vars@[crate::scope::index_of_name(sfr.vars@, sn)] == *v);
                }
                match &v.var_type {
                    VarType::ConstRef(st) => (true, st.clone()),
                    VarType::MutRef(st) => (false, st.clone()),
                    _ => {
                        return ;
                    },
                }
            },
            Option::None => {
                return ;
            },
        };
        let ghost stored = old(self).scopes@[sk].vars@[crate::scope::index_of_name(
            old(self).scopes@[sk].vars@,
            sn,
        )];
        proof {
            assert(stored.wf());
            assert(src_points.wf());
            assert(match stored.var_type {
                VarType::ConstRef(st) => src_points.items@ == st.items@ && src_const,
                VarType::MutRef(st) => src_points.items@ == st.items@ && !src_const,
                _ => false,
            });
        }
        let dest_const = match &dv.var_type {
            VarType::ConstRef(_) => true,
            _ => false,
        };
        let dest_mut = match &dv.var_type {
            VarType::MutRef(_) => true,
            _ => false,
        };
        if !dest_const && !dest_mut {
            return ;
        }
        if dest_const && !src_const {
            self.diagnostics.push(
                Diagnostic::MutToConstMove {
                    from: source.name.clone(),
                    to: destination.name.clone(),
                    offset: span,
                },
            );
        }
        if dest_mut && src_const {
            self.diagnostics.push(
                Diagnostic::ConstToMutMove {
                    from: source.name.clone(),
                    to: destination.name.clone(),
                    offset: span,
                },
            );
        }
        let Variable { id: did, var_type: dvt, const_refs: dcr, mut_refs: dmr } = dv;
        let new_dvt = match dvt {
            VarType::ConstRef(s) => {
                let mut s2 = s;
                s2.extend_with(&src_points);
                VarType::ConstRef(s2)
            },
            VarType::MutRef(s) => {
                let mut s2 = s;
                s2.extend_with(&src_points);
                VarType::MutRef(s2)
            },
            other => other,
        };
        let dv2 = Variable { id: did, var_type: new_dvt, const_refs: dcr, mut_refs: dmr };
        self.put_var(dv2);
        let ghost mid = *self;
        let ghost mid_env = self.env();
        let ghost dmutg = dest_mut;
        let ghost smutg = !src_const;
        let n = src_points.len();
        let mut i: usize = 0;
        while i < n
            invariant
                self.env_wf(),
                n == src_points.items@.len(),
                i <= n,
                src_points.wf(),
                mid.env_wf(),
                mid_env == mid.env(),
                dmutg == dest_mut,
                dest_const == !dest_mut,
                smutg == !src_const,
                self.scopes@.len() == mid.scopes@.len(),
                self.structs == mid.structs,
                self.functions == mid.functions,
                self.diagnostics == mid.diagnostics,
                Self::same_config(mid, *self),
                Self::same_scratch(mid, *self),
                self.env() == coerce_fold(
                    mid_env,
                    src_points.items@,
                    i as int,
                    destination@,
                    source@,
                    dmutg,
                    smutg,
                ),
            decreases n - i,
        {
            proof {
                lemma_coerce_fold_pointwise(
                    mid_env,
                    src_points.items@,
                    i as int,
                    destination@,
                    source@,
                    dmutg,
                    smutg,
                );
            }
            let pid = src_points.get(i).clone();
            let pv = match self.id_to_var(&pid) {
                Option::Some(pv) => Option::Some(pv.clone()),
                Option::None => Option::None,
            };
            match pv {
                Option::Some(pv0) => {
                    let ghost pv0v = pv0@;
                    let ghost before_put = *self;
                    let mut pv2 = pv0;
                    if dest_const && src_const {
                        pv2.const_refs.insert(destination.clone());
                    } else if dest_mut && !src_const {
                        pv2.mut_refs.remove(source);
                        pv2.mut_refs.insert(destination.clone());
                    } else if dest_const && !src_const {
                        pv2.mut_refs.remove(source);
                        pv2.const_refs.insert(destination.clone());
                    } else {
                        pv2.const_refs.remove(source);
                        pv2.mut_refs.insert(destination.clone());
                    }
                    self.put_var(pv2);
                    proof {
                        assert(pv0v == before_put.env()[pid.scope as int][pid.name@]);
                        assert(pv2@.id == pv0v.id && pv2@.var_type == pv0v.var_type);
                        assert(pv2@.const_refs == coerced_pointee(
                            pv0v,
                            destination@,
                            source@,
                            dmutg,
                            smutg,
                        ).const_refs);
                        assert(pv2@.mut_refs == coerced_pointee(
                            pv0v,
                            destination@,
                            source@,
                            dmutg,
                            smutg,
                        ).mut_refs);
                        assert(pv2@ == coerced_pointee(
                            before_put.env()[pid.scope as int][pid.name@],
                            destination@,
                            source@,
                            dmutg,
                            smutg,
                        ));
                        assert(self.env() == coerce_fold(
                            mid_env,
                            src_points.items@,
                            i as int + 1,
                            destination@,
                            source@,
                            dmutg,
                            smutg,
                        ));
                    }
                },
                Option::None => {
                    proof {
                        assert(self.env() == coerce_fold(
                            mid_env,
                            src_points.items@,
                            i as int + 1,
                            destination@,
                            source@,
                            dmutg,
                            smutg,
                        ));
                    }
                },
            }
            i = i + 1;
        }
        proof {
            lemma_coerce_fold_pointwise(
                mid_env,
                src_points.items@,
                n as int,
                destination@,
                source@,
                dmutg,
                smutg,
            );
            assert(mid_env[destination.scope as int].contains_key(destination.name@));
            assert(self.env()[destination.scope as int].contains_key(destination.name@));
            assert forall|a: int, kk: Seq<char>|
                #![trigger old(self).env()[a].contains_key(kk), self.env()[a].contains_key(kk)]
                0 <= a < old(self).env().len() implies (old(self).env()[a].contains_key(kk) <==>
                self.env()[a].contains_key(kk)) by {
                assert(mid_env[a].contains_key(kk) <==> old(self).env()[a].contains_key(kk));
            }
        }
    }

    /// `lhs = rhs` for two references: the left side stops pointing at
    /// what it used to and ends up pointing at exactly the right side's
    /// old pointees, with a kind-mismatch report when the two reference
    /// kinds disagree.
    pub fn reference_assignment(&mut self, lhs: String, rhs: String, span: usize)
        requires
            old(self).env_wf(),
        ensures
            final(self).env_wf(),
            final(self).scopes@.len() == old(self).scopes@.len(),
            final(self).structs == old(self).structs,
            final(self).functions == old(self).functions,
            Self::same_config(*old(self), *final(self)),
            Self::same_scratch(*old(self), *final(self)),
            Self::diags_extended(*old(self), *final(self)),
            ({
                let lk = spec_scope_of(old(self).env(), lhs@);
                let rk = spec_scope_of(old(self).env(), rhs@);
                ({
                    &&& old(self).env()[lk].contains_key(lhs@)
                    &&& old(self).env()[rk].contains_key(rhs@)
                    &&& !(lk == rk && lhs@ == rhs@)
                }) ==> ({
                    let dv = old(self).env()[lk][lhs@];
                    let sv = old(self).env()[rk][rhs@];
                    match (dv.var_type, sv.var_type) {
                        (
                            VarTypeView::ConstRef { .. },
                            VarTypeView::ConstRef { points_to: sp },
                        ) => final(self).diagnostics == old(self).diagnostics && final(self).env()[lk][lhs@].var_type == (VarTypeView::ConstRef {
                            points_to: Set::<IdView>::empty() + sp,
                        }),
                        (VarTypeView::MutRef { .. }, VarTypeView::MutRef { points_to: sp }) => final(self).diagnostics == old(self).diagnostics && final(self).env()[lk][lhs@].var_type
                            == (VarTypeView::MutRef { points_to: Set::<IdView>::empty() + sp }),
                        (
                            VarTypeView::ConstRef { .. },
                            VarTypeView::MutRef { points_to: sp },
                        ) => final(self).diagnostics@.len() == old(self).diagnostics@.len() + 1
                            && (final(self).diagnostics@.last() matches
                            Diagnostic::MutToConstMove { from: f, to: t, offset: o } && f@
                            == rhs@ && t@ == lhs@ && o == span) && final(self).env()[lk][lhs@].var_type == (VarTypeView::ConstRef {
                            points_to: Set::<IdView>::empty() + sp,
                        }),
                        (
                            VarTypeView::MutRef { .. },
                            VarTypeView::ConstRef { points_to: sp },
                        ) => final(self).diagnostics@.len() == old(self).diagnostics@.len() + 1
                            && (final(self).diagnostics@.last() matches
                            Diagnostic::ConstToMutMove { from: f, to: t, offset: o } && f@
                            == rhs@ && t@ == lhs@ && o == span) && final(self).env()[lk][lhs@].var_type == (VarTypeView::MutRef {
                            points_to: Set::<IdView>::empty() + sp,
                        }),
                        _ => true,
                    }
                })
            }),
    {
        let lhs_id = self.get_id(lhs.as_str());
        let rhs_id = self.get_id(rhs.as_str());
        let ghost pre = *self;
        self.clear_points_to(&lhs_id);
        let ghost mid = *self;
        proof {
            let lk = lhs_id.scope as int;
            let rk = rhs_id.scope as int;
            if pre.env()[lk].contains_key(lhs_id.name@) && pre.env()[rk].contains_key(
                rhs_id.name@,
            ) && !(lk == rk && lhs_id.name@ == rhs_id.name@) {
                assert(mid.env()[lk].contains_key(lhs_id.name@));
                assert(mid.env()[rk].contains_key(rhs_id.name@));
                assert(mid.env()[lk][lhs_id.name@].var_type == with_points_cleared(
                    pre.env()[lk][lhs_id.name@],
                ).var_type);
                let lfr = pre.scopes@[lk];
                let lstored = lfr.vars@[crate::scope::index_of_name(lfr.vars@, lhs_id.name@)];
                match lstored.var_type {
                    VarType::ConstRef(lst) => {
                        assert(mid.env()[rk][rhs_id.name@] == unlinked_entry(
                            pre.env(),
                            rk,
                            rhs_id.name@,
                            lk,
                            lhs_id.name@,
                            lhs_id@,
                            false,
                            lst.items@,
                        ));
                        assert(mid.env()[rk][rhs_id.name@].var_type == pre.env()[rk][rhs_id.name@].var_type);
                    },
                    VarType::MutRef(lst) => {
                        assert(mid.env()[rk][rhs_id.name@] == unlinked_entry(
                            pre.env(),
                            rk,
                            rhs_id.name@,
                            lk,
                            lhs_id.name@,
                            lhs_id@,
                            true,
                            lst.items@,
                        ));
                        assert(mid.env()[rk][rhs_id.name@].var_type == pre.env()[rk][rhs_id.name@].var_type);
                    },
                    _ => {
                        assert(mid == pre);
                    },
                }
            }
        }
        self.copy_points_to(&lhs_id, &rhs_id, span);
        proof {
            let lk = lhs_id.scope as int;
            let rk = rhs_id.scope as int;
            if pre.env()[lk].contains_key(lhs_id.name@) && pre.env()[rk].contains_key(
                rhs_id.name@,
            ) && !(lk == rk && lhs_id.name@ == rhs_id.name@) {
                let dv0 = pre.env()[lk][lhs_id.name@];
                let sv0 = pre.env()[rk][rhs_id.name@];
                let dv1 = mid.env()[lk][lhs_id.name@];
                let sv1 = mid.env()[rk][rhs_id.name@];
                assert(dv1.var_type == with_points_cleared(dv0).var_type);
                assert(sv1.var_type == sv0.var_type);
                match (dv0.var_type, sv0.var_type) {
                    (VarTypeView::ConstRef { .. }, VarTypeView::ConstRef { points_to: sp }) => {
                        assert(dv1.var_type == (VarTypeView::ConstRef {
                            points_to: Set::<IdView>::empty(),
                        }));
                        assert(self.env()[lk][lhs_id.name@].var_type == (VarTypeView::ConstRef {
                            points_to: Set::<IdView>::empty() + sp,
                        }));
                    },
                    (VarTypeView::MutRef { .. }, VarTypeView::MutRef { points_to: sp }) => {
                        assert(self.env()[lk][lhs_id.name@].var_type == (VarTypeView::MutRef {
                            points_to: Set::<IdView>::empty() + sp,
                        }));
                    },
                    (VarTypeView::ConstRef { .. }, VarTypeView::MutRef { points_to: sp }) => {
                        assert(self.env()[lk][lhs_id.name@].var_type == (VarTypeView::ConstRef {
                            points_to: Set::<IdView>::empty() + sp,
                        }));
                    },
                    (VarTypeView::MutRef { .. }, VarTypeView::ConstRef { points_to: sp }) => {
                        assert(self.env()[lk][lhs_id.name@].var_type == (VarTypeView::MutRef {
                            points_to: Set::<IdView>::empty() + sp,
                        }));
                    },
                    _ => {},
                }
            }
        }
    }

    /// Reports every way the named reference is no longer backed: a pointee
    /// whose scope was left, a pointee that no longer recognizes it, or an
    /// empty points-to set.  Reports nothing exactly when the reference is
    /// still good.
    pub fn announce_invalid_reference(&mut self, name: String, span: usize)
        requires
            old(self).env_wf(),
        ensures
            final(self).env_wf(),
            final(self).scopes@.len() == old(self).scopes@.len(),
            final(self).structs == old(self).structs,
            final(self).functions == old(self).functions,
            Self::same_config(*old(self), *final(self)),
            Self::same_scratch(*old(self), *final(self)),
            Self::diags_extended(*old(self), *final(self)),
            old(self).env()[spec_scope_of(old(self).env(), name@)].contains_key(name@) ==> ({
                let v = old(self).env()[spec_scope_of(old(self).env(), name@)][name@];
                &&& final(self).scopes == old(self).scopes
                &&& (final(self).diagnostics == old(self).diagnostics <==> reference_ok(
                    old(self).env(),
                    v,
                ))
            }),
            old(self).env()[spec_scope_of(old(self).env(), name@)].contains_key(name@) ==> ({
                let k = spec_scope_of(old(self).env(), name@);
                let fr = old(self).scopes@[k];
                let sv = fr.vars@[crate::scope::index_of_name(fr.vars@, name@)];
                match sv.var_type {
                    VarType::ConstRef(st) => final(self).diagnostics@ == (if st.items@.len()
                        == 0 {
                        old(self).diagnostics@.push(
                            Diagnostic::RefToNoValue { name, mutable: false, offset: span },
                        )
                    } else {
                        old(self).diagnostics@ + pointee_reports(
                            old(self).env(),
                            sv.id@,
                            false,
                            name,
                            span,
                            st.items@,
                        )
                    }),
                    VarType::MutRef(st) => final(self).diagnostics@ == (if st.items@.len() == 0 {
                        old(self).diagnostics@.push(
                            Diagnostic::RefToNoValue { name, mutable: true, offset: span },
                        )
                    } else {
                        old(self).diagnostics@ + pointee_reports(
                            old(self).env(),
                            sv.id@,
                            true,
                            name,
                            span,
                            st.items@,
                        )
                    }),
                    _ => final(self).diagnostics@ == old(self).diagnostics@,
                }
            }),
    {
        let ref_id = self.get_id(name.as_str());
        let created = self.name_to_var(name.as_str());
        let ghost base = *self;
        proof {
            crate::checker::lemma_scope_of_stable(old(self).env(), base.env(), name@);
            assert(created.id.scope as int == spec_scope_of(old(self).env(), name@));
        }
        let k2 = self.get_scope_number(name.as_str());
        proof {
            assert(k2 as int == spec_scope_of(old(self).env(), name@));
            assert(base.env()[k2 as int] == base.scopes@[k2 as int]@);
            assert(base.env()[k2 as int].contains_key(name@));
        }
        let ghost fr = self.scopes@[k2 as int];
        let ghost sidx = crate::scope::index_of_name(fr.vars@, name@);
        let (is_const, points, is_ref): (bool, crate::variable::IdSet, bool) = match self.scopes[k2].get(
            name.as_str(),
        ) {
            Option::Some(v) => {
                proof {
                    let i0 = choose|i0: int|
                        0 <= i0 < fr.vars@.len() && fr.vars@[i0] == *v;
                    crate::scope::lemma_index_of_name_unique(fr.vars@, name@, i0);
                }
                match &v.var_type {
                    VarType::ConstRef(st) => (true, st.clone(), true),
                    VarType::MutRef(st) => (false, st.clone(), true),
                    _ => (true, crate::variable::IdSet::new(), false),
                }
            },
            Option::None => {
                proof {
                    assert(false);
                }
                vstd::pervasive::unreached()
            },
        };
        let ghost v0 = fr.vars@[sidx]@;
        proof {
            assert(fr.vars@[sidx].id.scope == k2);
            assert(fr.vars@[sidx].id.name@ == name@);
            assert(ref_id@ == v0.id);
        }
        if !is_ref {
            return ;
        }
        if points.is_empty() {
            proof {
                assert(!reference_ok(base.env(), v0));
                if old(self).env()[spec_scope_of(old(self).env(), name@)].contains_key(name@) {
                    assert(base == *old(self));
                }
            }
            self.diagnostics.push(
                Diagnostic::RefToNoValue { name: name.clone(), mutable: !is_const, offset: span },
            );
            return ;
        }
        let n = points.len();
        let mut i: usize = 0;
        while i < n
            invariant
                self.env_wf(),
                n == points.items@.len(),
                n > 0,
                i <= n,
                is_const == (v0.var_type is ConstRef),
                (v0.var_type is ConstRef || v0.var_type is MutRef),
                points@ == (match v0.var_type {
                    VarTypeView::ConstRef { points_to } => points_to,
                    VarTypeView::MutRef { points_to } => points_to,
                    _ => Set::<IdView>::empty(),
                }),
                ref_id@ == v0.id,
                k2 < base.scopes@.len(),
                fr == base.scopes@[k2 as int],
                0 <= sidx < fr.vars@.len(),
                fr.vars@[sidx]@ == v0,
                points.items@ == (match fr.vars@[sidx].var_type {
                    VarType::ConstRef(st) => st.items@,
                    VarType::MutRef(st) => st.items@,
                    _ => Seq::<crate::variable::Id>::empty(),
                }),
                self.diagnostics@ == base.diagnostics@ + pointee_reports(
                    base.env(),
                    v0.id,
                    !is_const,
                    name,
                    span,
                    points.items@.take(i as int),
                ),
                base.env_wf(),
                self.scopes == base.scopes,
                self.structs == base.structs,
                self.functions == base.functions,
                Self::same_config(base, *self),
                Self::same_scratch(base, *self),
                Self::diags_extended(base, *self),
                Self::diags_extended(*old(self), base),
                Self::same_config(*old(self), base),
                Self::same_scratch(*old(self), base),
                base.structs == old(self).structs,
                base.functions == old(self).functions,
                base.scopes@.len() == old(self).scopes@.len(),
                self.env_wf(),
                (self.diagnostics == base.diagnostics <==> (forall|j: int|
                    0 <= j < i ==> pointee_ok(
                        base.env(),
                        v0,
                        (#[trigger] points.items@[j])@,
                    ))),
            decreases n - i,
        {
            let pid = points.get(i);
            let out_of_scope = pid.scope >= self.scopes.len();
            let mut ok = false;
            let mut missing = false;
            if !out_of_scope {
                match self.id_to_var(pid) {
                    Option::Some(pv) => {
                        let recognized = if is_const {
                            pv.const_refs.contains(&ref_id)
                        } else {
                            pv.mut_refs.contains(&ref_id)
                        };
                        ok = recognized;
                    },
                    Option::None => {
                        missing = true;
                    },
                }
            }
            if !ok {
                if out_of_scope || missing {
                    self.diagnostics.push(
                        Diagnostic::RefOutOfScope {
                            name: name.clone(),
                            target: pid.name.clone(),
                            mutable: !is_const,
                            offset: span,
                        },
                    );
                } else {
                    self.diagnostics.push(
                        Diagnostic::InvalidRef {
                            name: name.clone(),
                            target: pid.name.clone(),
                            mutable: !is_const,
                            offset: span,
                        },
                    );
                }
            }
            proof {
                assert(ok == pointee_ok(base.env(), v0, points.items@[i as int]@));
                assert(points.items@.take(i as int + 1).drop_last() =~= points.items@.take(
                    i as int,
                ));
                assert(points.items@.take(i as int + 1).last() == points.items@[i as int]);
                assert(self.diagnostics@ =~= base.diagnostics@ + pointee_reports(
                    base.env(),
                    v0.id,
                    !is_const,
                    name,
                    span,
                    points.items@.take(i as int + 1),
                ));
            }
            i = i + 1;
        }
        proof {
            if self.diagnostics == base.diagnostics {
                assert forall|p: IdView| (match v0.var_type {
                    VarTypeView::ConstRef { points_to } => points_to,
                    VarTypeView::MutRef { points_to } => points_to,
                    _ => Set::<IdView>::empty(),
                }).contains(p) implies pointee_ok(base.env(), v0, p) by {
                    let j = choose|j: int|
                        0 <= j < points.items@.len() && points.items@[j]@ == p;
                    assert(pointee_ok(base.env(), v0, points.items@[j]@));
                }
                assert(points@.contains(points.items@[0]@));
                assert(reference_ok(base.env(), v0));
            } else {
                if reference_ok(base.env(), v0) {
                    assert forall|j: int| 0 <= j < n implies pointee_ok(
                        base.env(),
                        v0,
                        (#[trigger] points.items@[j])@,
                    ) by {
                        assert(points@.contains(points.items@[j]@));
                    }
                    assert(false);
                }
            }
            assert(points.items@.take(n as int) =~= points.items@);
            if old(self).env()[spec_scope_of(old(self).env(), name@)].contains_key(name@) {
                assert(base == *old(self));
            }
        }
    }
}

/// What the use-site validation reports for one pointee: an out-of-scope
/// report when the pointee's frame is gone (or the pointee itself is), an
/// invalid-reference report when the pointee no longer records the
/// reference, nothing when the pointee still backs it.
pub open spec fn pointee_report(
    env: Seq<Map<Seq<char>, VariableView>>,
    rid: IdView,
    mutable: bool,
    name: String,
    span: usize,
    pid: Id,
) -> Seq<Diagnostic> {
    if pid.scope as int >= env.len() || !env[pid.scope as int].contains_key(pid.name@) {
        seq![
            Diagnostic::RefOutOfScope { name, target: pid.name, mutable, offset: span },
        ]
    } else if !(if mutable {
        env[pid.scope as int][pid.name@].mut_refs.contains(rid)
    } else {
        env[pid.scope as int][pid.name@].const_refs.contains(rid)
    }) {
        seq![Diagnostic::InvalidRef { name, target: pid.name, mutable, offset: span }]
    } else {
        Seq::empty()
    }
}

/// The validation's reports over the stored pointees, in stored order.
pub open spec fn pointee_reports(
    env: Seq<Map<Seq<char>, VariableView>>,
    rid: IdView,
    mutable: bool,
    name: String,
    span: usize,
    items: Seq<Id>,
) -> Seq<Diagnostic>
    decreases items.len(),
{
    if items.len() == 0 {
        Seq::empty()
    } else {
        pointee_reports(env, rid, mutable, name, span, items.drop_last()) + pointee_report(
            env,
            rid,
            mutable,
            name,
            span,
            items.last(),
        )
    }
}

/// Whether one pointee of the reference variable `r` is alive and
/// recognizes it.
pub open spec fn pointee_ok(
    env: Seq<Map<Seq<char>, VariableView>>,
    r: VariableView,
    p: IdView,
) -> bool {
    &&& p.scope < env.len()
    &&& env[p.scope as int].contains_key(p.name)
    &&& (if r.var_type is ConstRef {
        env[p.scope as int][p.name].const_refs.contains(r.id)
    } else {
        env[p.scope as int][p.name].mut_refs.contains(r.id)
    })
}

} // verus!
