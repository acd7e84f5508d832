//! The properties the tracked state obeys, stated once and proved.
//!
//! The reverse edges are the checker's claim about who points where: every
//! reference recorded in a variable's reverse-edge set really exists, is a
//! reference of that kind, and points back at the variable.  The lemmas
//! here show that the two state transitions the engines perform — the
//! ownership change that severs every borrow, and the borrow creation that
//! rewires one reference — keep that claim true, and that the branch join
//! is idempotent.

use vstd::prelude::*;

use crate::borrows::reference_ok;
use crate::merge::join_entries;
use crate::merge::lemma_join_entries_self;
use crate::ownership::cleared_owner_var;
use crate::scope::lemma_scope_var_in_map;
use crate::scope::Scope;
use crate::variable::IdView;
use crate::variable::VariableView;
use crate::variable::VarTypeView;

verus! {

/// Every reverse edge is backed by a forward edge: a reference `r` recorded
/// in a variable's reverse-edge set exists in some frame, has the matching
/// reference kind, and carries the variable's id in its points-to set.
pub open spec fn edges_wf(env: Seq<Map<Seq<char>, VariableView>>) -> bool {
    &&& forall|i: int, n: Seq<char>, r: IdView|
        #![trigger env[i].contains_key(n), env[i][n].const_refs.contains(r)]
        0 <= i < env.len() && env[i].contains_key(n) && env[i][n].const_refs.contains(r) ==> {
            &&& r.scope < env.len()
            &&& env[r.scope as int].contains_key(r.name)
            &&& (env[r.scope as int][r.name].var_type matches VarTypeView::ConstRef { points_to }
                && points_to.contains(env[i][n].id))
        }
    &&& forall|i: int, n: Seq<char>, r: IdView|
        #![trigger env[i].contains_key(n), env[i][n].mut_refs.contains(r)]
        0 <= i < env.len() && env[i].contains_key(n) && env[i][n].mut_refs.contains(r) ==> {
            &&& r.scope < env.len()
            &&& env[r.scope as int].contains_key(r.name)
            &&& (env[r.scope as int][r.name].var_type matches VarTypeView::MutRef { points_to }
                && points_to.contains(env[i][n].id))
        }
}

/// A freshly constructed checker's environment has the reverse edges
/// backed, trivially: its one frame holds no variables yet.
pub proof fn lemma_edges_wf_initially(env: Seq<Map<Seq<char>, VariableView>>)
    requires
        forall|i: int| 0 <= i < env.len() ==> (#[trigger] env[i]) == Map::<
            Seq<char>,
            VariableView,
        >::empty(),
    ensures
        edges_wf(env),
{
}

/// An ownership change keeps the reverse edges backed: the changed
/// variable's own reverse-edge sets are emptied (which removes claims), its
/// kind and pointees are unchanged, and no other variable moves.
///
/// This is the state the ownership engine leaves behind on a move or a
/// re-initialization of a declared variable.
pub proof fn lemma_edges_wf_after_ownership_change(
    env: Seq<Map<Seq<char>, VariableView>>,
    k: int,
    name: Seq<char>,
    has: bool,
)
    requires
        edges_wf(env),
        0 <= k < env.len(),
        env[k].contains_key(name),
    ensures
        edges_wf(
            env.update(k, env[k].insert(name, cleared_owner_var(env[k][name], has))),
        ),
{
    let v2 = cleared_owner_var(env[k][name], has);
    let env2 = env.update(k, env[k].insert(name, v2));
    assert forall|i: int, n: Seq<char>, r: IdView|
        0 <= i < env2.len() && #[trigger] env2[i].contains_key(n) && #[trigger] env2[i][n].const_refs.contains(r) implies {
        &&& r.scope < env2.len()
        &&& env2[r.scope as int].contains_key(r.name)
        &&& (env2[r.scope as int][r.name].var_type matches VarTypeView::ConstRef { points_to }
            && points_to.contains(env2[i][n].id))
    } by {
        assert(env[i].contains_key(n));
        assert(env[i][n].const_refs.contains(r));
        assert(env2[i][n].id == env[i][n].id);
        if r.scope as int == k && r.name == name {
            assert(env[k][name].var_type matches VarTypeView::ConstRef { .. });
        }
    }
    assert forall|i: int, n: Seq<char>, r: IdView|
        0 <= i < env2.len() && #[trigger] env2[i].contains_key(n) && #[trigger] env2[i][n].mut_refs.contains(r) implies {
        &&& r.scope < env2.len()
        &&& env2[r.scope as int].contains_key(r.name)
        &&& (env2[r.scope as int][r.name].var_type matches VarTypeView::MutRef { points_to }
            && points_to.contains(env2[i][n].id))
    } by {
        assert(env[i].contains_key(n));
        assert(env[i][n].mut_refs.contains(r));
        if r.scope as int == k && r.name == name {
            assert(env[k][name].var_type matches VarTypeView::MutRef { .. });
        }
    }
}

/// A freshly created mutable borrow keeps the reverse edges backed: the
/// pointee records exactly the borrowing reference, and the reference
/// points exactly at the pointee.
///
/// This is the state the borrow engine leaves behind on `lhs = &x`: the
/// reference is first unlinked from everything it pointed to, and after the
/// borrow `x` has no shared borrows and `lhs` is its one mutable borrow.
pub proof fn lemma_edges_wf_after_mut_borrow(
    env: Seq<Map<Seq<char>, VariableView>>,
    xk: int,
    xname: Seq<char>,
    lk: int,
    lname: Seq<char>,
)
    requires
        edges_wf(env),
        0 <= xk < env.len(),
        0 <= lk < env.len(),
        env[xk].contains_key(xname),
        env[lk].contains_key(lname),
        !(xk == lk && xname == lname),
        env[lk][lname].var_type is MutRef,
        env[lk][lname].id == (IdView { name: lname, scope: lk as nat }),
        env[xk][xname].id == (IdView { name: xname, scope: xk as nat }),
        forall|i: int, n: Seq<char>|
            #![trigger env[i].contains_key(n)]
            0 <= i < env.len() && env[i].contains_key(n) ==> !env[i][n].const_refs.contains(
                env[lk][lname].id,
            ) && !env[i][n].mut_refs.contains(env[lk][lname].id),
    ensures
        ({
            let x2 = VariableView {
                id: env[xk][xname].id,
                var_type: env[xk][xname].var_type,
                const_refs: Set::empty(),
                mut_refs: Set::<IdView>::empty().insert(env[lk][lname].id),
            };
            let l2 = VariableView {
                id: env[lk][lname].id,
                var_type: VarTypeView::MutRef {
                    points_to: Set::<IdView>::empty().insert(env[xk][xname].id),
                },
                const_refs: env[lk][lname].const_refs,
                mut_refs: env[lk][lname].mut_refs,
            };
            edges_wf(
                env.update(xk, env[xk].insert(xname, x2)).update(
                    lk,
                    env.update(xk, env[xk].insert(xname, x2))[lk].insert(lname, l2),
                ),
            )
        }),
{
    let xid = env[xk][xname].id;
    let lid = env[lk][lname].id;
    let x2 = VariableView {
        id: xid,
        var_type: env[xk][xname].var_type,
        const_refs: Set::empty(),
        mut_refs: Set::<IdView>::empty().insert(lid),
    };
    let l2 = VariableView {
        id: lid,
        var_type: VarTypeView::MutRef { points_to: Set::<IdView>::empty().insert(xid) },
        const_refs: env[lk][lname].const_refs,
        mut_refs: env[lk][lname].mut_refs,
    };
    let mid = env.update(xk, env[xk].insert(xname, x2));
    let env2 = mid.update(lk, mid[lk].insert(lname, l2));
    assert forall|i: int, n: Seq<char>, r: IdView|
        0 <= i < env2.len() && #[trigger] env2[i].contains_key(n) && #[trigger] env2[i][n].const_refs.contains(r) implies {
        &&& r.scope < env2.len()
        &&& env2[r.scope as int].contains_key(r.name)
        &&& (env2[r.scope as int][r.name].var_type matches VarTypeView::ConstRef { points_to }
            && points_to.contains(env2[i][n].id))
    } by {
        assert(env[i].contains_key(n));
        assert(env[i][n].const_refs.contains(r));
        assert(env2[i][n].id == env[i][n].id);
        assert(!(r.scope as int == lk && r.name == lname));
        if r.scope as int == xk && r.name == xname {
            assert(env[xk][xname].var_type matches VarTypeView::ConstRef { .. });
            assert(x2.var_type matches VarTypeView::ConstRef { .. });
        }
    }
    assert forall|i: int, n: Seq<char>, r: IdView|
        0 <= i < env2.len() && #[trigger] env2[i].contains_key(n) && #[trigger] env2[i][n].mut_refs.contains(r) implies {
        &&& r.scope < env2.len()
        &&& env2[r.scope as int].contains_key(r.name)
        &&& (env2[r.scope as int][r.name].var_type matches VarTypeView::MutRef { points_to }
            && points_to.contains(env2[i][n].id))
    } by {
        if i == xk && n == xname {
            assert(env2[i][n].mut_refs =~= Set::<IdView>::empty().insert(lid));
            assert(r == lid);
            assert(env2[lk].contains_key(lname));
            assert(env2[lk][lname] == l2);
            assert(l2.var_type matches VarTypeView::MutRef { points_to }
                && points_to.contains(xid));
        } else {
            assert(env[i].contains_key(n));
            assert(env[i][n].mut_refs.contains(r));
            assert(env2[i][n].id == env[i][n].id);
            if r.scope as int == lk && r.name == lname {
                assert(env[lk][lname].var_type matches VarTypeView::MutRef { points_to }
                    && points_to.contains(env[i][n].id));
                assert(l2.var_type matches VarTypeView::MutRef { .. });
                assert(false);
            } else if r.scope as int == xk && r.name == xname {
                assert(env[xk][xname].var_type matches VarTypeView::MutRef { .. });
                assert(x2.var_type matches VarTypeView::MutRef { .. });
                assert(env[xk][xname].var_type matches VarTypeView::MutRef { points_to }
                    && points_to.contains(env[i][n].id));
            }
        }
    }
}

/// A reference the use-site validation finds nothing wrong with really is
/// backed: every pointee is inside the stack, still present, and still
/// records the reference.  The validation reports nothing exactly when this
/// holds, so a clean run certifies the reference.
pub proof fn lemma_reference_ok_backed(
    env: Seq<Map<Seq<char>, VariableView>>,
    r: VariableView,
    p: IdView,
)
    requires
        reference_ok(env, r),
        match r.var_type {
            VarTypeView::ConstRef { points_to } => points_to.contains(p),
            VarTypeView::MutRef { points_to } => points_to.contains(p),
            _ => false,
        },
    ensures
        p.scope < env.len(),
        env[p.scope as int].contains_key(p.name),
        r.var_type is ConstRef ==> env[p.scope as int][p.name].const_refs.contains(r.id),
        r.var_type is MutRef ==> env[p.scope as int][p.name].mut_refs.contains(r.id),
{
}

/// Merging a scope stack with a snapshot of itself changes nothing: the
/// join of a frame with entries that mirror what it already holds is the
/// frame itself.
pub proof fn lemma_merge_with_self_identity(
    env: Seq<Map<Seq<char>, VariableView>>,
    snapshot: Seq<Scope>,
    i: int,
)
    requires
        0 <= i < env.len(),
        snapshot.len() == env.len(),
        snapshot[i].wf(),
        snapshot[i]@ == env[i],
    ensures
        join_entries(env[i], snapshot[i].vars@, snapshot[i].vars@.len() as int) == env[i],
{
    assert forall|a: int|
        0 <= a < snapshot[i].vars@.len() implies env[i].contains_key(
        (#[trigger] snapshot[i].vars@[a]).id.name@,
    ) && env[i][snapshot[i].vars@[a].id.name@] == snapshot[i].vars@[a]@ by {
        lemma_scope_var_in_map(&snapshot[i], a);
    }
    lemma_join_entries_self(env[i], snapshot[i].vars@, snapshot[i].vars@.len() as int);
}

} // verus!
