//! The branch join: merging two scope stacks after `if`/`else`.
//!
//! The join is conservative in both directions at once: ownership is the
//! meet (moved in either branch means moved at the join), while aliases are
//! the union (either branch's pointees may be live at run time).  Variables
//! present in only one branch are taken as they are.

use vstd::prelude::*;

use crate::checker::BorrowChecker;
use crate::scope::Scope;
use crate::variable::Variable;
use crate::variable::VariableView;
use crate::variable::VarTypeView;
use crate::variable::VarType;

verus! {

/// The join of one variable's two branch states: union of the reverse
/// edges, meet of ownership, union of pointees.
pub open spec fn join_var(a: VariableView, b: VariableView) -> VariableView {
    VariableView {
        id: a.id,
        var_type: join_type(a.var_type, b.var_type),
        const_refs: a.const_refs + b.const_refs,
        mut_refs: a.mut_refs + b.mut_refs,
    }
}

/// The join of the two branch types.  Ownership joins to the conjunction;
/// reference kinds union their pointees; mismatched kinds keep the current
/// branch's type.
pub open spec fn join_type(a: VarTypeView, b: VarTypeView) -> VarTypeView {
    match b {
        VarTypeView::Owner { struct_name: tn, has_ownership: o1 } => match a {
            VarTypeView::Owner { has_ownership: o2, .. } => VarTypeView::Owner {
                struct_name: tn,
                has_ownership: o1 && o2,
            },
            _ => a,
        },
        VarTypeView::ConstRef { points_to: p1 } => join_ref(a, p1),
        VarTypeView::MutRef { points_to: p1 } => join_ref(a, p1),
        VarTypeView::Copy => a,
    }
}

/// Unions `p1` into a reference type's pointees; other kinds are kept.
pub open spec fn join_ref(a: VarTypeView, p1: Set<crate::variable::IdView>) -> VarTypeView {
    match a {
        VarTypeView::ConstRef { points_to: p2 } => VarTypeView::ConstRef { points_to: p2 + p1 },
        VarTypeView::MutRef { points_to: p2 } => VarTypeView::MutRef { points_to: p2 + p1 },
        _ => a,
    }
}

/// One frame joined with the first `j` variables of the other branch's
/// frame: each is joined into the variable already present under its name,
/// or inserted as it is.
pub open spec fn join_entries(
    fa: Map<Seq<char>, VariableView>,
    s: Seq<Variable>,
    j: int,
) -> Map<Seq<char>, VariableView>
    decreases j,
{
    if j <= 0 {
        fa
    } else {
        let m = join_entries(fa, s, j - 1);
        let key = s[j - 1].id.name@;
        m.insert(
            key,
            if fa.contains_key(key) {
                join_var(fa[key], s[j - 1]@)
            } else {
                s[j - 1]@
            },
        )
    }
}

/// A key no processed entry carries is untouched by the join so far.
pub proof fn lemma_join_entries_untouched(
    fa: Map<Seq<char>, VariableView>,
    s: Seq<Variable>,
    j: int,
    key: Seq<char>,
)
    requires
        0 <= j <= s.len(),
        forall|b: int| 0 <= b < j ==> (#[trigger] s[b]).id.name@ != key,
    ensures
        join_entries(fa, s, j).contains_key(key) == fa.contains_key(key),
        fa.contains_key(key) ==> join_entries(fa, s, j)[key] == fa[key],
    decreases j,
{
    if j > 0 {
        lemma_join_entries_untouched(fa, s, j - 1, key);
    }
}

/// Joining a variable's state with itself changes nothing.
pub proof fn lemma_join_var_self(v: VariableView)
    ensures
        join_var(v, v) == v,
{
    assert(v.const_refs + v.const_refs =~= v.const_refs);
    assert(v.mut_refs + v.mut_refs =~= v.mut_refs);
    match v.var_type {
        VarTypeView::ConstRef { points_to } => {
            assert(points_to + points_to =~= points_to);
        },
        VarTypeView::MutRef { points_to } => {
            assert(points_to + points_to =~= points_to);
        },
        _ => {},
    }
}

/// Joining a frame with entries that mirror what it already holds changes
/// nothing.
pub proof fn lemma_join_entries_self(
    fa: Map<Seq<char>, VariableView>,
    s: Seq<Variable>,
    j: int,
)
    requires
        0 <= j <= s.len(),
        forall|a: int|
            0 <= a < s.len() ==> fa.contains_key((#[trigger] s[a]).id.name@) && fa[s[a].id.name@]
                == s[a]@,
    ensures
        join_entries(fa, s, j) == fa,
    decreases j,
{
    if j > 0 {
        lemma_join_entries_self(fa, s, j - 1);
        lemma_join_var_self(s[j - 1]@);
        assert(join_entries(fa, s, j) =~= fa);
    }
}

impl BorrowChecker {
    /// Merges the other branch's scope stack into this one, frame by frame:
    /// reverse edges and pointee sets union, ownership meets, and variables
    /// only the other branch knows are inserted as they are.
    pub fn merge_scopes(&mut self, other_scopes: &Vec<Scope>)
        requires
            old(self).env_wf(),
            other_scopes@.len() >= old(self).scopes@.len(),
            forall|i: int| 0 <= i < other_scopes@.len() ==> (#[trigger] other_scopes@[i]).wf(),
            forall|i: int, j: int|
                0 <= i < other_scopes@.len() && 0 <= j < (#[trigger] other_scopes@[i]).vars@.len()
                    ==> (#[trigger] other_scopes@[i].vars@[j]).id.scope == i,
        ensures
            final(self).env_wf(),
            final(self).scopes@.len() == old(self).scopes@.len(),
            final(self).structs == old(self).structs,
            final(self).functions == old(self).functions,
            final(self).diagnostics == old(self).diagnostics,
            Self::same_config(*old(self), *final(self)),
            Self::same_scratch(*old(self), *final(self)),
            forall|i: int|
                0 <= i < old(self).scopes@.len() ==> final(self).env()[i] == join_entries(
                    old(self).env()[i],
                    (#[trigger] other_scopes@[i]).vars@,
                    other_scopes@[i].vars@.len() as int,
                ),
    {
        let n = self.scopes.len();
        let mut i: usize = 0;
        while i < n
            invariant
                self.env_wf(),
                n == self.scopes@.len(),
                n == old(self).scopes@.len(),
                i <= n,
                other_scopes@.len() >= n,
                forall|a: int| 0 <= a < other_scopes@.len() ==> (#[trigger] other_scopes@[a]).wf(),
                forall|a: int, b: int|
                    0 <= a < other_scopes@.len()
                        && 0 <= b < (#[trigger] other_scopes@[a]).vars@.len()
                        ==> (#[trigger] other_scopes@[a].vars@[b]).id.scope == a,
                self.structs == old(self).structs,
                self.functions == old(self).functions,
                self.diagnostics == old(self).diagnostics,
                Self::same_config(*old(self), *self),
                Self::same_scratch(*old(self), *self),
                forall|a: int|
                    0 <= a < i ==> self.env()[a] == join_entries(
                        old(self).env()[a],
                        (#[trigger] other_scopes@[a]).vars@,
                        other_scopes@[a].vars@.len() as int,
                    ),
                forall|a: int| i <= a < n ==> self.env()[a] == old(self).env()[a],
            decreases n - i,
        {
            let m = other_scopes[i].len();
            let mut j: usize = 0;
            while j < m
                invariant
                    self.env_wf(),
                    n == self.scopes@.len(),
                    n == old(self).scopes@.len(),
                    i < n,
                    other_scopes@.len() >= n,
                    forall|a: int|
                        0 <= a < other_scopes@.len() ==> (#[trigger] other_scopes@[a]).wf(),
                    forall|a: int, b: int|
                        0 <= a < other_scopes@.len()
                            && 0 <= b < (#[trigger] other_scopes@[a]).vars@.len()
                            ==> (#[trigger] other_scopes@[a].vars@[b]).id.scope == a,
                    m == other_scopes@[i as int].vars@.len(),
                    j <= m,
                    self.structs == old(self).structs,
                    self.functions == old(self).functions,
                    self.diagnostics == old(self).diagnostics,
                    Self::same_config(*old(self), *self),
                    Self::same_scratch(*old(self), *self),
                    forall|a: int|
                        0 <= a < i ==> self.env()[a] == join_entries(
                            old(self).env()[a],
                            (#[trigger] other_scopes@[a]).vars@,
                            other_scopes@[a].vars@.len() as int,
                        ),
                    forall|a: int| i < a < n ==> self.env()[a] == old(self).env()[a],
                    self.env()[i as int] == join_entries(
                        old(self).env()[i as int],
                        other_scopes@[i as int].vars@,
                        j as int,
                    ),
                decreases m - j,
            {
                let ov = other_scopes[i].get_at(j);
                let ghost key = ov.id.name@;
                proof {
                    assert(ov.id.scope == i);
                    assert forall|b: int| j < b < m implies (#[trigger] other_scopes@[i as int].vars@[b]).id.name@ != key by {
                        assert(other_scopes@[i as int].vars@[j as int].id.name@ == key);
                    }
                    assert(self.env()[i as int] == self.scopes@[i as int]@);
                }
                proof {
                    assert forall|b: int| 0 <= b < j implies (#[trigger] other_scopes@[i as int].vars@[b]).id.name@ != key by {
                        assert(other_scopes@[i as int].vars@[j as int].id.name@ == key);
                    }
                    lemma_join_entries_untouched(
                        old(self).env()[i as int],
                        other_scopes@[i as int].vars@,
                        j as int,
                        key,
                    );
                }
                let present = self.scopes[i].contains_name(ov.id.name.as_str());
                if present {
                    let cur = match self.scopes[i].get(ov.id.name.as_str()) {
                        Option::Some(c) => c.clone(),
                        Option::None => {
                            proof {
                                assert(false);
                            }
                            vstd::pervasive::unreached()
                        },
                    };
                    let ghost curv = cur@;
                    let Variable { id, var_type, const_refs, mut_refs } = cur;
                    let mut new_cr = const_refs;
                    new_cr.extend_with(&ov.const_refs);
                    let mut new_mr = mut_refs;
                    new_mr.extend_with(&ov.mut_refs);
                    let new_vt: VarType = match &ov.var_type {
                        VarType::Owner(tn, o1) => {
                            match var_type {
                                VarType::Owner(_, o2) => VarType::Owner(tn.clone(), *o1 && o2),
                                other => other,
                            }
                        },
                        VarType::ConstRef(p1) => {
                            match var_type {
                                VarType::ConstRef(p2) => {
                                    let mut p = p2;
                                    p.extend_with(p1);
                                    VarType::ConstRef(p)
                                },
                                VarType::MutRef(p2) => {
                                    let mut p = p2;
                                    p.extend_with(p1);
                                    VarType::MutRef(p)
                                },
                                other => other,
                            }
                        },
                        VarType::MutRef(p1) => {
                            match var_type {
                                VarType::ConstRef(p2) => {
                                    let mut p = p2;
                                    p.extend_with(p1);
                                    VarType::ConstRef(p)
                                },
                                VarType::MutRef(p2) => {
                                    let mut p = p2;
                                    p.extend_with(p1);
                                    VarType::MutRef(p)
                                },
                                other => other,
                            }
                        },
                        VarType::Copy => var_type,
                    };
                    let joined = Variable {
                        id,
                        var_type: new_vt,
                        const_refs: new_cr,
                        mut_refs: new_mr,
                    };
                    proof {
                        assert(joined@ == join_var(curv, other_scopes@[i as int].vars@[j as int]@));
                    }
                    self.put_var(joined);
                } else {
                    let nv = ov.clone();
                    proof {
                        assert(nv@ == other_scopes@[i as int].vars@[j as int]@);
                    }
                    self.put_var(nv);
                }
                proof {
                    assert(self.env()[i as int] == join_entries(
                        old(self).env()[i as int],
                        other_scopes@[i as int].vars@,
                        j as int + 1,
                    ));
                }
                j = j + 1;
            }
            i = i + 1;
        }
    }
}

} // verus!
