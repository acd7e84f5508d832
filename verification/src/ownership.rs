//! The ownership engine.
//!
//! Changing a variable's ownership invalidates every reference to it: both
//! reverse-edge sets are cleared.  Taking ownership away from an `Owner`
//! that already lost it is a use-of-moved-value error; the trace events for
//! gaining and losing ownership appear only in the ownership print mode.
//! Moving a whole struct moves every member path and placeholder member
//! known alongside it.

use vstd::prelude::*;

use crate::checker::spec_scope_of;
use crate::checker::BorrowChecker;
use crate::checker::PrintType;
use crate::diagnostics::Diagnostic;
use crate::strings::concat_str;
use crate::strings::first_segment;
use crate::strings::has_char;
use crate::strings::has_prefix;
use crate::strings::lemma_first_index_unique;
use crate::strings::lemma_has_first;
use crate::variable::Variable;
use crate::variable::VariableView;
use crate::variable::VarType;
use crate::variable::VarTypeView;

verus! {

/// The variable after an ownership change: both reverse-edge sets emptied,
/// and an owner's flag set to `has`.
pub open spec fn cleared_owner_var(v: VariableView, has: bool) -> VariableView {
    VariableView {
        id: v.id,
        var_type: match v.var_type {
            VarTypeView::Owner { struct_name, .. } => VarTypeView::Owner {
                struct_name,
                has_ownership: has,
            },
            other => other,
        },
        const_refs: Set::empty(),
        mut_refs: Set::empty(),
    }
}

/// What an ownership change reports: a use-of-moved error when ownership is
/// taken from an owner that already lost it, and otherwise a trace event in
/// the ownership print mode.
pub open spec fn set_ownership_diags(
    vt: VarTypeView,
    has: bool,
    trace: bool,
    name: String,
    span: usize,
) -> Seq<Diagnostic> {
    match vt {
        VarTypeView::Owner { has_ownership: had, .. } => {
            if has {
                if trace {
                    seq![Diagnostic::MadeLive { name, offset: span }]
                } else {
                    Seq::empty()
                }
            } else if !had {
                seq![Diagnostic::UseOfMoved { name, offset: span }]
            } else if trace {
                seq![Diagnostic::Killed { name, offset: span }]
            } else {
                Seq::empty()
            }
        },
        _ => Seq::empty(),
    }
}

/// A member path after the cascade of a whole-struct ownership change:
/// no borrows remain and an owner's flag matches the change.
pub open spec fn moved_member(v: VariableView, has: bool) -> bool {
    &&& v.const_refs == Set::<crate::variable::IdView>::empty()
    &&& v.mut_refs == Set::<crate::variable::IdView>::empty()
    &&& (v.var_type matches VarTypeView::Owner { has_ownership: h, .. } ==> h == has)
}

/// A name that extends `name` past a `.` starts in the same segment, so it
/// resolves to the same scope.
pub proof fn lemma_first_segment_prefix(name: Seq<char>, kk: Seq<char>)
    requires
        (name + seq!['.']).is_prefix_of(kk),
    ensures
        first_segment(kk) == first_segment(name),
{
    let ext = name + seq!['.'];
    assert(kk.len() >= ext.len());
    assert(forall|j: int| 0 <= j < ext.len() ==> kk[j] == ext[j]);
    assert(forall|j: int| 0 <= j < name.len() ==> kk[j] == name[j]);
    assert(kk[name.len() as int] == '.');
    if has_char(name, '.') {
        lemma_has_first(name, '.');
        let d = crate::strings::first_index_of(name, '.');
        assert(0 <= d < name.len() && name[d] == '.' && (forall|j: int|
            0 <= j < d ==> name[j] != '.'));
        assert(kk[d] == '.');
        assert forall|j: int| 0 <= j < d implies kk[j] != '.' by {
            assert(kk[j] == name[j]);
        }
        lemma_first_index_unique(kk, '.', d);
        assert(has_char(kk, '.'));
        assert(first_segment(kk) =~= first_segment(name));
    } else {
        assert forall|j: int| 0 <= j < name.len() implies kk[j] != '.' by {
            assert(kk[j] == name[j]);
        }
        lemma_first_index_unique(kk, '.', name.len() as int);
        assert(has_char(kk, '.'));
        assert(first_segment(kk) =~= name);
    }
}

impl BorrowChecker {
    /// Changes the named variable's ownership, invalidating every reference
    /// to it; creates the variable first when it was never declared.  Taking
    /// ownership from an owner that already lost it reports a use of a
    /// moved value, and nothing at all happens for the name `NULL`.
    pub fn set_ownership(&mut self, name: String, has_ownership: bool, span: usize)
        requires
            old(self).env_wf(),
        ensures
            final(self).env_wf(),
            final(self).scopes@.len() == old(self).scopes@.len(),
            final(self).structs == old(self).structs,
            final(self).functions == old(self).functions,
            Self::same_config(*old(self), *final(self)),
            Self::same_scratch(*old(self), *final(self)),
            Self::diags_extended(*old(self), *final(self)),
            name@ == "NULL"@ ==> *final(self) == *old(self),
            name@ != "NULL"@ ==> ({
                let k = spec_scope_of(old(self).env(), name@);
                &&& final(self).env()[k].contains_key(name@)
                &&& final(self).env()[k][name@].const_refs == Set::<crate::variable::IdView>::empty()
                &&& final(self).env()[k][name@].mut_refs == Set::<crate::variable::IdView>::empty()
                &&& (final(self).env()[k][name@].var_type matches VarTypeView::Owner {
                    has_ownership: h,
                    ..
                } ==> h == has_ownership)
            }),
            name@ != "NULL"@ && old(self).env()[spec_scope_of(old(self).env(), name@)].contains_key(
                name@,
            ) ==> ({
                let k = spec_scope_of(old(self).env(), name@);
                let v = old(self).env()[k][name@];
                &&& final(self).env() == old(self).env().update(
                    k,
                    old(self).env()[k].insert(name@, cleared_owner_var(v, has_ownership)),
                )
                &&& final(self).diagnostics@ == old(self).diagnostics@ + set_ownership_diags(
                    v.var_type,
                    has_ownership,
                    old(self).event_prints is Ownership,
                    name,
                    span,
                )
            }),
            forall|i: int, kk: Seq<char>|
                #![trigger old(self).env()[i].contains_key(kk), final(self).env()[i].contains_key(kk)]
                0 <= i < old(self).env().len() && old(self).env()[i].contains_key(kk)
                    ==> final(self).env()[i].contains_key(kk),
            forall|i: int, kk: Seq<char>|
                #![trigger final(self).env()[i].contains_key(kk), old(self).env()[i].contains_key(kk)]
                1 <= i < final(self).env().len() && final(self).env()[i].contains_key(kk)
                    && !old(self).env()[i].contains_key(kk) ==> has_char(kk, '.'),
    {
        if crate::strings::str_eq(name.as_str(), "NULL") {
            return ;
        }
        let trace = match self.event_prints {
            PrintType::Ownership => true,
            _ => false,
        };
        let var = self.name_to_var(name.as_str());
        let ghost k = var.id.scope as int;
        let ghost v0 = var@;
        let Variable { id, var_type, const_refs: _, mut_refs: _ } = var;
        match var_type {
            VarType::Owner(tn, had) => {
                let v2 = Variable::new(name.clone(), id.scope, VarType::Owner(tn, has_ownership));
                self.put_var(v2);
                if has_ownership {
                    if trace {
                        self.diagnostics.push(
                            Diagnostic::MadeLive { name: name.clone(), offset: span },
                        );
                    }
                } else if !had {
                    self.diagnostics.push(
                        Diagnostic::UseOfMoved { name: name.clone(), offset: span },
                    );
                } else if trace {
                    self.diagnostics.push(Diagnostic::Killed { name: name.clone(), offset: span });
                }
            },
            other => {
                let v2 = Variable::new(name.clone(), id.scope, other);
                self.put_var(v2);
            },
        }
    }

    /// Changes ownership of a whole struct: the named variable itself,
    /// every member path declared beside it, and every placeholder member
    /// reachable through it.
    pub fn set_all_ownership(&mut self, name: String, has_ownership: bool, span: usize)
        requires
            old(self).env_wf(),
        ensures
            final(self).env_wf(),
            final(self).scopes@.len() == old(self).scopes@.len(),
            final(self).structs == old(self).structs,
            final(self).functions == old(self).functions,
            Self::same_config(*old(self), *final(self)),
            Self::same_scratch(*old(self), *final(self)),
            Self::diags_extended(*old(self), *final(self)),
            name@ != "NULL"@ ==> ({
                let k = spec_scope_of(old(self).env(), name@);
                &&& final(self).env()[k].contains_key(name@)
                &&& final(self).env()[k][name@].const_refs == Set::<crate::variable::IdView>::empty()
                &&& final(self).env()[k][name@].mut_refs == Set::<crate::variable::IdView>::empty()
                &&& (final(self).env()[k][name@].var_type matches VarTypeView::Owner {
                    has_ownership: h,
                    ..
                } ==> h == has_ownership)
            }),
            ({
                let kf = spec_scope_of(final(self).env(), name@);
                forall|kk: Seq<char>|
                    #![trigger final(self).env()[kf].contains_key(kk)]
                    final(self).env()[kf].contains_key(kk) && (name@ + seq!['.']).is_prefix_of(kk)
                        ==> moved_member(final(self).env()[kf][kk], has_ownership)
            }),
            forall|kk: Seq<char>|
                #![trigger final(self).env()[0].contains_key(kk)]
                final(self).env()[0].contains_key(kk) && (seq!['?'] + name@
                    + seq!['.']).is_prefix_of(kk) && spec_scope_of(final(self).env(), kk) == 0
                    ==> moved_member(final(self).env()[0][kk], has_ownership),
    {
        let ghost k0 = spec_scope_of(old(self).env(), name@);
        proof {
            crate::checker::lemma_scope_of_from(
                old(self).env(),
                first_segment(name@),
                old(self).env().len() - 1,
            );
        }
        self.set_ownership(name.clone(), has_ownership, span);
        let ghost after_name = *self;
        let member_prefix = concat_str(name.as_str(), ".");
        proof {
            reveal_strlit(".");
            assert(member_prefix@ =~= name@ + seq!['.']);
            assert(member_prefix@.subrange(0, member_prefix@.len() - 1) =~= name@);
            assert(member_prefix@.last() == '.');
        }
        let count = self.get_scope_number(name.as_str());
        let relatives = self.collect_prefixed(count, member_prefix.as_str());
        let n = relatives.len();
        let mut i: usize = 0;
        while i < n
            invariant
                self.env_wf(),
                after_name.env_wf(),
                n == relatives@.len(),
                i <= n,
                member_prefix@ == name@ + seq!['.'],
                count < after_name.scopes@.len(),
                count as int == spec_scope_of(after_name.env(), name@),
                self.scopes@.len() == after_name.scopes@.len(),
                self.structs == after_name.structs,
                self.functions == after_name.functions,
                Self::same_config(after_name, *self),
                Self::same_scratch(after_name, *self),
                Self::diags_extended(after_name, *self),
                0 <= k0 < self.env().len(),
                forall|a: int, kk: Seq<char>|
                    #![trigger self.env()[a].contains_key(kk)]
                    0 <= a < self.env().len() ==> (self.env()[a].contains_key(kk)
                        <==> after_name.env()[a].contains_key(kk)),
                forall|j: int|
                    0 <= j < relatives@.len() ==> after_name.env()[count as int].contains_key(
                        (#[trigger] relatives@[j])@,
                    ) && member_prefix@.is_prefix_of(relatives@[j]@) && relatives@[j]@ != "NULL"@
                        && relatives@[j]@ != name@,
                forall|a: int, b: int|
                    #![trigger relatives@[a], relatives@[b]]
                    0 <= a < b < relatives@.len() ==> relatives@[a]@ != relatives@[b]@,
                forall|j: int|
                    #![trigger relatives@[j]]
                    0 <= j < i ==> self.env()[count as int].contains_key(relatives@[j]@)
                        && moved_member(
                        self.env()[count as int][relatives@[j]@],
                        has_ownership,
                    ),
                name@ != "NULL"@ ==> ({
                    &&& self.env()[k0].contains_key(name@)
                    &&& self.env()[k0][name@].const_refs == Set::<
                        crate::variable::IdView,
                    >::empty()
                    &&& self.env()[k0][name@].mut_refs == Set::<crate::variable::IdView>::empty()
                    &&& (self.env()[k0][name@].var_type matches VarTypeView::Owner {
                        has_ownership: h,
                        ..
                    } ==> h == has_ownership)
                }),
            decreases n - i,
        {
            let rel = relatives[i].clone();
            let ghost relv = rel@;
            proof {
                assert(member_prefix@.is_prefix_of(relv));
                lemma_first_segment_prefix(name@, relv);
                crate::checker::lemma_scope_of_from_same(
                    after_name.env(),
                    self.env(),
                    first_segment(relv),
                    self.env().len() - 1,
                );
                assert(spec_scope_of(self.env(), relv) == spec_scope_of(after_name.env(), relv));
                assert(spec_scope_of(after_name.env(), relv) == spec_scope_of(
                    after_name.env(),
                    name@,
                ));
                assert(self.env()[count as int].contains_key(relv));
            }
            let kr = self.get_scope_number(rel.as_str());
            let resolved = self.scopes[kr].contains_name(rel.as_str());
            proof {
                assert(self.env()[kr as int] == self.scopes@[kr as int]@);
                assert(kr == count);
                assert(resolved);
            }
            if resolved {
                let ghost before = *self;
                self.set_ownership(rel, has_ownership, span);
                proof {
                    assert(relv != name@);
                    assert(relv != "NULL"@);
                    assert(before.env()[spec_scope_of(before.env(), relv)].contains_key(relv));
                    assert(self.env() == before.env().update(
                        spec_scope_of(before.env(), relv),
                        before.env()[spec_scope_of(before.env(), relv)].insert(
                            relv,
                            cleared_owner_var(
                                before.env()[spec_scope_of(before.env(), relv)][relv],
                                has_ownership,
                            ),
                        ),
                    ));
                    if name@ != "NULL"@ {
                        if k0 == spec_scope_of(before.env(), relv) {
                            assert(self.env()[k0][name@] == before.env()[k0][name@]);
                        } else {
                            assert(self.env()[k0] == before.env()[k0]);
                        }
                    }
                    assert forall|j: int|
                        #![trigger relatives@[j]]
                        0 <= j < i + 1 implies self.env()[count as int].contains_key(
                        relatives@[j]@,
                    ) && moved_member(
                        self.env()[count as int][relatives@[j]@],
                        has_ownership,
                    ) by {
                        if j < i {
                            assert(relatives@[j]@ != relv);
                            assert(self.env()[count as int][relatives@[j]@] == before.env()[
                                count as int
                            ][relatives@[j]@]);
                        }
                    }
                }
            }
            i = i + 1;
        }
        let ghost after_members = *self;
        let unknown_prefix = {
            let q = concat_str("?", name.as_str());
            concat_str(q.as_str(), ".")
        };
        proof {
            reveal_strlit(".");
            reveal_strlit("?");
            assert(unknown_prefix@ =~= seq!['?'] + name@ + seq!['.']);
            assert(unknown_prefix@.len() == name@.len() + 2);
            assert(unknown_prefix@.last() == '.');
            assert forall|kk: Seq<char>|
                #![trigger after_members.env()[count as int].contains_key(kk)]
                after_members.env()[count as int].contains_key(kk)
                    && member_prefix@.is_prefix_of(kk) implies moved_member(
                after_members.env()[count as int][kk],
                has_ownership,
            ) by {
                assert(after_name.env()[count as int].contains_key(kk));
                let j = choose|j: int| 0 <= j < relatives@.len() && relatives@[j]@ == kk;
                assert(moved_member(
                    after_members.env()[count as int][relatives@[j]@],
                    has_ownership,
                ));
            }
        }
        let unknowns = self.collect_prefixed(0, unknown_prefix.as_str());
        let un = unknowns.len();
        let mut j: usize = 0;
        while j < un
            invariant
                self.env_wf(),
                after_members.env_wf(),
                un == unknowns@.len(),
                j <= un,
                member_prefix@ == name@ + seq!['.'],
                unknown_prefix@ == seq!['?'] + name@ + seq!['.'],
                count < after_members.scopes@.len(),
                self.scopes@.len() == after_members.scopes@.len(),
                self.structs == after_members.structs,
                self.functions == after_members.functions,
                Self::same_config(after_members, *self),
                Self::same_scratch(after_members, *self),
                Self::diags_extended(after_members, *self),
                0 <= k0 < self.env().len(),
                forall|a: int, kk: Seq<char>|
                    #![trigger self.env()[a].contains_key(kk)]
                    0 <= a < self.env().len() ==> (self.env()[a].contains_key(kk)
                        <==> after_members.env()[a].contains_key(kk)),
                forall|a: int|
                    0 <= a < unknowns@.len() ==> after_members.env()[0].contains_key(
                        (#[trigger] unknowns@[a])@,
                    ) && unknown_prefix@.is_prefix_of(unknowns@[a]@) && unknowns@[a]@ != "NULL"@
                        && unknowns@[a]@ != name@,
                forall|a: int, b: int|
                    #![trigger unknowns@[a], unknowns@[b]]
                    0 <= a < b < unknowns@.len() ==> unknowns@[a]@ != unknowns@[b]@,
                forall|kk: Seq<char>|
                    #![trigger self.env()[count as int].contains_key(kk)]
                    self.env()[count as int].contains_key(kk) && member_prefix@.is_prefix_of(kk)
                        ==> moved_member(self.env()[count as int][kk], has_ownership),
                forall|a: int|
                    #![trigger unknowns@[a]]
                    0 <= a < j && spec_scope_of(after_members.env(), unknowns@[a]@) == 0
                        ==> self.env()[0].contains_key(unknowns@[a]@) && moved_member(
                        self.env()[0][unknowns@[a]@],
                        has_ownership,
                    ),
                name@ != "NULL"@ ==> ({
                    &&& self.env()[k0].contains_key(name@)
                    &&& self.env()[k0][name@].const_refs == Set::<
                        crate::variable::IdView,
                    >::empty()
                    &&& self.env()[k0][name@].mut_refs == Set::<crate::variable::IdView>::empty()
                    &&& (self.env()[k0][name@].var_type matches VarTypeView::Owner {
                        has_ownership: h,
                        ..
                    } ==> h == has_ownership)
                }),
            decreases un - j,
        {
            let rel = unknowns[j].clone();
            let ghost relv = rel@;
            proof {
                assert(unknown_prefix@.is_prefix_of(relv));
                assert((seq!['?'] + name@ + seq!['.']).is_prefix_of(relv));
                assert(((seq!['?'] + name@) + seq!['.']).is_prefix_of(relv)) by {
                    assert((seq!['?'] + name@) + seq!['.'] =~= seq!['?'] + name@ + seq!['.']);
                }
                lemma_first_segment_prefix(seq!['?'] + name@, relv);
                crate::checker::lemma_scope_of_from_same(
                    after_members.env(),
                    self.env(),
                    first_segment(relv),
                    self.env().len() - 1,
                );
                assert(self.env()[0].contains_key(relv));
            }
            let kr = self.get_scope_number(rel.as_str());
            let resolved = self.scopes[kr].contains_name(rel.as_str());
            proof {
                assert(self.env()[kr as int] == self.scopes@[kr as int]@);
            }
            if resolved {
                let ghost before = *self;
                self.set_ownership(rel, has_ownership, span);
                proof {
                    let krr = spec_scope_of(before.env(), relv);
                    assert(krr == spec_scope_of(after_members.env(), relv));
                    assert(relv != name@);
                    assert(relv != "NULL"@);
                    assert(before.env()[krr].contains_key(relv));
                    assert(self.env() == before.env().update(
                        krr,
                        before.env()[krr].insert(
                            relv,
                            cleared_owner_var(before.env()[krr][relv], has_ownership),
                        ),
                    ));
                    if name@ != "NULL"@ {
                        if k0 == krr {
                            assert(self.env()[k0][name@] == before.env()[k0][name@]);
                        } else {
                            assert(self.env()[k0] == before.env()[k0]);
                        }
                    }
                    assert forall|kk: Seq<char>|
                        #![trigger self.env()[count as int].contains_key(kk)]
                        self.env()[count as int].contains_key(kk)
                            && member_prefix@.is_prefix_of(kk) implies moved_member(
                        self.env()[count as int][kk],
                        has_ownership,
                    ) by {
                        if count as int == krr && kk == relv {
                            assert(moved_member(
                                cleared_owner_var(before.env()[krr][relv], has_ownership),
                                has_ownership,
                            ));
                        } else {
                            assert(self.env()[count as int][kk] == before.env()[count as int][
                                kk
                            ]);
                        }
                    }
                    assert forall|a: int|
                        #![trigger unknowns@[a]]
                        0 <= a < j + 1 && spec_scope_of(after_members.env(), unknowns@[a]@) == 0
                        implies self.env()[0].contains_key(unknowns@[a]@) && moved_member(
                        self.env()[0][unknowns@[a]@],
                        has_ownership,
                    ) by {
                        if a < j {
                            assert(unknowns@[a]@ != relv);
                            if krr == 0 {
                                assert(self.env()[0][unknowns@[a]@] == before.env()[0][
                                    unknowns@[a]@
                                ]);
                            } else {
                                assert(self.env()[0] == before.env()[0]);
                            }
                        } else {
                            assert(krr == spec_scope_of(after_members.env(), relv));
                            assert(krr == 0);
                            assert(moved_member(self.env()[0][relv], has_ownership));
                        }
                    }
                }
            } else {
                proof {
                    assert(spec_scope_of(after_members.env(), relv) != 0) by {
                        if spec_scope_of(after_members.env(), relv) == 0 {
                            assert(kr as int == spec_scope_of(self.env(), relv));
                            assert(self.env()[0].contains_key(relv));
                        }
                    }
                    assert forall|a: int|
                        #![trigger unknowns@[a]]
                        0 <= a < j + 1 && spec_scope_of(after_members.env(), unknowns@[a]@) == 0
                        implies self.env()[0].contains_key(unknowns@[a]@) && moved_member(
                        self.env()[0][unknowns@[a]@],
                        has_ownership,
                    ) by {
                        assert(a < j || unknowns@[a]@ == relv);
                    }
                }
            }
            j = j + 1;
        }
        proof {
            crate::checker::lemma_scope_of_from_same(
                after_name.env(),
                self.env(),
                first_segment(name@),
                self.env().len() - 1,
            );
            assert(spec_scope_of(self.env(), name@) == count as int);
            assert forall|kk: Seq<char>|
                #![trigger self.env()[0].contains_key(kk)]
                self.env()[0].contains_key(kk) && (seq!['?'] + name@ + seq!['.']).is_prefix_of(
                kk,
            ) && spec_scope_of(self.env(), kk) == 0 implies moved_member(
                self.env()[0][kk],
                has_ownership,
            ) by {
                assert(after_members.env()[0].contains_key(kk));
                assert(unknown_prefix@.is_prefix_of(kk));
                crate::checker::lemma_scope_of_from_same(
                    after_members.env(),
                    self.env(),
                    first_segment(kk),
                    self.env().len() - 1,
                );
                assert(spec_scope_of(after_members.env(), kk) == 0);
                let a = choose|a: int| 0 <= a < unknowns@.len() && unknowns@[a]@ == kk;
                assert(moved_member(self.env()[0][unknowns@[a]@], has_ownership));
            }
        }
    }

    /// The names in frame `count` that start with `prefix`, in frame order:
    /// all of them, each once.
    fn collect_prefixed(&self, count: usize, prefix: &str) -> (r: Vec<String>)
        requires
            self.env_wf(),
            count < self.scopes@.len(),
            prefix@.len() > 0,
            prefix@.last() == '.',
        ensures
            forall|j: int|
                0 <= j < r@.len() ==> self.env()[count as int].contains_key(
                    (#[trigger] r@[j])@,
                ) && prefix@.is_prefix_of(r@[j]@),
            forall|j: int|
                0 <= j < r@.len() ==> (#[trigger] r@[j])@ != "NULL"@ && r@[j]@
                    != prefix@.subrange(0, prefix@.len() - 1),
            forall|kk: Seq<char>|
                self.env()[count as int].contains_key(kk) && prefix@.is_prefix_of(kk)
                    ==> (exists|j: int| 0 <= j < r@.len() && (#[trigger] r@[j])@ == kk),
            forall|a: int, b: int|
                #![trigger r@[a], r@[b]]
                0 <= a < b < r@.len() ==> r@[a]@ != r@[b]@,
    {
        let n = self.scopes[count].len();
        let mut r: Vec<String> = Vec::new();
        let mut i: usize = 0;
        proof {
            assert(self.env()[count as int] == self.scopes@[count as int]@);
            reveal_strlit("NULL");
        }
        while i < n
            invariant
                self.env_wf(),
                count < self.scopes@.len(),
                prefix@.len() > 0,
                prefix@.last() == '.',
                n == self.scopes@[count as int].vars@.len(),
                i <= n,
                forall|j: int|
                    0 <= j < r@.len() ==> self.env()[count as int].contains_key(
                        (#[trigger] r@[j])@,
                    ) && prefix@.is_prefix_of(r@[j]@),
                forall|j: int|
                    0 <= j < r@.len() ==> (#[trigger] r@[j])@ != "NULL"@ && r@[j]@
                        != prefix@.subrange(0, prefix@.len() - 1),
                forall|a: int|
                    0 <= a < i && prefix@.is_prefix_of(
                        (#[trigger] self.scopes@[count as int].vars@[a]).id.name@,
                    ) ==> (exists|j: int|
                        0 <= j < r@.len() && (#[trigger] r@[j])@ == self.scopes@[
                            count as int
                        ].vars@[a].id.name@),
                forall|j: int|
                    #![trigger r@[j]]
                    0 <= j < r@.len() ==> (exists|a: int|
                        0 <= a < i && (#[trigger] self.scopes@[count as int].vars@[a]).id.name@
                            == r@[j]@),
                forall|a: int, b: int|
                    #![trigger r@[a], r@[b]]
                    0 <= a < b < r@.len() ==> r@[a]@ != r@[b]@,
            decreases n - i,
        {
            let v = self.scopes[count].get_at(i);
            if has_prefix(v.id.name.as_str(), prefix) {
                let nm = v.id.name.clone();
                let ghost pre_r = r@;
                let ghost fr0 = self.scopes@[count as int];
                proof {
                    assert(self.env()[count as int] == self.scopes@[count as int]@);
                    assert(self.env()[count as int].contains_key(nm@));
                    assert(nm@.len() >= prefix@.len());
                    assert(nm@ != prefix@.subrange(0, prefix@.len() - 1)) by {
                        assert(nm@.len() > prefix@.len() - 1);
                    }
                    assert(nm@ != "NULL"@) by {
                        reveal_strlit("NULL");
                        if nm@ == "NULL"@ {
                            assert(nm@[prefix@.len() - 1] == prefix@[prefix@.len() - 1]);
                            assert(prefix@.last() == '.');
                            assert(has_char(nm@, '.'));
                            assert(!has_char("NULL"@, '.'));
                        }
                    }
                }
                r.push(nm);
                proof {
                    assert(r@.len() == pre_r.len() + 1);
                    assert(r@[pre_r.len() as int]@ == fr0.vars@[i as int].id.name@);
                    assert forall|a: int|
                        0 <= a < i + 1 && prefix@.is_prefix_of(
                            (#[trigger] fr0.vars@[a]).id.name@,
                        ) implies (exists|j: int|
                        0 <= j < r@.len() && (#[trigger] r@[j])@ == fr0.vars@[a].id.name@) by {
                        if a < i {
                            let j0 = choose|j0: int|
                                0 <= j0 < pre_r.len() && pre_r[j0]@ == fr0.vars@[a].id.name@;
                            assert(r@[j0]@ == fr0.vars@[a].id.name@);
                        } else {
                            assert(r@[pre_r.len() as int]@ == fr0.vars@[a].id.name@);
                        }
                    }
                    assert forall|j: int| #![trigger r@[j]] 0 <= j < r@.len() implies (exists|
                        a: int|
                        0 <= a < i + 1 && (#[trigger] fr0.vars@[a]).id.name@ == r@[j]@) by {
                        if j < pre_r.len() {
                            let a0 = choose|a0: int|
                                0 <= a0 < i && fr0.vars@[a0].id.name@ == pre_r[j]@;
                            assert(fr0.vars@[a0].id.name@ == r@[j]@);
                        } else {
                            assert(fr0.vars@[i as int].id.name@ == r@[j]@);
                        }
                    }
                    assert forall|a: int, b: int|
                        #![trigger r@[a], r@[b]]
                        0 <= a < b < r@.len() implies r@[a]@ != r@[b]@ by {
                        if b < pre_r.len() {
                            assert(pre_r[a]@ != pre_r[b]@);
                        } else {
                            assert(r@[b]@ == fr0.vars@[i as int].id.name@);
                            if r@[a]@ == r@[b]@ {
                                let a0 = choose|a0: int|
                                    0 <= a0 < i && fr0.vars@[a0].id.name@ == pre_r[a]@;
                                assert(fr0.vars@[a0].id.name@ == fr0.vars@[i as int].id.name@);
                                assert(fr0.vars@[a0].id.name@ != fr0.vars@[i as int].id.name@);
                            }
                        }
                    }
                }
            } else {
                proof {
                    assert(!prefix@.is_prefix_of(
                        self.scopes@[count as int].vars@[i as int].id.name@,
                    ));
                }
            }
            i = i + 1;
        }
        proof {
            assert forall|kk: Seq<char>|
                self.env()[count as int].contains_key(kk) && prefix@.is_prefix_of(
                kk,
            ) implies (exists|j: int| 0 <= j < r@.len() && (#[trigger] r@[j])@ == kk) by {
                let fr0 = self.scopes@[count as int];
                assert(crate::scope::has_name(fr0.vars@, kk));
                let a = choose|a: int| 0 <= a < fr0.vars@.len() && fr0.vars@[a].id.name@ == kk;
                assert(prefix@.is_prefix_of(fr0.vars@[a].id.name@));
            }
        }
        r
    }

    /// Reports a use of a moved value when the named variable is an owner
    /// without ownership; creates the variable first when it was never
    /// declared.
    pub fn announce_no_ownership(&mut self, name: String, span: usize)
        requires
            old(self).env_wf(),
        ensures
            final(self).env_wf(),
            final(self).scopes@.len() == old(self).scopes@.len(),
            final(self).structs == old(self).structs,
            final(self).functions == old(self).functions,
            Self::same_config(*old(self), *final(self)),
            Self::same_scratch(*old(self), *final(self)),
            Self::diags_extended(*old(self), *final(self)),
            old(self).env()[spec_scope_of(old(self).env(), name@)].contains_key(name@) ==> ({
                let v = old(self).env()[spec_scope_of(old(self).env(), name@)][name@];
                &&& final(self).scopes == old(self).scopes
                &&& final(self).diagnostics@ == (if v.var_type matches VarTypeView::Owner {
                    has_ownership: false,
                    ..
                } {
                    old(self).diagnostics@.push(
                        Diagnostic::UseOfMoved { name, offset: span },
                    )
                } else {
                    old(self).diagnostics@
                })
            }),
            !old(self).env()[spec_scope_of(old(self).env(), name@)].contains_key(name@) ==> ({
                let k = spec_scope_of(old(self).env(), name@);
                let v = final(self).env()[k][name@];
                &&& final(self).env()[k].contains_key(name@)
                &&& (if v.var_type matches VarTypeView::Owner { has_ownership: false, .. } {
                    &&& final(self).diagnostics@.len() > old(self).diagnostics@.len()
                    &&& final(self).diagnostics@.last() == (Diagnostic::UseOfMoved {
                        name,
                        offset: span,
                    })
                    &&& crate::typing::created_variable_post(
                        old(self).env(),
                        old(self).structs.entries@,
                        old(self).diagnostics@,
                        final(self).env(),
                        final(self).diagnostics@.drop_last(),
                        name@,
                        v,
                    )
                } else {
                    crate::typing::created_variable_post(
                        old(self).env(),
                        old(self).structs.entries@,
                        old(self).diagnostics@,
                        final(self).env(),
                        final(self).diagnostics@,
                        name@,
                        v,
                    )
                })
            }),
    {
        let var = self.name_to_var(name.as_str());
        let ghost mid_diags = self.diagnostics@;
        let report = match &var.var_type {
            VarType::Owner(_, false) => true,
            _ => false,
        };
        if report {
            self.diagnostics.push(Diagnostic::UseOfMoved { name, offset: span });
        }
        proof {
            if report {
                assert(self.diagnostics@.drop_last() == mid_diags);
            }
        }
    }
}

} // verus!
