//! The values the checker tracks: identifiers, variable kinds, and variables.
//!
//! An [`Id`] names a variable together with the scope-stack index it lives at;
//! a member path such as `s.a.b` is a single `Id` whose name is the joined
//! string.  A [`Variable`] bundles an `Id`, its [`VarType`], and the two
//! reverse-edge sets naming the references that currently claim to point at
//! it.  Reference sets are kept as duplicate-free vectors of `Id`s and are
//! viewed as mathematical sets of [`IdView`]s.

use vstd::prelude::*;

verus! {

/// Mathematical view of an [`Id`]: the name as a character sequence and the
/// scope index as a natural number.
pub struct IdView {
    pub name: Seq<char>,
    pub scope: nat,
}

/// A variable's name paired with the index of the scope frame holding it.
pub struct Id {
    pub name: String,
    pub scope: usize,
}

impl View for Id {
    type V = IdView;

    open spec fn view(&self) -> IdView {
        IdView { name: self.name@, scope: self.scope as nat }
    }
}

impl Clone for Id {
    fn clone(&self) -> (r: Self)
        ensures
            r == *self,
    {
        Id { name: self.name.clone(), scope: self.scope }
    }
}

impl Id {
    /// Whether two ids agree on both name and scope.
    pub fn same_as(&self, other: &Id) -> (r: bool)
        ensures
            r == (self@ == other@),
    {
        let r = self.name == other.name && self.scope == other.scope;
        proof {
            if self.name@ == other.name@ && self.scope == other.scope {
                assert(self@ == other@);
            }
        }
        r
    }
}

/// No two ids in `s` share a view.
pub open spec fn distinct_views(s: Seq<Id>) -> bool {
    forall|a: int, b: int|
        #![trigger s[a], s[b]]
        0 <= a < b < s.len() ==> s[a]@ != s[b]@
}

/// A duplicate-free collection of [`Id`]s, viewed as a `Set<IdView>`.
pub struct IdSet {
    pub items: Vec<Id>,
}

impl View for IdSet {
    type V = Set<IdView>;

    open spec fn view(&self) -> Set<IdView> {
        Set::new(
            |v: IdView| exists|i: int| 0 <= i < self.items@.len() && self.items@[i]@ == v,
        )
    }
}

impl IdSet {
    /// No two stored ids share a view.
    pub open spec fn wf(&self) -> bool {
        distinct_views(self.items@)
    }

    /// The empty set.
    pub fn new() -> (r: IdSet)
        ensures
            r@ == Set::<IdView>::empty(),
            r.wf(),
            r.items@.len() == 0,
    {
        let r = IdSet { items: Vec::new() };
        proof {
            assert(r@ =~= Set::<IdView>::empty());
        }
        r
    }

    /// How many ids are stored.
    pub fn len(&self) -> (r: usize)
        ensures
            r == self.items@.len(),
    {
        self.items.len()
    }

    /// Whether no id is stored; with a well-formed set this is emptiness of the view.
    pub fn is_empty(&self) -> (r: bool)
        ensures
            r == (self.items@.len() == 0),
            r == self@.is_empty(),
    {
        let r = self.items.len() == 0;
        proof {
            if r {
                assert(self@ =~= Set::<IdView>::empty());
            } else {
                assert(self@.contains(self.items@[0]@));
            }
        }
        r
    }

    /// The stored id at position `i`.
    pub fn get(&self, i: usize) -> (r: &Id)
        requires
            i < self.items@.len(),
        ensures
            *r == self.items@[i as int],
            self@.contains(self.items@[i as int]@),
    {
        &self.items[i]
    }

    /// Whether an id with the view of `x` is stored.
    pub fn contains(&self, x: &Id) -> (r: bool)
        ensures
            r == self@.contains(x@),
    {
        let n = self.items.len();
        let mut i: usize = 0;
        while i < n
            invariant
                n == self.items@.len(),
                i <= n,
                forall|j: int| 0 <= j < i ==> self.items@[j]@ != x@,
            decreases n - i,
        {
            if self.items[i].same_as(x) {
                return true;
            }
            i = i + 1;
        }
        false
    }

    /// Adds `x` unless an id with the same view is already stored.
    pub fn insert(&mut self, x: Id)
        ensures
            final(self)@ == old(self)@.insert(x@),
            old(self).wf() ==> final(self).wf(),
    {
        let present = self.contains(&x);
        let ghost xv = x@;
        if !present {
            self.items.push(x);
        }
        proof {
            assert forall|v: IdView| self@.contains(v) implies old(self)@.insert(
                xv,
            ).contains(v) by {
                let k = choose|k: int| 0 <= k < self.items@.len() && self.items@[k]@ == v;
                if k < old(self).items@.len() {
                    assert(old(self).items@[k]@ == v);
                } else {
                    assert(v == xv);
                }
            }
            assert forall|v: IdView| old(self)@.insert(xv).contains(v) implies self@.contains(
                v,
            ) by {
                if old(self)@.contains(v) {
                    let k = choose|k: int|
                        0 <= k < old(self).items@.len() && old(self).items@[k]@ == v;
                    assert(self.items@[k]@ == v);
                } else {
                    assert(v == xv);
                    if present {
                        let k = choose|k: int|
                            0 <= k < old(self).items@.len() && old(self).items@[k]@ == v;
                        assert(self.items@[k]@ == v);
                    } else {
                        assert(self.items@[old(self).items@.len() as int]@ == v);
                    }
                }
            }
            assert(self@ =~= old(self)@.insert(xv));
        }
    }

    /// Removes the id with the view of `x`, if stored.
    pub fn remove(&mut self, x: &Id)
        requires
            old(self).wf(),
        ensures
            final(self)@ == old(self)@.remove(x@),
            final(self).wf(),
    {
        let n = self.items.len();
        let mut i: usize = 0;
        while i < n
            invariant
                n == self.items@.len(),
                i <= n,
                old(self).wf(),
                self.items@ == old(self).items@,
                forall|j: int| 0 <= j < i ==> self.items@[j]@ != x@,
            decreases n - i,
        {
            if self.items[i].same_as(x) {
                self.items.remove(i);
                proof {
                    old(self).items@.remove_ensures(i as int);
                    assert(old(self).items@[i as int]@ == x@);
                    assert forall|v: IdView| self@.contains(v) implies old(
                        self,
                    )@.remove(x@).contains(v) by {
                        let k = choose|k: int|
                            0 <= k < self.items@.len() && self.items@[k]@ == v;
                        if k < i {
                            assert(old(self).items@[k]@ == v);
                            assert(old(self).items@[k]@ != old(self).items@[i as int]@);
                        } else {
                            assert(old(self).items@[k + 1]@ == v);
                            assert(old(self).items@[i as int]@ != old(self).items@[k + 1]@);
                        }
                        assert(v != x@);
                    }
                    assert forall|v: IdView| old(self)@.remove(x@).contains(v) implies self@.contains(
                        v,
                    ) by {
                        let k = choose|k: int|
                            0 <= k < old(self).items@.len() && old(self).items@[k]@ == v;
                        assert(k != i);
                        if k < i {
                            assert(self.items@[k]@ == v);
                        } else {
                            assert(self.items@[k - 1]@ == v);
                        }
                    }
                    assert(self@ =~= old(self)@.remove(x@));
                    assert forall|a: int, b: int|
                        0 <= a < b < self.items@.len() implies self.items@[a]@
                        != self.items@[b]@ by {
                        let a2: int = if a < i { a } else { a + 1 };
                        let b2: int = if b < i { b } else { b + 1 };
                        assert(self.items@[a]@ == old(self).items@[a2]@);
                        assert(self.items@[b]@ == old(self).items@[b2]@);
                        assert(old(self).items@[a2]@ != old(self).items@[b2]@);
                    }
                }
                return ;
            }
            i = i + 1;
        }
        proof {
            assert(!self@.contains(x@));
            assert(self@ =~= old(self)@.remove(x@));
        }
    }

    /// Empties the set.
    pub fn clear(&mut self)
        ensures
            final(self)@ == Set::<IdView>::empty(),
            final(self).wf(),
            final(self).items@.len() == 0,
    {
        self.items.clear();
        proof {
            assert(self@ =~= Set::<IdView>::empty());
        }
    }

    /// Adds every id of `other`; the view becomes the union.
    pub fn extend_with(&mut self, other: &IdSet)
        ensures
            final(self)@ == old(self)@ + other@,
            old(self).wf() ==> final(self).wf(),
    {
        let n = other.items.len();
        let mut i: usize = 0;
        while i < n
            invariant
                n == other.items@.len(),
                i <= n,
                old(self).wf() ==> self.wf(),
                forall|v: IdView|
                    self@.contains(v) <==> (old(self)@.contains(v) || exists|k: int|
                        0 <= k < i && other.items@[k]@ == v),
            decreases n - i,
        {
            let x = other.items[i].clone();
            self.insert(x);
            i = i + 1;
        }
        proof {
            assert(self@ =~= old(self)@ + other@);
        }
    }
}

impl Clone for IdSet {
    fn clone(&self) -> (r: Self)
        ensures
            r.items@ == self.items@,
            r@ == self@,
            r.wf() == self.wf(),
    {
        let n = self.items.len();
        let mut items: Vec<Id> = Vec::new();
        let mut i: usize = 0;
        while i < n
            invariant
                n == self.items@.len(),
                i <= n,
                items@.len() == i,
                forall|j: int| 0 <= j < i ==> items@[j] == self.items@[j],
            decreases n - i,
        {
            items.push(self.items[i].clone());
            i = i + 1;
        }
        proof {
            assert(items@ =~= self.items@);
        }
        let r = IdSet { items };
        proof {
            assert(r@ =~= self@);
        }
        r
    }
}

/// Mathematical view of a [`VarType`].
pub enum VarTypeView {
    Copy,
    Owner { struct_name: Seq<char>, has_ownership: bool },
    ConstRef { points_to: Set<IdView> },
    MutRef { points_to: Set<IdView> },
}

/// What kind of value a variable holds.
///
/// `Copy` values are freely duplicable and never diagnosed.  An `Owner` is a
/// struct value whose reads after a move are errors.  The two reference kinds
/// carry the set of variables the reference currently aliases (a set because
/// the branch join widens it).
pub enum VarType {
    Copy,
    Owner(String, bool),
    ConstRef(IdSet),
    MutRef(IdSet),
}

impl View for VarType {
    type V = VarTypeView;

    open spec fn view(&self) -> VarTypeView {
        match self {
            VarType::Copy => VarTypeView::Copy,
            VarType::Owner(n, h) => VarTypeView::Owner { struct_name: n@, has_ownership: *h },
            VarType::ConstRef(s) => VarTypeView::ConstRef { points_to: s@ },
            VarType::MutRef(s) => VarTypeView::MutRef { points_to: s@ },
        }
    }
}

impl VarType {
    /// The reference sets inside the type carry no duplicates.
    pub open spec fn wf(&self) -> bool {
        match self {
            VarType::ConstRef(s) => s.wf(),
            VarType::MutRef(s) => s.wf(),
            _ => true,
        }
    }

    /// Whether this is a reference kind.
    pub fn is_reference(&self) -> (r: bool)
        ensures
            r == (self@ is ConstRef || self@ is MutRef),
    {
        match self {
            VarType::ConstRef(_) => true,
            VarType::MutRef(_) => true,
            _ => false,
        }
    }
}

impl Clone for VarType {
    fn clone(&self) -> (r: Self)
        ensures
            r@ == self@,
            self.wf() ==> r.wf(),
    {
        match self {
            VarType::Copy => VarType::Copy,
            VarType::Owner(n, h) => VarType::Owner(n.clone(), *h),
            VarType::ConstRef(s) => VarType::ConstRef(s.clone()),
            VarType::MutRef(s) => VarType::MutRef(s.clone()),
        }
    }
}

/// Mathematical view of a [`Variable`].
pub struct VariableView {
    pub id: IdView,
    pub var_type: VarTypeView,
    pub const_refs: Set<IdView>,
    pub mut_refs: Set<IdView>,
}

/// A tracked variable: its id, its kind, and the reverse-edge sets naming the
/// references that currently claim to point at it.
pub struct Variable {
    pub id: Id,
    pub var_type: VarType,
    pub const_refs: IdSet,
    pub mut_refs: IdSet,
}

impl View for Variable {
    type V = VariableView;

    open spec fn view(&self) -> VariableView {
        VariableView {
            id: self.id@,
            var_type: self.var_type@,
            const_refs: self.const_refs@,
            mut_refs: self.mut_refs@,
        }
    }
}

impl Variable {
    /// The sets inside the variable carry no duplicates.
    pub open spec fn wf(&self) -> bool {
        self.var_type.wf() && self.const_refs.wf() && self.mut_refs.wf()
    }

    /// A fresh variable with empty reverse-edge sets.
    pub fn new(name: String, scope: usize, var_type: VarType) -> (r: Self)
        ensures
            r@.id == (IdView { name: name@, scope: scope as nat }),
            r@.var_type == var_type@,
            r@.const_refs == Set::<IdView>::empty(),
            r@.mut_refs == Set::<IdView>::empty(),
            var_type.wf() ==> r.wf(),
    {
        Variable {
            id: Id { name, scope },
            var_type,
            const_refs: IdSet::new(),
            mut_refs: IdSet::new(),
        }
    }
}

impl Clone for Variable {
    fn clone(&self) -> (r: Self)
        ensures
            r@ == self@,
            self.wf() ==> r.wf(),
    {
        let r = Variable {
            id: self.id.clone(),
            var_type: self.var_type.clone(),
            const_refs: self.const_refs.clone(),
            mut_refs: self.mut_refs.clone(),
        };
        proof {
            assert(r@ == self@);
        }
        r
    }
}

} // verus!
