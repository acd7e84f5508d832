//! One frame of the scope stack: a mapping from names to variables.
//!
//! A frame is kept as a vector of variables with pairwise-distinct names and
//! is viewed as a `Map` from the name's character sequence to the variable's
//! view.  Insertion overwrites the variable already stored under the same
//! name, as a map insert does.

use vstd::prelude::*;

use crate::strings::str_eq;
use crate::variable::Variable;
use crate::variable::VariableView;

verus! {

/// Whether some variable in `s` is named `k`.
pub open spec fn has_name(s: Seq<Variable>, k: Seq<char>) -> bool {
    exists|i: int| 0 <= i < s.len() && s[i].id.name@ == k
}

/// The index of the variable named `k`; meaningful when `has_name(s, k)` and
/// the names in `s` are distinct.
pub open spec fn index_of_name(s: Seq<Variable>, k: Seq<char>) -> int {
    choose|i: int| 0 <= i < s.len() && s[i].id.name@ == k
}

/// No two variables in `s` share a name.
pub open spec fn distinct_names(s: Seq<Variable>) -> bool {
    forall|a: int, b: int|
        #![trigger s[a], s[b]]
        0 <= a < b < s.len() ==> s[a].id.name@ != s[b].id.name@
}

/// With distinct names, any index holding `k` is the index of `k`.
pub proof fn lemma_index_of_name_unique(s: Seq<Variable>, k: Seq<char>, i: int)
    requires
        distinct_names(s),
        0 <= i < s.len(),
        s[i].id.name@ == k,
    ensures
        index_of_name(s, k) == i,
{
    let j = index_of_name(s, k);
    assert(0 <= j < s.len() && s[j].id.name@ == k);
    if j < i {
        assert(s[j].id.name@ != s[i].id.name@);
    }
    if i < j {
        assert(s[i].id.name@ != s[j].id.name@);
    }
}

/// Under well-formedness, every stored variable is the map's value at its
/// own name.
pub proof fn lemma_scope_var_in_map(s: &Scope, j: int)
    requires
        s.wf(),
        0 <= j < s.vars@.len(),
    ensures
        s@.contains_key(s.vars@[j].id.name@),
        s@[s.vars@[j].id.name@] == s.vars@[j]@,
{
    lemma_index_of_name_unique(s.vars@, s.vars@[j].id.name@, j);
}

/// One frame of the scope stack.
pub struct Scope {
    pub vars: Vec<Variable>,
}

impl View for Scope {
    type V = Map<Seq<char>, VariableView>;

    open spec fn view(&self) -> Map<Seq<char>, VariableView> {
        Map::new(
            |k: Seq<char>| has_name(self.vars@, k),
            |k: Seq<char>| self.vars@[index_of_name(self.vars@, k)]@,
        )
    }
}

impl Scope {
    /// Names are pairwise distinct and every stored variable is well formed.
    pub open spec fn wf(&self) -> bool {
        &&& distinct_names(self.vars@)
        &&& forall|i: int| 0 <= i < self.vars@.len() ==> (#[trigger] self.vars@[i]).wf()
    }

    /// An empty frame.
    pub fn empty() -> (r: Scope)
        ensures
            r@ == Map::<Seq<char>, VariableView>::empty(),
            r.wf(),
            r.vars@.len() == 0,
    {
        let r = Scope { vars: Vec::new() };
        proof {
            assert(r@ =~= Map::<Seq<char>, VariableView>::empty());
        }
        r
    }

    /// How many variables the frame holds.
    pub fn len(&self) -> (r: usize)
        ensures
            r == self.vars@.len(),
    {
        self.vars.len()
    }

    /// The variable at position `i`, in insertion order.
    pub fn get_at(&self, i: usize) -> (r: &Variable)
        requires
            i < self.vars@.len(),
        ensures
            *r == self.vars@[i as int],
            self.wf() ==> self@.contains_key(r.id.name@) && self@[r.id.name@] == r@,
    {
        proof {
            if self.wf() {
                lemma_index_of_name_unique(self.vars@, self.vars@[i as int].id.name@, i as int);
            }
        }
        &self.vars[i]
    }

    /// Whether the frame holds a variable named `name`.
    pub fn contains_name(&self, name: &str) -> (r: bool)
        ensures
            r == self@.contains_key(name@),
    {
        let n = self.vars.len();
        let mut i: usize = 0;
        while i < n
            invariant
                n == self.vars@.len(),
                i <= n,
                forall|j: int| 0 <= j < i ==> (#[trigger] self.vars@[j]).id.name@ != name@,
            decreases n - i,
        {
            if str_eq(self.vars[i].id.name.as_str(), name) {
                return true;
            }
            i = i + 1;
        }
        proof {
            assert(!has_name(self.vars@, name@));
        }
        false
    }

    /// The variable named `name`, if the frame holds one.
    pub fn get(&self, name: &str) -> (r: Option<&Variable>)
        requires
            self.wf(),
        ensures
            match r {
                Option::Some(v) => self@.contains_key(name@) && v@ == self@[name@] && v.wf()
                    && v.id.name@ == name@ && (exists|i: int|
                    0 <= i < self.vars@.len() && self.vars@[i] == *v),
                Option::None => !self@.contains_key(name@),
            },
    {
        let n = self.vars.len();
        let mut i: usize = 0;
        while i < n
            invariant
                self.wf(),
                n == self.vars@.len(),
                i <= n,
                forall|j: int| 0 <= j < i ==> (#[trigger] self.vars@[j]).id.name@ != name@,
            decreases n - i,
        {
            if str_eq(self.vars[i].id.name.as_str(), name) {
                proof {
                    lemma_index_of_name_unique(self.vars@, name@, i as int);
                }
                return Option::Some(&self.vars[i]);
            }
            i = i + 1;
        }
        proof {
            assert(!has_name(self.vars@, name@));
        }
        Option::None
    }

    /// Stores `var` under its own name, replacing any variable already there.
    pub fn put(&mut self, var: Variable)
        requires
            old(self).wf(),
            var.wf(),
        ensures
            final(self).wf(),
            final(self)@ == old(self)@.insert(var.id.name@, var@),
    {
        let ghost key = var.id.name@;
        let ghost vv = var@;
        let n = self.vars.len();
        let mut i: usize = 0;
        while i < n
            invariant
                old(self).wf(),
                var.wf(),
                key == var.id.name@,
                vv == var@,
                self.vars@ == old(self).vars@,
                n == self.vars@.len(),
                i <= n,
                forall|j: int| 0 <= j < i ==> (#[trigger] self.vars@[j]).id.name@ != var.id.name@,
            decreases n - i,
        {
            if str_eq(self.vars[i].id.name.as_str(), var.id.name.as_str()) {
                proof {
                    assert(self.vars@[i as int].id.name@ == key);
                    lemma_index_of_name_unique(old(self).vars@, key, i as int);
                }
                self.vars.set(i, var);
                proof {
                    assert(self.vars@ == old(self).vars@.update(i as int, self.vars@[i as int]));
                    assert(self.vars@[i as int]@ == vv);
                    assert(self.vars@[i as int].id.name@ == key);
                    assert forall|a: int, b: int|
                        #![trigger self.vars@[a], self.vars@[b]]
                        0 <= a < b < self.vars@.len() implies self.vars@[a].id.name@
                        != self.vars@[b].id.name@ by {
                        assert(old(self).vars@[a].id.name@ != old(self).vars@[b].id.name@);
                        if a == i {
                            assert(self.vars@[a].id.name@ == old(self).vars@[a].id.name@);
                        }
                        if b == i {
                            assert(self.vars@[b].id.name@ == old(self).vars@[b].id.name@);
                        }
                    }
                    assert(self@ =~= old(self)@.insert(key, vv)) by {
                        assert forall|k: Seq<char>| has_name(self.vars@, k) <==> (has_name(
                            old(self).vars@,
                            k,
                        ) || k == key) by {
                            if has_name(self.vars@, k) {
                                let w = choose|w: int|
                                    0 <= w < self.vars@.len() && self.vars@[w].id.name@ == k;
                                if w != i {
                                    assert(old(self).vars@[w].id.name@ == k);
                                }
                            }
                            if has_name(old(self).vars@, k) {
                                let w = choose|w: int|
                                    0 <= w < old(self).vars@.len() && old(self).vars@[w].id.name@
                                        == k;
                                if w != i {
                                    assert(self.vars@[w].id.name@ == k);
                                } else {
                                    assert(k == key);
                                }
                            }
                        }
                        assert forall|k: Seq<char>| has_name(self.vars@, k) implies self@[k]
                            == old(self)@.insert(key, vv)[k] by {
                            let w = choose|w: int|
                                0 <= w < self.vars@.len() && self.vars@[w].id.name@ == k;
                            lemma_index_of_name_unique(self.vars@, k, w);
                            if k == key {
                                lemma_index_of_name_unique(self.vars@, k, i as int);
                            } else {
                                assert(w != i);
                                assert(old(self).vars@[w].id.name@ == k);
                                lemma_index_of_name_unique(old(self).vars@, k, w);
                            }
                        }
                    }
                }
                return ;
            }
            i = i + 1;
        }
        proof {
            assert(!has_name(self.vars@, key));
        }
        self.vars.push(var);
        proof {
            let ghost last = old(self).vars@.len() as int;
            assert(self.vars@.len() == old(self).vars@.len() + 1);
            assert(self.vars@[last]@ == vv);
            assert(self.vars@[last].id.name@ == key);
            assert forall|a: int, b: int|
                #![trigger self.vars@[a], self.vars@[b]]
                0 <= a < b < self.vars@.len() implies self.vars@[a].id.name@
                != self.vars@[b].id.name@ by {
                if b < old(self).vars@.len() {
                    assert(old(self).vars@[a].id.name@ != old(self).vars@[b].id.name@);
                } else {
                    assert(self.vars@[b] == var);
                    assert(old(self).vars@[a].id.name@ != key);
                }
            }
            assert(self@ =~= old(self)@.insert(key, vv)) by {
                assert forall|k: Seq<char>| has_name(self.vars@, k) <==> (has_name(
                    old(self).vars@,
                    k,
                ) || k == key) by {
                    if has_name(self.vars@, k) {
                        let w = choose|w: int|
                            0 <= w < self.vars@.len() && self.vars@[w].id.name@ == k;
                        if w < old(self).vars@.len() {
                            assert(old(self).vars@[w].id.name@ == k);
                        } else {
                            assert(k == key);
                        }
                    }
                    if has_name(old(self).vars@, k) {
                        let w = choose|w: int|
                            0 <= w < old(self).vars@.len() && old(self).vars@[w].id.name@ == k;
                        assert(self.vars@[w].id.name@ == k);
                    }
                }
                assert forall|k: Seq<char>| has_name(self.vars@, k) implies self@[k] == old(
                    self,
                )@.insert(key, vv)[k] by {
                    let w = choose|w: int|
                        0 <= w < self.vars@.len() && self.vars@[w].id.name@ == k;
                    lemma_index_of_name_unique(self.vars@, k, w);
                    if k == key {
                        lemma_index_of_name_unique(
                            self.vars@,
                            k,
                            old(self).vars@.len() as int,
                        );
                    } else {
                        assert(w < old(self).vars@.len());
                        lemma_index_of_name_unique(old(self).vars@, k, w);
                    }
                }
            }
        }
    }
}

impl Clone for Scope {
    fn clone(&self) -> (r: Self)
        ensures
            r.vars@.len() == self.vars@.len(),
            forall|i: int| 0 <= i < self.vars@.len() ==> (#[trigger] r.vars@[i])@ == self.vars@[i]@,
            self.wf() ==> r.wf() && r@ == self@,
    {
        let n = self.vars.len();
        let mut vars: Vec<Variable> = Vec::new();
        let mut i: usize = 0;
        while i < n
            invariant
                n == self.vars@.len(),
                i <= n,
                vars@.len() == i,
                forall|j: int| 0 <= j < i ==> (#[trigger] vars@[j])@ == self.vars@[j]@,
                forall|j: int| 0 <= j < i ==> ((#[trigger] self.vars@[j]).wf() ==> vars@[j].wf()),
            decreases n - i,
        {
            vars.push(self.vars[i].clone());
            i = i + 1;
        }
        let r = Scope { vars };
        proof {
            if self.wf() {
                assert forall|a: int, b: int|
                    #![trigger r.vars@[a], r.vars@[b]]
                    0 <= a < b < r.vars@.len() implies r.vars@[a].id.name@
                    != r.vars@[b].id.name@ by {
                    assert(r.vars@[a]@ == self.vars@[a]@);
                    assert(r.vars@[b]@ == self.vars@[b]@);
                    assert(self.vars@[a].id.name@ != self.vars@[b].id.name@);
                }
                assert(r.wf());
                assert(r@ =~= self@) by {
                    assert forall|k: Seq<char>| has_name(r.vars@, k) <==> has_name(
                        self.vars@,
                        k,
                    ) by {
                        if has_name(r.vars@, k) {
                            let w = choose|w: int|
                                0 <= w < r.vars@.len() && r.vars@[w].id.name@ == k;
                            assert(self.vars@[w].id.name@ == k);
                        }
                        if has_name(self.vars@, k) {
                            let w = choose|w: int|
                                0 <= w < self.vars@.len() && self.vars@[w].id.name@ == k;
                            assert(r.vars@[w].id.name@ == k);
                        }
                    }
                    assert forall|k: Seq<char>| has_name(r.vars@, k) implies r@[k] == self@[k] by {
                        let w = choose|w: int| 0 <= w < r.vars@.len() && r.vars@[w].id.name@ == k;
                        lemma_index_of_name_unique(r.vars@, k, w);
                        assert(self.vars@[w].id.name@ == k);
                        lemma_index_of_name_unique(self.vars@, k, w);
                    }
                }
            }
        }
        r
    }
}

} // verus!
