//! The global type information the checker consults: struct layouts and
//! function signatures.
//!
//! Struct layouts map a struct name (and each typedef alias) to the types of
//! its fields; they type dotted names whose members were never declared.
//! Function signatures list the declared parameter types, used at call sites
//! to tell a mutable borrow from a shared one.  Both tables are association
//! vectors with pairwise-distinct keys, where an insert overwrites the entry
//! already stored under the same key.

use vstd::prelude::*;

use crate::strings::str_eq;
use crate::variable::VarType;
use crate::variable::VarTypeView;

verus! {

/// One field of a struct layout: the field name and its type.
pub struct FieldDecl {
    pub name: String,
    pub ty: VarType,
}

/// The layout of one struct: its name and its fields in declaration order.
pub struct StructLayout {
    pub name: String,
    pub fields: Vec<FieldDecl>,
}

/// One function prototype: its name and its parameter types in order.
pub struct FunctionSig {
    pub name: String,
    pub params: Vec<VarType>,
}

/// The struct layouts seen so far, keyed by struct name and typedef aliases.
pub struct StructTable {
    pub entries: Vec<StructLayout>,
}

/// The function prototypes seen so far, keyed by function name.
pub struct FunctionTable {
    pub entries: Vec<FunctionSig>,
}

/// Whether some field in `s` is named `k`.
pub open spec fn field_has(s: Seq<FieldDecl>, k: Seq<char>) -> bool {
    exists|i: int| 0 <= i < s.len() && s[i].name@ == k
}

/// The index of the field named `k`; meaningful when present and distinct.
pub open spec fn field_index(s: Seq<FieldDecl>, k: Seq<char>) -> int {
    choose|i: int| 0 <= i < s.len() && s[i].name@ == k
}

/// The type of the field named `k`.
pub open spec fn field_type(s: Seq<FieldDecl>, k: Seq<char>) -> VarTypeView {
    s[field_index(s, k)].ty@
}

/// No two fields in `s` share a name.
pub open spec fn fields_distinct(s: Seq<FieldDecl>) -> bool {
    forall|a: int, b: int|
        #![trigger s[a], s[b]]
        0 <= a < b < s.len() ==> s[a].name@ != s[b].name@
}

/// Every field type in `s` is well formed.
pub open spec fn fields_wf(s: Seq<FieldDecl>) -> bool {
    forall|i: int| 0 <= i < s.len() ==> (#[trigger] s[i]).ty.wf()
}

/// Whether some layout in `s` is keyed `k`.
pub open spec fn layout_has(s: Seq<StructLayout>, k: Seq<char>) -> bool {
    exists|i: int| 0 <= i < s.len() && s[i].name@ == k
}

/// The index of the layout keyed `k`; meaningful when present and distinct.
pub open spec fn layout_index(s: Seq<StructLayout>, k: Seq<char>) -> int {
    choose|i: int| 0 <= i < s.len() && s[i].name@ == k
}

/// The fields of the layout keyed `k`.
pub open spec fn layout_fields(s: Seq<StructLayout>, k: Seq<char>) -> Seq<FieldDecl> {
    s[layout_index(s, k)].fields@
}

/// No two layouts in `s` share a key.
pub open spec fn layouts_distinct(s: Seq<StructLayout>) -> bool {
    forall|a: int, b: int|
        #![trigger s[a], s[b]]
        0 <= a < b < s.len() ==> s[a].name@ != s[b].name@
}

/// Whether some signature in `s` is keyed `k`.
pub open spec fn sig_has(s: Seq<FunctionSig>, k: Seq<char>) -> bool {
    exists|i: int| 0 <= i < s.len() && s[i].name@ == k
}

/// The index of the signature keyed `k`; meaningful when present and distinct.
pub open spec fn sig_index(s: Seq<FunctionSig>, k: Seq<char>) -> int {
    choose|i: int| 0 <= i < s.len() && s[i].name@ == k
}

/// The parameter types of the signature keyed `k`, as views.
pub open spec fn sig_params(s: Seq<FunctionSig>, k: Seq<char>) -> Seq<VarTypeView> {
    s[sig_index(s, k)].params@.map_values(|t: VarType| t@)
}

/// No two signatures in `s` share a key.
pub open spec fn sigs_distinct(s: Seq<FunctionSig>) -> bool {
    forall|a: int, b: int|
        #![trigger s[a], s[b]]
        0 <= a < b < s.len() ==> s[a].name@ != s[b].name@
}

impl Clone for FieldDecl {
    fn clone(&self) -> (r: Self)
        ensures
            r.name == self.name,
            r.ty@ == self.ty@,
            self.ty.wf() ==> r.ty.wf(),
    {
        FieldDecl { name: self.name.clone(), ty: self.ty.clone() }
    }
}

impl StructLayout {
    /// Field names are distinct and field types well formed.
    pub open spec fn wf(&self) -> bool {
        fields_distinct(self.fields@) && fields_wf(self.fields@)
    }

    /// The type of the field named `field`, if the layout has one.
    pub fn field_ty(&self, field: &str) -> (r: Option<&VarType>)
        requires
            self.wf(),
        ensures
            match r {
                Option::Some(t) => field_has(self.fields@, field@) && t@ == field_type(
                    self.fields@,
                    field@,
                ) && t.wf(),
                Option::None => !field_has(self.fields@, field@),
            },
    {
        let n = self.fields.len();
        let mut i: usize = 0;
        while i < n
            invariant
                self.wf(),
                n == self.fields@.len(),
                i <= n,
                forall|j: int| 0 <= j < i ==> (#[trigger] self.fields@[j]).name@ != field@,
            decreases n - i,
        {
            if str_eq(self.fields[i].name.as_str(), field) {
                proof {
                    let w = field_index(self.fields@, field@);
                    assert(self.fields@[i as int].name@ == field@);
                    if w < i {
                        assert(self.fields@[w].name@ != self.fields@[i as int].name@);
                    }
                    if (i as int) < w {
                        assert(self.fields@[i as int].name@ != self.fields@[w].name@);
                    }
                }
                return Option::Some(&self.fields[i].ty);
            }
            i = i + 1;
        }
        Option::None
    }

    /// Adds a field, overwriting one already stored under the same name.
    pub fn put_field(&mut self, fd: FieldDecl)
        requires
            old(self).wf(),
            fd.ty.wf(),
        ensures
            final(self).wf(),
            final(self).name == old(self).name,
            forall|k: Seq<char>|
                #![auto]
                field_has(final(self).fields@, k) <==> (field_has(old(self).fields@, k) || k
                    == fd.name@),
            forall|k: Seq<char>|
                #![auto]
                field_has(final(self).fields@, k) ==> field_type(final(self).fields@, k) == (
                if k == fd.name@ {
                    fd.ty@
                } else {
                    field_type(old(self).fields@, k)
                }),
    {
        let ghost key = fd.name@;
        let ghost tv = fd.ty@;
        let n = self.fields.len();
        let mut i: usize = 0;
        while i < n
            invariant
                old(self).wf(),
                fd.ty.wf(),
                key == fd.name@,
                tv == fd.ty@,
                self == old(self),
                n == self.fields@.len(),
                i <= n,
                forall|j: int| 0 <= j < i ==> (#[trigger] self.fields@[j]).name@ != fd.name@,
            decreases n - i,
        {
            if str_eq(self.fields[i].name.as_str(), fd.name.as_str()) {
                proof {
                    assert(self.fields@[i as int].name@ == key);
                }
                self.fields.set(i, fd);
                proof {
                    assert(self.fields@[i as int].name@ == key);
                    assert(self.fields@[i as int].ty@ == tv);
                    assert forall|a: int, b: int|
                        #![trigger self.fields@[a], self.fields@[b]]
                        0 <= a < b < self.fields@.len() implies self.fields@[a].name@
                        != self.fields@[b].name@ by {
                        assert(old(self).fields@[a].name@ != old(self).fields@[b].name@);
                    }
                    assert forall|k: Seq<char>| #![auto] field_has(self.fields@, k) <==> (field_has(
                        old(self).fields@,
                        k,
                    ) || k == key) by {
                        if field_has(self.fields@, k) {
                            let w = choose|w: int|
                                0 <= w < self.fields@.len() && self.fields@[w].name@ == k;
                            if w != i {
                                assert(old(self).fields@[w].name@ == k);
                            }
                        }
                        if field_has(old(self).fields@, k) {
                            let w = choose|w: int|
                                0 <= w < old(self).fields@.len() && old(self).fields@[w].name@
                                    == k;
                            if w != i {
                                assert(self.fields@[w].name@ == k);
                            }
                        }
                    }
                    assert forall|k: Seq<char>| #![auto] field_has(self.fields@, k) implies
                    field_type(self.fields@, k) == (
                    if k == key {
                        tv
                    } else {
                        field_type(old(self).fields@, k)
                    }) by {
                        let w = choose|w: int|
                            0 <= w < self.fields@.len() && self.fields@[w].name@ == k;
                        lemma_field_index_unique(self.fields@, k, w);
                        if k == key {
                            lemma_field_index_unique(self.fields@, k, i as int);
                        } else {
                            assert(w != i);
                            assert(old(self).fields@[w].name@ == k);
                            lemma_field_index_unique(old(self).fields@, k, w);
                        }
                    }
                }
                return ;
            }
            i = i + 1;
        }
        proof {
            assert(!field_has(self.fields@, key));
        }
        self.fields.push(fd);
        proof {
            let ghost last = old(self).fields@.len() as int;
            assert(self.fields@[last].name@ == key);
            assert(self.fields@[last].ty@ == tv);
            assert forall|a: int, b: int|
                #![trigger self.fields@[a], self.fields@[b]]
                0 <= a < b < self.fields@.len() implies self.fields@[a].name@
                != self.fields@[b].name@ by {
                if b < last {
                    assert(old(self).fields@[a].name@ != old(self).fields@[b].name@);
                } else {
                    assert(old(self).fields@[a].name@ != key);
                }
            }
            assert forall|k: Seq<char>| #![auto] field_has(self.fields@, k) <==> (field_has(
                old(self).fields@,
                k,
            ) || k == key) by {
                if field_has(self.fields@, k) {
                    let w = choose|w: int| 0 <= w < self.fields@.len() && self.fields@[w].name@ == k;
                    if w < last {
                        assert(old(self).fields@[w].name@ == k);
                    }
                }
                if field_has(old(self).fields@, k) {
                    let w = choose|w: int|
                        0 <= w < old(self).fields@.len() && old(self).fields@[w].name@ == k;
                    assert(self.fields@[w].name@ == k);
                }
            }
            assert forall|k: Seq<char>| #![auto] field_has(self.fields@, k) implies field_type(
                self.fields@,
                k,
            ) == (
            if k == key {
                tv
            } else {
                field_type(old(self).fields@, k)
            }) by {
                let w = choose|w: int| 0 <= w < self.fields@.len() && self.fields@[w].name@ == k;
                lemma_field_index_unique(self.fields@, k, w);
                if k == key {
                    lemma_field_index_unique(self.fields@, k, last);
                } else {
                    assert(w < last);
                    assert(old(self).fields@[w].name@ == k);
                    lemma_field_index_unique(old(self).fields@, k, w);
                }
            }
        }
    }
}

/// With distinct field names, any index holding `k` is the index of `k`.
pub proof fn lemma_field_index_unique(s: Seq<FieldDecl>, k: Seq<char>, i: int)
    requires
        fields_distinct(s),
        0 <= i < s.len(),
        s[i].name@ == k,
    ensures
        field_index(s, k) == i,
{
    let j = field_index(s, k);
    assert(0 <= j < s.len() && s[j].name@ == k);
    if j < i {
        assert(s[j].name@ != s[i].name@);
    }
    if i < j {
        assert(s[i].name@ != s[j].name@);
    }
}

/// With distinct layout keys, any index holding `k` is the index of `k`.
pub proof fn lemma_layout_index_unique(s: Seq<StructLayout>, k: Seq<char>, i: int)
    requires
        layouts_distinct(s),
        0 <= i < s.len(),
        s[i].name@ == k,
    ensures
        layout_index(s, k) == i,
{
    let j = layout_index(s, k);
    assert(0 <= j < s.len() && s[j].name@ == k);
    if j < i {
        assert(s[j].name@ != s[i].name@);
    }
    if i < j {
        assert(s[i].name@ != s[j].name@);
    }
}

/// With distinct signature keys, any index holding `k` is the index of `k`.
pub proof fn lemma_sig_index_unique(s: Seq<FunctionSig>, k: Seq<char>, i: int)
    requires
        sigs_distinct(s),
        0 <= i < s.len(),
        s[i].name@ == k,
    ensures
        sig_index(s, k) == i,
{
    let j = sig_index(s, k);
    assert(0 <= j < s.len() && s[j].name@ == k);
    if j < i {
        assert(s[j].name@ != s[i].name@);
    }
    if i < j {
        assert(s[i].name@ != s[j].name@);
    }
}

impl Clone for StructLayout {
    fn clone(&self) -> (r: Self)
        ensures
            r.name == self.name,
            r.fields@.len() == self.fields@.len(),
            forall|i: int|
                0 <= i < self.fields@.len() ==> (#[trigger] r.fields@[i]).name@
                    == self.fields@[i].name@ && r.fields@[i].ty@ == self.fields@[i].ty@,
            self.wf() ==> r.wf(),
    {
        let n = self.fields.len();
        let mut fields: Vec<FieldDecl> = Vec::new();
        let mut i: usize = 0;
        while i < n
            invariant
                n == self.fields@.len(),
                i <= n,
                fields@.len() == i,
                forall|j: int|
                    0 <= j < i ==> (#[trigger] fields@[j]).name@ == self.fields@[j].name@
                        && fields@[j].ty@ == self.fields@[j].ty@ && (self.fields@[j].ty.wf()
                        ==> fields@[j].ty.wf()),
            decreases n - i,
        {
            fields.push(self.fields[i].clone());
            i = i + 1;
        }
        let r = StructLayout { name: self.name.clone(), fields };
        proof {
            if self.wf() {
                assert forall|a: int, b: int|
                    #![trigger r.fields@[a], r.fields@[b]]
                    0 <= a < b < r.fields@.len() implies r.fields@[a].name@
                    != r.fields@[b].name@ by {
                    assert(self.fields@[a].name@ != self.fields@[b].name@);
                }
                assert forall|i2: int| 0 <= i2 < r.fields@.len() implies (#[trigger] r.fields@[i2]).ty.wf() by {
                    assert(self.fields@[i2].ty.wf());
                }
            }
        }
        r
    }
}

impl StructTable {
    /// Layout keys are distinct and each layout is well formed.
    pub open spec fn wf(&self) -> bool {
        &&& layouts_distinct(self.entries@)
        &&& forall|i: int| 0 <= i < self.entries@.len() ==> (#[trigger] self.entries@[i]).wf()
    }

    /// An empty table.
    pub fn new() -> (r: StructTable)
        ensures
            r.wf(),
            r.entries@.len() == 0,
            forall|k: Seq<char>| !layout_has(r.entries@, k),
    {
        StructTable { entries: Vec::new() }
    }

    /// Whether the table holds a layout keyed `name`.
    pub fn contains(&self, name: &str) -> (r: bool)
        ensures
            r == layout_has(self.entries@, name@),
    {
        let n = self.entries.len();
        let mut i: usize = 0;
        while i < n
            invariant
                n == self.entries@.len(),
                i <= n,
                forall|j: int| 0 <= j < i ==> (#[trigger] self.entries@[j]).name@ != name@,
            decreases n - i,
        {
            if str_eq(self.entries[i].name.as_str(), name) {
                return true;
            }
            i = i + 1;
        }
        false
    }

    /// The layout keyed `name`, if the table holds one.
    pub fn get(&self, name: &str) -> (r: Option<&StructLayout>)
        requires
            self.wf(),
        ensures
            match r {
                Option::Some(l) => layout_has(self.entries@, name@) && l.fields@ == layout_fields(
                    self.entries@,
                    name@,
                ) && l.wf(),
                Option::None => !layout_has(self.entries@, name@),
            },
    {
        let n = self.entries.len();
        let mut i: usize = 0;
        while i < n
            invariant
                self.wf(),
                n == self.entries@.len(),
                i <= n,
                forall|j: int| 0 <= j < i ==> (#[trigger] self.entries@[j]).name@ != name@,
            decreases n - i,
        {
            if str_eq(self.entries[i].name.as_str(), name) {
                proof {
                    lemma_layout_index_unique(self.entries@, name@, i as int);
                }
                return Option::Some(&self.entries[i]);
            }
            i = i + 1;
        }
        Option::None
    }

    /// Stores `layout` under its own key, replacing any layout already there.
    pub fn put(&mut self, layout: StructLayout)
        requires
            old(self).wf(),
            layout.wf(),
        ensures
            final(self).wf(),
            forall|k: Seq<char>|
                #![auto]
                layout_has(final(self).entries@, k) <==> (layout_has(old(self).entries@, k) || k
                    == layout.name@),
            forall|k: Seq<char>|
                #![auto]
                layout_has(final(self).entries@, k) ==> layout_fields(final(self).entries@, k) == (
                if k == layout.name@ {
                    layout.fields@
                } else {
                    layout_fields(old(self).entries@, k)
                }),
    {
        let ghost key = layout.name@;
        let ghost fv = layout.fields@;
        let n = self.entries.len();
        let mut i: usize = 0;
        while i < n
            invariant
                old(self).wf(),
                layout.wf(),
                key == layout.name@,
                fv == layout.fields@,
                self == old(self),
                n == self.entries@.len(),
                i <= n,
                forall|j: int| 0 <= j < i ==> (#[trigger] self.entries@[j]).name@ != layout.name@,
            decreases n - i,
        {
            if str_eq(self.entries[i].name.as_str(), layout.name.as_str()) {
                proof {
                    assert(self.entries@[i as int].name@ == key);
                }
                self.entries.set(i, layout);
                proof {
                    assert(self.entries@[i as int].name@ == key);
                    assert(self.entries@[i as int].fields@ == fv);
                    assert forall|a: int, b: int|
                        #![trigger self.entries@[a], self.entries@[b]]
                        0 <= a < b < self.entries@.len() implies self.entries@[a].name@
                        != self.entries@[b].name@ by {
                        assert(old(self).entries@[a].name@ != old(self).entries@[b].name@);
                    }
                    assert forall|k: Seq<char>| #![auto] layout_has(self.entries@, k) <==> (
                    layout_has(old(self).entries@, k) || k == key) by {
                        if layout_has(self.entries@, k) {
                            let w = choose|w: int|
                                0 <= w < self.entries@.len() && self.entries@[w].name@ == k;
                            if w != i {
                                assert(old(self).entries@[w].name@ == k);
                            }
                        }
                        if layout_has(old(self).entries@, k) {
                            let w = choose|w: int|
                                0 <= w < old(self).entries@.len() && old(self).entries@[w].name@
                                    == k;
                            if w != i {
                                assert(self.entries@[w].name@ == k);
                            }
                        }
                    }
                    assert forall|k: Seq<char>| #![auto] layout_has(self.entries@, k) implies
                    layout_fields(self.entries@, k) == (
                    if k == key {
                        fv
                    } else {
                        layout_fields(old(self).entries@, k)
                    }) by {
                        let w = choose|w: int|
                            0 <= w < self.entries@.len() && self.entries@[w].name@ == k;
                        lemma_layout_index_unique(self.entries@, k, w);
                        if k == key {
                            lemma_layout_index_unique(self.entries@, k, i as int);
                        } else {
                            assert(w != i);
                            assert(old(self).entries@[w].name@ == k);
                            lemma_layout_index_unique(old(self).entries@, k, w);
                        }
                    }
                }
                return ;
            }
            i = i + 1;
        }
        proof {
            assert(!layout_has(self.entries@, key));
        }
        self.entries.push(layout);
        proof {
            let ghost last = old(self).entries@.len() as int;
            assert(self.entries@[last].name@ == key);
            assert(self.entries@[last].fields@ == fv);
            assert forall|a: int, b: int|
                #![trigger self.entries@[a], self.entries@[b]]
                0 <= a < b < self.entries@.len() implies self.entries@[a].name@
                != self.entries@[b].name@ by {
                if b < last {
                    assert(old(self).entries@[a].name@ != old(self).entries@[b].name@);
                } else {
                    assert(old(self).entries@[a].name@ != key);
                }
            }
            assert forall|k: Seq<char>| #![auto] layout_has(self.entries@, k) <==> (layout_has(
                old(self).entries@,
                k,
            ) || k == key) by {
                if layout_has(self.entries@, k) {
                    let w = choose|w: int|
                        0 <= w < self.entries@.len() && self.entries@[w].name@ == k;
                    if w < last {
                        assert(old(self).entries@[w].name@ == k);
                    }
                }
                if layout_has(old(self).entries@, k) {
                    let w = choose|w: int|
                        0 <= w < old(self).entries@.len() && old(self).entries@[w].name@ == k;
                    assert(self.entries@[w].name@ == k);
                }
            }
            assert forall|k: Seq<char>| #![auto] layout_has(self.entries@, k) implies layout_fields(
                self.entries@,
                k,
            ) == (
            if k == key {
                fv
            } else {
                layout_fields(old(self).entries@, k)
            }) by {
                let w = choose|w: int| 0 <= w < self.entries@.len() && self.entries@[w].name@ == k;
                lemma_layout_index_unique(self.entries@, k, w);
                if k == key {
                    lemma_layout_index_unique(self.entries@, k, last);
                } else {
                    assert(w < last);
                    assert(old(self).entries@[w].name@ == k);
                    lemma_layout_index_unique(old(self).entries@, k, w);
                }
            }
        }
    }
}

impl FunctionTable {
    /// Signature keys are distinct and parameter types well formed.
    pub open spec fn wf(&self) -> bool {
        &&& sigs_distinct(self.entries@)
        &&& forall|i: int, j: int|
            0 <= i < self.entries@.len() && 0 <= j < (#[trigger] self.entries@[i]).params@.len()
                ==> (#[trigger] self.entries@[i].params@[j]).wf()
    }

    /// An empty table.
    pub fn new() -> (r: FunctionTable)
        ensures
            r.wf(),
            r.entries@.len() == 0,
            forall|k: Seq<char>| !sig_has(r.entries@, k),
    {
        FunctionTable { entries: Vec::new() }
    }

    /// The signature keyed `name`, if the table holds one.
    pub fn get(&self, name: &str) -> (r: Option<&FunctionSig>)
        requires
            self.wf(),
        ensures
            match r {
                Option::Some(s) => sig_has(self.entries@, name@) && s.params@.map_values(
                    |t: VarType| t@,
                ) == sig_params(self.entries@, name@) && (forall|j: int|
                    0 <= j < s.params@.len() ==> (#[trigger] s.params@[j]).wf()),
                Option::None => !sig_has(self.entries@, name@),
            },
    {
        let n = self.entries.len();
        let mut i: usize = 0;
        while i < n
            invariant
                self.wf(),
                n == self.entries@.len(),
                i <= n,
                forall|j: int| 0 <= j < i ==> (#[trigger] self.entries@[j]).name@ != name@,
            decreases n - i,
        {
            if str_eq(self.entries[i].name.as_str(), name) {
                proof {
                    lemma_sig_index_unique(self.entries@, name@, i as int);
                    assert(forall|j: int|
                        0 <= j < self.entries@[i as int].params@.len() ==> (
                        #[trigger] self.entries@[i as int].params@[j]).wf());
                }
                return Option::Some(&self.entries[i]);
            }
            i = i + 1;
        }
        Option::None
    }

    /// Stores `sig` under its own key, replacing any signature already there.
    pub fn put(&mut self, sig: FunctionSig)
        requires
            old(self).wf(),
            forall|j: int| 0 <= j < sig.params@.len() ==> (#[trigger] sig.params@[j]).wf(),
        ensures
            final(self).wf(),
            forall|k: Seq<char>|
                #![auto]
                sig_has(final(self).entries@, k) <==> (sig_has(old(self).entries@, k) || k
                    == sig.name@),
            forall|k: Seq<char>|
                #![auto]
                sig_has(final(self).entries@, k) ==> sig_params(final(self).entries@, k) == (
                if k == sig.name@ {
                    sig.params@.map_values(|t: VarType| t@)
                } else {
                    sig_params(old(self).entries@, k)
                }),
    {
        let ghost key = sig.name@;
        let ghost pv = sig.params@;
        let n = self.entries.len();
        let mut i: usize = 0;
        while i < n
            invariant
                old(self).wf(),
                forall|j: int| 0 <= j < sig.params@.len() ==> (#[trigger] sig.params@[j]).wf(),
                key == sig.name@,
                pv == sig.params@,
                self == old(self),
                n == self.entries@.len(),
                i <= n,
                forall|j: int| 0 <= j < i ==> (#[trigger] self.entries@[j]).name@ != sig.name@,
            decreases n - i,
        {
            if str_eq(self.entries[i].name.as_str(), sig.name.as_str()) {
                proof {
                    assert(self.entries@[i as int].name@ == key);
                }
                self.entries.set(i, sig);
                proof {
                    assert(self.entries@[i as int].name@ == key);
                    assert(self.entries@[i as int].params@ == pv);
                    assert forall|a: int, b: int|
                        #![trigger self.entries@[a], self.entries@[b]]
                        0 <= a < b < self.entries@.len() implies self.entries@[a].name@
                        != self.entries@[b].name@ by {
                        assert(old(self).entries@[a].name@ != old(self).entries@[b].name@);
                    }
                    assert forall|k: Seq<char>| #![auto] sig_has(self.entries@, k) <==> (sig_has(
                        old(self).entries@,
                        k,
                    ) || k == key) by {
                        if sig_has(self.entries@, k) {
                            let w = choose|w: int|
                                0 <= w < self.entries@.len() && self.entries@[w].name@ == k;
                            if w != i {
                                assert(old(self).entries@[w].name@ == k);
                            }
                        }
                        if sig_has(old(self).entries@, k) {
                            let w = choose|w: int|
                                0 <= w < old(self).entries@.len() && old(self).entries@[w].name@
                                    == k;
                            if w != i {
                                assert(self.entries@[w].name@ == k);
                            }
                        }
                    }
                    assert forall|k: Seq<char>| #![auto] sig_has(self.entries@, k) implies
                    sig_params(self.entries@, k) == (
                    if k == key {
                        pv.map_values(|t: VarType| t@)
                    } else {
                        sig_params(old(self).entries@, k)
                    }) by {
                        let w = choose|w: int|
                            0 <= w < self.entries@.len() && self.entries@[w].name@ == k;
                        lemma_sig_index_unique(self.entries@, k, w);
                        if k == key {
                            lemma_sig_index_unique(self.entries@, k, i as int);
                        } else {
                            assert(w != i);
                            assert(old(self).entries@[w].name@ == k);
                            lemma_sig_index_unique(old(self).entries@, k, w);
                        }
                    }
                }
                return ;
            }
            i = i + 1;
        }
        proof {
            assert(!sig_has(self.entries@, key));
        }
        self.entries.push(sig);
        proof {
            let ghost last = old(self).entries@.len() as int;
            assert(self.entries@[last].name@ == key);
            assert(self.entries@[last].params@ == pv);
            assert forall|a: int, b: int|
                #![trigger self.entries@[a], self.entries@[b]]
                0 <= a < b < self.entries@.len() implies self.entries@[a].name@
                != self.entries@[b].name@ by {
                if b < last {
                    assert(old(self).entries@[a].name@ != old(self).entries@[b].name@);
                } else {
                    assert(old(self).entries@[a].name@ != key);
                }
            }
            assert forall|k: Seq<char>| #![auto] sig_has(self.entries@, k) <==> (sig_has(
                old(self).entries@,
                k,
            ) || k == key) by {
                if sig_has(self.entries@, k) {
                    let w = choose|w: int|
                        0 <= w < self.entries@.len() && self.entries@[w].name@ == k;
                    if w < last {
                        assert(old(self).entries@[w].name@ == k);
                    }
                }
                if sig_has(old(self).entries@, k) {
                    let w = choose|w: int|
                        0 <= w < old(self).entries@.len() && old(self).entries@[w].name@ == k;
                    assert(self.entries@[w].name@ == k);
                }
            }
            assert forall|k: Seq<char>| #![auto] sig_has(self.entries@, k) implies sig_params(
                self.entries@,
                k,
            ) == (
            if k == key {
                pv.map_values(|t: VarType| t@)
            } else {
                sig_params(old(self).entries@, k)
            }) by {
                let w = choose|w: int| 0 <= w < self.entries@.len() && self.entries@[w].name@ == k;
                lemma_sig_index_unique(self.entries@, k, w);
                if k == key {
                    lemma_sig_index_unique(self.entries@, k, last);
                } else {
                    assert(w < last);
                    assert(old(self).entries@[w].name@ == k);
                    lemma_sig_index_unique(old(self).entries@, k, w);
                }
            }
        }
    }
}

} // verus!
