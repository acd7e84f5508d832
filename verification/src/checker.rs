//! The checker's state: configuration, the scope stack, the type tables, and
//! the diagnostic stream.
//!
//! The environment is a stack of frames ([`Scope`]), viewed as a sequence of
//! maps from names to variable views.  Well-formedness ties every stored
//! variable's `Id` to the frame that holds it.  The primitives here resolve
//! names to scopes and read or replace single variables; the engines build
//! on them.

use vstd::prelude::*;

use crate::diagnostics::Diagnostic;
use crate::scope::Scope;
use crate::strings::first_segment;
use crate::strings::first_segment_of;
use crate::tables::FunctionTable;
use crate::tables::StructTable;
use crate::variable::Id;
use crate::variable::Variable;
use crate::variable::VariableView;

verus! {

/// Which per-statement or per-event output the checker produces.
pub enum PrintType {
    /// Dump the ownership state, or trace ownership events.
    Ownership,
    /// Dump the reference graph.
    Reference,
    /// Produce errors only.
    ErrorOnly,
}

/// The borrow checker's whole state for one run.
pub struct BorrowChecker {
    /// Names of the functions whose bodies are analyzed.
    pub functions_to_check: Vec<String>,
    /// The preprocessed source text, for mapping offsets to lines.
    pub src: String,
    /// The scope stack; index 0 is the global frame.
    pub scopes: Vec<Scope>,
    /// Struct layouts, keyed by struct name and typedef aliases.
    pub structs: StructTable,
    /// Function prototypes, keyed by function name.
    pub functions: FunctionTable,
    /// Scratch for compiling a dotted member path: muting flag, nesting
    /// depth, collected pieces, and the finished path.
    pub mute_member_expression: bool,
    pub member_count: u32,
    pub member_identifier_pieces: Vec<String>,
    pub member_identifier: String,
    /// Set while the next compound statement belongs to a function body, so
    /// it does not open a second frame over the parameters.
    pub function_body: bool,
    /// The struct name seen in the latest pointer declaration, for typing
    /// the placeholder such a pointer is made to reference.
    pub previous_struct_name: String,
    /// The name last dereferenced, for `lhs = *p` handling.
    pub dereference_name: String,
    /// Whether state dumps include the global frame.
    pub print_global_scope_sets: bool,
    /// Per-statement dump mode.
    pub set_prints: PrintType,
    /// Per-event trace mode.
    pub event_prints: PrintType,
    /// Everything the analysis reports, in source order.
    pub diagnostics: Vec<Diagnostic>,
}

/// The scope index that holds `key`, looking from frame `i` down to the
/// global frame; 0 when no frame holds it.
pub open spec fn scope_of_from(
    env: Seq<Map<Seq<char>, VariableView>>,
    key: Seq<char>,
    i: int,
) -> int
    decreases i,
{
    if i <= 0 {
        0
    } else if env[i].contains_key(key) {
        i
    } else {
        scope_of_from(env, key, i - 1)
    }
}

/// The scope index a name resolves to: the innermost frame holding the part
/// of the name before the first `.`, or 0 when none does.
pub open spec fn spec_scope_of(env: Seq<Map<Seq<char>, VariableView>>, name: Seq<char>) -> int {
    scope_of_from(env, first_segment(name), env.len() - 1)
}

/// What `scope_of_from` finds: an index in range, holding the key whenever
/// any frame up to `i` holds it.
pub proof fn lemma_scope_of_from(env: Seq<Map<Seq<char>, VariableView>>, key: Seq<char>, i: int)
    requires
        0 <= i < env.len(),
    ensures
        0 <= scope_of_from(env, key, i) <= i,
        env[scope_of_from(env, key, i)].contains_key(key) || (forall|j: int|
            0 <= j <= i ==> !(#[trigger] env[j]).contains_key(key)),
        scope_of_from(env, key, i) == 0 || env[scope_of_from(env, key, i)].contains_key(key),
    decreases i,
{
    if i > 0 && !env[i].contains_key(key) {
        lemma_scope_of_from(env, key, i - 1);
    }
}

/// Which scope a name resolves to is decided by the frames above the global
/// one alone, so two environments that agree there on the key agree on the
/// result.
pub proof fn lemma_scope_of_from_same(
    env1: Seq<Map<Seq<char>, VariableView>>,
    env2: Seq<Map<Seq<char>, VariableView>>,
    key: Seq<char>,
    i: int,
)
    requires
        forall|j: int| 1 <= j <= i ==> ((#[trigger] env2[j]).contains_key(key) <==> env1[j].contains_key(key)),
    ensures
        scope_of_from(env1, key, i) == scope_of_from(env2, key, i),
    decreases i,
{
    if i > 0 {
        lemma_scope_of_from_same(env1, env2, key, i - 1);
    }
}

/// A name's scope resolution survives any environment change that, above the
/// global frame, adds only dotted names and removes nothing.
pub proof fn lemma_scope_of_stable(
    env1: Seq<Map<Seq<char>, VariableView>>,
    env2: Seq<Map<Seq<char>, VariableView>>,
    name: Seq<char>,
)
    requires
        env1.len() == env2.len(),
        forall|j: int, kk: Seq<char>|
            #![trigger env1[j].contains_key(kk), env2[j].contains_key(kk)]
            0 <= j < env1.len() && env1[j].contains_key(kk) ==> env2[j].contains_key(kk),
        forall|j: int, kk: Seq<char>|
            #![trigger env2[j].contains_key(kk), env1[j].contains_key(kk)]
            1 <= j < env2.len() && env2[j].contains_key(kk) && !env1[j].contains_key(kk)
                ==> crate::strings::has_char(kk, '.'),
    ensures
        spec_scope_of(env1, name) == spec_scope_of(env2, name),
{
    let key = first_segment(name);
    crate::strings::lemma_first_segment_no_dot(name);
    assert forall|j: int| 1 <= j <= env1.len() - 1 implies ((#[trigger] env2[j]).contains_key(key)
        <==> env1[j].contains_key(key)) by {
        if env2[j].contains_key(key) && !env1[j].contains_key(key) {
            assert(crate::strings::has_char(key, '.'));
        }
    }
    lemma_scope_of_from_same(env1, env2, key, env1.len() - 1);
}

impl BorrowChecker {
    /// The environment: each frame as a map from names to variable views.
    pub open spec fn env(&self) -> Seq<Map<Seq<char>, VariableView>> {
        self.scopes@.map_values(|s: Scope| s@)
    }

    /// The scope stack is non-empty, every frame is well formed, and every
    /// variable's id records the index of the frame holding it.
    pub open spec fn env_wf(&self) -> bool {
        &&& self.scopes@.len() >= 1
        &&& forall|i: int| 0 <= i < self.scopes@.len() ==> (#[trigger] self.scopes@[i]).wf()
        &&& forall|i: int, j: int|
            0 <= i < self.scopes@.len() && 0 <= j < (#[trigger] self.scopes@[i]).vars@.len() ==> (
            #[trigger] self.scopes@[i].vars@[j]).id.scope == i
        &&& self.structs.wf()
        &&& self.functions.wf()
    }

    /// The configuration fields two states share.
    pub open spec fn same_config(a: Self, b: Self) -> bool {
        &&& a.functions_to_check == b.functions_to_check
        &&& a.src == b.src
        &&& a.print_global_scope_sets == b.print_global_scope_sets
        &&& a.set_prints == b.set_prints
        &&& a.event_prints == b.event_prints
    }

    /// The traversal scratch fields two states share.
    pub open spec fn same_scratch(a: Self, b: Self) -> bool {
        &&& a.mute_member_expression == b.mute_member_expression
        &&& a.member_count == b.member_count
        &&& a.member_identifier_pieces == b.member_identifier_pieces
        &&& a.member_identifier == b.member_identifier
        &&& a.function_body == b.function_body
        &&& a.previous_struct_name == b.previous_struct_name
        &&& a.dereference_name == b.dereference_name
    }

    /// `b` carries every diagnostic of `a`, in order, possibly with more
    /// after them.
    pub open spec fn diags_extended(a: Self, b: Self) -> bool {
        &&& a.diagnostics@.len() <= b.diagnostics@.len()
        &&& forall|i: int|
            0 <= i < a.diagnostics@.len() ==> a.diagnostics@[i] == b.diagnostics@[i]
    }

    /// A checker over `source` with one (global) scope frame, empty tables,
    /// and no diagnostics.
    pub fn new(
        to_check: Vec<String>,
        source: String,
        print_global_scope_sets: bool,
        set_prints: PrintType,
        event_prints: PrintType,
    ) -> (r: Self)
        ensures
            r.env_wf(),
            r.scopes@.len() == 1,
            r.env()[0] == Map::<Seq<char>, VariableView>::empty(),
            r.structs.entries@.len() == 0,
            r.functions.entries@.len() == 0,
            r.diagnostics@.len() == 0,
            r.functions_to_check == to_check,
            r.src == source,
            r.print_global_scope_sets == print_global_scope_sets,
            r.set_prints == set_prints,
            r.event_prints == event_prints,
            r.mute_member_expression == false,
            r.member_count == 0,
            r.member_identifier_pieces@.len() == 0,
            r.member_identifier@ == Seq::<char>::empty(),
            r.function_body == false,
            r.previous_struct_name@ == Seq::<char>::empty(),
            r.dereference_name@ == Seq::<char>::empty(),
    {
        let mut scopes: Vec<Scope> = Vec::new();
        scopes.push(Scope::empty());
        let r = BorrowChecker {
            functions_to_check: to_check,
            src: source,
            scopes,
            structs: StructTable::new(),
            functions: FunctionTable::new(),
            mute_member_expression: false,
            member_count: 0,
            member_identifier_pieces: Vec::new(),
            member_identifier: String::new(),
            function_body: false,
            previous_struct_name: String::new(),
            dereference_name: String::new(),
            print_global_scope_sets,
            set_prints,
            event_prints,
            diagnostics: Vec::new(),
        };
        r
    }

    /// The innermost scope index where the name's first segment is declared,
    /// or 0 (the global frame) when it is declared nowhere.
    pub fn get_scope_number(&self, name: &str) -> (r: usize)
        requires
            self.env_wf(),
        ensures
            r == spec_scope_of(self.env(), name@),
            r < self.scopes@.len(),
    {
        let first = first_segment_of(name);
        let ghost key = first_segment(name@);
        let mut i: usize = self.scopes.len() - 1;
        loop
            invariant
                self.env_wf(),
                key == first@,
                key == first_segment(name@),
                i < self.scopes@.len(),
                scope_of_from(self.env(), key, self.scopes@.len() - 1) == scope_of_from(
                    self.env(),
                    key,
                    i as int,
                ),
            ensures
                0 <= spec_scope_of(self.env(), name@) < self.scopes@.len(),
            decreases i,
        {
            if self.scopes[i].contains_name(first.as_str()) {
                proof {
                    assert(self.env()[i as int] == self.scopes@[i as int]@);
                    assert(scope_of_from(self.env(), key, i as int) == i as int);
                }
                return i;
            }
            proof {
                assert(self.env()[i as int] == self.scopes@[i as int]@);
            }
            if i == 0 {
                proof {
                    assert(scope_of_from(self.env(), key, 0) == 0);
                }
                return 0;
            }
            i = i - 1;
        }
    }

    /// The id a name resolves to right now: the name itself at the scope
    /// index its first segment lives at.
    pub fn get_id(&self, name: &str) -> (r: Id)
        requires
            self.env_wf(),
        ensures
            r.name@ == name@,
            r.scope == spec_scope_of(self.env(), name@),
            r.scope < self.scopes@.len(),
    {
        Id { name: name.to_owned(), scope: self.get_scope_number(name) }
    }

    /// The variable an id names, when its frame still exists and holds it.
    ///
    /// Mutation goes through [`Self::put_var`]: a caller that would edit a
    /// variable in place instead reads it here (or through
    /// `name_to_var`), builds the changed value, and stores it back, so
    /// every update to the environment is the exact map update that
    /// `put_var`'s contract states.
    pub fn id_to_var(&self, id: &Id) -> (r: Option<&Variable>)
        requires
            self.env_wf(),
        ensures
            match r {
                Option::Some(v) => id.scope < self.scopes@.len() && self.env()[id.scope as int].contains_key(id.name@)
                    && v@ == self.env()[id.scope as int][id.name@] && v.wf()
                    && v.id.scope == id.scope && v.id.name@ == id.name@ && (exists|i: int|
                    0 <= i < self.scopes@[id.scope as int].vars@.len() && self.scopes@[
                        id.scope as int
                    ].vars@[i] == *v),
                Option::None => id.scope >= self.scopes@.len() || !self.env()[id.scope as int].contains_key(id.name@),
            },
    {
        if id.scope >= self.scopes.len() {
            return Option::None;
        }
        proof {
            assert(self.env()[id.scope as int] == self.scopes@[id.scope as int]@);
        }
        let r = self.scopes[id.scope].get(id.name.as_str());
        proof {
            match r {
                Option::Some(v) => {
                    let i = crate::scope::index_of_name(
                        self.scopes@[id.scope as int].vars@,
                        id.name@,
                    );
                    assert(self.scopes@[id.scope as int].vars@[i].id.scope == id.scope);
                },
                Option::None => {},
            }
        }
        r
    }

    /// Stores `var` in the frame its id names, replacing the variable under
    /// the same name there.
    pub fn put_var(&mut self, var: Variable)
        requires
            old(self).env_wf(),
            var.wf(),
            var.id.scope < old(self).scopes@.len(),
        ensures
            final(self).env_wf(),
            final(self).scopes@.len() == old(self).scopes@.len(),
            final(self).env() == old(self).env().update(
                var.id.scope as int,
                old(self).env()[var.id.scope as int].insert(var.id.name@, var@),
            ),
            final(self).diagnostics == old(self).diagnostics,
            final(self).structs == old(self).structs,
            final(self).functions == old(self).functions,
            Self::same_config(*old(self), *final(self)),
            final(self).mute_member_expression == old(self).mute_member_expression,
            final(self).member_count == old(self).member_count,
            final(self).member_identifier_pieces == old(self).member_identifier_pieces,
            final(self).member_identifier == old(self).member_identifier,
            final(self).function_body == old(self).function_body,
            final(self).previous_struct_name == old(self).previous_struct_name,
            final(self).dereference_name == old(self).dereference_name,
    {
        let s = var.id.scope;
        let ghost key = var.id.name@;
        let ghost vv = var@;
        let mut frame = self.scopes[s].clone();
        frame.put(var);
        self.scopes.set(s, frame);
        proof {
            assert(self.scopes@.len() == old(self).scopes@.len());
            assert(self.scopes@[s as int]@ == old(self).scopes@[s as int]@.insert(key, vv));
            assert forall|i: int, j: int|
                0 <= i < self.scopes@.len() && 0 <= j < (#[trigger] self.scopes@[i]).vars@.len()
                implies (#[trigger] self.scopes@[i].vars@[j]).id.scope == i by {
                if i != s as int {
                    assert(self.scopes@[i] == old(self).scopes@[i]);
                } else {
                    let fr = self.scopes@[s as int];
                    crate::scope::lemma_scope_var_in_map(&fr, j);
                    let k = fr.vars@[j].id.name@;
                    assert(fr@[k] == old(self).scopes@[s as int]@.insert(key, vv)[k]);
                    if k == key {
                        assert(fr.vars@[j]@.id.scope == vv.id.scope);
                        assert(vv.id.scope == s as nat);
                    } else {
                        assert(old(self).scopes@[s as int]@.contains_key(k));
                        let w = crate::scope::index_of_name(old(self).scopes@[s as int].vars@, k);
                        assert(old(self).scopes@[s as int].vars@[w].id.scope == s);
                        assert(old(self).scopes@[s as int]@[k] == old(self).scopes@[s as int].vars@[w]@);
                        assert(fr.vars@[j]@.id.scope == s as nat);
                    }
                    assert(fr.vars@[j].id.scope == s);
                }
            }
            assert(self.env() =~= old(self).env().update(
                s as int,
                old(self).env()[s as int].insert(key, vv),
            ));
        }
    }

    /// Opens a fresh innermost frame.
    pub fn push_scope(&mut self)
        requires
            old(self).env_wf(),
        ensures
            final(self).env_wf(),
            final(self).scopes@.len() == old(self).scopes@.len() + 1,
            final(self).env() == old(self).env().push(Map::<Seq<char>, VariableView>::empty()),
            final(self).diagnostics == old(self).diagnostics,
            final(self).structs == old(self).structs,
            final(self).functions == old(self).functions,
            Self::same_config(*old(self), *final(self)),
            Self::same_scratch(*old(self), *final(self)),
    {
        self.scopes.push(Scope::empty());
        proof {
            assert forall|i: int, j: int|
                0 <= i < self.scopes@.len() && 0 <= j < (#[trigger] self.scopes@[i]).vars@.len()
                implies (#[trigger] self.scopes@[i].vars@[j]).id.scope == i by {
                if i < old(self).scopes@.len() {
                    assert(self.scopes@[i] == old(self).scopes@[i]);
                }
            }
            assert(self.env() =~= old(self).env().push(Map::<Seq<char>, VariableView>::empty()));
        }
    }

    /// Removes the innermost frame.
    pub fn pop_scope(&mut self)
        requires
            old(self).env_wf(),
            old(self).scopes@.len() >= 2,
        ensures
            final(self).env_wf(),
            final(self).scopes@.len() == old(self).scopes@.len() - 1,
            final(self).env() == old(self).env().drop_last(),
            final(self).diagnostics == old(self).diagnostics,
            final(self).structs == old(self).structs,
            final(self).functions == old(self).functions,
            Self::same_config(*old(self), *final(self)),
            Self::same_scratch(*old(self), *final(self)),
    {
        let _ = self.scopes.pop();
        proof {
            assert forall|i: int, j: int|
                0 <= i < self.scopes@.len() && 0 <= j < (#[trigger] self.scopes@[i]).vars@.len()
                implies (#[trigger] self.scopes@[i].vars@[j]).id.scope == i by {
                assert(self.scopes@[i] == old(self).scopes@[i]);
            }
            assert(self.env() =~= old(self).env().drop_last());
        }
    }

    /// A structural copy of the scope stack, used for branch snapshots.
    pub fn snapshot_scopes(&self) -> (r: Vec<Scope>)
        requires
            self.env_wf(),
        ensures
            r@.len() == self.scopes@.len(),
            forall|i: int| 0 <= i < r@.len() ==> (#[trigger] r@[i])@ == self.scopes@[i]@,
            forall|i: int| 0 <= i < r@.len() ==> (#[trigger] r@[i]).wf(),
            forall|i: int, j: int|
                0 <= i < r@.len() && 0 <= j < (#[trigger] r@[i]).vars@.len()
                    ==> (#[trigger] r@[i].vars@[j]).id.scope == i,
    {
        let n = self.scopes.len();
        let mut r: Vec<Scope> = Vec::new();
        let mut i: usize = 0;
        while i < n
            invariant
                self.env_wf(),
                n == self.scopes@.len(),
                i <= n,
                r@.len() == i,
                forall|j: int| 0 <= j < i ==> (#[trigger] r@[j])@ == self.scopes@[j]@,
                forall|j: int| 0 <= j < i ==> (#[trigger] r@[j]).wf(),
                forall|a: int, b: int|
                    0 <= a < i && 0 <= b < (#[trigger] r@[a]).vars@.len()
                        ==> (#[trigger] r@[a].vars@[b]).id.scope == a,
            decreases n - i,
        {
            let c = self.scopes[i].clone();
            proof {
                assert(self.scopes@[i as int].wf());
                assert forall|b: int| 0 <= b < c.vars@.len() implies (#[trigger] c.vars@[b]).id.scope == i as int by {
                    assert(c.vars@[b]@ == self.scopes@[i as int].vars@[b]@);
                    assert(self.scopes@[i as int].vars@[b].id.scope == i as int);
                }
            }
            r.push(c);
            i = i + 1;
        }
        r
    }

    /// Replaces the scope stack with a snapshot taken earlier.
    pub fn restore_scopes(&mut self, snapshot: Vec<Scope>)
        requires
            old(self).env_wf(),
            snapshot@.len() >= 1,
            forall|i: int| 0 <= i < snapshot@.len() ==> (#[trigger] snapshot@[i]).wf(),
            forall|i: int, j: int|
                0 <= i < snapshot@.len() && 0 <= j < (#[trigger] snapshot@[i]).vars@.len() ==> (
                #[trigger] snapshot@[i].vars@[j]).id.scope == i,
        ensures
            final(self).env_wf(),
            final(self).scopes@ == snapshot@,
            final(self).diagnostics == old(self).diagnostics,
            final(self).structs == old(self).structs,
            final(self).functions == old(self).functions,
            Self::same_config(*old(self), *final(self)),
            Self::same_scratch(*old(self), *final(self)),
    {
        self.scopes = snapshot;
    }
}

} // verus!
