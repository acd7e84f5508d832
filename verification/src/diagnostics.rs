//! What the analysis reports.
//!
//! Diagnostics are values, produced in source order and never deduplicated;
//! each carries the byte offset of the construct that triggered it, and the
//! surrounding program maps offsets to lines and renders messages.  The
//! stream also carries the ownership trace events and the per-statement
//! state dumps, so their interleaving with the errors is preserved.

use vstd::prelude::*;

use crate::checker::BorrowChecker;

verus! {

/// One report from the analysis.
///
/// The `mutable` flags on the reference reports tell a mutable reference
/// apart from a constant one.  `StateDump` lines appear only when the
/// per-statement dump modes are switched on.
#[derive(Debug, Clone, PartialEq, Eq)]
pub enum Diagnostic {
    /// An `Owner` was read while it no longer held ownership.
    UseOfMoved { name: String, offset: usize },
    /// Trace event: an `Owner` regained ownership.
    MadeLive { name: String, offset: usize },
    /// Trace event: an `Owner` gave its ownership up.
    Killed { name: String, offset: usize },
    /// `lhs = *p` where `*p` is neither a copy value nor a constant reference.
    MoveBehindRef { name: String, offset: usize },
    /// A mutable reference was assigned to a constant reference.
    MutToConstMove { from: String, to: String, offset: usize },
    /// A constant reference was assigned to a mutable reference.
    ConstToMutMove { from: String, to: String, offset: usize },
    /// A reference with an empty points-to set was used.
    RefToNoValue { name: String, mutable: bool, offset: usize },
    /// A reference was used whose pointee's scope has already been left.
    RefOutOfScope { name: String, target: String, mutable: bool, offset: usize },
    /// A reference was used that its pointee no longer recognizes.
    InvalidRef { name: String, target: String, mutable: bool, offset: usize },
    /// A call of a function with no recorded signature.
    UndeclaredFunction { name: String },
    /// A name without a `.` that was never declared.
    UnresolvedMember { name: String },
    /// A dotted name whose parent is not an `Owner`.
    NotAnOwner { name: String },
    /// A dotted name whose parent names a struct with no recorded layout.
    UnknownStructType { name: String },
    /// A dotted name whose trailing segment is not a field of the parent's
    /// struct.
    UnknownField { name: String },
    /// A per-statement dump of the tracked state.
    StateDump { offset: usize, text: String },
}

impl Diagnostic {
    /// The source offset the report points at, if it points at one.
    pub fn offset(&self) -> (r: Option<usize>)
        ensures
            r == self.spec_offset(),
    {
        match self {
            Diagnostic::UseOfMoved { offset, .. } => Option::Some(*offset),
            Diagnostic::MadeLive { offset, .. } => Option::Some(*offset),
            Diagnostic::Killed { offset, .. } => Option::Some(*offset),
            Diagnostic::MoveBehindRef { offset, .. } => Option::Some(*offset),
            Diagnostic::MutToConstMove { offset, .. } => Option::Some(*offset),
            Diagnostic::ConstToMutMove { offset, .. } => Option::Some(*offset),
            Diagnostic::RefToNoValue { offset, .. } => Option::Some(*offset),
            Diagnostic::RefOutOfScope { offset, .. } => Option::Some(*offset),
            Diagnostic::InvalidRef { offset, .. } => Option::Some(*offset),
            Diagnostic::UndeclaredFunction { .. } => Option::None,
            Diagnostic::UnresolvedMember { .. } => Option::None,
            Diagnostic::NotAnOwner { .. } => Option::None,
            Diagnostic::UnknownStructType { .. } => Option::None,
            Diagnostic::UnknownField { .. } => Option::None,
            Diagnostic::StateDump { offset, .. } => Option::Some(*offset),
        }
    }

    /// Spec twin of [`Diagnostic::offset`].
    pub open spec fn spec_offset(&self) -> Option<usize> {
        match self {
            Diagnostic::UseOfMoved { offset, .. } => Option::Some(*offset),
            Diagnostic::MadeLive { offset, .. } => Option::Some(*offset),
            Diagnostic::Killed { offset, .. } => Option::Some(*offset),
            Diagnostic::MoveBehindRef { offset, .. } => Option::Some(*offset),
            Diagnostic::MutToConstMove { offset, .. } => Option::Some(*offset),
            Diagnostic::ConstToMutMove { offset, .. } => Option::Some(*offset),
            Diagnostic::RefToNoValue { offset, .. } => Option::Some(*offset),
            Diagnostic::RefOutOfScope { offset, .. } => Option::Some(*offset),
            Diagnostic::InvalidRef { offset, .. } => Option::Some(*offset),
            Diagnostic::UndeclaredFunction { .. } => Option::None,
            Diagnostic::UnresolvedMember { .. } => Option::None,
            Diagnostic::NotAnOwner { .. } => Option::None,
            Diagnostic::UnknownStructType { .. } => Option::None,
            Diagnostic::UnknownField { .. } => Option::None,
            Diagnostic::StateDump { offset, .. } => Option::Some(*offset),
        }
    }

    /// Whether the report is an error.  Trace events, dumps, and the
    /// informational resolution reports (the ones the analysis recovers
    /// from by falling back to `Copy` or to a pessimistic signature) are
    /// not errors.
    pub fn is_error(&self) -> (r: bool)
        ensures
            r == self.spec_is_error(),
    {
        match self {
            Diagnostic::MadeLive { .. } => false,
            Diagnostic::Killed { .. } => false,
            Diagnostic::StateDump { .. } => false,
            Diagnostic::UndeclaredFunction { .. } => false,
            Diagnostic::UnresolvedMember { .. } => false,
            Diagnostic::NotAnOwner { .. } => false,
            Diagnostic::UnknownStructType { .. } => false,
            Diagnostic::UnknownField { .. } => false,
            _ => true,
        }
    }

    /// Spec twin of [`Diagnostic::is_error`].
    pub open spec fn spec_is_error(&self) -> bool {
        match self {
            Diagnostic::MadeLive { .. } => false,
            Diagnostic::Killed { .. } => false,
            Diagnostic::StateDump { .. } => false,
            Diagnostic::UndeclaredFunction { .. } => false,
            Diagnostic::UnresolvedMember { .. } => false,
            Diagnostic::NotAnOwner { .. } => false,
            Diagnostic::UnknownStructType { .. } => false,
            Diagnostic::UnknownField { .. } => false,
            _ => true,
        }
    }
}

/// The names of a set of ids, in stored order.
pub open spec fn refs_names(s: Seq<crate::variable::Id>) -> Seq<Seq<char>> {
    s.map_values(|i: crate::variable::Id| i.name@)
}

/// One variable's piece of the ownership dump: `name:1` or `name:0` for an
/// owner, the bare name otherwise.
pub open spec fn ownership_entry(v: crate::variable::Variable) -> Seq<char> {
    match v.var_type {
        crate::variable::VarType::Owner(_, h) => v.id.name@ + seq![':'] + (if h {
            seq!['1']
        } else {
            seq!['0']
        }),
        _ => v.id.name@,
    }
}

/// One variable's piece of the reference dump: its reverse edges for plain
/// values and owners, its pointees for references (mutable references carry
/// a tick).
pub open spec fn reference_entry(v: crate::variable::Variable) -> Seq<char> {
    match v.var_type {
        crate::variable::VarType::ConstRef(s) => v.id.name@ + seq!['-', '>', '{'] + crate::strings::join_with(
            refs_names(s.items@),
            seq![',', ' '],
        ) + seq!['}'],
        crate::variable::VarType::MutRef(s) => v.id.name@ + seq!['\'', '-', '>', '{'] + crate::strings::join_with(
            refs_names(s.items@),
            seq![',', ' '],
        ) + seq!['}'],
        _ => seq!['{'] + crate::strings::join_with(
            refs_names(v.const_refs.items@),
            seq![',', ' '],
        ) + seq!['}', ',', '{'] + crate::strings::join_with(
            refs_names(v.mut_refs.items@),
            seq![',', ' '],
        ) + seq!['}', '\'', '-', '>'] + v.id.name@,
    }
}

/// A frame's entries joined and wrapped in braces.
pub open spec fn frame_dump(entries: Seq<Seq<char>>, sep: Seq<char>) -> Seq<char> {
    seq!['{'] + crate::strings::join_with(entries, sep) + seq!['}']
}

/// The whole dump: the included frames joined by tabs and wrapped in
/// brackets.
pub open spec fn stack_dump(frames: Seq<Seq<char>>) -> Seq<char> {
    seq!['['] + crate::strings::join_with(frames, seq!['\t']) + seq![']']
}

/// The frames a dump includes: all of them, or all but the global one.
pub open spec fn included_frames(c: &BorrowChecker) -> Seq<crate::scope::Scope> {
    if c.print_global_scope_sets {
        c.scopes@
    } else {
        c.scopes@.skip(1)
    }
}

impl BorrowChecker {
    /// The per-statement ownership dump: one brace group per frame, each
    /// variable as `name` or `name:0|1`.
    pub fn print_ownership(&self) -> (r: String)
        requires
            self.env_wf(),
        ensures
            r@ == stack_dump(
                included_frames(self).map_values(
                    |sc: crate::scope::Scope|
                        frame_dump(
                            sc.vars@.map_values(|v: crate::variable::Variable| ownership_entry(v)),
                            seq![',', ' '],
                        ),
                ),
            ),
    {
        proof {
            reveal_strlit(":");
            reveal_strlit("1");
            reveal_strlit("0");
            reveal_strlit("{");
            reveal_strlit("}");
            reveal_strlit("[");
            reveal_strlit("]");
            reveal_strlit(", ");
            reveal_strlit("\t");
            assert(", "@ =~= seq![',', ' ']);
            assert("\t"@ =~= seq!['\t']);
            assert(":"@ =~= seq![':']);
            assert("1"@ =~= seq!['1']);
            assert("0"@ =~= seq!['0']);
            assert("{"@ =~= seq!['{']);
            assert("}"@ =~= seq!['}']);
            assert("["@ =~= seq!['[']);
            assert("]"@ =~= seq![']']);
        }
        let start: usize = if self.print_global_scope_sets {
            0
        } else {
            1
        };
        let ghost fseq = included_frames(self);
        let n = self.scopes.len();
        let mut frames: Vec<String> = Vec::new();
        let mut i: usize = start;
        proof {
            assert(fseq.len() == n - start);
            assert(forall|x: int| 0 <= x < fseq.len() ==> fseq[x] == self.scopes@[start + x]);
        }
        while i < n
            invariant
                self.env_wf(),
                n == self.scopes@.len(),
                start <= 1,
                start as int <= self.scopes@.len(),
                start <= i <= n,
                fseq == included_frames(self),
                fseq.len() == n - start,
                forall|x: int| 0 <= x < fseq.len() ==> fseq[x] == self.scopes@[start + x],
                frames@.len() == i - start,
                forall|x: int|
                    0 <= x < frames@.len() ==> (#[trigger] frames@[x])@ == frame_dump(
                        fseq[x].vars@.map_values(
                            |v: crate::variable::Variable| ownership_entry(v),
                        ),
                        seq![',', ' '],
                    ),
            decreases n - i,
        {
            let m = self.scopes[i].len();
            let mut entries: Vec<String> = Vec::new();
            let mut j: usize = 0;
            while j < m
                invariant
                    self.env_wf(),
                    i < self.scopes@.len(),
                    m == self.scopes@[i as int].vars@.len(),
                    j <= m,
                    entries@.len() == j,
                    forall|x: int|
                        0 <= x < entries@.len() ==> (#[trigger] entries@[x])@ == ownership_entry(
                            self.scopes@[i as int].vars@[x],
                        ),
                decreases m - j,
            {
                proof {
                    reveal_strlit(":");
                    reveal_strlit("1");
                    reveal_strlit("0");
                    assert(":"@ =~= seq![':']);
                    assert("1"@ =~= seq!['1']);
                    assert("0"@ =~= seq!['0']);
                }
                let v = self.scopes[i].get_at(j);
                let entry = match &v.var_type {
                    crate::variable::VarType::Owner(_, h) => {
                        let head = crate::strings::concat_str(v.id.name.as_str(), ":");
                        if *h {
                            crate::strings::concat_str(head.as_str(), "1")
                        } else {
                            crate::strings::concat_str(head.as_str(), "0")
                        }
                    },
                    _ => v.id.name.clone(),
                };
                proof {
                    assert(entry@ =~= ownership_entry(self.scopes@[i as int].vars@[j as int]));
                }
                entries.push(entry);
                j = j + 1;
            }
            let inner = crate::strings::join_all(&entries, ", ");
            let framed = {
                let a = crate::strings::concat_str("{", inner.as_str());
                crate::strings::concat_str(a.as_str(), "}")
            };
            proof {
                reveal_strlit("{");
                reveal_strlit("}");
                reveal_strlit(", ");
                assert(", "@ =~= seq![',', ' ']);
                assert("{"@ =~= seq!['{']);
                assert("}"@ =~= seq!['}']);
                let mapped = fseq[i - start].vars@.map_values(
                    |v: crate::variable::Variable| ownership_entry(v),
                );
                assert(fseq[i - start] == self.scopes@[i as int]);
                assert forall|x: int| 0 <= x < mapped.len() implies entries.deep_view()[x]
                    == mapped[x] by {
                    assert(entries.deep_view()[x] == entries@[x].deep_view());
                    assert(entries@[x]@ == ownership_entry(self.scopes@[i as int].vars@[x]));
                }
                assert(entries.deep_view() =~= mapped);
                assert(framed@ =~= frame_dump(
                    fseq[i - start].vars@.map_values(
                        |v: crate::variable::Variable| ownership_entry(v),
                    ),
                    seq![',', ' '],
                ));
            }
            frames.push(framed);
            i = i + 1;
        }
        let joined = crate::strings::join_all(&frames, "\t");
        let out = {
            let a = crate::strings::concat_str("[", joined.as_str());
            crate::strings::concat_str(a.as_str(), "]")
        };
        proof {
            reveal_strlit("[");
            reveal_strlit("]");
            reveal_strlit("\t");
            let fmapped = fseq.map_values(
                |sc: crate::scope::Scope|
                    frame_dump(
                        sc.vars@.map_values(|v: crate::variable::Variable| ownership_entry(v)),
                        seq![',', ' '],
                    ),
            );
            assert forall|x: int| 0 <= x < fmapped.len() implies frames.deep_view()[x]
                == fmapped[x] by {
                assert(frames.deep_view()[x] == frames@[x].deep_view());
                assert(frames@[x]@ == frame_dump(
                    fseq[x].vars@.map_values(|v: crate::variable::Variable| ownership_entry(v)),
                    seq![',', ' '],
                ));
            }
            assert(frames.deep_view() =~= fmapped);
            assert(out@ =~= stack_dump(
                fseq.map_values(
                    |sc: crate::scope::Scope|
                        frame_dump(
                            sc.vars@.map_values(
                                |v: crate::variable::Variable| ownership_entry(v),
                            ),
                            seq![',', ' '],
                        ),
                ),
            ));
        }
        out
    }

    /// The per-statement reference dump: each variable either with its
    /// reverse edges or with its pointees.
    pub fn print_references(&self) -> (r: String)
        requires
            self.env_wf(),
        ensures
            r@ == stack_dump(
                included_frames(self).map_values(
                    |sc: crate::scope::Scope|
                        frame_dump(
                            sc.vars@.map_values(|v: crate::variable::Variable| reference_entry(v)),
                            seq![';', ' '],
                        ),
                ),
            ),
    {
        proof {
            reveal_strlit("{");
            reveal_strlit("}");
            reveal_strlit("[");
            reveal_strlit("]");
            reveal_strlit(", ");
            reveal_strlit("; ");
            reveal_strlit("\t");
            reveal_strlit("->{");
            reveal_strlit("'->{");
            reveal_strlit("},{");
            reveal_strlit("}'->");
            assert(", "@ =~= seq![',', ' ']);
            assert("; "@ =~= seq![';', ' ']);
            assert("\t"@ =~= seq!['\t']);
            assert("{"@ =~= seq!['{']);
            assert("}"@ =~= seq!['}']);
            assert("["@ =~= seq!['[']);
            assert("]"@ =~= seq![']']);
            assert("->{"@ =~= seq!['-', '>', '{']);
            assert("'->{"@ =~= seq!['\'', '-', '>', '{']);
            assert("},{"@ =~= seq!['}', ',', '{']);
            assert("}'->"@ =~= seq!['}', '\'', '-', '>']);
        }
        let start: usize = if self.print_global_scope_sets {
            0
        } else {
            1
        };
        let ghost fseq = included_frames(self);
        let n = self.scopes.len();
        let mut frames: Vec<String> = Vec::new();
        let mut i: usize = start;
        proof {
            assert(fseq.len() == n - start);
            assert(forall|x: int| 0 <= x < fseq.len() ==> fseq[x] == self.scopes@[start + x]);
        }
        while i < n
            invariant
                self.env_wf(),
                n == self.scopes@.len(),
                start <= 1,
                start as int <= self.scopes@.len(),
                start <= i <= n,
                fseq == included_frames(self),
                fseq.len() == n - start,
                forall|x: int| 0 <= x < fseq.len() ==> fseq[x] == self.scopes@[start + x],
                frames@.len() == i - start,
                forall|x: int|
                    0 <= x < frames@.len() ==> (#[trigger] frames@[x])@ == frame_dump(
                        fseq[x].vars@.map_values(
                            |v: crate::variable::Variable| reference_entry(v),
                        ),
                        seq![';', ' '],
                    ),
            decreases n - i,
        {
            let m = self.scopes[i].len();
            let mut entries: Vec<String> = Vec::new();
            let mut j: usize = 0;
            while j < m
                invariant
                    self.env_wf(),
                    i < self.scopes@.len(),
                    m == self.scopes@[i as int].vars@.len(),
                    j <= m,
                    entries@.len() == j,
                    forall|x: int|
                        0 <= x < entries@.len() ==> (#[trigger] entries@[x])@ == reference_entry(
                            self.scopes@[i as int].vars@[x],
                        ),
                decreases m - j,
            {
                proof {
                    reveal_strlit("{");
                    reveal_strlit("}");
                    reveal_strlit(", ");
                    reveal_strlit("->{");
                    reveal_strlit("'->{");
                    reveal_strlit("},{");
                    reveal_strlit("}'->");
                    assert(", "@ =~= seq![',', ' ']);
                    assert("{"@ =~= seq!['{']);
                    assert("}"@ =~= seq!['}']);
                    assert("->{"@ =~= seq!['-', '>', '{']);
                    assert("'->{"@ =~= seq!['\'', '-', '>', '{']);
                    assert("},{"@ =~= seq!['}', ',', '{']);
                    assert("}'->"@ =~= seq!['}', '\'', '-', '>']);
                }
                let v = self.scopes[i].get_at(j);
                let entry = match &v.var_type {
                    crate::variable::VarType::ConstRef(s) => {
                        let names = Self::id_names(s);
                        let inner = crate::strings::join_all(&names, ", ");
                        let a = crate::strings::concat_str(v.id.name.as_str(), "->{");
                        let b = crate::strings::concat_str(a.as_str(), inner.as_str());
                        crate::strings::concat_str(b.as_str(), "}")
                    },
                    crate::variable::VarType::MutRef(s) => {
                        let names = Self::id_names(s);
                        let inner = crate::strings::join_all(&names, ", ");
                        let a = crate::strings::concat_str(v.id.name.as_str(), "'->{");
                        let b = crate::strings::concat_str(a.as_str(), inner.as_str());
                        crate::strings::concat_str(b.as_str(), "}")
                    },
                    _ => {
                        let cn = Self::id_names(&v.const_refs);
                        let mn = Self::id_names(&v.mut_refs);
                        let ci = crate::strings::join_all(&cn, ", ");
                        let mi = crate::strings::join_all(&mn, ", ");
                        let a = crate::strings::concat_str("{", ci.as_str());
                        let b = crate::strings::concat_str(a.as_str(), "},{");
                        let c = crate::strings::concat_str(b.as_str(), mi.as_str());
                        let d = crate::strings::concat_str(c.as_str(), "}'->");
                        crate::strings::concat_str(d.as_str(), v.id.name.as_str())
                    },
                };
                proof {
                    assert(entry@ =~= reference_entry(self.scopes@[i as int].vars@[j as int]));
                }
                entries.push(entry);
                j = j + 1;
            }
            let inner = crate::strings::join_all(&entries, "; ");
            let framed = {
                let a = crate::strings::concat_str("{", inner.as_str());
                crate::strings::concat_str(a.as_str(), "}")
            };
            proof {
                reveal_strlit("{");
                reveal_strlit("}");
                reveal_strlit("; ");
                assert("; "@ =~= seq![';', ' ']);
                assert("{"@ =~= seq!['{']);
                assert("}"@ =~= seq!['}']);
                let mapped = fseq[i - start].vars@.map_values(
                    |v: crate::variable::Variable| reference_entry(v),
                );
                assert(fseq[i - start] == self.scopes@[i as int]);
                assert forall|x: int| 0 <= x < mapped.len() implies entries.deep_view()[x]
                    == mapped[x] by {
                    assert(entries.deep_view()[x] == entries@[x].deep_view());
                    assert(entries@[x]@ == reference_entry(self.scopes@[i as int].vars@[x]));
                }
                assert(entries.deep_view() =~= mapped);
                assert(framed@ =~= frame_dump(
                    fseq[i - start].vars@.map_values(
                        |v: crate::variable::Variable| reference_entry(v),
                    ),
                    seq![';', ' '],
                ));
            }
            frames.push(framed);
            i = i + 1;
        }
        let joined = crate::strings::join_all(&frames, "\t");
        let out = {
            let a = crate::strings::concat_str("[", joined.as_str());
            crate::strings::concat_str(a.as_str(), "]")
        };
        proof {
            reveal_strlit("[");
            reveal_strlit("]");
            reveal_strlit("\t");
            let fmapped = fseq.map_values(
                |sc: crate::scope::Scope|
                    frame_dump(
                        sc.vars@.map_values(|v: crate::variable::Variable| reference_entry(v)),
                        seq![';', ' '],
                    ),
            );
            assert forall|x: int| 0 <= x < fmapped.len() implies frames.deep_view()[x]
                == fmapped[x] by {
                assert(frames.deep_view()[x] == frames@[x].deep_view());
                assert(frames@[x]@ == frame_dump(
                    fseq[x].vars@.map_values(|v: crate::variable::Variable| reference_entry(v)),
                    seq![';', ' '],
                ));
            }
            assert(frames.deep_view() =~= fmapped);
            assert(out@ =~= stack_dump(
                fseq.map_values(
                    |sc: crate::scope::Scope|
                        frame_dump(
                            sc.vars@.map_values(
                                |v: crate::variable::Variable| reference_entry(v),
                            ),
                            seq![';', ' '],
                        ),
                ),
            ));
        }
        out
    }

    /// The stored names of a set of ids, as strings.
    fn id_names(s: &crate::variable::IdSet) -> (r: Vec<String>)
        ensures
            r.deep_view() == refs_names(s.items@),
    {
        let n = s.len();
        let mut r: Vec<String> = Vec::new();
        let mut i: usize = 0;
        while i < n
            invariant
                n == s.items@.len(),
                i <= n,
                r@.len() == i,
                forall|x: int| 0 <= x < i ==> (#[trigger] r@[x])@ == s.items@[x].name@,
            decreases n - i,
        {
            r.push(s.get(i).name.clone());
            i = i + 1;
        }
        proof {
            assert(r.deep_view() =~= refs_names(s.items@));
        }
        r
    }
}

} // verus!
