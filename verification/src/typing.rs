//! Typing declarations and populating the global tables.
//!
//! From a declarator and its specifiers the checker decides a [`VarType`]:
//! a pointer declarator gives a reference (mutable unless `const` precedes
//! the type specifier), a known struct or typedef-of-struct gives an owner,
//! anything else a copy value.  Struct definitions and function prototypes
//! feed the two global tables.

use vstd::prelude::*;

use crate::ast::CDeclarationSpecifier;
use crate::ast::CDeclaration;
use crate::ast::CDeclarator;
use crate::ast::CDerivedDeclarator;
use crate::ast::CParameterDeclaration;
use crate::ast::CSpecifierQualifier;
use crate::ast::CStructField;
use crate::ast::CStructType;
use crate::ast::CTypeSpecifier;
use crate::checker::lemma_scope_of_from;
use crate::diagnostics::Diagnostic;
use crate::strings::first_segment;
use crate::checker::spec_scope_of;
use crate::checker::BorrowChecker;
use crate::strings::has_char;
use crate::variable::Id;
use crate::variable::IdView;
use crate::variable::Variable;
use crate::variable::VariableView;
use crate::tables::layout_has;
use crate::tables::StructLayout;
use crate::variable::IdSet;
use crate::variable::VarType;
use crate::variable::VarTypeView;

verus! {

/// Whether the declarator's first derived part makes it a pointer.
pub open spec fn is_pointer_declarator(d: &CDeclarator) -> bool {
    d.derived@.len() > 0 && d.derived@[0] is PointerDecl
}

/// Whether a `const` qualifier stands before the first type specifier.
pub open spec fn const_before_type_spec(specs: Seq<CDeclarationSpecifier>) -> bool
    decreases specs.len(),
{
    if specs.len() == 0 {
        false
    } else {
        match specs[0] {
            CDeclarationSpecifier::DsConst => true,
            CDeclarationSpecifier::DsTypeSpecifier(_) => false,
            _ => const_before_type_spec(specs.drop_first()),
        }
    }
}

/// The struct name the first type specifier names, when it names a struct
/// or a typedef with a recorded layout; empty otherwise.
pub open spec fn pointer_struct_name(
    specs: Seq<CDeclarationSpecifier>,
    structs: Seq<StructLayout>,
) -> Seq<char>
    decreases specs.len(),
{
    if specs.len() == 0 {
        Seq::empty()
    } else {
        match specs[0] {
            CDeclarationSpecifier::DsTypeSpecifier(ts) => match ts {
                CTypeSpecifier::StructType(st) => match st.identifier {
                    Option::Some(id) => id.name@,
                    Option::None => Seq::empty(),
                },
                CTypeSpecifier::TypedefName(n) => if layout_has(structs, n.name@) {
                    n.name@
                } else {
                    Seq::empty()
                },
                CTypeSpecifier::OtherType => Seq::empty(),
            },
            _ => pointer_struct_name(specs.drop_first(), structs),
        }
    }
}

/// The owner-or-copy decision for a non-pointer declaration: scan the
/// specifiers in order, a named struct or a typedef with a recorded layout
/// makes the value an owner, and an anonymous struct definition stops the
/// scan.
pub open spec fn owner_scan(
    specs: Seq<CDeclarationSpecifier>,
    structs: Seq<StructLayout>,
    acc: VarTypeView,
) -> VarTypeView
    decreases specs.len(),
{
    if specs.len() == 0 {
        acc
    } else {
        match specs[0] {
            CDeclarationSpecifier::DsTypeSpecifier(ts) => match ts {
                CTypeSpecifier::StructType(st) => match st.identifier {
                    Option::Some(id) => owner_scan(
                        specs.drop_first(),
                        structs,
                        VarTypeView::Owner { struct_name: id.name@, has_ownership: true },
                    ),
                    Option::None => acc,
                },
                CTypeSpecifier::TypedefName(n) => owner_scan(
                    specs.drop_first(),
                    structs,
                    if layout_has(structs, n.name@) {
                        VarTypeView::Owner { struct_name: n.name@, has_ownership: true }
                    } else {
                        acc
                    },
                ),
                CTypeSpecifier::OtherType => owner_scan(specs.drop_first(), structs, acc),
            },
            _ => owner_scan(specs.drop_first(), structs, acc),
        }
    }
}

/// The type a declaration gives: a reference for a pointer declarator, an
/// owner for a struct type, a copy value otherwise.
pub open spec fn spec_var_type(
    d: &CDeclarator,
    specs: Seq<CDeclarationSpecifier>,
    structs: Seq<StructLayout>,
) -> VarTypeView {
    if is_pointer_declarator(d) {
        if const_before_type_spec(specs) {
            VarTypeView::ConstRef { points_to: Set::empty() }
        } else {
            VarTypeView::MutRef { points_to: Set::empty() }
        }
    } else {
        owner_scan(specs, structs, VarTypeView::Copy)
    }
}

/// What the struct name scratch holds after typing a declaration.
pub open spec fn spec_psn_after(
    d: &CDeclarator,
    specs: Seq<CDeclarationSpecifier>,
    structs: Seq<StructLayout>,
    before: Seq<char>,
) -> Seq<char> {
    if is_pointer_declarator(d) {
        pointer_struct_name(specs, structs)
    } else {
        before
    }
}

/// The declaration specifiers a struct field's specifier-qualifiers stand
/// for: type specifiers (with any field declarations dropped) and `const`
/// qualifiers, in order.
pub open spec fn conv_specifier_seq(sqs: Seq<CSpecifierQualifier>) -> Seq<CDeclarationSpecifier>
    decreases sqs.len(),
{
    if sqs.len() == 0 {
        Seq::empty()
    } else {
        conv_specifier_seq(sqs.drop_last()) + (match sqs.last() {
            CSpecifierQualifier::SqTypeSpecifier(ts) => seq![
                CDeclarationSpecifier::DsTypeSpecifier(strip_type_specifier(&ts)),
            ],
            CSpecifierQualifier::SqConst => seq![CDeclarationSpecifier::DsConst],
            CSpecifierQualifier::SqOther => Seq::empty(),
        })
    }
}

/// The same type specifier with an inner struct definition's field list
/// dropped; only the names matter for typing.
pub open spec fn strip_type_specifier(ts: &CTypeSpecifier) -> CTypeSpecifier {
    match ts {
        CTypeSpecifier::StructType(st) => CTypeSpecifier::StructType(
            CStructType { identifier: st.identifier, declarations: Option::None },
        ),
        CTypeSpecifier::TypedefName(n) => CTypeSpecifier::TypedefName(*n),
        CTypeSpecifier::OtherType => CTypeSpecifier::OtherType,
    }
}

/// The parameter types a prototype's parameter declarations give, for the
/// parameters that have declarators.
pub open spec fn spec_param_types(
    pds: Seq<CParameterDeclaration>,
    structs: Seq<StructLayout>,
) -> Seq<VarTypeView>
    decreases pds.len(),
{
    if pds.len() == 0 {
        Seq::empty()
    } else {
        spec_param_types(pds.drop_last(), structs) + (match pds.last().declarator {
            Option::Some(d) => seq![spec_var_type(&d, pds.last().specifiers@, structs)],
            Option::None => Seq::empty(),
        })
    }
}

impl BorrowChecker {
    /// Decides the type a declaration gives its variable, and remembers the
    /// struct name a pointer declaration names for later placeholder typing.
    pub fn get_var_type(
        &mut self,
        declarator: &CDeclarator,
        specifiers: &Vec<CDeclarationSpecifier>,
    ) -> (r: VarType)
        requires
            old(self).env_wf(),
        ensures
            final(self).env_wf(),
            r@ == spec_var_type(declarator, specifiers@, old(self).structs.entries@),
            r.wf(),
            final(self).previous_struct_name@ == spec_psn_after(
                declarator,
                specifiers@,
                old(self).structs.entries@,
                old(self).previous_struct_name@,
            ),
            final(self).scopes == old(self).scopes,
            final(self).structs == old(self).structs,
            final(self).functions == old(self).functions,
            final(self).diagnostics == old(self).diagnostics,
            Self::same_config(*old(self), *final(self)),
            final(self).mute_member_expression == old(self).mute_member_expression,
            final(self).member_count == old(self).member_count,
            final(self).member_identifier_pieces == old(self).member_identifier_pieces,
            final(self).member_identifier == old(self).member_identifier,
            final(self).function_body == old(self).function_body,
            final(self).dereference_name == old(self).dereference_name,
    {
        let is_pointer = declarator.derived.len() > 0 && (match &declarator.derived[0] {
            CDerivedDeclarator::PointerDecl => true,
            _ => false,
        });
        proof {
            assert(is_pointer == is_pointer_declarator(declarator));
        }
        let n = specifiers.len();
        if is_pointer {
            self.previous_struct_name = String::new();
            let mut i: usize = 0;
            let mut constant = false;
            proof {
                assert(specifiers@.skip(0) =~= specifiers@);
            }
            while i < n
                invariant
                    old(self).env_wf(),
                    self.env_wf(),
                    is_pointer_declarator(declarator),
                    n == specifiers@.len(),
                    i <= n,
                    self.structs == old(self).structs,
                    const_before_type_spec(specifiers@) == (constant || const_before_type_spec(
                        specifiers@.skip(i as int),
                    )),
                    pointer_struct_name(specifiers@, self.structs.entries@) == pointer_struct_name(
                        specifiers@.skip(i as int),
                        self.structs.entries@,
                    ),
                    self.previous_struct_name@ == Seq::<char>::empty(),
                    self.scopes == old(self).scopes,
                    self.functions == old(self).functions,
                    self.diagnostics == old(self).diagnostics,
                    Self::same_config(*old(self), *self),
                    self.mute_member_expression == old(self).mute_member_expression,
                    self.member_count == old(self).member_count,
                    self.member_identifier_pieces == old(self).member_identifier_pieces,
                    self.member_identifier == old(self).member_identifier,
                    self.function_body == old(self).function_body,
                    self.dereference_name == old(self).dereference_name,
                decreases n - i,
            {
                proof {
                    assert(specifiers@.skip(i as int)[0] == specifiers@[i as int]);
                    assert(specifiers@.skip(i as int).drop_first() =~= specifiers@.skip(
                        i as int + 1,
                    ));
                }
                match &specifiers[i] {
                    CDeclarationSpecifier::DsConst => {
                        constant = true;
                    },
                    CDeclarationSpecifier::DsTypeSpecifier(ts) => {
                        match ts {
                            CTypeSpecifier::StructType(st) => {
                                match &st.identifier {
                                    Option::Some(id) => {
                                        self.previous_struct_name = id.name.clone();
                                    },
                                    Option::None => {},
                                }
                            },
                            CTypeSpecifier::TypedefName(td) => {
                                if self.structs.contains(td.name.as_str()) {
                                    self.previous_struct_name = td.name.clone();
                                }
                            },
                            CTypeSpecifier::OtherType => {},
                        }
                        return self.finish_pointer_type(constant);
                    },
                    _ => {},
                }
                i = i + 1;
            }
            proof {
                assert(specifiers@.skip(n as int) =~= Seq::<CDeclarationSpecifier>::empty());
            }
            self.finish_pointer_type(constant)
        } else {
            let mut i: usize = 0;
            let mut r = VarType::Copy;
            proof {
                assert(specifiers@.skip(0) =~= specifiers@);
            }
            while i < n
                invariant
                    old(self).env_wf(),
                    self.env_wf(),
                    !is_pointer_declarator(declarator),
                    n == specifiers@.len(),
                    i <= n,
                    r.wf(),
                    *self == *old(self),
                    owner_scan(specifiers@, self.structs.entries@, VarTypeView::Copy) == owner_scan(
                        specifiers@.skip(i as int),
                        self.structs.entries@,
                        r@,
                    ),
                decreases n - i,
            {
                proof {
                    assert(specifiers@.skip(i as int)[0] == specifiers@[i as int]);
                    assert(specifiers@.skip(i as int).drop_first() =~= specifiers@.skip(
                        i as int + 1,
                    ));
                }
                match &specifiers[i] {
                    CDeclarationSpecifier::DsTypeSpecifier(ts) => {
                        match ts {
                            CTypeSpecifier::StructType(st) => {
                                match &st.identifier {
                                    Option::Some(id) => {
                                        r = VarType::Owner(id.name.clone(), true);
                                    },
                                    Option::None => {
                                        return r;
                                    },
                                }
                            },
                            CTypeSpecifier::TypedefName(td) => {
                                if self.structs.contains(td.name.as_str()) {
                                    r = VarType::Owner(td.name.clone(), true);
                                }
                            },
                            CTypeSpecifier::OtherType => {},
                        }
                    },
                    _ => {},
                }
                i = i + 1;
            }
            proof {
                assert(specifiers@.skip(n as int) =~= Seq::<CDeclarationSpecifier>::empty());
            }
            r
        }
    }

    /// The reference type a pointer declaration ends in.
    fn finish_pointer_type(&mut self, constant: bool) -> (r: VarType)
        ensures
            *final(self) == *old(self),
            r@ == (if constant {
                VarTypeView::ConstRef { points_to: Set::empty() }
            } else {
                VarTypeView::MutRef { points_to: Set::empty() }
            }),
            r.wf(),
    {
        if constant {
            VarType::ConstRef(IdSet::new())
        } else {
            VarType::MutRef(IdSet::new())
        }
    }

    /// Rewrites a struct field's specifier-qualifiers as declaration
    /// specifiers, so field declarations can be typed like ordinary ones.
    pub fn struct_specifier_to_declaration_specifier(
        &self,
        specifiers: &Vec<CSpecifierQualifier>,
    ) -> (r: Vec<CDeclarationSpecifier>)
        ensures
            r@ == conv_specifier_seq(specifiers@),
    {
        let n = specifiers.len();
        let mut r: Vec<CDeclarationSpecifier> = Vec::new();
        let mut i: usize = 0;
        proof {
            assert(specifiers@.take(0) =~= Seq::<CSpecifierQualifier>::empty());
        }
        while i < n
            invariant
                n == specifiers@.len(),
                i <= n,
                r@ == conv_specifier_seq(specifiers@.take(i as int)),
            decreases n - i,
        {
            proof {
                assert(specifiers@.take(i as int + 1).drop_last() =~= specifiers@.take(i as int));
                assert(specifiers@.take(i as int + 1).last() == specifiers@[i as int]);
            }
            match &specifiers[i] {
                CSpecifierQualifier::SqTypeSpecifier(ts) => {
                    let stripped = match ts {
                        CTypeSpecifier::StructType(st) => CTypeSpecifier::StructType(
                            CStructType {
                                identifier: match &st.identifier {
                                    Option::Some(id) => Option::Some(id.clone()),
                                    Option::None => Option::None,
                                },
                                declarations: Option::None,
                            },
                        ),
                        CTypeSpecifier::TypedefName(td) => CTypeSpecifier::TypedefName(td.clone()),
                        CTypeSpecifier::OtherType => CTypeSpecifier::OtherType,
                    };
                    proof {
                        assert(stripped == strip_type_specifier(ts));
                    }
                    r.push(CDeclarationSpecifier::DsTypeSpecifier(stripped));
                },
                CSpecifierQualifier::SqConst => {
                    r.push(CDeclarationSpecifier::DsConst);
                },
                CSpecifierQualifier::SqOther => {},
            }
            i = i + 1;
        }
        proof {
            assert(specifiers@.take(n as int) =~= specifiers@);
        }
        r
    }

    /// Records a function prototype: its name mapped to its declared
    /// parameter types, for call-site borrow decisions.
    pub fn add_function(
        &mut self,
        declarator: &CDeclarator,
        parameter_declarations: &Vec<CParameterDeclaration>,
    ) -> (added: bool)
        requires
            old(self).env_wf(),
        ensures
            final(self).env_wf(),
            final(self).scopes == old(self).scopes,
            final(self).structs == old(self).structs,
            final(self).diagnostics == old(self).diagnostics,
            Self::same_config(*old(self), *final(self)),
            final(self).function_body == old(self).function_body,
            match declarator.kind {
                crate::ast::CDeclaratorKind::DeclIdentifier(id) => {
                    &&& added
                    &&& forall|k: Seq<char>|
                        #![auto]
                        crate::tables::sig_has(final(self).functions.entries@, k) <==> (
                        crate::tables::sig_has(old(self).functions.entries@, k) || k == id.name@)
                    &&& forall|k: Seq<char>|
                        #![auto]
                        crate::tables::sig_has(final(self).functions.entries@, k)
                            ==> crate::tables::sig_params(final(self).functions.entries@, k) == (
                        if k == id.name@ {
                            spec_param_types(parameter_declarations@, old(self).structs.entries@)
                        } else {
                            crate::tables::sig_params(old(self).functions.entries@, k)
                        })
                },
                crate::ast::CDeclaratorKind::DeclOther => !added && *final(self) == *old(self),
            },
    {
        let name = match &declarator.kind {
            crate::ast::CDeclaratorKind::DeclIdentifier(id) => id.name.clone(),
            crate::ast::CDeclaratorKind::DeclOther => {
                return false;
            },
        };
        let n = parameter_declarations.len();
        let mut params: Vec<VarType> = Vec::new();
        let mut i: usize = 0;
        proof {
            assert(parameter_declarations@.take(0) =~= Seq::<CParameterDeclaration>::empty());
            assert(params@.map_values(|t2: VarType| t2@) =~= Seq::<VarTypeView>::empty());
        }
        while i < n
            invariant
                old(self).env_wf(),
                self.env_wf(),
                n == parameter_declarations@.len(),
                i <= n,
                params@.map_values(|t: VarType| t@) == spec_param_types(
                    parameter_declarations@.take(i as int),
                    old(self).structs.entries@,
                ),
                forall|j: int| 0 <= j < params@.len() ==> (#[trigger] params@[j]).wf(),
                self.scopes == old(self).scopes,
                self.structs == old(self).structs,
                self.functions == old(self).functions,
                self.diagnostics == old(self).diagnostics,
                Self::same_config(*old(self), *self),
                self.function_body == old(self).function_body,
            decreases n - i,
        {
            proof {
                assert(parameter_declarations@.take(i as int + 1).drop_last()
                    =~= parameter_declarations@.take(i as int));
                assert(parameter_declarations@.take(i as int + 1).last()
                    == parameter_declarations@[i as int]);
            }
            match &parameter_declarations[i].declarator {
                Option::Some(d) => {
                    let t = self.get_var_type(d, &parameter_declarations[i].specifiers);
                    let ghost pre = params@;
                    let ghost tv = t@;
                    params.push(t);
                    proof {
                        assert(params@.map_values(|t2: VarType| t2@) =~= pre.map_values(
                            |t2: VarType| t2@,
                        ).push(tv));
                    }
                },
                Option::None => {},
            }
            i = i + 1;
        }
        proof {
            assert(parameter_declarations@.take(n as int) =~= parameter_declarations@);
        }
        let sig = crate::tables::FunctionSig { name, params };
        self.functions.put(sig);
        true
    }
}

/// The placeholder a pointer is made to reference when what it really points
/// to is unknown: a fresh global named `?name`, an owner of the remembered
/// struct type when there is one, a copy value otherwise.
pub open spec fn fresh_placeholder(un: Seq<char>, psn: Seq<char>) -> VariableView {
    VariableView {
        id: IdView { name: un, scope: 0 },
        var_type: if psn.len() > 0 {
            VarTypeView::Owner { struct_name: psn, has_ownership: true }
        } else {
            VarTypeView::Copy
        },
        const_refs: Set::empty(),
        mut_refs: Set::empty(),
    }
}

/// The environment after wiring a reference at `(k, name)` to its unknown
/// placeholder: the placeholder is stored in the global frame, the reference
/// points at it, and the placeholder records the reference back.
#[verifier::opaque]
pub open spec fn placeholder_env(
    pre: Seq<Map<Seq<char>, VariableView>>,
    k: int,
    name: Seq<char>,
    psn: Seq<char>,
) -> Seq<Map<Seq<char>, VariableView>> {
    let un = seq!['?'] + name;
    let nv = pre[k][name];
    let env1 = pre.update(0, pre[0].insert(un, fresh_placeholder(un, psn)));
    let uscope = spec_scope_of(env1, un);
    let uid = IdView { name: un, scope: uscope as nat };
    let nv2 = VariableView {
        id: nv.id,
        var_type: match nv.var_type {
            VarTypeView::ConstRef { points_to } => VarTypeView::ConstRef {
                points_to: points_to.insert(uid),
            },
            VarTypeView::MutRef { points_to } => VarTypeView::MutRef {
                points_to: points_to.insert(uid),
            },
            other => other,
        },
        const_refs: nv.const_refs,
        mut_refs: nv.mut_refs,
    };
    let env2 = env1.update(k, env1[k].insert(name, nv2));
    if env2[uscope].contains_key(un) {
        let uv = env2[uscope][un];
        let uv2 = VariableView {
            id: uv.id,
            var_type: uv.var_type,
            const_refs: if nv2.var_type is ConstRef {
                uv.const_refs.insert(nv.id)
            } else {
                uv.const_refs
            },
            mut_refs: if nv2.var_type is MutRef {
                uv.mut_refs.insert(nv.id)
            } else {
                uv.mut_refs
            },
        };
        env2.update(uscope, env2[uscope].insert(un, uv2))
    } else {
        env2
    }
}

/// Whether declaring `name` with type `vt` synthesizes a placeholder: the
/// name enters as a function parameter or as a struct member, and it is a
/// reference.
pub open spec fn placeholder_guard(
    name: Seq<char>,
    vt: VarTypeView,
    function_parameter: bool,
) -> bool {
    (function_parameter || has_char(name, '.')) && (vt is ConstRef || vt is MutRef)
}


/// Composes the three single-variable updates of placeholder wiring into
/// the one environment `placeholder_env` describes.
#[verifier::rlimit(100)]
pub proof fn lemma_placeholder_compose(
    pre: Seq<Map<Seq<char>, VariableView>>,
    k: int,
    name: Seq<char>,
    psn: Seq<char>,
    env1: Seq<Map<Seq<char>, VariableView>>,
    uscope: int,
    nv2v: VariableView,
    env2: Seq<Map<Seq<char>, VariableView>>,
    uv2v: VariableView,
    env3: Seq<Map<Seq<char>, VariableView>>,
)
    requires
        env1 == pre.update(0, pre[0].insert(seq!['?'] + name, fresh_placeholder(seq!['?'] + name, psn))),
        uscope == spec_scope_of(env1, seq!['?'] + name),
        nv2v == (VariableView {
            id: pre[k][name].id,
            var_type: match pre[k][name].var_type {
                VarTypeView::ConstRef { points_to } => VarTypeView::ConstRef {
                    points_to: points_to.insert(
                        IdView { name: seq!['?'] + name, scope: uscope as nat },
                    ),
                },
                VarTypeView::MutRef { points_to } => VarTypeView::MutRef {
                    points_to: points_to.insert(
                        IdView { name: seq!['?'] + name, scope: uscope as nat },
                    ),
                },
                other => other,
            },
            const_refs: pre[k][name].const_refs,
            mut_refs: pre[k][name].mut_refs,
        }),
        env2 == env1.update(k, env1[k].insert(name, nv2v)),
        env2[uscope].contains_key(seq!['?'] + name) ==> uv2v == (VariableView {
            id: env2[uscope][seq!['?'] + name].id,
            var_type: env2[uscope][seq!['?'] + name].var_type,
            const_refs: if nv2v.var_type is ConstRef {
                env2[uscope][seq!['?'] + name].const_refs.insert(pre[k][name].id)
            } else {
                env2[uscope][seq!['?'] + name].const_refs
            },
            mut_refs: if nv2v.var_type is MutRef {
                env2[uscope][seq!['?'] + name].mut_refs.insert(pre[k][name].id)
            } else {
                env2[uscope][seq!['?'] + name].mut_refs
            },
        }),
        env3 == (if env2[uscope].contains_key(seq!['?'] + name) {
            env2.update(uscope, env2[uscope].insert(seq!['?'] + name, uv2v))
        } else {
            env2
        }),
    ensures
        env3 == placeholder_env(pre, k, name, psn),
{
    reveal(placeholder_env);
}

impl BorrowChecker {
    /// Synthesizes the `?name` placeholder for a pointer whose real pointee
    /// is unknown, and wires the reference and the placeholder together.
    pub fn declare_unknown_global(
        &mut self,
        name: &str,
        var_type: VarType,
        function_parameter: bool,
    )
        requires
            old(self).env_wf(),
        ensures
            final(self).env_wf(),
            final(self).scopes@.len() == old(self).scopes@.len(),
            final(self).structs == old(self).structs,
            final(self).functions == old(self).functions,
            final(self).diagnostics == old(self).diagnostics,
            Self::same_config(*old(self), *final(self)),
            Self::same_scratch(*old(self), *final(self)),
            !placeholder_guard(name@, var_type@, function_parameter) ==> *final(self) == *old(self),
            placeholder_guard(name@, var_type@, function_parameter) ==> ({
                let k = spec_scope_of(old(self).env(), name@);
                if old(self).env()[k].contains_key(name@) {
                    final(self).env() == placeholder_env(
                        old(self).env(),
                        k,
                        name@,
                        old(self).previous_struct_name@,
                    )
                } else {
                    *final(self) == *old(self)
                }
            }),
    {
        let guard = (function_parameter || crate::strings::contains_dot(name))
            && var_type.is_reference();
        if !guard {
            return ;
        }
        let k = self.get_scope_number(name);
        let nv = match self.scopes[k].get(name) {
            Option::Some(v) => v.clone(),
            Option::None => {
                return ;
            },
        };
        proof {
            assert(self.env()[k as int] == self.scopes@[k as int]@);
        }
        self.apply_placeholder(name, k, nv);
    }

    /// Stores the fresh `?name` placeholder and records the two edges
    /// between it and the reference at `(k, name)`.
    fn apply_placeholder(&mut self, name: &str, k: usize, nv: Variable)
        requires
            old(self).env_wf(),
            k < old(self).scopes@.len(),
            k as int == spec_scope_of(old(self).env(), name@),
            old(self).env()[k as int].contains_key(name@),
            nv@ == old(self).env()[k as int][name@],
            nv.id.scope == k,
            nv.id.name@ == name@,
            nv.wf(),
        ensures
            final(self).env_wf(),
            final(self).scopes@.len() == old(self).scopes@.len(),
            final(self).structs == old(self).structs,
            final(self).functions == old(self).functions,
            final(self).diagnostics == old(self).diagnostics,
            Self::same_config(*old(self), *final(self)),
            Self::same_scratch(*old(self), *final(self)),
            final(self).env() == placeholder_env(
                old(self).env(),
                k as int,
                name@,
                old(self).previous_struct_name@,
            ),
    {
        let ghost pre = self.env();
        let unknown_name = crate::strings::concat_str("?", name);
        proof {
            reveal_strlit("?");
            assert(unknown_name@ =~= seq!['?'] + name@);
            assert(unknown_name@.len() == name@.len() + 1);
        }
        let unknown_id = self.store_placeholder(&unknown_name);
        self.wire_reference(name, k, nv, unknown_id, Ghost(pre));
    }

    /// Stores the fresh placeholder variable in the global frame and
    /// resolves its id.
    fn store_placeholder(&mut self, unknown_name: &String) -> (uid: Id)
        requires
            old(self).env_wf(),
        ensures
            final(self).env_wf(),
            final(self).scopes@.len() == old(self).scopes@.len(),
            final(self).structs == old(self).structs,
            final(self).functions == old(self).functions,
            final(self).diagnostics == old(self).diagnostics,
            Self::same_config(*old(self), *final(self)),
            Self::same_scratch(*old(self), *final(self)),
            final(self).env() == old(self).env().update(
                0,
                old(self).env()[0].insert(
                    unknown_name@,
                    fresh_placeholder(unknown_name@, old(self).previous_struct_name@),
                ),
            ),
            uid.name@ == unknown_name@,
            uid.scope as int == spec_scope_of(final(self).env(), unknown_name@),
            uid.scope < final(self).scopes@.len(),
    {
        let psn_is_empty = self.previous_struct_name.as_str().is_empty();
        let uvt = if !psn_is_empty {
            VarType::Owner(self.previous_struct_name.clone(), true)
        } else {
            VarType::Copy
        };
        let uvar = Variable::new(unknown_name.clone(), 0, uvt);
        proof {
            assert(uvar@ == fresh_placeholder(unknown_name@, old(self).previous_struct_name@));
        }
        self.put_var(uvar);
        let uid = self.get_id(unknown_name.as_str());
        uid
    }

    /// Records the two edges between the reference at `(k, name)` and its
    /// freshly stored placeholder.
    fn wire_reference(
        &mut self,
        name: &str,
        k: usize,
        nv: Variable,
        unknown_id: Id,
        Ghost(pre): Ghost<Seq<Map<Seq<char>, VariableView>>>,
    )
        requires
            old(self).env_wf(),
            k < old(self).scopes@.len(),
            pre.len() == old(self).scopes@.len(),
            (k as int) < pre.len(),
            pre[k as int].contains_key(name@),
            nv@ == pre[k as int][name@],
            nv.id.scope == k,
            nv.id.name@ == name@,
            nv.wf(),
            unknown_id.name@ == seq!['?'] + name@,
            old(self).env() == pre.update(
                0,
                pre[0].insert(
                    seq!['?'] + name@,
                    fresh_placeholder(seq!['?'] + name@, old(self).previous_struct_name@),
                ),
            ),
            unknown_id.scope as int == spec_scope_of(old(self).env(), seq!['?'] + name@),
            unknown_id.scope < old(self).scopes@.len(),
        ensures
            final(self).env_wf(),
            final(self).scopes@.len() == old(self).scopes@.len(),
            final(self).structs == old(self).structs,
            final(self).functions == old(self).functions,
            final(self).diagnostics == old(self).diagnostics,
            Self::same_config(*old(self), *final(self)),
            Self::same_scratch(*old(self), *final(self)),
            final(self).env() == placeholder_env(
                pre,
                k as int,
                name@,
                old(self).previous_struct_name@,
            ),
    {
        let ghost env1 = self.env();
        let ghost uscope = unknown_id.scope as int;
        let ghost un = seq!['?'] + name@;
        let ghost nvv = nv@;
        let Variable { id: nv_id, var_type: vt0, const_refs: nv_cr, mut_refs: nv_mr } = nv;
        let new_vt = match vt0 {
            VarType::ConstRef(s) => {
                let mut s2 = s;
                s2.insert(unknown_id.clone());
                VarType::ConstRef(s2)
            },
            VarType::MutRef(s) => {
                let mut s2 = s;
                s2.insert(unknown_id.clone());
                VarType::MutRef(s2)
            },
            other => other,
        };
        let nv2 = Variable { id: nv_id, var_type: new_vt, const_refs: nv_cr, mut_refs: nv_mr };
        let ghost nv2v = nv2@;
        let new_id = nv2.id.clone();
        let is_const = match &nv2.var_type {
            VarType::ConstRef(_) => true,
            _ => false,
        };
        let is_mut = match &nv2.var_type {
            VarType::MutRef(_) => true,
            _ => false,
        };
        self.put_var(nv2);
        let ghost env2 = self.env();
        proof {
            assert(un != name@) by {
                assert(un.len() == name@.len() + 1);
            }
        }
        let uv = match self.id_to_var(&unknown_id) {
            Option::Some(v) => Option::Some(v.clone()),
            Option::None => Option::None,
        };
        match uv {
            Option::Some(uv0) => {
                let mut uv2 = uv0;
                if is_const {
                    uv2.const_refs.insert(new_id);
                } else if is_mut {
                    uv2.mut_refs.insert(new_id);
                }
                self.put_var(uv2);
                proof {
                    let psn0 = old(self).previous_struct_name@;
                    assert(unknown_id@ == (IdView { name: un, scope: uscope as nat }));
                    assert(nvv == pre[k as int][name@]);
                    lemma_placeholder_compose(
                        pre,
                        k as int,
                        name@,
                        psn0,
                        env1,
                        uscope,
                        nv2v,
                        env2,
                        uv2@,
                        self.env(),
                    );
                }
            },
            Option::None => {
                proof {
                    let psn0 = old(self).previous_struct_name@;
                    assert(unknown_id@ == (IdView { name: un, scope: uscope as nat }));
                    assert(nvv == pre[k as int][name@]);
                    assert(!env2[uscope].contains_key(un));
                    lemma_placeholder_compose(
                        pre,
                        k as int,
                        name@,
                        psn0,
                        env1,
                        uscope,
                        nv2v,
                        env2,
                        nv2v,
                        self.env(),
                    );
                }
            },
        }
    }

}
/// The environment after declaring `name` with type `vt` in the innermost
/// frame, placeholder wiring included.
pub open spec fn spec_declared_env(
    pre: Seq<Map<Seq<char>, VariableView>>,
    name: Seq<char>,
    vt: VarTypeView,
    psn: Seq<char>,
    function_parameter: bool,
) -> Seq<Map<Seq<char>, VariableView>> {
    let top = pre.len() - 1;
    let fresh = VariableView {
        id: IdView { name, scope: top as nat },
        var_type: vt,
        const_refs: Set::empty(),
        mut_refs: Set::empty(),
    };
    let mid = pre.update(top, pre[top].insert(name, fresh));
    if placeholder_guard(name, vt, function_parameter) && mid[spec_scope_of(
        mid,
        name,
    )].contains_key(name) {
        placeholder_env(mid, spec_scope_of(mid, name), name, psn)
    } else {
        mid
    }
}

/// The member-type lookup leaves the parent present at its resolved scope.
pub proof fn lemma_member_decided_parent(
    pre: Seq<Map<Seq<char>, VariableView>>,
    pre_structs: Seq<StructLayout>,
    pre_diags: Seq<Diagnostic>,
    mid0: Seq<Map<Seq<char>, VariableView>>,
    mid0_diags: Seq<Diagnostic>,
    name: Seq<char>,
    vt: VarTypeView,
)
    requires
        has_char(name, '.'),
        member_type_decided(pre, pre_structs, pre_diags, mid0, mid0_diags, name, vt),
    ensures
        mid0[spec_scope_of(pre, crate::strings::parent_path(name))].contains_key(
            crate::strings::parent_path(name),
        ),
{
    reveal(member_type_decided);
}

/// A failed lookup of an undotted name creates a fresh copy value; this
/// meets `created_variable_post`.
#[verifier::rlimit(60)]
pub proof fn lemma_creation_outcome_undotted(
    pre: Seq<Map<Seq<char>, VariableView>>,
    pre_structs: Seq<StructLayout>,
    pre_diags: Seq<Diagnostic>,
    post: Seq<Map<Seq<char>, VariableView>>,
    post_diags: Seq<Diagnostic>,
    name: Seq<char>,
    k: int,
    rv: VariableView,
)
    requires
        pre.len() >= 1,
        0 <= k < pre.len(),
        k == spec_scope_of(pre, name),
        !has_char(name, '.'),
        post == pre.update(
            k,
            pre[k].insert(
                name,
                VariableView {
                    id: IdView { name, scope: k as nat },
                    var_type: VarTypeView::Copy,
                    const_refs: Set::empty(),
                    mut_refs: Set::empty(),
                },
            ),
        ),
        post_diags.len() == pre_diags.len() + 1,
        post_diags.last() matches Diagnostic::UnresolvedMember { name: nm } && nm@ == name,
        rv == post[k][name],
    ensures
        created_variable_post(pre, pre_structs, pre_diags, post, post_diags, name, rv),
{
    reveal(created_variable_post);
}

/// The stable facts of a member-path creation: the parent's entry survives
/// the insertion and the placeholder wiring, and the created variable keeps
/// its fresh shape (with the placeholder as its one pointee when it is a
/// reference).
#[verifier::rlimit(100)]
pub proof fn lemma_dotted_creation_stability(
    pre: Seq<Map<Seq<char>, VariableView>>,
    mid0: Seq<Map<Seq<char>, VariableView>>,
    mid: Seq<Map<Seq<char>, VariableView>>,
    post: Seq<Map<Seq<char>, VariableView>>,
    name: Seq<char>,
    k: int,
    vt: VarTypeView,
    psn0: Seq<char>,
    rv: VariableView,
)
    requires
        pre.len() >= 1,
        0 <= k < pre.len(),
        mid0.len() == pre.len(),
        mid.len() == pre.len(),
        post.len() == pre.len(),
        has_char(name, '.'),
        0 <= spec_scope_of(pre, crate::strings::parent_path(name)) < pre.len(),
        mid0[spec_scope_of(pre, crate::strings::parent_path(name))].contains_key(
            crate::strings::parent_path(name),
        ),
        mid == mid0.update(
            k,
            mid0[k].insert(
                name,
                VariableView {
                    id: IdView { name, scope: k as nat },
                    var_type: vt,
                    const_refs: Set::empty(),
                    mut_refs: Set::empty(),
                },
            ),
        ),
        placeholder_guard(name, vt, false) ==> post == placeholder_env(mid, k, name, psn0),
        !placeholder_guard(name, vt, false) ==> post == mid,
        post[k].contains_key(name),
        rv == post[k][name],
    ensures
        ({
            let parent = crate::strings::parent_path(name);
            let pk = spec_scope_of(pre, parent);
            &&& post[pk].contains_key(parent)
            &&& post[pk][parent] == mid0[pk][parent]
        }),
        rv.const_refs == Set::<IdView>::empty(),
        rv.mut_refs == Set::<IdView>::empty(),
        (vt is ConstRef || vt is MutRef) && has_char(name, '.') ==> ({
            &&& post[0].contains_key(seq!['?'] + name)
            &&& (match vt {
                VarTypeView::ConstRef { points_to: p0 } => rv.var_type matches
                    VarTypeView::ConstRef { points_to } && (exists|u: IdView|
                    u.name == seq!['?'] + name && points_to == p0.insert(u)),
                VarTypeView::MutRef { points_to: p0 } => rv.var_type matches VarTypeView::MutRef {
                    points_to,
                } && (exists|u: IdView|
                    u.name == seq!['?'] + name && points_to == p0.insert(u)),
                _ => true,
            })
        }),
        !(vt is ConstRef || vt is MutRef) ==> rv.var_type == vt,
{
    crate::strings::lemma_parent_shorter(name);
    let parent = crate::strings::parent_path(name);
    let pk = spec_scope_of(pre, parent);
    let fresh = VariableView {
        id: IdView { name, scope: k as nat },
        var_type: vt,
        const_refs: Set::empty(),
        mut_refs: Set::empty(),
    };
    assert(mid[k][name] == fresh);
    assert(parent != name);
    assert(mid[pk].contains_key(parent) && mid[pk][parent] == mid0[pk][parent]);
    if placeholder_guard(name, vt, false) {
        lemma_placeholder_env_parts(mid, k, name, psn0);
        assert(parent != seq!['?'] + name) by {
            assert((seq!['?'] + name).len() == name.len() + 1);
        }
        assert(placeholder_env(mid, k, name, psn0)[pk].contains_key(parent) == mid[
            pk
        ].contains_key(parent));
        assert(post[pk].contains_key(parent) && post[pk][parent] == mid[pk][parent]);
        assert(post[0].contains_key(seq!['?'] + name));
        let u = choose|u: IdView|
            u.name == seq!['?'] + name && placeholder_env(mid, k, name, psn0)[k][name]
                == (VariableView {
                id: mid[k][name].id,
                var_type: match mid[k][name].var_type {
                    VarTypeView::ConstRef { points_to } => VarTypeView::ConstRef {
                        points_to: points_to.insert(u),
                    },
                    VarTypeView::MutRef { points_to } => VarTypeView::MutRef {
                        points_to: points_to.insert(u),
                    },
                    other => other,
                },
                const_refs: mid[k][name].const_refs,
                mut_refs: mid[k][name].mut_refs,
            });
        match vt {
            VarTypeView::ConstRef { points_to } => {
                assert(rv.var_type == (VarTypeView::ConstRef {
                    points_to: points_to.insert(u),
                }));
            },
            VarTypeView::MutRef { points_to } => {
                assert(rv.var_type == (VarTypeView::MutRef {
                    points_to: points_to.insert(u),
                }));
            },
            _ => {},
        }
    } else {
        assert(post == mid);
        assert(rv == fresh);
    }
}

/// Assembles the stable facts of a member-path creation into
/// `created_variable_post`.
#[verifier::rlimit(100)]
pub proof fn lemma_creation_outcome_dotted(
    pre: Seq<Map<Seq<char>, VariableView>>,
    pre_structs: Seq<StructLayout>,
    pre_diags: Seq<Diagnostic>,
    mid0: Seq<Map<Seq<char>, VariableView>>,
    mid0_diags: Seq<Diagnostic>,
    post: Seq<Map<Seq<char>, VariableView>>,
    post_diags: Seq<Diagnostic>,
    name: Seq<char>,
    vt: VarTypeView,
    rv: VariableView,
)
    requires
        has_char(name, '.'),
        member_type_decided(pre, pre_structs, pre_diags, mid0, mid0_diags, name, vt),
        post_diags == mid0_diags,
        ({
            let parent = crate::strings::parent_path(name);
            let pk = spec_scope_of(pre, parent);
            &&& post[pk].contains_key(parent)
            &&& post[pk][parent] == mid0[pk][parent]
        }),
        rv.const_refs == Set::<IdView>::empty(),
        rv.mut_refs == Set::<IdView>::empty(),
        (vt is ConstRef || vt is MutRef) ==> ({
            &&& post[0].contains_key(seq!['?'] + name)
            &&& (match vt {
                VarTypeView::ConstRef { points_to: p0 } => rv.var_type matches
                    VarTypeView::ConstRef { points_to } && (exists|u: IdView|
                    u.name == seq!['?'] + name && points_to == p0.insert(u)),
                VarTypeView::MutRef { points_to: p0 } => rv.var_type matches VarTypeView::MutRef {
                    points_to,
                } && (exists|u: IdView|
                    u.name == seq!['?'] + name && points_to == p0.insert(u)),
                _ => true,
            })
        }),
        !(vt is ConstRef || vt is MutRef) ==> rv.var_type == vt,
    ensures
        created_variable_post(pre, pre_structs, pre_diags, post, post_diags, name, rv),
{
    reveal(created_variable_post);
    reveal(member_type_decided);
}

/// What creating a never-declared variable leaves behind.  An undotted name
/// becomes a fresh copy value in the global frame with an unresolved-name
/// report; a member path takes the parent's field type, and a reference-
/// typed member is wired to a fresh `?name` placeholder in the global frame.
#[verifier::opaque]
pub open spec fn created_variable_post(
    pre_env: Seq<Map<Seq<char>, VariableView>>,
    pre_structs: Seq<StructLayout>,
    pre_diags: Seq<Diagnostic>,
    post_env: Seq<Map<Seq<char>, VariableView>>,
    post_diags: Seq<Diagnostic>,
    name: Seq<char>,
    rv: VariableView,
) -> bool {
    let k = spec_scope_of(pre_env, name);
    &&& rv.const_refs == Set::<IdView>::empty()
    &&& rv.mut_refs == Set::<IdView>::empty()
    &&& (!has_char(name, '.') ==> ({
        &&& post_env == pre_env.update(
            k,
            pre_env[k].insert(
                name,
                VariableView {
                    id: IdView { name, scope: k as nat },
                    var_type: VarTypeView::Copy,
                    const_refs: Set::empty(),
                    mut_refs: Set::empty(),
                },
            ),
        )
        &&& post_diags.len() == pre_diags.len() + 1
        &&& (post_diags.last() matches Diagnostic::UnresolvedMember { name: nm } && nm@ == name)
    }))
    &&& (has_char(name, '.') ==> ({
        let parent = crate::strings::parent_path(name);
        let field = crate::strings::last_segment(name);
        let pk = spec_scope_of(pre_env, parent);
        &&& post_env[pk].contains_key(parent)
        &&& (match post_env[pk][parent].var_type {
            VarTypeView::Owner { struct_name: sn, .. } => {
                if layout_has(pre_structs, sn) && crate::tables::field_has(
                    crate::tables::layout_fields(pre_structs, sn),
                    field,
                ) {
                    match crate::tables::field_type(
                        crate::tables::layout_fields(pre_structs, sn),
                        field,
                    ) {
                        VarTypeView::ConstRef { points_to: fp } => {
                            &&& (rv.var_type matches VarTypeView::ConstRef { points_to }
                                && (exists|u: IdView|
                                u.name == seq!['?'] + name && points_to == fp.insert(u)))
                            &&& post_env[0].contains_key(seq!['?'] + name)
                        },
                        VarTypeView::MutRef { points_to: fp } => {
                            &&& (rv.var_type matches VarTypeView::MutRef { points_to }
                                && (exists|u: IdView|
                                u.name == seq!['?'] + name && points_to == fp.insert(u)))
                            &&& post_env[0].contains_key(seq!['?'] + name)
                        },
                        other => rv.var_type == other,
                    }
                } else {
                    rv.var_type == VarTypeView::Copy
                }
            },
            _ => rv.var_type == VarTypeView::Copy,
        })
    }))
}

/// What the member-type lookup decides, as a relation between the states
/// before and after it: for a dotted name whose parent ends up an owner of
/// a recorded struct, the result is the parent's field type; every other
/// case falls back to a copy value with the matching report.
#[verifier::opaque]
pub open spec fn member_type_decided(
    pre_env: Seq<Map<Seq<char>, VariableView>>,
    pre_structs: Seq<StructLayout>,
    pre_diags: Seq<Diagnostic>,
    post_env: Seq<Map<Seq<char>, VariableView>>,
    post_diags: Seq<Diagnostic>,
    name: Seq<char>,
    r: VarTypeView,
) -> bool {
    has_char(name, '.') ==> ({
        let parent = crate::strings::parent_path(name);
        let field = crate::strings::last_segment(name);
        let pk = spec_scope_of(pre_env, parent);
        &&& post_env[pk].contains_key(parent)
        &&& (match post_env[pk][parent].var_type {
            VarTypeView::Owner { struct_name: sn, .. } => {
                if layout_has(pre_structs, sn) {
                    if crate::tables::field_has(
                        crate::tables::layout_fields(pre_structs, sn),
                        field,
                    ) {
                        r == crate::tables::field_type(
                            crate::tables::layout_fields(pre_structs, sn),
                            field,
                        )
                    } else {
                        r == VarTypeView::Copy && (post_diags.last() matches
                            Diagnostic::UnknownField { name: nm } && nm@ == name)
                            && post_diags.len() > pre_diags.len()
                    }
                } else {
                    r == VarTypeView::Copy && (post_diags.last() matches
                        Diagnostic::UnknownStructType { name: nm } && nm@ == sn)
                        && post_diags.len() > pre_diags.len()
                }
            },
            _ => r == VarTypeView::Copy && (post_diags.last() matches Diagnostic::NotAnOwner {
                name: nm,
            } && nm@ == parent) && post_diags.len() > pre_diags.len(),
        })
    })
}

impl BorrowChecker {
    /// The variable a name resolves to, created at its scope when it was
    /// never declared: member paths draw their type from the parent's
    /// struct layout, anything else falls back to a copy value with a
    /// report.
    #[verifier::rlimit(100)]
    #[verifier::spinoff_prover]
    pub fn name_to_var(&mut self, name: &str) -> (r: Variable)
        requires
            old(self).env_wf(),
        ensures
            final(self).env_wf(),
            final(self).scopes@.len() == old(self).scopes@.len(),
            final(self).structs == old(self).structs,
            final(self).functions == old(self).functions,
            Self::same_config(*old(self), *final(self)),
            Self::same_scratch(*old(self), *final(self)),
            Self::diags_extended(*old(self), *final(self)),
            r.wf(),
            r.id.name@ == name@,
            r.id.scope as int == spec_scope_of(old(self).env(), name@),
            r.id.scope < final(self).scopes@.len(),
            final(self).env()[r.id.scope as int].contains_key(name@),
            final(self).env()[r.id.scope as int][name@] == r@,
            old(self).env()[spec_scope_of(old(self).env(), name@)].contains_key(name@)
                ==> *final(self) == *old(self),
            !old(self).env()[spec_scope_of(old(self).env(), name@)].contains_key(name@)
                ==> created_variable_post(
                old(self).env(),
                old(self).structs.entries@,
                old(self).diagnostics@,
                final(self).env(),
                final(self).diagnostics@,
                name@,
                r@,
            ),
            forall|i: int, kk: Seq<char>|
                #![trigger old(self).env()[i].contains_key(kk), final(self).env()[i].contains_key(kk)]
                0 <= i < old(self).env().len() && old(self).env()[i].contains_key(kk)
                    ==> final(self).env()[i].contains_key(kk),
            forall|i: int, kk: Seq<char>|
                #![trigger final(self).env()[i].contains_key(kk), old(self).env()[i].contains_key(kk)]
                1 <= i < final(self).env().len() && final(self).env()[i].contains_key(kk)
                    && !old(self).env()[i].contains_key(kk) ==> has_char(kk, '.'),
        decreases name@.len(), 1nat,
    {
        let count = self.get_scope_number(name);
        let present = self.scopes[count].contains_name(name);
        proof {
            assert(self.env()[count as int] == self.scopes@[count as int]@);
        }
        if present {
            let r = match self.scopes[count].get(name) {
                Option::Some(v) => v.clone(),
                Option::None => {
                    proof {
                        assert(false);
                    }
                    vstd::pervasive::unreached()
                },
            };
            proof {
                let i = crate::scope::index_of_name(self.scopes@[count as int].vars@, name@);
                assert(self.scopes@[count as int].vars@[i].id.scope == count);
            }
            return r;
        }
        let ghost pre = self.env();
        let vt = self.get_member_var_type(name);
        let vtc = vt.clone();
        let ghost mid0 = self.env();
        let ghost mid0_diags = self.diagnostics@;
        let var = Variable::new(name.to_owned(), count, vt);
        self.put_var(var);
        let ghost mid = self.env();
        proof {
            if count > 0 {
                lemma_scope_of_from(pre, first_segment(name@), pre.len() - 1);
                assert(has_char(name@, '.')) by {
                    if !has_char(name@, '.') {
                        assert(first_segment(name@) == name@);
                        assert(pre[count as int].contains_key(name@));
                    }
                }
            }
            crate::checker::lemma_scope_of_stable(pre, mid0, name@);
            crate::checker::lemma_scope_of_stable(mid0, mid, name@);
            assert(spec_scope_of(mid, name@) == count as int);
            assert(mid[count as int].contains_key(name@));
        }
        let ghost psn0 = self.previous_struct_name@;
        self.declare_unknown_global(name, vtc, false);
        proof {
            if placeholder_guard(name@, vtc@, false) {
                lemma_placeholder_env_parts(mid, count as int, name@, psn0);
                assert(self.env() == placeholder_env(mid, count as int, name@, psn0));
            } else {
                assert(self.env() == mid);
            }
            assert(self.env()[count as int].contains_key(name@));
            assert forall|i: int, kk: Seq<char>|
                #![trigger pre[i].contains_key(kk), self.env()[i].contains_key(kk)]
                0 <= i < pre.len() && pre[i].contains_key(kk) implies self.env()[i].contains_key(
                kk,
            ) by {
                assert(mid0[i].contains_key(kk));
                assert(mid[i].contains_key(kk));
            }
            assert forall|i: int, kk: Seq<char>|
                #![trigger self.env()[i].contains_key(kk), pre[i].contains_key(kk)]
                1 <= i < self.env().len() && self.env()[i].contains_key(kk)
                    && !pre[i].contains_key(kk) implies has_char(kk, '.') by {
                if mid[i].contains_key(kk) {
                    if mid0[i].contains_key(kk) {
                        assert(has_char(kk, '.'));
                    } else {
                        assert(kk == name@ && i == count as int);
                        assert(has_char(kk, '.'));
                    }
                } else {
                    assert(false);
                }
            }
        }
        let r = match self.scopes[count].get(name) {
            Option::Some(v) => v.clone(),
            Option::None => {
                proof {
                    assert(false);
                }
                vstd::pervasive::unreached()
            },
        };
        proof {
            let i = crate::scope::index_of_name(self.scopes@[count as int].vars@, name@);
            assert(self.scopes@[count as int].vars@[i].id.scope == count);
            assert(self.env()[count as int] == self.scopes@[count as int]@);
        }
        proof {
            assert(vtc@ == vt@);
            if !has_char(name@, '.') {
                assert(mid0 == pre);
                assert(vt@ == VarTypeView::Copy);
                assert(!placeholder_guard(name@, vtc@, false));
                assert(self.env() == mid);
                lemma_creation_outcome_undotted(
                    pre,
                    old(self).structs.entries@,
                    old(self).diagnostics@,
                    self.env(),
                    self.diagnostics@,
                    name@,
                    count as int,
                    r@,
                );
            } else {
                crate::strings::lemma_parent_shorter(name@);
                crate::checker::lemma_scope_of_from(
                    pre,
                    first_segment(crate::strings::parent_path(name@)),
                    pre.len() - 1,
                );
                lemma_member_decided_parent(
                    pre,
                    old(self).structs.entries@,
                    old(self).diagnostics@,
                    mid0,
                    mid0_diags,
                    name@,
                    vt@,
                );
                lemma_dotted_creation_stability(
                    pre,
                    mid0,
                    mid,
                    self.env(),
                    name@,
                    count as int,
                    vt@,
                    psn0,
                    r@,
                );
                lemma_creation_outcome_dotted(
                    pre,
                    old(self).structs.entries@,
                    old(self).diagnostics@,
                    mid0,
                    mid0_diags,
                    self.env(),
                    self.diagnostics@,
                    name@,
                    vt@,
                    r@,
                );
            }
        }
        r
    }

    /// The type of a struct member that was never declared itself, drawn
    /// from the parent's struct layout; falls back to a copy value with a
    /// report when the parent is no owner or the layout is unknown.
    pub fn get_member_var_type(&mut self, name: &str) -> (r: VarType)
        requires
            old(self).env_wf(),
        ensures
            final(self).env_wf(),
            final(self).scopes@.len() == old(self).scopes@.len(),
            final(self).structs == old(self).structs,
            final(self).functions == old(self).functions,
            Self::same_config(*old(self), *final(self)),
            Self::same_scratch(*old(self), *final(self)),
            Self::diags_extended(*old(self), *final(self)),
            r.wf(),
            !has_char(name@, '.') ==> final(self).scopes == old(self).scopes && r@
                == VarTypeView::Copy && final(self).diagnostics@.len()
                == old(self).diagnostics@.len() + 1 && (final(self).diagnostics@.last() matches
                Diagnostic::UnresolvedMember { name: nm } && nm@ == name@),
            member_type_decided(
                old(self).env(),
                old(self).structs.entries@,
                old(self).diagnostics@,
                final(self).env(),
                final(self).diagnostics@,
                name@,
                r@,
            ),
            forall|i: int, kk: Seq<char>|
                #![trigger old(self).env()[i].contains_key(kk), final(self).env()[i].contains_key(kk)]
                0 <= i < old(self).env().len() && old(self).env()[i].contains_key(kk)
                    ==> final(self).env()[i].contains_key(kk),
            forall|i: int, kk: Seq<char>|
                #![trigger final(self).env()[i].contains_key(kk), old(self).env()[i].contains_key(kk)]
                1 <= i < final(self).env().len() && final(self).env()[i].contains_key(kk)
                    && !old(self).env()[i].contains_key(kk) ==> has_char(kk, '.'),
        decreases name@.len(), 0nat,
    {
        proof {
            reveal(member_type_decided);
        }
        let split = crate::strings::split_last_segment(name);
        let (parent, field) = match split {
            Option::Some(pair) => pair,
            Option::None => {
                self.diagnostics.push(
                    Diagnostic::UnresolvedMember { name: name.to_owned() },
                );
                return VarType::Copy;
            },
        };
        let ghost pre = *old(self);
        let pv = self.name_to_var(parent.as_str());
        proof {
            let pk = spec_scope_of(pre.env(), parent@);
            assert(pv.id.scope as int == pk);
            assert(self.env()[pk].contains_key(parent@));
            assert(self.env()[pk][parent@] == pv@);
        }
        let parent_struct: Option<String> = match &pv.var_type {
            VarType::Owner(sn, _) => Option::Some(sn.clone()),
            _ => Option::None,
        };
        match parent_struct {
            Option::Some(sn) => {
                let looked: (bool, Option<VarType>) = match self.structs.get(sn.as_str()) {
                    Option::Some(layout) => {
                        match layout.field_ty(field.as_str()) {
                            Option::Some(t) => (true, Option::Some(t.clone())),
                            Option::None => (true, Option::None),
                        }
                    },
                    Option::None => (false, Option::None),
                };
                match looked {
                    (true, Option::Some(t)) => t,
                    (true, Option::None) => {
                        self.diagnostics.push(
                            Diagnostic::UnknownField { name: name.to_owned() },
                        );
                        VarType::Copy
                    },
                    (false, _) => {
                        self.diagnostics.push(
                            Diagnostic::UnknownStructType { name: sn },
                        );
                        VarType::Copy
                    },
                }
            },
            Option::None => {
                self.diagnostics.push(Diagnostic::NotAnOwner { name: parent });
                VarType::Copy
            },
        }
    }

    /// Declares the variable a declarator names in the innermost frame,
    /// typed from the specifiers, with placeholder wiring for parameter
    /// and member pointers.
    pub fn declare_variable(
        &mut self,
        declarator: &CDeclarator,
        specifiers: &Vec<CDeclarationSpecifier>,
        function_parameter: bool,
    )
        requires
            old(self).env_wf(),
        ensures
            final(self).env_wf(),
            final(self).scopes@.len() == old(self).scopes@.len(),
            final(self).structs == old(self).structs,
            final(self).functions == old(self).functions,
            final(self).diagnostics == old(self).diagnostics,
            Self::same_config(*old(self), *final(self)),
            final(self).function_body == old(self).function_body,
            final(self).mute_member_expression == old(self).mute_member_expression,
            final(self).member_count == old(self).member_count,
            final(self).member_identifier_pieces == old(self).member_identifier_pieces,
            final(self).member_identifier == old(self).member_identifier,
            final(self).dereference_name == old(self).dereference_name,
            match declarator.kind {
                crate::ast::CDeclaratorKind::DeclIdentifier(id) => final(self).env()
                    == spec_declared_env(
                    old(self).env(),
                    id.name@,
                    spec_var_type(declarator, specifiers@, old(self).structs.entries@),
                    spec_psn_after(
                        declarator,
                        specifiers@,
                        old(self).structs.entries@,
                        old(self).previous_struct_name@,
                    ),
                    function_parameter,
                ),
                crate::ast::CDeclaratorKind::DeclOther => *final(self) == *old(self),
            },
    {
        let name = match &declarator.kind {
            crate::ast::CDeclaratorKind::DeclIdentifier(id) => id.name.clone(),
            crate::ast::CDeclaratorKind::DeclOther => {
                return ;
            },
        };
        let vt = self.get_var_type(declarator, specifiers);
        let vtc = vt.clone();
        let scope = self.scopes.len() - 1;
        let var = Variable::new(name.clone(), scope, vt);
        self.put_var(var);
        self.declare_unknown_global(name.as_str(), vtc, function_parameter);
    }
}

/// Placeholder wiring keeps every frame's names, keeps the stack's length,
/// and adds names only in the global frame.
pub proof fn lemma_placeholder_env_parts(
    pre: Seq<Map<Seq<char>, VariableView>>,
    k: int,
    name: Seq<char>,
    psn: Seq<char>,
)
    requires
        0 <= k < pre.len(),
        pre[k].contains_key(name),
    ensures
        placeholder_env(pre, k, name, psn).len() == pre.len(),
        forall|j: int, kk: Seq<char>|
            #![trigger pre[j].contains_key(kk), placeholder_env(pre, k, name, psn)[j].contains_key(kk)]
            0 <= j < pre.len() && pre[j].contains_key(kk) ==> placeholder_env(
                pre,
                k,
                name,
                psn,
            )[j].contains_key(kk),
        forall|j: int, kk: Seq<char>|
            #![trigger placeholder_env(pre, k, name, psn)[j].contains_key(kk), pre[j].contains_key(kk)]
            1 <= j < pre.len() && placeholder_env(pre, k, name, psn)[j].contains_key(kk)
                ==> pre[j].contains_key(kk),
        placeholder_env(pre, k, name, psn)[k].contains_key(name),
        placeholder_env(pre, k, name, psn)[0].contains_key(seq!['?'] + name),
        forall|j: int, kk: Seq<char>|
            #![trigger placeholder_env(pre, k, name, psn)[j].contains_key(kk)]
            0 <= j < pre.len() && kk != name && kk != seq!['?'] + name ==> (placeholder_env(
                pre,
                k,
                name,
                psn,
            )[j].contains_key(kk) == pre[j].contains_key(kk)) && (pre[j].contains_key(kk)
                ==> placeholder_env(pre, k, name, psn)[j][kk] == pre[j][kk]),
        exists|u: IdView|
            u.name == seq!['?'] + name && placeholder_env(pre, k, name, psn)[k][name]
                == (VariableView {
                id: pre[k][name].id,
                var_type: match pre[k][name].var_type {
                    VarTypeView::ConstRef { points_to } => VarTypeView::ConstRef {
                        points_to: points_to.insert(u),
                    },
                    VarTypeView::MutRef { points_to } => VarTypeView::MutRef {
                        points_to: points_to.insert(u),
                    },
                    other => other,
                },
                const_refs: pre[k][name].const_refs,
                mut_refs: pre[k][name].mut_refs,
            }),
{
    reveal(placeholder_env);
    let un = seq!['?'] + name;
    let env1 = pre.update(0, pre[0].insert(un, fresh_placeholder(un, psn)));
    let uscope = spec_scope_of(env1, un);
    lemma_scope_of_from(env1, first_segment(un), env1.len() - 1);
    assert(un != name) by {
        assert(un.len() == name.len() + 1);
    }
    let uid = IdView { name: un, scope: uscope as nat };
    let nv2 = placeholder_env(pre, k, name, psn)[k][name];
    assert(uid.name == un);
}

/// The field map the first `l` declarators of one struct field declaration
/// contribute: each identifier declarator maps its name to the type the
/// declaration-typing rules give it.
pub open spec fn field_decl_types(
    field: CStructField,
    l: int,
    structs: Seq<StructLayout>,
    acc: Map<Seq<char>, VarTypeView>,
) -> Map<Seq<char>, VarTypeView>
    decreases l,
{
    if l <= 0 {
        acc
    } else {
        let m = field_decl_types(field, l - 1, structs, acc);
        match field.declarators[l - 1].declarator {
            Option::Some(fd) => match fd.kind {
                crate::ast::CDeclaratorKind::DeclIdentifier(id) => m.insert(
                    id.name@,
                    spec_var_type(&fd, conv_specifier_seq(field.specifiers@), structs),
                ),
                _ => m,
            },
            Option::None => m,
        }
    }
}

/// The field map the first `j` field declarations of a struct definition
/// contribute.
pub open spec fn struct_field_types(
    decls: Seq<CStructField>,
    j: int,
    structs: Seq<StructLayout>,
    acc: Map<Seq<char>, VarTypeView>,
) -> Map<Seq<char>, VarTypeView>
    decreases j,
{
    if j <= 0 {
        acc
    } else {
        field_decl_types(
            decls[j - 1],
            decls[j - 1].declarators@.len() as int,
            structs,
            struct_field_types(decls, j - 1, structs, acc),
        )
    }
}

/// The field map the first `i` specifiers of a declaration contribute:
/// every struct specifier's field list feeds it in order.
pub open spec fn declaration_field_types(
    specifiers: Seq<CDeclarationSpecifier>,
    i: int,
    structs: Seq<StructLayout>,
    acc: Map<Seq<char>, VarTypeView>,
) -> Map<Seq<char>, VarTypeView>
    decreases i,
{
    if i <= 0 {
        acc
    } else {
        let m = declaration_field_types(specifiers, i - 1, structs, acc);
        match specifiers[i - 1] {
            CDeclarationSpecifier::DsTypeSpecifier(ts) => match ts {
                CTypeSpecifier::StructType(st) => match st.declarations {
                    Option::Some(decls) => struct_field_types(
                        decls@,
                        decls@.len() as int,
                        structs,
                        m,
                    ),
                    Option::None => m,
                },
                _ => m,
            },
            _ => m,
        }
    }
}

/// Folding one field declaration onto an accumulator reads as the fold
/// from nothing overlaid on the accumulator.
pub proof fn lemma_field_decl_types_acc(
    field: CStructField,
    l: int,
    structs: Seq<StructLayout>,
    acc: Map<Seq<char>, VarTypeView>,
)
    requires
        0 <= l,
    ensures
        forall|f: Seq<char>|
            #![auto]
            field_decl_types(field, l, structs, acc).contains_key(f) <==> (acc.contains_key(f)
                || field_decl_types(field, l, structs, Map::empty()).contains_key(f)),
        forall|f: Seq<char>|
            #![auto]
            field_decl_types(field, l, structs, acc).contains_key(f) ==> field_decl_types(
                field,
                l,
                structs,
                acc,
            )[f] == (if field_decl_types(field, l, structs, Map::empty()).contains_key(f) {
                field_decl_types(field, l, structs, Map::empty())[f]
            } else {
                acc[f]
            }),
    decreases l,
{
    if l > 0 {
        lemma_field_decl_types_acc(field, l - 1, structs, acc);
        let ma = field_decl_types(field, l - 1, structs, acc);
        let me = field_decl_types(field, l - 1, structs, Map::empty());
        assert forall|f: Seq<char>|
            #![auto]
            field_decl_types(field, l, structs, acc).contains_key(f) <==> (acc.contains_key(f)
                || field_decl_types(field, l, structs, Map::empty()).contains_key(f)) by {
            match field.declarators[l - 1].declarator {
                Option::Some(fd) => match fd.kind {
                    crate::ast::CDeclaratorKind::DeclIdentifier(id) => {
                        assert(field_decl_types(field, l, structs, acc) == ma.insert(
                            id.name@,
                            spec_var_type(
                                &fd,
                                conv_specifier_seq(field.specifiers@),
                                structs,
                            ),
                        ));
                    },
                    _ => {},
                },
                Option::None => {},
            }
        }
        assert forall|f: Seq<char>|
            #![auto]
            field_decl_types(field, l, structs, acc).contains_key(f) implies field_decl_types(
            field,
            l,
            structs,
            acc,
        )[f] == (if field_decl_types(field, l, structs, Map::empty()).contains_key(f) {
            field_decl_types(field, l, structs, Map::empty())[f]
        } else {
            acc[f]
        }) by {
            match field.declarators[l - 1].declarator {
                Option::Some(fd) => match fd.kind {
                    crate::ast::CDeclaratorKind::DeclIdentifier(id) => {
                        if f == id.name@ {
                        } else {
                            assert(field_decl_types(field, l, structs, acc)[f] == ma[f]);
                            assert(field_decl_types(field, l, structs, Map::empty()).contains_key(
                                f,
                            ) == me.contains_key(f));
                        }
                    },
                    _ => {},
                },
                Option::None => {},
            }
        }
    }
}

/// Folding a field list onto an accumulator reads as the fold from nothing
/// overlaid on the accumulator.
pub proof fn lemma_struct_field_types_acc(
    decls: Seq<CStructField>,
    j: int,
    structs: Seq<StructLayout>,
    acc: Map<Seq<char>, VarTypeView>,
)
    requires
        0 <= j,
    ensures
        forall|f: Seq<char>|
            #![auto]
            struct_field_types(decls, j, structs, acc).contains_key(f) <==> (acc.contains_key(f)
                || struct_field_types(decls, j, structs, Map::empty()).contains_key(f)),
        forall|f: Seq<char>|
            #![auto]
            struct_field_types(decls, j, structs, acc).contains_key(f) ==> struct_field_types(
                decls,
                j,
                structs,
                acc,
            )[f] == (if struct_field_types(decls, j, structs, Map::empty()).contains_key(f) {
                struct_field_types(decls, j, structs, Map::empty())[f]
            } else {
                acc[f]
            }),
    decreases j,
{
    if j > 0 {
        lemma_struct_field_types_acc(decls, j - 1, structs, acc);
        let ll = decls[j - 1].declarators@.len() as int;
        let sa = struct_field_types(decls, j - 1, structs, acc);
        let se = struct_field_types(decls, j - 1, structs, Map::empty());
        lemma_field_decl_types_acc(decls[j - 1], ll, structs, sa);
        lemma_field_decl_types_acc(decls[j - 1], ll, structs, se);
        let fe = field_decl_types(decls[j - 1], ll, structs, Map::empty());
        assert forall|f: Seq<char>|
            #![auto]
            struct_field_types(decls, j, structs, acc).contains_key(f) <==> (acc.contains_key(f)
                || struct_field_types(decls, j, structs, Map::empty()).contains_key(f)) by {
            assert(struct_field_types(decls, j, structs, acc) == field_decl_types(
                decls[j - 1],
                ll,
                structs,
                sa,
            ));
            assert(struct_field_types(decls, j, structs, Map::empty()) == field_decl_types(
                decls[j - 1],
                ll,
                structs,
                se,
            ));
        }
        assert forall|f: Seq<char>|
            #![auto]
            struct_field_types(decls, j, structs, acc).contains_key(f) implies struct_field_types(
            decls,
            j,
            structs,
            acc,
        )[f] == (if struct_field_types(decls, j, structs, Map::empty()).contains_key(f) {
            struct_field_types(decls, j, structs, Map::empty())[f]
        } else {
            acc[f]
        }) by {
            assert(struct_field_types(decls, j, structs, acc) == field_decl_types(
                decls[j - 1],
                ll,
                structs,
                sa,
            ));
            assert(struct_field_types(decls, j, structs, Map::empty()) == field_decl_types(
                decls[j - 1],
                ll,
                structs,
                se,
            ));
        }
    }
}

/// Whether one of the first `j` collected names reads as `k`.
pub open spec fn declared_name_among(names: Seq<String>, j: int, k: Seq<char>) -> bool
    decreases j,
{
    j > 0 && (names[j - 1]@ == k || declared_name_among(names, j - 1, k))
}

/// A name found at any index below `n` is among the first `n`.
pub proof fn lemma_declared_name_among(names: Seq<String>, n: int, j: int, k: Seq<char>)
    requires
        0 <= j < n,
        names[j]@ == k,
    ensures
        declared_name_among(names, n, k),
    decreases n,
{
    if j < n - 1 {
        lemma_declared_name_among(names, n - 1, j, k);
    }
}

/// Field vectors equal name-for-name and type-for-type look up alike.
pub proof fn lemma_fields_alike(a: Seq<crate::tables::FieldDecl>, b: Seq<crate::tables::FieldDecl>)
    requires
        a.len() == b.len(),
        forall|i: int|
            0 <= i < a.len() ==> (#[trigger] a[i]).name@ == b[i].name@ && a[i].ty@ == b[i].ty@,
        crate::tables::fields_distinct(a),
        crate::tables::fields_distinct(b),
    ensures
        forall|f: Seq<char>|
            #![auto]
            crate::tables::field_has(a, f) <==> crate::tables::field_has(b, f),
        forall|f: Seq<char>|
            #![auto]
            crate::tables::field_has(a, f) ==> crate::tables::field_type(a, f)
                == crate::tables::field_type(b, f),
{
    assert forall|f: Seq<char>| #![auto] crate::tables::field_has(a, f) <==> crate::tables::field_has(
        b,
        f,
    ) by {
        if crate::tables::field_has(a, f) {
            let i = choose|i: int| 0 <= i < a.len() && a[i].name@ == f;
            assert(b[i].name@ == f);
        }
        if crate::tables::field_has(b, f) {
            let i = choose|i: int| 0 <= i < b.len() && b[i].name@ == f;
            assert(a[i].name@ == f);
        }
    }
    assert forall|f: Seq<char>| #![auto] crate::tables::field_has(a, f) implies
        crate::tables::field_type(a, f) == crate::tables::field_type(b, f) by {
        let i = choose|i: int| 0 <= i < a.len() && a[i].name@ == f;
        crate::tables::lemma_field_index_unique(a, f, i);
        assert(b[i].name@ == f);
        crate::tables::lemma_field_index_unique(b, f, i);
    }
}

/// What a layout holds after folding a field map over it: a name the map
/// carries has the map's type, anything else keeps the layout's.
pub open spec fn layout_matches(
    fields: Seq<crate::tables::FieldDecl>,
    base: Seq<crate::tables::FieldDecl>,
    m: Map<Seq<char>, VarTypeView>,
) -> bool {
    &&& forall|f: Seq<char>|
        #![auto]
        crate::tables::field_has(fields, f) <==> (crate::tables::field_has(base, f)
            || m.contains_key(f))
    &&& forall|f: Seq<char>|
        #![auto]
        crate::tables::field_has(fields, f) ==> crate::tables::field_type(fields, f) == (
        if m.contains_key(f) {
            m[f]
        } else {
            crate::tables::field_type(base, f)
        })
}

/// Whether the declaration introduces `k` as a struct name or a typedef
/// alias of one.
pub open spec fn declares_struct_name(d: &CDeclaration, k: Seq<char>) -> bool {
    (exists|i: int| spec_names_struct(d, i, k)) || (exists|i: int| spec_names_typedef(d, i, k))
}

/// Whether specifier `i` of the declaration is a struct specifier named `k`.
pub open spec fn spec_names_struct(d: &CDeclaration, i: int, k: Seq<char>) -> bool {
    &&& 0 <= i < d.specifiers@.len()
    &&& #[trigger] d.specifiers@[i] matches CDeclarationSpecifier::DsTypeSpecifier(ts)
    &&& ts matches CTypeSpecifier::StructType(st)
    &&& st.identifier matches Option::Some(id)
    &&& id.name@ == k
}

/// Whether declarator `i` of the declaration names `k` as a typedef alias.
pub open spec fn spec_names_typedef(d: &CDeclaration, i: int, k: Seq<char>) -> bool {
    &&& 0 <= i < d.declarators@.len()
    &&& #[trigger] d.declarators@[i].declarator.kind matches
        crate::ast::CDeclaratorKind::DeclIdentifier(id)
    &&& id.name@ == k
}

/// Whether some collected name has the view `k`.
pub open spec fn names_has(ns: Seq<String>, k: Seq<char>) -> bool {
    exists|j: int| 0 <= j < ns.len() && (#[trigger] ns[j])@ == k
}

impl BorrowChecker {
    /// Records a struct definition: its field layout is stored under the
    /// struct's own name and under every typedef alias the declaration
    /// introduces, so undeclared member paths can be typed later.
    pub fn add_struct(&mut self, declaration: &CDeclaration)
        requires
            old(self).env_wf(),
        ensures
            final(self).env_wf(),
            final(self).scopes == old(self).scopes,
            final(self).functions == old(self).functions,
            final(self).diagnostics == old(self).diagnostics,
            Self::same_config(*old(self), *final(self)),
            final(self).function_body == old(self).function_body,
            forall|k: Seq<char>|
                #![auto]
                layout_has(final(self).structs.entries@, k) <==> (layout_has(
                    old(self).structs.entries@,
                    k,
                ) || declares_struct_name(declaration, k)),
            forall|k: Seq<char>|
                #![auto]
                layout_has(old(self).structs.entries@, k) && !declares_struct_name(declaration, k)
                    ==> layout_has(final(self).structs.entries@, k) && crate::tables::layout_fields(
                    final(self).structs.entries@,
                    k,
                ) == crate::tables::layout_fields(old(self).structs.entries@, k),
            forall|k: Seq<char>|
                #![auto]
                declares_struct_name(declaration, k) ==> ({
                    let m = declaration_field_types(
                        declaration.specifiers@,
                        declaration.specifiers@.len() as int,
                        old(self).structs.entries@,
                        Map::empty(),
                    );
                    let fs = crate::tables::layout_fields(final(self).structs.entries@, k);
                    &&& (forall|f: Seq<char>|
                        #![auto]
                        crate::tables::field_has(fs, f) <==> m.contains_key(f))
                    &&& (forall|f: Seq<char>|
                        #![auto]
                        crate::tables::field_has(fs, f) ==> crate::tables::field_type(fs, f)
                            == m[f])
                }),
    {
        let mut names: Vec<String> = Vec::new();
        let mut members = StructLayout { name: String::new(), fields: Vec::new() };
        let n = declaration.specifiers.len();
        let mut i: usize = 0;
        while i < n
            invariant
                old(self).env_wf(),
                self.env_wf(),
                n == declaration.specifiers@.len(),
                i <= n,
                members.wf(),
                self.scopes == old(self).scopes,
                self.structs == old(self).structs,
                self.functions == old(self).functions,
                self.diagnostics == old(self).diagnostics,
                Self::same_config(*old(self), *self),
                self.function_body == old(self).function_body,
                forall|k: Seq<char>|
                    names_has(names@, k) <==> (exists|a: int|
                        a < i && spec_names_struct(declaration, a, k)),
                layout_matches(
                    members.fields@,
                    Seq::empty(),
                    declaration_field_types(
                        declaration.specifiers@,
                        i as int,
                        old(self).structs.entries@,
                        Map::empty(),
                    ),
                ),
            decreases n - i,
        {
            let ghost pre_names = names@;
            match &declaration.specifiers[i] {
                CDeclarationSpecifier::DsTypeSpecifier(ts) => {
                    match ts {
                        CTypeSpecifier::StructType(st) => {
                            match &st.identifier {
                                Option::Some(id) => {
                                    names.push(id.name.clone());
                                    proof {
                                        assert(spec_names_struct(declaration, i as int, id.name@));
                                        assert forall|k: Seq<char>| names_has(names@, k) implies (
                                        names_has(pre_names, k) || id.name@ == k) by {
                                            let j = choose|j: int|
                                                0 <= j < names@.len() && names@[j]@ == k;
                                            if j < pre_names.len() {
                                                assert(pre_names[j]@ == k);
                                            }
                                        }
                                        assert forall|k: Seq<char>|
                                            names_has(pre_names, k) implies names_has(
                                            names@,
                                            k,
                                        ) by {
                                            let j = choose|j: int|
                                                0 <= j < pre_names.len() && pre_names[j]@ == k;
                                            assert(names@[j]@ == k);
                                        }
                                        assert(names@[pre_names.len() as int]@ == id.name@);
                                    }
                                },
                                Option::None => {
                                    proof {
                                        assert(forall|k: Seq<char>|
                                            !spec_names_struct(declaration, i as int, k));
                                    }
                                },
                            }
                            match &st.declarations {
                                Option::Some(decls) => {
                                    let ghost pre_fields = members.fields@;
                                    let ghost strs = old(self).structs.entries@;
                                    let ghost mi = declaration_field_types(
                                        declaration.specifiers@,
                                        i as int,
                                        strs,
                                        Map::empty(),
                                    );
                                    self.collect_struct_fields(decls, &mut members);
                                    proof {
                                        let m0 = struct_field_types(
                                            decls@,
                                            decls@.len() as int,
                                            strs,
                                            Map::empty(),
                                        );
                                        lemma_struct_field_types_acc(
                                            decls@,
                                            decls@.len() as int,
                                            strs,
                                            mi,
                                        );
                                        assert(declaration_field_types(
                                            declaration.specifiers@,
                                            i as int + 1,
                                            strs,
                                            Map::empty(),
                                        ) == struct_field_types(
                                            decls@,
                                            decls@.len() as int,
                                            strs,
                                            mi,
                                        ));
                                        assert forall|f: Seq<char>|
                                            #![auto]
                                            crate::tables::field_has(members.fields@, f) <==>
                                            declaration_field_types(
                                            declaration.specifiers@,
                                            i as int + 1,
                                            strs,
                                            Map::empty(),
                                        ).contains_key(f) by {}
                                        assert forall|f: Seq<char>|
                                            #![auto]
                                            crate::tables::field_has(members.fields@, f) implies
                                            crate::tables::field_type(members.fields@, f)
                                            == declaration_field_types(
                                            declaration.specifiers@,
                                            i as int + 1,
                                            strs,
                                            Map::empty(),
                                        )[f] by {}
                                    }
                                },
                                Option::None => {},
                            }
                        },
                        _ => {
                            proof {
                                assert(forall|k: Seq<char>|
                                    !spec_names_struct(declaration, i as int, k));
                            }
                        },
                    }
                },
                _ => {
                    proof {
                        assert(forall|k: Seq<char>|
                            !spec_names_struct(declaration, i as int, k));
                    }
                },
            }
            proof {
                assert forall|k: Seq<char>| names_has(names@, k) implies (exists|a: int|
                    a < i + 1 && spec_names_struct(declaration, a, k)) by {
                    if names_has(pre_names, k) {
                        let a = choose|a: int| a < i && spec_names_struct(declaration, a, k);
                        assert(a < i + 1 && spec_names_struct(declaration, a, k));
                    } else {
                        assert(spec_names_struct(declaration, i as int, k));
                    }
                }
                assert forall|k: Seq<char>|
                    (exists|a: int| a < i + 1 && spec_names_struct(declaration, a, k)) implies
                    names_has(names@, k) by {
                    let a = choose|a: int| a < i + 1 && spec_names_struct(declaration, a, k);
                    if a < i {
                        assert(names_has(pre_names, k));
                        let j = choose|j: int| 0 <= j < pre_names.len() && pre_names[j]@ == k;
                        assert(names@[j]@ == k);
                    }
                }
            }
            i = i + 1;
        }
        let dn = declaration.declarators.len();
        let mut i2: usize = 0;
        while i2 < dn
            invariant
                old(self).env_wf(),
                self.env_wf(),
                dn == declaration.declarators@.len(),
                i2 <= dn,
                members.wf(),
                self.scopes == old(self).scopes,
                self.structs == old(self).structs,
                self.functions == old(self).functions,
                self.diagnostics == old(self).diagnostics,
                Self::same_config(*old(self), *self),
                self.function_body == old(self).function_body,
                forall|k: Seq<char>|
                    names_has(names@, k) <==> ((exists|a: int|
                        spec_names_struct(declaration, a, k)) || (exists|a: int|
                        a < i2 && spec_names_typedef(declaration, a, k))),
                layout_matches(
                    members.fields@,
                    Seq::empty(),
                    declaration_field_types(
                        declaration.specifiers@,
                        declaration.specifiers@.len() as int,
                        old(self).structs.entries@,
                        Map::empty(),
                    ),
                ),
            decreases dn - i2,
        {
            let ghost pre_names = names@;
            match &declaration.declarators[i2].declarator.kind {
                crate::ast::CDeclaratorKind::DeclIdentifier(id) => {
                    names.push(id.name.clone());
                    proof {
                        assert(spec_names_typedef(declaration, i2 as int, id.name@));
                        assert forall|k: Seq<char>| names_has(names@, k) implies (names_has(
                            pre_names,
                            k,
                        ) || id.name@ == k) by {
                            let j = choose|j: int| 0 <= j < names@.len() && names@[j]@ == k;
                            if j < pre_names.len() {
                                assert(pre_names[j]@ == k);
                            }
                        }
                        assert forall|k: Seq<char>| names_has(pre_names, k) implies names_has(
                            names@,
                            k,
                        ) by {
                            let j = choose|j: int| 0 <= j < pre_names.len() && pre_names[j]@ == k;
                            assert(names@[j]@ == k);
                        }
                        assert(names@[pre_names.len() as int]@ == id.name@);
                    }
                },
                crate::ast::CDeclaratorKind::DeclOther => {
                    proof {
                        assert(forall|k: Seq<char>|
                            !spec_names_typedef(declaration, i2 as int, k));
                    }
                },
            }
            proof {
                assert forall|k: Seq<char>| names_has(names@, k) implies ((exists|a: int|
                    spec_names_struct(declaration, a, k)) || (exists|a: int|
                    a < i2 + 1 && spec_names_typedef(declaration, a, k))) by {
                    if !names_has(pre_names, k) {
                        assert(spec_names_typedef(declaration, i2 as int, k));
                    }
                }
                assert forall|k: Seq<char>|
                    ((exists|a: int| spec_names_struct(declaration, a, k)) || (exists|a: int|
                        a < i2 + 1 && spec_names_typedef(declaration, a, k))) implies names_has(
                    names@,
                    k,
                ) by {
                    if exists|a: int| a < i2 + 1 && spec_names_typedef(declaration, a, k) {
                        let a = choose|a: int|
                            a < i2 + 1 && spec_names_typedef(declaration, a, k);
                        if a < i2 {
                            assert(names_has(pre_names, k));
                        }
                    }
                    if names_has(pre_names, k) {
                        let j = choose|j: int| 0 <= j < pre_names.len() && pre_names[j]@ == k;
                        assert(names@[j]@ == k);
                    }
                }
            }
            i2 = i2 + 1;
        }
        proof {
            assert(forall|k: Seq<char>|
                names_has(names@, k) <==> declares_struct_name(declaration, k));
        }
        let m = names.len();
        let mut i3: usize = 0;
        while i3 < m
            invariant
                old(self).env_wf(),
                self.env_wf(),
                m == names@.len(),
                i3 <= m,
                members.wf(),
                self.scopes == old(self).scopes,
                self.functions == old(self).functions,
                self.diagnostics == old(self).diagnostics,
                Self::same_config(*old(self), *self),
                self.function_body == old(self).function_body,
                forall|k: Seq<char>| names_has(names@, k) <==> declares_struct_name(declaration, k),
                layout_matches(
                    members.fields@,
                    Seq::empty(),
                    declaration_field_types(
                        declaration.specifiers@,
                        declaration.specifiers@.len() as int,
                        old(self).structs.entries@,
                        Map::empty(),
                    ),
                ),
                forall|k: Seq<char>|
                    #![trigger layout_has(self.structs.entries@, k)]
                    declared_name_among(names@, i3 as int, k) ==> ({
                        let m = declaration_field_types(
                            declaration.specifiers@,
                            declaration.specifiers@.len() as int,
                            old(self).structs.entries@,
                            Map::empty(),
                        );
                        let fs = crate::tables::layout_fields(self.structs.entries@, k);
                        &&& layout_has(self.structs.entries@, k)
                        &&& (forall|f: Seq<char>|
                            #![auto]
                            crate::tables::field_has(fs, f) <==> m.contains_key(f))
                        &&& (forall|f: Seq<char>|
                            #![auto]
                            crate::tables::field_has(fs, f) ==> crate::tables::field_type(fs, f)
                                == m[f])
                    }),
                forall|k: Seq<char>|
                    #![auto]
                    layout_has(self.structs.entries@, k) <==> (layout_has(
                        old(self).structs.entries@,
                        k,
                    ) || (exists|j: int| 0 <= j < i3 && (#[trigger] names@[j])@ == k)),
                forall|k: Seq<char>|
                    #![auto]
                    layout_has(old(self).structs.entries@, k) && !names_has(names@, k)
                        ==> layout_has(self.structs.entries@, k) && crate::tables::layout_fields(
                        self.structs.entries@,
                        k,
                    ) == crate::tables::layout_fields(old(self).structs.entries@, k),
            decreases m - i3,
        {
            let mut layout = members.clone();
            layout.name = names[i3].clone();
            proof {
                assert(layout.wf());
                assert(names_has(names@, names@[i3 as int]@));
                lemma_fields_alike(layout.fields@, members.fields@);
            }
            let ghost lfields = layout.fields@;
            let ghost before_put = self.structs.entries@;
            self.structs.put(layout);
            proof {
                let m = declaration_field_types(
                    declaration.specifiers@,
                    declaration.specifiers@.len() as int,
                    old(self).structs.entries@,
                    Map::empty(),
                );
                let key = names@[i3 as int]@;
                assert(crate::tables::layout_fields(self.structs.entries@, key) == lfields);
                assert forall|k: Seq<char>|
                    #![trigger layout_has(self.structs.entries@, k)]
                    declared_name_among(names@, i3 + 1, k) implies ({
                    let fs = crate::tables::layout_fields(self.structs.entries@, k);
                    &&& layout_has(self.structs.entries@, k)
                    &&& (forall|f: Seq<char>|
                        #![auto]
                        crate::tables::field_has(fs, f) <==> m.contains_key(f))
                    &&& (forall|f: Seq<char>|
                        #![auto]
                        crate::tables::field_has(fs, f) ==> crate::tables::field_type(fs, f)
                            == m[f])
                }) by {
                    if k == key {
                        assert(crate::tables::layout_fields(self.structs.entries@, k)
                            == lfields);
                    } else {
                        let seen = layout_has(before_put, k);
                        assert(declared_name_among(names@, i3 as int, k));
                        assert(crate::tables::layout_fields(self.structs.entries@, k)
                            == crate::tables::layout_fields(before_put, k));
                    }
                }
            }
            i3 = i3 + 1;
        }
        proof {
            assert forall|k: Seq<char>|
                #![auto]
                declares_struct_name(declaration, k) implies ({
                let m = declaration_field_types(
                    declaration.specifiers@,
                    declaration.specifiers@.len() as int,
                    old(self).structs.entries@,
                    Map::empty(),
                );
                let fs = crate::tables::layout_fields(self.structs.entries@, k);
                &&& (forall|f: Seq<char>|
                    #![auto]
                    crate::tables::field_has(fs, f) <==> m.contains_key(f))
                &&& (forall|f: Seq<char>|
                    #![auto]
                    crate::tables::field_has(fs, f) ==> crate::tables::field_type(fs, f) == m[f])
            }) by {
                let seen = layout_has(self.structs.entries@, k);
                assert(names_has(names@, k));
                let j0 = choose|j0: int| 0 <= j0 < names@.len() && (#[trigger] names@[j0])@ == k;
                lemma_declared_name_among(names@, names@.len() as int, j0, k);
            }
        }
    }

    /// Collects the typed fields of one struct definition's field list into
    /// `members`: afterwards the layout holds exactly the fields the list
    /// declares, typed by the declaration rules, over what it held before.
    fn collect_struct_fields(
        &mut self,
        decls: &Vec<crate::ast::CStructField>,
        members: &mut StructLayout,
    )
        requires
            old(self).env_wf(),
            old(members).wf(),
        ensures
            final(self).env_wf(),
            final(members).wf(),
            final(members).name == old(members).name,
            final(self).scopes == old(self).scopes,
            final(self).structs == old(self).structs,
            final(self).functions == old(self).functions,
            final(self).diagnostics == old(self).diagnostics,
            Self::same_config(*old(self), *final(self)),
            final(self).function_body == old(self).function_body,
            layout_matches(
                final(members).fields@,
                old(members).fields@,
                struct_field_types(
                    decls@,
                    decls@.len() as int,
                    old(self).structs.entries@,
                    Map::empty(),
                ),
            ),
    {
        let m = decls.len();
        let mut j: usize = 0;
        while j < m
            invariant
                old(self).env_wf(),
                self.env_wf(),
                m == decls@.len(),
                j <= m,
                members.wf(),
                members.name == old(members).name,
                self.scopes == old(self).scopes,
                self.structs == old(self).structs,
                self.functions == old(self).functions,
                self.diagnostics == old(self).diagnostics,
                Self::same_config(*old(self), *self),
                self.function_body == old(self).function_body,
                layout_matches(
                    members.fields@,
                    old(members).fields@,
                    struct_field_types(
                        decls@,
                        j as int,
                        old(self).structs.entries@,
                        Map::empty(),
                    ),
                ),
            decreases m - j,
        {
            let ghost strs = old(self).structs.entries@;
            let dn = decls[j].declarators.len();
            let mut l: usize = 0;
            while l < dn
                invariant
                    old(self).env_wf(),
                    self.env_wf(),
                    m == decls@.len(),
                    j < m,
                    strs == old(self).structs.entries@,
                    dn == decls@[j as int].declarators@.len(),
                    l <= dn,
                    members.wf(),
                    members.name == old(members).name,
                    self.scopes == old(self).scopes,
                    self.structs == old(self).structs,
                    self.functions == old(self).functions,
                    self.diagnostics == old(self).diagnostics,
                    Self::same_config(*old(self), *self),
                    self.function_body == old(self).function_body,
                    layout_matches(
                        members.fields@,
                        old(members).fields@,
                        field_decl_types(
                            decls@[j as int],
                            l as int,
                            strs,
                            struct_field_types(decls@, j as int, strs, Map::empty()),
                        ),
                    ),
                decreases dn - l,
            {
                let ghost pre_fields = members.fields@;
                let ghost macc = field_decl_types(
                    decls@[j as int],
                    l as int,
                    strs,
                    struct_field_types(decls@, j as int, strs, Map::empty()),
                );
                match &decls[j].declarators[l].declarator {
                    Option::Some(fd) => {
                        let conv = self.struct_specifier_to_declaration_specifier(
                            &decls[j].specifiers,
                        );
                        let vt = self.get_var_type(fd, &conv);
                        let ghost vtv = vt@;
                        match &fd.kind {
                            crate::ast::CDeclaratorKind::DeclIdentifier(fid) => {
                                members.put_field(
                                    crate::tables::FieldDecl { name: fid.name.clone(), ty: vt },
                                );
                                proof {
                                    assert(vtv == spec_var_type(
                                        fd,
                                        conv_specifier_seq(decls@[j as int].specifiers@),
                                        strs,
                                    ));
                                    assert(field_decl_types(
                                        decls@[j as int],
                                        l as int + 1,
                                        strs,
                                        struct_field_types(decls@, j as int, strs, Map::empty()),
                                    ) == macc.insert(fid.name@, vtv));
                                    assert forall|f: Seq<char>|
                                        #![auto]
                                        crate::tables::field_has(members.fields@, f) <==> (
                                        crate::tables::field_has(old(members).fields@, f)
                                            || macc.insert(fid.name@, vtv).contains_key(f)) by {}
                                }
                            },
                            crate::ast::CDeclaratorKind::DeclOther => {
                                proof {
                                    assert(field_decl_types(
                                        decls@[j as int],
                                        l as int + 1,
                                        strs,
                                        struct_field_types(decls@, j as int, strs, Map::empty()),
                                    ) == macc);
                                }
                            },
                        }
                    },
                    Option::None => {
                        proof {
                            assert(field_decl_types(
                                decls@[j as int],
                                l as int + 1,
                                strs,
                                struct_field_types(decls@, j as int, strs, Map::empty()),
                            ) == macc);
                        }
                    },
                }
                l = l + 1;
            }
            proof {
                assert(field_decl_types(
                    decls@[j as int],
                    dn as int,
                    strs,
                    struct_field_types(decls@, j as int, strs, Map::empty()),
                ) == struct_field_types(decls@, j as int + 1, strs, Map::empty()));
            }
            j = j + 1;
        }
    }
}

} // verus!
