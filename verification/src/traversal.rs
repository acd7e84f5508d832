//! The source-order walk over a translation unit.
//!
//! The traversal dispatches to the ownership engine on reads and writes, to
//! the borrow engine on address-of, assignment and dereference expressions,
//! and to the control-flow engine at block entry and exit and at `if`.
//! Only the bodies of the functions named in the configuration are walked;
//! global declarations are still read for struct layouts and prototypes.

use vstd::prelude::*;

use crate::ast::CBinaryOp;
use crate::ast::CBlockItem;
use crate::ast::CCallExpr;
use crate::ast::CDeclaration;
use crate::ast::CDerivedDeclarator;
use crate::ast::CExpression;
use crate::ast::CExternalDeclaration;
use crate::ast::CFunctionDefinition;
use crate::ast::CIdentifier;
use crate::ast::CIfStatement;
use crate::ast::CInitDeclarator;
use crate::ast::CInitializer;
use crate::ast::CMemberExpr;
use crate::ast::CParameterDeclaration;
use crate::ast::CStatement;
use crate::ast::CTranslationUnit;
use crate::ast::CUnaryExpr;
use crate::ast::CUnaryOp;
use crate::checker::spec_scope_of;
use crate::checker::BorrowChecker;
use crate::checker::PrintType;
use crate::diagnostics::Diagnostic;
use crate::strings::str_eq;
use crate::variable::VarType;

verus! {

/// The source offset a statement carries.
pub fn statement_span(s: &CStatement) -> usize {
    match s {
        CStatement::Compound(c) => c.span,
        CStatement::If(i) => i.span,
        CStatement::Expression(e) => e.span,
        CStatement::While(w) => w.span,
        CStatement::DoWhile(d) => d.span,
        CStatement::For(f) => f.span,
        CStatement::Return(r) => r.span,
        CStatement::OtherStatement(sp) => *sp,
    }
}

/// The source offset a block item carries.
pub fn block_item_span(b: &CBlockItem) -> usize {
    match b {
        CBlockItem::Declaration(d) => d.span,
        CBlockItem::Statement(s) => statement_span(s),
    }
}

/// The borrow kind a call site picks for the argument at `i`: mutable when
/// the callee has no recorded signature, when the index runs past the
/// signature, or when the parameter there is a mutable reference; shared
/// otherwise.
pub open spec fn call_param_mutable(
    sigs: Seq<crate::tables::FunctionSig>,
    fname: Seq<char>,
    i: int,
) -> bool {
    !crate::tables::sig_has(sigs, fname) || i >= crate::tables::sig_params(sigs, fname).len()
        || crate::tables::sig_params(sigs, fname)[i] is MutRef
}

/// What passing `&x` to a call does to `x`: a mutable borrow leaves both
/// reverse-edge sets empty, a shared borrow clears only the mutable ones;
/// a variable already declared keeps its type, and keeps its shared
/// borrows under a shared pass.
pub open spec fn address_arg_borrowed(
    pre_env: Seq<Map<Seq<char>, crate::variable::VariableView>>,
    post_env: Seq<Map<Seq<char>, crate::variable::VariableView>>,
    x: Seq<char>,
    mutable: bool,
) -> bool {
    let k = spec_scope_of(pre_env, x);
    &&& post_env[k].contains_key(x)
    &&& post_env[k][x].mut_refs == Set::<crate::variable::IdView>::empty()
    &&& (mutable ==> post_env[k][x].const_refs == Set::<crate::variable::IdView>::empty())
    &&& (pre_env[k].contains_key(x) ==> {
        &&& post_env[k][x].var_type == pre_env[k][x].var_type
        &&& (!mutable ==> post_env[k][x].const_refs == pre_env[k][x].const_refs)
    })
}

/// Whether one of the strings is `s`.
fn names_contain(v: &Vec<String>, s: &str) -> (r: bool)
    ensures
        r == (exists|i: int| 0 <= i < v@.len() && (#[trigger] v@[i])@ == s@),
{
    let n = v.len();
    let mut i: usize = 0;
    while i < n
        invariant
            n == v@.len(),
            i <= n,
            forall|j: int| 0 <= j < i ==> (#[trigger] v@[j])@ != s@,
        decreases n - i,
    {
        if str_eq(v[i].as_str(), s) {
            return true;
        }
        i = i + 1;
    }
    false
}

impl BorrowChecker {
    /// Walks a whole translation unit in source order.
    pub fn visit_translation_unit(&mut self, unit: &CTranslationUnit)
        requires
            old(self).env_wf(),
        ensures
            final(self).env_wf(),
            final(self).scopes@.len() == old(self).scopes@.len(),
            Self::same_config(*old(self), *final(self)),
            Self::diags_extended(*old(self), *final(self)),
            old(self).function_body == false ==> final(self).function_body == false,
    {
        let n = unit.items.len();
        let mut i: usize = 0;
        while i < n
            invariant
                self.env_wf(),
                n == unit.items@.len(),
                i <= n,
                self.scopes@.len() == old(self).scopes@.len(),
                Self::same_config(*old(self), *self),
                Self::diags_extended(*old(self), *self),
                old(self).function_body == false ==> self.function_body == false,
            decreases n - i,
        {
            self.visit_external_declaration(&unit.items[i]);
            i = i + 1;
        }
    }

    /// Walks one top-level item: a struct definition feeds the layout
    /// table, a prototype feeds the signature table, a function definition
    /// is analyzed when requested, and other declarations declare globals.
    pub fn visit_external_declaration(&mut self, external_declaration: &CExternalDeclaration)
        requires
            old(self).env_wf(),
        ensures
            final(self).env_wf(),
            final(self).scopes@.len() == old(self).scopes@.len(),
            Self::same_config(*old(self), *final(self)),
            Self::diags_extended(*old(self), *final(self)),
            old(self).function_body == false ==> final(self).function_body == false,
    {
        match external_declaration {
            CExternalDeclaration::ExtFunction(fd) => {
                self.visit_function_definition(fd);
            },
            CExternalDeclaration::ExtDeclaration(declaration) => {
                let mut no_visit = false;
                let n = declaration.specifiers.len();
                let mut i: usize = 0;
                while i < n
                    invariant
                        self.env_wf(),
                        n == declaration.specifiers@.len(),
                        i <= n,
                        *self == *old(self),
                    decreases n - i,
                {
                    match &declaration.specifiers[i] {
                        crate::ast::CDeclarationSpecifier::DsTypeSpecifier(ts) => {
                            match ts {
                                crate::ast::CTypeSpecifier::StructType(st) => {
                                    match &st.identifier {
                                        Option::Some(sid) => {
                                            if !self.structs.contains(sid.name.as_str()) {
                                                self.add_struct(declaration);
                                                return ;
                                            }
                                        },
                                        Option::None => {},
                                    }
                                },
                                _ => {},
                            }
                        },
                        crate::ast::CDeclarationSpecifier::DsTypedef => {
                            no_visit = true;
                        },
                        _ => {},
                    }
                    i = i + 1;
                }
                let dn = declaration.declarators.len();
                let mut i2: usize = 0;
                while i2 < dn
                    invariant
                        self.env_wf(),
                        dn == declaration.declarators@.len(),
                        i2 <= dn,
                        *self == *old(self),
                    decreases dn - i2,
                {
                    let derived = &declaration.declarators[i2].declarator.derived;
                    let en = derived.len();
                    let mut i3: usize = 0;
                    while i3 < en
                        invariant
                            self.env_wf(),
                            i2 < dn,
                            dn == declaration.declarators@.len(),
                            en == declaration.declarators@[i2 as int].declarator.derived@.len(),
                            i3 <= en,
                            *self == *old(self),
                        decreases en - i3,
                    {
                        match &declaration.declarators[i2].declarator.derived[i3] {
                            CDerivedDeclarator::FunctionDecl(fdecl) => {
                                let _ = self.add_function(
                                    &declaration.declarators[i2].declarator,
                                    &fdecl.parameters,
                                );
                                return ;
                            },
                            _ => {},
                        }
                        i3 = i3 + 1;
                    }
                    i2 = i2 + 1;
                }
                if !no_visit {
                    self.visit_declaration(declaration);
                }
            },
            CExternalDeclaration::ExtOther => {},
        }
    }

    /// Walks a function definition whose name the configuration asks for:
    /// a fresh frame holds the parameters, and the body is walked inside
    /// it.
    pub fn visit_function_definition(&mut self, function_definition: &CFunctionDefinition)
        requires
            old(self).env_wf(),
        ensures
            final(self).env_wf(),
            final(self).scopes@.len() == old(self).scopes@.len(),
            Self::same_config(*old(self), *final(self)),
            Self::diags_extended(*old(self), *final(self)),
            old(self).function_body == false ==> final(self).function_body == false,
    {
        let name = match &function_definition.declarator.kind {
            crate::ast::CDeclaratorKind::DeclIdentifier(id) => id.name.clone(),
            crate::ast::CDeclaratorKind::DeclOther => {
                return ;
            },
        };
        if !names_contain(&self.functions_to_check, name.as_str()) {
            return ;
        }
        let is_compound = match &function_definition.body {
            CStatement::Compound(_) => true,
            _ => false,
        };
        if !is_compound {
            return ;
        }
        self.push_scope();
        self.function_body = true;
        let en = function_definition.declarator.derived.len();
        let mut i: usize = 0;
        while i < en
            invariant
                self.env_wf(),
                en == function_definition.declarator.derived@.len(),
                i <= en,
                self.scopes@.len() == old(self).scopes@.len() + 1,
                Self::same_config(*old(self), *self),
                Self::diags_extended(*old(self), *self),
                self.function_body == true,
            decreases en - i,
        {
            match &function_definition.declarator.derived[i] {
                CDerivedDeclarator::FunctionDecl(fdecl) => {
                    let pn = fdecl.parameters.len();
                    let mut j: usize = 0;
                    while j < pn
                        invariant
                            self.env_wf(),
                            pn == fdecl.parameters@.len(),
                            j <= pn,
                            self.scopes@.len() == old(self).scopes@.len() + 1,
                            Self::same_config(*old(self), *self),
                            Self::diags_extended(*old(self), *self),
                            self.function_body == true,
                        decreases pn - j,
                    {
                        self.visit_parameter_declaration(&fdecl.parameters[j]);
                        j = j + 1;
                    }
                },
                _ => {},
            }
            i = i + 1;
        }
        let dn = function_definition.declarations.len();
        let mut k: usize = 0;
        while k < dn
            invariant
                self.env_wf(),
                dn == function_definition.declarations@.len(),
                k <= dn,
                self.scopes@.len() == old(self).scopes@.len() + 1,
                Self::same_config(*old(self), *self),
                Self::diags_extended(*old(self), *self),
                self.function_body == true,
            decreases dn - k,
        {
            self.visit_declaration(&function_definition.declarations[k]);
            k = k + 1;
        }
        self.visit_statement(&function_definition.body);
    }

    /// Declares one function parameter in the function's own frame.
    pub fn visit_parameter_declaration(&mut self, parameter_declaration: &CParameterDeclaration)
        requires
            old(self).env_wf(),
        ensures
            final(self).env_wf(),
            final(self).scopes@.len() == old(self).scopes@.len(),
            final(self).structs == old(self).structs,
            final(self).functions == old(self).functions,
            Self::same_config(*old(self), *final(self)),
            Self::diags_extended(*old(self), *final(self)),
            final(self).function_body == old(self).function_body,
    {
        match &parameter_declaration.declarator {
            Option::Some(d) => {
                self.declare_variable(d, &parameter_declaration.specifiers, true);
            },
            Option::None => {},
        }
    }

    /// Walks one statement.  A compound statement opens a frame (unless it
    /// is a requested function's body, whose frame already holds the
    /// parameters), walks its items, merges the result with the state at
    /// entry, and closes the frame.
    pub fn visit_statement(&mut self, statement: &CStatement)
        requires
            old(self).env_wf(),
        ensures
            final(self).env_wf(),
            final(self).scopes@.len() == (if statement is Compound && old(self).function_body
                && old(self).scopes@.len() >= 2 {
                (old(self).scopes@.len() - 1) as nat
            } else {
                old(self).scopes@.len()
            }),
            final(self).structs == old(self).structs,
            final(self).functions == old(self).functions,
            Self::same_config(*old(self), *final(self)),
            Self::diags_extended(*old(self), *final(self)),
            final(self).function_body == false,
        decreases statement, 1nat,
    {
        let pushed = !self.function_body && (match statement {
            CStatement::Compound(_) => true,
            _ => false,
        });
        if pushed {
            self.push_scope();
        }
        self.function_body = false;
        let before_scope = self.snapshot_scopes();
        match statement {
            CStatement::Compound(c) => {
                let n = c.items.len();
                let mut i: usize = 0;
                while i < n
                    invariant
                        self.env_wf(),
                        *statement == CStatement::Compound(*c),
                        n == c.items@.len(),
                        i <= n,
                        self.function_body == false,
                        self.scopes@.len() == before_scope@.len(),
                        self.structs == old(self).structs,
                        self.functions == old(self).functions,
                        Self::same_config(*old(self), *self),
                        Self::diags_extended(*old(self), *self),
                        forall|a: int| 0 <= a < before_scope@.len() ==> (#[trigger] before_scope@[a]).wf(),
                        forall|a: int, b: int|
                            0 <= a < before_scope@.len()
                                && 0 <= b < (#[trigger] before_scope@[a]).vars@.len()
                                ==> (#[trigger] before_scope@[a].vars@[b]).id.scope == a,
                    decreases n - i,
                {
                    proof {
                        assert(decreases_to!(*statement => statement->Compound_0));
                        assert(statement->Compound_0 == *c);
                        assert(decreases_to!(*c => c.items@));
                        assert(decreases_to!(c.items@ => c.items@[i as int]));
                        assert(decreases_to!(*statement => c.items@[i as int]));
                    }
                    self.visit_block_item(&c.items[i]);
                    i = i + 1;
                }
                self.merge_scopes(&before_scope);
                if self.scopes.len() >= 2 {
                    self.pop_scope();
                }
            },
            CStatement::If(i) => {
                self.visit_if_statement(i);
            },
            CStatement::Expression(es) => {
                match &es.expression {
                    Option::Some(e) => {
                        self.visit_expression(e);
                    },
                    Option::None => {},
                }
            },
            CStatement::While(w) => {
                self.visit_expression(&w.condition);
                self.visit_statement(&w.body);
            },
            CStatement::DoWhile(d) => {
                self.visit_statement(&d.body);
                self.visit_expression(&d.condition);
            },
            CStatement::For(f) => {
                match &f.initializer {
                    crate::ast::CForInitializer::EmptyInit => {},
                    crate::ast::CForInitializer::ForExpression(e) => {
                        self.visit_expression(e);
                    },
                    crate::ast::CForInitializer::ForDeclaration(d) => {
                        self.visit_declaration(d);
                    },
                }
                match &f.condition {
                    Option::Some(e) => {
                        self.visit_expression(e);
                    },
                    Option::None => {},
                }
                match &f.step {
                    Option::Some(e) => {
                        self.visit_expression(e);
                    },
                    Option::None => {},
                }
                self.visit_statement(&f.body);
            },
            CStatement::Return(r) => {
                match &r.expression {
                    Option::Some(e) => {
                        self.visit_expression(e);
                    },
                    Option::None => {},
                }
            },
            CStatement::OtherStatement(_) => {},
        }
    }

    /// Walks an `if`: the branches run from the same entry state and their
    /// outcomes are merged.
    pub fn visit_if_statement(&mut self, if_statement: &CIfStatement)
        requires
            old(self).env_wf(),
        ensures
            final(self).env_wf(),
            old(self).function_body == false ==> final(self).scopes@.len() == old(
                self,
            ).scopes@.len(),
            final(self).structs == old(self).structs,
            final(self).functions == old(self).functions,
            Self::same_config(*old(self), *final(self)),
            Self::diags_extended(*old(self), *final(self)),
            final(self).function_body == old(self).function_body || final(self).function_body
                == false,
        decreases if_statement, 1nat,
    {
        self.visit_expression(&if_statement.condition);
        let temp = self.snapshot_scopes();
        self.visit_statement(&if_statement.then_branch);
        match &if_statement.else_branch {
            Option::Some(else_statement) => {
                let then_scopes = self.snapshot_scopes();
                self.restore_scopes(temp);
                self.visit_statement(else_statement);
                if then_scopes.len() >= self.scopes.len() {
                    self.merge_scopes(&then_scopes);
                }
            },
            Option::None => {},
        }
    }

    /// Walks one item of a block, dumping the tracked state around it when
    /// a dump mode is on.
    pub fn visit_block_item(&mut self, block_item: &CBlockItem)
        requires
            old(self).env_wf(),
        ensures
            final(self).env_wf(),
            old(self).function_body == false ==> final(self).scopes@.len() == old(
                self,
            ).scopes@.len() && final(self).function_body == false,
            final(self).structs == old(self).structs,
            final(self).functions == old(self).functions,
            Self::same_config(*old(self), *final(self)),
            Self::diags_extended(*old(self), *final(self)),
        decreases block_item, 2nat,
    {
        let span = block_item_span(block_item);
        self.dump_state(span);
        match block_item {
            CBlockItem::Declaration(d) => {
                self.visit_declaration(d);
            },
            CBlockItem::Statement(s) => {
                self.visit_statement(s);
            },
        }
        self.dump_state(span);
    }

    /// Appends the per-statement dump the configuration asks for, if any.
    fn dump_state(&mut self, span: usize)
        requires
            old(self).env_wf(),
        ensures
            final(self).env_wf(),
            final(self).scopes == old(self).scopes,
            final(self).structs == old(self).structs,
            final(self).functions == old(self).functions,
            Self::same_config(*old(self), *final(self)),
            Self::same_scratch(*old(self), *final(self)),
            Self::diags_extended(*old(self), *final(self)),
    {
        let dump = match self.set_prints {
            PrintType::Ownership => Option::Some(self.print_ownership()),
            PrintType::Reference => Option::Some(self.print_references()),
            PrintType::ErrorOnly => Option::None,
        };
        match dump {
            Option::Some(text) => {
                self.diagnostics.push(Diagnostic::StateDump { offset: span, text });
            },
            Option::None => {},
        }
    }

    /// Walks one declaration: every declarator is declared first, then each
    /// initializer runs.
    pub fn visit_declaration(&mut self, declaration: &CDeclaration)
        requires
            old(self).env_wf(),
        ensures
            final(self).env_wf(),
            final(self).scopes@.len() == old(self).scopes@.len(),
            final(self).structs == old(self).structs,
            final(self).functions == old(self).functions,
            Self::same_config(*old(self), *final(self)),
            Self::diags_extended(*old(self), *final(self)),
            final(self).function_body == old(self).function_body,
        decreases declaration, 1nat,
    {
        let n = declaration.declarators.len();
        let mut i: usize = 0;
        while i < n
            invariant
                self.env_wf(),
                n == declaration.declarators@.len(),
                i <= n,
                self.scopes@.len() == old(self).scopes@.len(),
                self.structs == old(self).structs,
                self.functions == old(self).functions,
                Self::same_config(*old(self), *self),
                Self::diags_extended(*old(self), *self),
                self.function_body == old(self).function_body,
            decreases n - i,
        {
            self.declare_variable(
                &declaration.declarators[i].declarator,
                &declaration.specifiers,
                false,
            );
            i = i + 1;
        }
        let mut i2: usize = 0;
        while i2 < n
            invariant
                self.env_wf(),
                n == declaration.declarators@.len(),
                i2 <= n,
                self.scopes@.len() == old(self).scopes@.len(),
                self.structs == old(self).structs,
                self.functions == old(self).functions,
                Self::same_config(*old(self), *self),
                Self::diags_extended(*old(self), *self),
                self.function_body == old(self).function_body,
            decreases n - i2,
        {
            let span = declaration.declarators[i2].span;
            self.visit_init_declarator(&declaration.declarators[i2], span);
            i2 = i2 + 1;
        }
    }

    /// Walks one declarator's initializer: the right side is read with move
    /// semantics, and the left side may become a new reference to it.
    pub fn visit_init_declarator(&mut self, init_declarator: &CInitDeclarator, span: usize)
        requires
            old(self).env_wf(),
        ensures
            final(self).env_wf(),
            final(self).scopes@.len() == old(self).scopes@.len(),
            final(self).structs == old(self).structs,
            final(self).functions == old(self).functions,
            Self::same_config(*old(self), *final(self)),
            Self::diags_extended(*old(self), *final(self)),
            final(self).function_body == old(self).function_body,
        decreases init_declarator, 1nat,
    {
        match &init_declarator.initializer {
            Option::Some(initializer) => {
                match initializer {
                    CInitializer::InitExpression(expression) => {
                        self.set_expression_ownership(expression, false, span);
                    },
                    _ => {
                        self.visit_initializer(initializer, span);
                    },
                }
            },
            Option::None => {},
        }
        match &init_declarator.declarator.kind {
            crate::ast::CDeclaratorKind::DeclIdentifier(identifier) => {
                match &init_declarator.initializer {
                    Option::Some(initializer) => {
                        match initializer {
                            CInitializer::InitExpression(expression) => {
                                self.add_reference(identifier.name.clone(), expression, span);
                            },
                            _ => {},
                        }
                    },
                    Option::None => {},
                }
            },
            crate::ast::CDeclaratorKind::DeclOther => {},
        }
    }

    /// Walks an initializer list's expressions.
    pub fn visit_initializer(&mut self, initializer: &CInitializer, span: usize)
        requires
            old(self).env_wf(),
        ensures
            final(self).env_wf(),
            final(self).scopes@.len() == old(self).scopes@.len(),
            final(self).structs == old(self).structs,
            final(self).functions == old(self).functions,
            Self::same_config(*old(self), *final(self)),
            Self::diags_extended(*old(self), *final(self)),
            final(self).function_body == old(self).function_body,
        decreases initializer, 1nat,
    {
        match initializer {
            CInitializer::InitExpression(e) => {
                self.visit_expression(e);
            },
            CInitializer::InitList(items) => {
                let n = items.len();
                let mut i: usize = 0;
                while i < n
                    invariant
                        self.env_wf(),
                        *initializer == CInitializer::InitList(*items),
                        n == items@.len(),
                        i <= n,
                        self.scopes@.len() == old(self).scopes@.len(),
                        self.structs == old(self).structs,
                        self.functions == old(self).functions,
                        Self::same_config(*old(self), *self),
                        Self::diags_extended(*old(self), *self),
                        self.function_body == old(self).function_body,
                    decreases n - i,
                {
                    proof {
                        assert(decreases_to!(*initializer => initializer->InitList_0));
                        assert(initializer->InitList_0 == *items);
                        assert(decreases_to!(*items => items@));
                        assert(decreases_to!(items@ => items@[i as int]));
                        assert(decreases_to!(*initializer => items@[i as int]));
                    }
                    self.visit_initializer(&items[i], span);
                    i = i + 1;
                }
            },
        }
    }
}

impl BorrowChecker {
    /// Walks one expression, first forgetting any previously compiled
    /// member path.
    pub fn visit_expression(&mut self, expression: &CExpression)
        requires
            old(self).env_wf(),
        ensures
            final(self).env_wf(),
            final(self).scopes@.len() == old(self).scopes@.len(),
            final(self).structs == old(self).structs,
            final(self).functions == old(self).functions,
            Self::same_config(*old(self), *final(self)),
            Self::diags_extended(*old(self), *final(self)),
            final(self).function_body == old(self).function_body,
            (match expression {
                CExpression::Identifier(id) => (old(self).member_count > 0 && old(
                    self,
                ).member_identifier_pieces@.len() == 0) ==> ({
                    &&& final(self).member_identifier_pieces@.len() == 1
                    &&& final(self).member_identifier_pieces@[0]@ == id.name@
                    &&& final(self).member_count == old(self).member_count
                    &&& final(self).mute_member_expression == old(
                        self,
                    ).mute_member_expression
                    &&& (old(self).env()[spec_scope_of(old(self).env(), id.name@)].contains_key(
                        id.name@,
                    ) ==> final(self).scopes == old(self).scopes)
                }),
                _ => true,
            }),
        decreases expression, 2nat,
    {
        self.member_identifier = String::new();
        self.dispatch_expression(expression);
    }

    /// Sends an expression to the handler for its kind.
    fn dispatch_expression(&mut self, expression: &CExpression)
        requires
            old(self).env_wf(),
        ensures
            (match expression {
                CExpression::Identifier(id) => (old(self).member_count > 0 && old(
                    self,
                ).member_identifier_pieces@.len() == 0) ==> ({
                    &&& final(self).member_identifier_pieces@.len() == 1
                    &&& final(self).member_identifier_pieces@[0]@ == id.name@
                    &&& final(self).member_count == old(self).member_count
                    &&& final(self).mute_member_expression == old(
                        self,
                    ).mute_member_expression
                    &&& (old(self).env()[spec_scope_of(old(self).env(), id.name@)].contains_key(
                        id.name@,
                    ) ==> final(self).scopes == old(self).scopes)
                }),
                _ => true,
            }),
            final(self).env_wf(),
            final(self).scopes@.len() == old(self).scopes@.len(),
            final(self).structs == old(self).structs,
            final(self).functions == old(self).functions,
            Self::same_config(*old(self), *final(self)),
            Self::diags_extended(*old(self), *final(self)),
            final(self).function_body == old(self).function_body,
        decreases expression, 1nat,
    {
        match expression {
            CExpression::Identifier(id) => {
                self.visit_identifier(id);
            },
            CExpression::Member(m) => {
                self.visit_member_expression(m);
            },
            CExpression::Unary(u) => {
                self.visit_unary_operator_expression(u);
            },
            CExpression::Binary(b) => {
                self.visit_binary_operator_expression(b);
            },
            CExpression::Call(c) => {
                self.visit_call_expression(c);
            },
            CExpression::OtherExpr(_) => {},
        }
    }

    /// Reads one identifier: inside a member path it extends the path;
    /// either way the name's ownership and references are checked.
    pub fn visit_identifier(&mut self, identifier: &CIdentifier)
        requires
            old(self).env_wf(),
        ensures
            final(self).env_wf(),
            final(self).scopes@.len() == old(self).scopes@.len(),
            final(self).structs == old(self).structs,
            final(self).functions == old(self).functions,
            Self::same_config(*old(self), *final(self)),
            Self::diags_extended(*old(self), *final(self)),
            final(self).function_body == old(self).function_body,
            (old(self).member_count > 0 && old(self).member_identifier_pieces@.len() == 0)
                ==> ({
                &&& final(self).member_identifier_pieces@.len() == 1
                &&& final(self).member_identifier_pieces@[0]@ == identifier.name@
                &&& final(self).member_count == old(self).member_count
                &&& final(self).member_identifier == old(self).member_identifier
                &&& final(self).mute_member_expression == old(self).mute_member_expression
                &&& (old(self).env()[spec_scope_of(
                    old(self).env(),
                    identifier.name@,
                )].contains_key(identifier.name@) ==> final(self).scopes == old(self).scopes)
            }),
    {
        if self.member_count > 0 {
            self.member_identifier_pieces.push(identifier.name.clone());
            let joined = crate::strings::join_all(&self.member_identifier_pieces, ".");
            self.announce_no_ownership(joined.clone(), identifier.span);
            self.announce_invalid_reference(joined, identifier.span);
        } else {
            self.announce_no_ownership(identifier.name.clone(), identifier.span);
            self.announce_invalid_reference(identifier.name.clone(), identifier.span);
        }
    }

    /// Compiles a member path without reporting on the completed name, so
    /// the caller can act on it itself.  A one-level path `base.field` with
    /// a plain identifier base compiles to the dotted join of the two
    /// names.
    pub fn get_member_expression_identifier(&mut self, member_expression: &CMemberExpr)
        requires
            old(self).env_wf(),
        ensures
            final(self).env_wf(),
            final(self).scopes@.len() == old(self).scopes@.len(),
            final(self).structs == old(self).structs,
            final(self).functions == old(self).functions,
            Self::same_config(*old(self), *final(self)),
            Self::diags_extended(*old(self), *final(self)),
            final(self).function_body == old(self).function_body,
            (match member_expression.base {
                CExpression::Identifier(bid) => (old(self).member_count == 0 && old(
                    self,
                ).member_identifier_pieces@.len() == 0) ==> ({
                    &&& final(self).member_identifier@ == bid.name@ + "."@
                        + member_expression.field.name@
                    &&& final(self).member_identifier_pieces@.len() == 0
                    &&& final(self).member_count == 0
                    &&& (old(self).env()[spec_scope_of(old(self).env(), bid.name@)].contains_key(
                        bid.name@,
                    ) ==> final(self).scopes == old(self).scopes)
                }),
                _ => true,
            }),
        decreases member_expression, 2nat,
    {
        self.mute_member_expression = true;
        self.visit_member_expression(member_expression);
        self.mute_member_expression = false;
    }

    /// Walks a member access, collecting the dotted path piece by piece and
    /// checking each partial path's ownership and references.
    pub fn visit_member_expression(&mut self, member_expression: &CMemberExpr)
        requires
            old(self).env_wf(),
        ensures
            final(self).env_wf(),
            final(self).scopes@.len() == old(self).scopes@.len(),
            final(self).structs == old(self).structs,
            final(self).functions == old(self).functions,
            Self::same_config(*old(self), *final(self)),
            Self::diags_extended(*old(self), *final(self)),
            final(self).function_body == old(self).function_body,
            (match member_expression.base {
                CExpression::Identifier(bid) => (old(self).member_count == 0 && old(
                    self,
                ).member_identifier_pieces@.len() == 0 && old(self).mute_member_expression)
                    ==> ({
                    &&& final(self).member_identifier@ == bid.name@ + "."@
                        + member_expression.field.name@
                    &&& final(self).member_identifier_pieces@.len() == 0
                    &&& final(self).member_count == 0
                    &&& (old(self).env()[spec_scope_of(old(self).env(), bid.name@)].contains_key(
                        bid.name@,
                    ) ==> final(self).scopes == old(self).scopes)
                }),
                _ => true,
            }),
        decreases member_expression, 1nat,
    {
        if self.member_count < 4294967295u32 {
            self.member_count = self.member_count + 1;
        }
        self.visit_expression(&member_expression.base);
        if self.member_count > 0 {
            self.member_count = self.member_count - 1;
        }
        self.member_identifier_pieces.push(member_expression.field.name.clone());
        if self.member_count > 0 || !self.mute_member_expression {
            let partial = crate::strings::join_all(&self.member_identifier_pieces, ".");
            self.announce_no_ownership(partial.clone(), member_expression.span);
            self.announce_invalid_reference(partial, member_expression.span);
        }
        if self.member_count == 0 {
            let ghost parts = self.member_identifier_pieces.deep_view();
            proof {
                match &member_expression.base {
                    CExpression::Identifier(bid) => {
                        if old(self).member_count == 0 && old(
                            self,
                        ).member_identifier_pieces@.len() == 0 && old(
                            self,
                        ).mute_member_expression {
                            assert(self.member_identifier_pieces@.len() == 2);
                            assert(parts.len() == 2);
                            assert(parts[0] == self.member_identifier_pieces@[0]@);
                            assert(parts[1] == self.member_identifier_pieces@[1]@);
                            assert(parts[0] == bid.name@);
                            assert(parts[1] == member_expression.field.name@);
                        }
                    },
                    _ => {},
                }
            }
            self.member_identifier = crate::strings::join_all(&self.member_identifier_pieces, ".");
            self.member_identifier_pieces = Vec::new();
            proof {
                match &member_expression.base {
                    CExpression::Identifier(bid) => {
                        if old(self).member_count == 0 && old(
                            self,
                        ).member_identifier_pieces@.len() == 0 && old(
                            self,
                        ).mute_member_expression {
                            reveal_with_fuel(crate::strings::join_with, 3);
                            assert(parts =~= seq![bid.name@, member_expression.field.name@]);
                            assert(parts.drop_last() =~= seq![bid.name@]);
                            assert(crate::strings::join_with(parts.drop_last(), "."@)
                                == bid.name@);
                            assert(parts.last() == member_expression.field.name@);
                            assert(self.member_identifier@ == bid.name@ + "."@
                                + member_expression.field.name@);
                        }
                    },
                    _ => {},
                }
            }
        }
    }

    /// Walks a unary operator expression.  A dereference checks the
    /// reference it reads and remembers the name of the value behind it:
    /// the first recorded pointee of a declared reference, and the empty
    /// name otherwise.
    pub fn visit_unary_operator_expression(&mut self, uoe: &CUnaryExpr)
        requires
            old(self).env_wf(),
        ensures
            final(self).env_wf(),
            final(self).scopes@.len() == old(self).scopes@.len(),
            final(self).structs == old(self).structs,
            final(self).functions == old(self).functions,
            Self::same_config(*old(self), *final(self)),
            Self::diags_extended(*old(self), *final(self)),
            final(self).function_body == old(self).function_body,
            uoe.op is Indirection ==> (match uoe.operand {
                CExpression::Identifier(id) => old(self).env()[spec_scope_of(
                    old(self).env(),
                    id.name@,
                )].contains_key(id.name@) ==> ({
                    let v = old(self).env()[spec_scope_of(old(self).env(), id.name@)][id.name@];
                    match v.var_type {
                        crate::variable::VarTypeView::ConstRef { points_to } => ((exists|p:
                            crate::variable::IdView| points_to.contains(p)) ==> (exists|p:
                            crate::variable::IdView|
                            points_to.contains(p) && final(self).dereference_name@ == p.name))
                            && (!(exists|p: crate::variable::IdView| points_to.contains(p))
                            ==> final(self).dereference_name@ == Seq::<char>::empty()),
                        crate::variable::VarTypeView::MutRef { points_to } => ((exists|p:
                            crate::variable::IdView| points_to.contains(p)) ==> (exists|p:
                            crate::variable::IdView|
                            points_to.contains(p) && final(self).dereference_name@ == p.name))
                            && (!(exists|p: crate::variable::IdView| points_to.contains(p))
                            ==> final(self).dereference_name@ == Seq::<char>::empty()),
                        _ => final(self).dereference_name@ == Seq::<char>::empty(),
                    }
                }),
                _ => true,
            }),
            uoe.op is Indirection ==> (match uoe.operand {
                CExpression::Identifier(id) => old(self).env()[spec_scope_of(
                    old(self).env(),
                    id.name@,
                )].contains_key(id.name@) ==> ({
                    let k = spec_scope_of(old(self).env(), id.name@);
                    let fr = old(self).scopes@[k];
                    let stored = fr.vars@[crate::scope::index_of_name(fr.vars@, id.name@)];
                    match stored.var_type {
                        VarType::ConstRef(st) => (st.items@.len() > 0 ==> final(self).dereference_name@ == st.items@[0].name@) && (st.items@.len() == 0
                            ==> final(self).dereference_name@ == Seq::<char>::empty()),
                        VarType::MutRef(st) => (st.items@.len() > 0 ==> final(self).dereference_name@ == st.items@[0].name@) && (st.items@.len() == 0
                            ==> final(self).dereference_name@ == Seq::<char>::empty()),
                        _ => final(self).dereference_name@ == Seq::<char>::empty(),
                    }
                }),
                _ => true,
            }),
            uoe.op is Indirection ==> (match uoe.operand {
                CExpression::Identifier(id) => old(self).env()[spec_scope_of(
                    old(self).env(),
                    id.name@,
                )].contains_key(id.name@) ==> final(self).scopes == old(self).scopes,
                _ => true,
            }),
        decreases uoe, 1nat,
    {
        match uoe.op {
            CUnaryOp::Indirection => {
                self.dereference_name = String::new();
                match &uoe.operand {
                    CExpression::Identifier(id) => {
                        self.announce_invalid_reference(id.name.clone(), uoe.span);
                        let ghost pre_lookup = *self;
                        let vid = self.get_id(id.name.as_str());
                        let looked: Option<crate::variable::IdSet> = match self.id_to_var(&vid) {
                            Option::Some(v) => {
                                proof {
                                    let k2 = spec_scope_of(old(self).env(), id.name@);
                                    if old(self).env()[k2].contains_key(id.name@) {
                                        assert(pre_lookup.env() == old(self).env());
                                        assert(v@ == old(self).env()[k2][id.name@]);
                                        assert(self.scopes == old(self).scopes);
                                        let fr = old(self).scopes@[k2];
                                        let i0 = choose|i0: int|
                                            0 <= i0 < self.scopes@[vid.scope as int].vars@.len()
                                                && self.scopes@[vid.scope as int].vars@[i0]
                                                == *v;
                                        crate::scope::lemma_index_of_name_unique(
                                            fr.vars@,
                                            id.name@,
                                            i0,
                                        );
                                        assert(*v == fr.vars@[crate::scope::index_of_name(
                                            fr.vars@,
                                            id.name@,
                                        )]);
                                    }
                                }
                                match &v.var_type {
                                    VarType::ConstRef(s) => Option::Some(s.clone()),
                                    VarType::MutRef(s) => Option::Some(s.clone()),
                                    _ => Option::None,
                                }
                            },
                            Option::None => {
                                let created = self.name_to_var(id.name.as_str());
                                match &created.var_type {
                                    VarType::ConstRef(s) => Option::Some(s.clone()),
                                    VarType::MutRef(s) => Option::Some(s.clone()),
                                    _ => Option::None,
                                }
                            },
                        };
                        match &looked {
                            Option::Some(s) => {
                                if s.len() > 0 {
                                    self.dereference_name = s.get(0).name.clone();
                                    proof {
                                        assert(s@.contains(s.items@[0]@));
                                    }
                                }
                            },
                            Option::None => {},
                        }
                        proof {
                            let k2 = spec_scope_of(old(self).env(), id.name@);
                            if old(self).env()[k2].contains_key(id.name@) {
                                let v = old(self).env()[k2][id.name@];
                                match v.var_type {
                                    crate::variable::VarTypeView::ConstRef { points_to } => {
                                        if exists|p: crate::variable::IdView|
                                            points_to.contains(p) {
                                            assert(exists|p: crate::variable::IdView|
                                                points_to.contains(p)
                                                    && self.dereference_name@ == p.name);
                                        } else {
                                            assert(self.dereference_name@ == Seq::<
                                                char,
                                            >::empty());
                                        }
                                    },
                                    crate::variable::VarTypeView::MutRef { points_to } => {
                                        if exists|p: crate::variable::IdView|
                                            points_to.contains(p) {
                                            assert(exists|p: crate::variable::IdView|
                                                points_to.contains(p)
                                                    && self.dereference_name@ == p.name);
                                        } else {
                                            assert(self.dereference_name@ == Seq::<
                                                char,
                                            >::empty());
                                        }
                                    },
                                    _ => {
                                        assert(self.dereference_name@ == Seq::<char>::empty());
                                    },
                                }
                            }
                        }
                    },
                    CExpression::Member(m) => {
                        let pieces_backup = crate::strings::clone_strings(
                            &self.member_identifier_pieces,
                        );
                        let count_backup = self.member_count;
                        self.get_member_expression_identifier(m);
                        self.announce_invalid_reference(self.member_identifier.clone(), uoe.span);
                        let mi = self.member_identifier.clone();
                        let var = self.name_to_var(mi.as_str());
                        match &var.var_type {
                            VarType::ConstRef(s) => {
                                if s.len() > 0 {
                                    self.dereference_name = s.get(0).name.clone();
                                }
                            },
                            VarType::MutRef(s) => {
                                if s.len() > 0 {
                                    self.dereference_name = s.get(0).name.clone();
                                }
                            },
                            _ => {},
                        }
                        self.member_identifier_pieces = pieces_backup;
                        self.member_count = count_backup;
                    },
                    _ => {
                        self.visit_expression(&uoe.operand);
                    },
                }
            },
            _ => {
                self.visit_expression(&uoe.operand);
            },
        }
        if self.member_count > 0 {
            let dn = self.dereference_name.clone();
            self.member_identifier_pieces.push(dn);
        }
    }

    /// Walks a binary operator expression.  A plain assignment reads the
    /// right side with move semantics, re-initializes the left side, and
    /// lets the borrow engine track the pointer bookkeeping.
    pub fn visit_binary_operator_expression(&mut self, boe: &crate::ast::CBinaryExpr)
        requires
            old(self).env_wf(),
        ensures
            final(self).env_wf(),
            final(self).scopes@.len() == old(self).scopes@.len(),
            final(self).structs == old(self).structs,
            final(self).functions == old(self).functions,
            Self::same_config(*old(self), *final(self)),
            Self::diags_extended(*old(self), *final(self)),
            final(self).function_body == old(self).function_body,
        decreases boe, 1nat,
    {
        match boe.op {
            CBinaryOp::Assign => {
                self.set_expression_ownership(&boe.rhs, false, boe.span);
                self.set_expression_ownership(&boe.lhs, true, boe.span);
                match &boe.lhs {
                    CExpression::Identifier(name) => {
                        self.add_reference(name.name.clone(), &boe.rhs, boe.span);
                    },
                    CExpression::Member(_) => {
                        let mi = self.member_identifier.clone();
                        self.add_reference(mi, &boe.rhs, boe.span);
                    },
                    _ => {},
                }
            },
            CBinaryOp::OtherBinary => {
                self.visit_expression(&boe.lhs);
                self.visit_expression(&boe.rhs);
            },
        }
    }

    /// Walks a call: `&x` arguments borrow `x` mutably or shared according
    /// to the declared parameter, other arguments are read with move
    /// semantics.  A call of an unrecorded name is reported once and every
    /// pointer argument is pessimized to a mutable borrow.
    pub fn visit_call_expression(&mut self, call_expression: &CCallExpr)
        requires
            old(self).env_wf(),
        ensures
            final(self).env_wf(),
            final(self).scopes@.len() == old(self).scopes@.len(),
            final(self).structs == old(self).structs,
            final(self).functions == old(self).functions,
            Self::same_config(*old(self), *final(self)),
            Self::diags_extended(*old(self), *final(self)),
            final(self).function_body == old(self).function_body,
            (match call_expression.callee {
                CExpression::Identifier(f) => !crate::tables::sig_has(
                    old(self).functions.entries@,
                    f.name@,
                ) ==> ({
                    &&& old(self).diagnostics@.len() < final(self).diagnostics@.len()
                    &&& final(self).diagnostics@[old(self).diagnostics@.len() as int]
                        == (Diagnostic::UndeclaredFunction { name: f.name })
                }),
                _ => true,
            }),
            (match call_expression.callee {
                CExpression::Identifier(f) => call_expression.args@.len() == 1 ==> (match call_expression.args@[0] {
                    CExpression::Unary(u) => u.op is Address ==> (match u.operand {
                        CExpression::Identifier(x) => address_arg_borrowed(
                            old(self).env(),
                            final(self).env(),
                            x.name@,
                            call_param_mutable(old(self).functions.entries@, f.name@, 0),
                        ),
                        _ => true,
                    }),
                    _ => true,
                }),
                _ => true,
            }),
        decreases call_expression, 1nat,
    {
        let fid = match &call_expression.callee {
            CExpression::Identifier(f) => f,
            _ => {
                return ;
            },
        };
        let (known, param_is_mut): (bool, Vec<bool>) = match self.functions.get(
            fid.name.as_str(),
        ) {
            Option::Some(sig) => {
                let pn = sig.params.len();
                let mut v: Vec<bool> = Vec::new();
                let mut x: usize = 0;
                while x < pn
                    invariant
                        pn == sig.params@.len(),
                        x <= pn,
                        v@.len() == x,
                        x > 0 ==> v@[0] == (sig.params@[0] is MutRef),
                    decreases pn - x,
                {
                    let is_mut = match &sig.params[x] {
                        VarType::MutRef(_) => true,
                        _ => false,
                    };
                    v.push(is_mut);
                    x = x + 1;
                }
                proof {
                    if pn > 0 {
                        assert(crate::tables::sig_params(self.functions.entries@, fid.name@)[0]
                            == sig.params@[0]@);
                        assert(v@[0] == call_param_mutable(
                            self.functions.entries@,
                            fid.name@,
                            0,
                        ));
                    }
                }
                (true, v)
            },
            Option::None => (false, Vec::new()),
        };
        proof {
            if param_is_mut@.len() == 0 {
                assert(call_param_mutable(self.functions.entries@, fid.name@, 0));
            }
        }
        if !known {
            self.diagnostics.push(Diagnostic::UndeclaredFunction { name: fid.name.clone() });
        }
        let n = call_expression.args.len();
        let mut i: usize = 0;
        while i < n
            invariant
                self.env_wf(),
                n == call_expression.args@.len(),
                i <= n,
                self.scopes@.len() == old(self).scopes@.len(),
                self.structs == old(self).structs,
                self.functions == old(self).functions,
                Self::same_config(*old(self), *self),
                Self::diags_extended(*old(self), *self),
                self.function_body == old(self).function_body,
                (match call_expression.callee {
                    CExpression::Identifier(f) => !crate::tables::sig_has(
                        old(self).functions.entries@,
                        f.name@,
                    ) ==> ({
                        &&& old(self).diagnostics@.len() < self.diagnostics@.len()
                        &&& self.diagnostics@[old(self).diagnostics@.len() as int]
                            == (Diagnostic::UndeclaredFunction { name: f.name })
                    }),
                    _ => true,
                }),
                fid.name@ == (match call_expression.callee {
                    CExpression::Identifier(f) => f.name@,
                    _ => fid.name@,
                }),
                param_is_mut@.len() == 0 ==> call_param_mutable(
                    old(self).functions.entries@,
                    fid.name@,
                    0,
                ),
                param_is_mut@.len() > 0 ==> param_is_mut@[0] == call_param_mutable(
                    old(self).functions.entries@,
                    fid.name@,
                    0,
                ),
                i == 0 ==> self.env() == old(self).env(),
                n == 1 && i == 1 ==> (match call_expression.args@[0] {
                    CExpression::Unary(u) => u.op is Address ==> (match u.operand {
                        CExpression::Identifier(x) => address_arg_borrowed(
                            old(self).env(),
                            self.env(),
                            x.name@,
                            call_param_mutable(old(self).functions.entries@, fid.name@, 0),
                        ),
                        _ => true,
                    }),
                    _ => true,
                }),
            decreases n - i,
        {
            match &call_expression.args[i] {
                CExpression::Unary(u) => {
                    let is_address = match u.op {
                        CUnaryOp::Address => true,
                        _ => false,
                    };
                    if is_address {
                        match &u.operand {
                            CExpression::Identifier(id) => {
                                let ghost pre_env = self.env();
                                let var = self.name_to_var(id.name.as_str());
                                let ghost resolved = var@;
                                let mut v2 = var;
                                let mut_param = i >= param_is_mut.len() || param_is_mut[i];
                                proof {
                                    if i == 0 {
                                        assert(mut_param == call_param_mutable(
                                            old(self).functions.entries@,
                                            fid.name@,
                                            0,
                                        ));
                                    }
                                }
                                if mut_param {
                                    v2.const_refs.clear();
                                    v2.mut_refs.clear();
                                } else {
                                    v2.mut_refs.clear();
                                }
                                self.put_var(v2);
                                proof {
                                    if n == 1 && i == 0 {
                                        let k = spec_scope_of(pre_env, id.name@);
                                        assert(self.env()[k].contains_key(id.name@));
                                        assert(self.env()[k][id.name@] == v2@);
                                        assert(v2@.var_type == resolved.var_type);
                                        if !mut_param {
                                            assert(v2@.const_refs == resolved.const_refs);
                                        }
                                    }
                                }
                            },
                            _ => {},
                        }
                    } else {
                        self.visit_unary_operator_expression(u);
                    }
                },
                _ => {
                    self.visit_expression(&call_expression.args[i]);
                    self.set_expression_ownership(
                        &call_expression.args[i],
                        false,
                        call_expression.span,
                    );
                },
            }
            i = i + 1;
        }
    }

    /// Reads an expression as a value: an identifier or member path has its
    /// whole struct's ownership set, anything else is walked as usual.
    /// After reading an identifier, the named variable holds no borrows,
    /// and an owner's ownership flag equals `is_valid`.
    pub fn set_expression_ownership(
        &mut self,
        expression: &CExpression,
        is_valid: bool,
        span: usize,
    )
        requires
            old(self).env_wf(),
        ensures
            final(self).env_wf(),
            final(self).scopes@.len() == old(self).scopes@.len(),
            final(self).structs == old(self).structs,
            final(self).functions == old(self).functions,
            Self::same_config(*old(self), *final(self)),
            Self::diags_extended(*old(self), *final(self)),
            final(self).function_body == old(self).function_body,
            (match expression {
                CExpression::Identifier(name) => name.name@ != "NULL"@ ==> ({
                    let k = spec_scope_of(old(self).env(), name.name@);
                    &&& final(self).env()[k].contains_key(name.name@)
                    &&& final(self).env()[k][name.name@].const_refs == Set::<
                        crate::variable::IdView,
                    >::empty()
                    &&& final(self).env()[k][name.name@].mut_refs == Set::<
                        crate::variable::IdView,
                    >::empty()
                    &&& (final(self).env()[k][name.name@].var_type matches
                        crate::variable::VarTypeView::Owner { has_ownership: h, .. } ==> h
                        == is_valid)
                }),
                _ => true,
            }),
        decreases expression, 2nat,
    {
        match expression {
            CExpression::Identifier(name) => {
                self.set_all_ownership(name.name.clone(), is_valid, span);
            },
            CExpression::Member(m) => {
                self.get_member_expression_identifier(m);
                let mi = self.member_identifier.clone();
                self.set_all_ownership(mi, is_valid, span);
            },
            _ => {
                self.dispatch_expression(expression);
            },
        }
    }

    /// `lhs = &x` or `lhs = &s.a`: the left side stops pointing at what it
    /// used to and becomes the one recorded borrow of the pointee (the root
    /// aggregate, for a member path).  A mutable borrow of a declared `x`
    /// leaves `x` with no shared borrows and exactly the one mutable
    /// borrow `lhs`.
    pub fn reference_from_address(&mut self, lhs: String, rhs: &CExpression)
        requires
            old(self).env_wf(),
        ensures
            final(self).env_wf(),
            final(self).scopes@.len() == old(self).scopes@.len(),
            final(self).structs == old(self).structs,
            final(self).functions == old(self).functions,
            Self::same_config(*old(self), *final(self)),
            Self::diags_extended(*old(self), *final(self)),
            final(self).function_body == old(self).function_body,
            rhs matches CExpression::Identifier(op) ==> ({
                let lk = spec_scope_of(old(self).env(), lhs@);
                let xk = spec_scope_of(old(self).env(), op.name@);
                let lid = crate::variable::IdView { name: lhs@, scope: lk as nat };
                let xid = crate::variable::IdView { name: op.name@, scope: xk as nat };
                &&& (({
                    &&& old(self).env()[lk].contains_key(lhs@)
                    &&& old(self).env()[lk][lhs@].var_type is MutRef
                    &&& old(self).env()[xk].contains_key(op.name@)
                    &&& !(xk == lk && op.name@ == lhs@)
                }) ==> ({
                    let x = final(self).env()[xk][op.name@];
                    &&& x.const_refs == Set::<crate::variable::IdView>::empty()
                    &&& x.mut_refs == Set::<crate::variable::IdView>::empty().insert(lid)
                    &&& final(self).env()[lk][lhs@].var_type
                        == (crate::variable::VarTypeView::MutRef {
                        points_to: Set::<crate::variable::IdView>::empty().insert(xid),
                    })
                }))
                &&& (({
                    &&& old(self).env()[lk].contains_key(lhs@)
                    &&& old(self).env()[lk][lhs@].var_type is ConstRef
                    &&& old(self).env()[xk].contains_key(op.name@)
                    &&& !(xk == lk && op.name@ == lhs@)
                }) ==> ({
                    let x = final(self).env()[xk][op.name@];
                    &&& x.mut_refs == Set::<crate::variable::IdView>::empty()
                    &&& x.const_refs == old(self).env()[xk][op.name@].const_refs.insert(lid)
                    &&& final(self).env()[lk][lhs@].var_type
                        == (crate::variable::VarTypeView::ConstRef {
                        points_to: Set::<crate::variable::IdView>::empty().insert(xid),
                    })
                }))
            }),
            rhs matches CExpression::Member(m) ==> (match m.base {
                CExpression::Identifier(bid) => ({
                    let lk = spec_scope_of(old(self).env(), lhs@);
                    let k = spec_scope_of(old(self).env(), bid.name@);
                    let lid = crate::variable::IdView { name: lhs@, scope: lk as nat };
                    let xid = crate::variable::IdView { name: bid.name@, scope: k as nat };
                    &&& (({
                        &&& old(self).member_count == 0
                        &&& old(self).member_identifier_pieces@.len() == 0
                        &&& !crate::strings::has_char(bid.name@, '.')
                        &&& old(self).env()[k].contains_key(bid.name@)
                        &&& old(self).env()[lk].contains_key(lhs@)
                        &&& old(self).env()[lk][lhs@].var_type is MutRef
                        &&& !(k == lk && bid.name@ == lhs@)
                    }) ==> ({
                        let x = final(self).env()[k][bid.name@];
                        &&& x.const_refs == Set::<crate::variable::IdView>::empty()
                        &&& x.mut_refs == Set::<crate::variable::IdView>::empty().insert(lid)
                        &&& final(self).env()[lk][lhs@].var_type
                            == (crate::variable::VarTypeView::MutRef {
                            points_to: Set::<crate::variable::IdView>::empty().insert(xid),
                        })
                    }))
                    &&& (({
                        &&& old(self).member_count == 0
                        &&& old(self).member_identifier_pieces@.len() == 0
                        &&& !crate::strings::has_char(bid.name@, '.')
                        &&& old(self).env()[k].contains_key(bid.name@)
                        &&& old(self).env()[lk].contains_key(lhs@)
                        &&& old(self).env()[lk][lhs@].var_type is ConstRef
                        &&& !(k == lk && bid.name@ == lhs@)
                    }) ==> ({
                        let x = final(self).env()[k][bid.name@];
                        &&& x.mut_refs == Set::<crate::variable::IdView>::empty()
                        &&& x.const_refs == old(self).env()[k][bid.name@].const_refs.insert(lid)
                        &&& final(self).env()[lk][lhs@].var_type
                            == (crate::variable::VarTypeView::ConstRef {
                            points_to: Set::<crate::variable::IdView>::empty().insert(xid),
                        })
                    }))
                }),
                _ => true,
            }),
        decreases rhs, 2nat,
    {
        match rhs {
            CExpression::Identifier(operand) => {
                let rhs_id = self.get_id(operand.name.as_str());
                let lhs_id = self.get_id(lhs.as_str());
                self.wire_borrow(&lhs_id, &rhs_id);
            },
            CExpression::Member(operand) => {
                self.get_member_expression_identifier(operand);
                let mi = self.member_identifier.clone();
                let parent = crate::strings::first_segment_of(mi.as_str());
                proof {
                    match &operand.base {
                        CExpression::Identifier(bid) => {
                            if old(self).member_count == 0 && old(
                                self,
                            ).member_identifier_pieces@.len() == 0 && !crate::strings::has_char(
                                bid.name@,
                                '.',
                            ) && old(self).env()[spec_scope_of(
                                old(self).env(),
                                bid.name@,
                            )].contains_key(bid.name@) {
                                reveal_strlit(".");
                                let path = bid.name@ + "."@ + operand.field.name@;
                                assert(mi@ == path);
                                assert(path[bid.name@.len() as int] == '.');
                                assert(crate::strings::has_char(path, '.'));
                                assert forall|j: int| 0 <= j < bid.name@.len() implies path[j]
                                    != '.' by {
                                    assert(path[j] == bid.name@[j]);
                                }
                                crate::strings::lemma_first_index_unique(
                                    path,
                                    '.',
                                    bid.name@.len() as int,
                                );
                                assert(crate::strings::first_segment(path) =~= bid.name@);
                                assert(parent@ == bid.name@);
                                assert(self.scopes == old(self).scopes);
                            }
                        },
                        _ => {},
                    }
                }
                let var_id = self.get_id(parent.as_str());
                let ref_id = self.get_id(lhs.as_str());
                self.wire_borrow(&ref_id, &var_id);
            },
            _ => {},
        }
    }

    /// Makes `ref_id` the one recorded borrow of `var_id`, of the
    /// reference's own kind, and points it there.  After a mutable borrow
    /// the pointee has no shared borrows left and exactly this one mutable
    /// borrow; after a shared borrow it has no mutable borrows left.
    fn wire_borrow(&mut self, ref_id: &crate::variable::Id, var_id: &crate::variable::Id)
        requires
            old(self).env_wf(),
        ensures
            final(self).env_wf(),
            final(self).scopes@.len() == old(self).scopes@.len(),
            final(self).structs == old(self).structs,
            final(self).functions == old(self).functions,
            final(self).diagnostics == old(self).diagnostics,
            Self::same_config(*old(self), *final(self)),
            Self::same_scratch(*old(self), *final(self)),
            ({
                &&& ref_id.scope < old(self).scopes@.len()
                &&& old(self).env()[ref_id.scope as int].contains_key(ref_id.name@)
                &&& old(self).env()[ref_id.scope as int][ref_id.name@].var_type is MutRef
                &&& var_id.scope < old(self).scopes@.len()
                &&& old(self).env()[var_id.scope as int].contains_key(var_id.name@)
                &&& !(var_id.scope == ref_id.scope && var_id.name@ == ref_id.name@)
            }) ==> ({
                let x = final(self).env()[var_id.scope as int][var_id.name@];
                &&& x.const_refs == Set::<crate::variable::IdView>::empty()
                &&& x.mut_refs == Set::<crate::variable::IdView>::empty().insert(ref_id@)
                &&& final(self).env()[ref_id.scope as int][ref_id.name@].var_type
                    == (crate::variable::VarTypeView::MutRef {
                    points_to: Set::<crate::variable::IdView>::empty().insert(var_id@),
                })
            }),
            ({
                &&& ref_id.scope < old(self).scopes@.len()
                &&& old(self).env()[ref_id.scope as int].contains_key(ref_id.name@)
                &&& old(self).env()[ref_id.scope as int][ref_id.name@].var_type is ConstRef
                &&& var_id.scope < old(self).scopes@.len()
                &&& old(self).env()[var_id.scope as int].contains_key(var_id.name@)
                &&& !(var_id.scope == ref_id.scope && var_id.name@ == ref_id.name@)
            }) ==> ({
                let x = final(self).env()[var_id.scope as int][var_id.name@];
                &&& x.mut_refs == Set::<crate::variable::IdView>::empty()
                &&& x.const_refs == old(self).env()[var_id.scope as int][var_id.name@].const_refs.insert(
                    ref_id@,
                )
                &&& final(self).env()[ref_id.scope as int][ref_id.name@].var_type
                    == (crate::variable::VarTypeView::ConstRef {
                    points_to: Set::<crate::variable::IdView>::empty().insert(var_id@),
                })
            }),
    {
        let kind: u8 = match self.id_to_var(ref_id) {
            Option::Some(v) => {
                match &v.var_type {
                    VarType::ConstRef(_) => 1u8,
                    VarType::MutRef(_) => 2u8,
                    _ => 0u8,
                }
            },
            Option::None => 0u8,
        };
        if kind == 1 {
            self.clear_points_to(ref_id);
            proof {
                if var_id.scope < old(self).scopes@.len() && old(self).env()[
                    var_id.scope as int
                ].contains_key(var_id.name@) {
                    let probe = self.env()[var_id.scope as int].contains_key(var_id.name@);
                    let ox = old(self).env()[var_id.scope as int][var_id.name@];
                    assert(ox.const_refs.remove(ref_id@).insert(ref_id@) =~= ox.const_refs.insert(
                        ref_id@,
                    ));
                }
            }
            self.add_const_ref(var_id, ref_id);
        } else if kind == 2 {
            self.clear_points_to(ref_id);
            self.add_mut_ref(var_id, ref_id);
        }
        match self.id_to_var(ref_id) {
            Option::Some(v) => {
                let cur = v.clone();
                let crate::variable::Variable { id, var_type, const_refs, mut_refs } = cur;
                let new_vt = match var_type {
                    VarType::ConstRef(s) => {
                        let mut s2 = s;
                        s2.insert(var_id.clone());
                        VarType::ConstRef(s2)
                    },
                    VarType::MutRef(s) => {
                        let mut s2 = s;
                        s2.insert(var_id.clone());
                        VarType::MutRef(s2)
                    },
                    other => other,
                };
                let v2 = crate::variable::Variable { id, var_type: new_vt, const_refs, mut_refs };
                self.put_var(v2);
            },
            Option::None => {},
        }
    }

    /// Computes every reference-related change an assignment to `lhs`
    /// makes: taking an address, copying a pointer, or reading through one.
    /// Copying from a named pointer behaves as the pointer assignment's
    /// contract says: `lhs` ends pointing at exactly the right side's old
    /// pointees, with a kind-mismatch report when the kinds disagree.
    pub fn add_reference(&mut self, lhs: String, rhs: &CExpression, span: usize)
        requires
            old(self).env_wf(),
        ensures
            final(self).env_wf(),
            final(self).scopes@.len() == old(self).scopes@.len(),
            final(self).structs == old(self).structs,
            final(self).functions == old(self).functions,
            Self::same_config(*old(self), *final(self)),
            Self::diags_extended(*old(self), *final(self)),
            final(self).function_body == old(self).function_body,
            rhs matches CExpression::Identifier(rid) ==> ({
                let lk = spec_scope_of(old(self).env(), lhs@);
                let rk = spec_scope_of(old(self).env(), rid.name@);
                ({
                    &&& old(self).env()[lk].contains_key(lhs@)
                    &&& old(self).env()[rk].contains_key(rid.name@)
                    &&& !(lk == rk && lhs@ == rid.name@)
                }) ==> ({
                    let dv = old(self).env()[lk][lhs@];
                    let sv = old(self).env()[rk][rid.name@];
                    match (dv.var_type, sv.var_type) {
                        (
                            crate::variable::VarTypeView::ConstRef { .. },
                            crate::variable::VarTypeView::ConstRef { points_to: sp },
                        ) => final(self).diagnostics == old(self).diagnostics && final(self).env()[lk][lhs@].var_type == (crate::variable::VarTypeView::ConstRef {
                            points_to: Set::<crate::variable::IdView>::empty() + sp,
                        }),
                        (
                            crate::variable::VarTypeView::MutRef { .. },
                            crate::variable::VarTypeView::MutRef { points_to: sp },
                        ) => final(self).diagnostics == old(self).diagnostics && final(self).env()[lk][lhs@].var_type == (crate::variable::VarTypeView::MutRef {
                            points_to: Set::<crate::variable::IdView>::empty() + sp,
                        }),
                        (
                            crate::variable::VarTypeView::ConstRef { .. },
                            crate::variable::VarTypeView::MutRef { points_to: sp },
                        ) => final(self).diagnostics@.len() == old(self).diagnostics@.len() + 1
                            && (final(self).diagnostics@.last() matches
                            Diagnostic::MutToConstMove { from: f, to: t, offset: o } && f@
                            == rid.name@ && t@ == lhs@ && o == span) && final(self).env()[lk][lhs@].var_type == (crate::variable::VarTypeView::ConstRef {
                            points_to: Set::<crate::variable::IdView>::empty() + sp,
                        }),
                        (
                            crate::variable::VarTypeView::MutRef { .. },
                            crate::variable::VarTypeView::ConstRef { points_to: sp },
                        ) => final(self).diagnostics@.len() == old(self).diagnostics@.len() + 1
                            && (final(self).diagnostics@.last() matches
                            Diagnostic::ConstToMutMove { from: f, to: t, offset: o } && f@
                            == rid.name@ && t@ == lhs@ && o == span) && final(self).env()[lk][lhs@].var_type == (crate::variable::VarTypeView::MutRef {
                            points_to: Set::<crate::variable::IdView>::empty() + sp,
                        }),
                        _ => true,
                    }
                })
            }),
            (match rhs {
                CExpression::Unary(u) => u.op is Indirection ==> (match u.operand {
                CExpression::Identifier(id) => old(self).env()[spec_scope_of(
                    old(self).env(),
                    id.name@,
                )].contains_key(id.name@) ==> ({
                    let k = spec_scope_of(old(self).env(), id.name@);
                    let fr = old(self).scopes@[k];
                    let stored = fr.vars@[crate::scope::index_of_name(fr.vars@, id.name@)];
                    match stored.var_type {
                        VarType::ConstRef(st) => st.items@.len() > 0 ==> ({
                            let dn0 = st.items@[0].name@;
                            let dk = spec_scope_of(old(self).env(), dn0);
                            (old(self).env()[dk].contains_key(dn0) && (old(
                                self,
                            ).env()[dk][dn0].var_type is Owner || old(
                                self,
                            ).env()[dk][dn0].var_type is MutRef)) ==> ({
                                &&& final(self).diagnostics@.len() > old(
                                    self,
                                ).diagnostics@.len()
                                &&& (final(self).diagnostics@.last() matches
                                    Diagnostic::MoveBehindRef { name: nm, offset: o } && nm@
                                    == dn0 && o == span)
                            })
                        }),
                        VarType::MutRef(st) => st.items@.len() > 0 ==> ({
                            let dn0 = st.items@[0].name@;
                            let dk = spec_scope_of(old(self).env(), dn0);
                            (old(self).env()[dk].contains_key(dn0) && (old(
                                self,
                            ).env()[dk][dn0].var_type is Owner || old(
                                self,
                            ).env()[dk][dn0].var_type is MutRef)) ==> ({
                                &&& final(self).diagnostics@.len() > old(
                                    self,
                                ).diagnostics@.len()
                                &&& (final(self).diagnostics@.last() matches
                                    Diagnostic::MoveBehindRef { name: nm, offset: o } && nm@
                                    == dn0 && o == span)
                            })
                        }),
                        _ => true,
                    }
                }),
                _ => true,
            }),
                _ => true,
            }),
        decreases rhs, 3nat,
    {
        match rhs {
            CExpression::Unary(u) => {
                match u.op {
                    CUnaryOp::Address => {
                        self.reference_from_address(lhs, &u.operand);
                    },
                    CUnaryOp::Indirection => {
                        let ghost pre = *old(self);
                        self.visit_unary_operator_expression(u);
                        let ghost mid = *self;
                        let dn = self.dereference_name.clone();
                        let dv = self.name_to_var(dn.as_str());
                        let movable = match &dv.var_type {
                            VarType::Copy => true,
                            VarType::ConstRef(_) => true,
                            _ => false,
                        };
                        proof {
                            match &u.operand {
                                CExpression::Identifier(id) => {
                                    let k = spec_scope_of(pre.env(), id.name@);
                                    if pre.env()[k].contains_key(id.name@) {
                                        assert(mid.scopes == pre.scopes);
                                        assert(mid.env() == pre.env());
                                    }
                                },
                                _ => {},
                            }
                        }
                        if movable {
                            self.reference_assignment(lhs, dn, span);
                        } else {
                            self.diagnostics.push(
                                Diagnostic::MoveBehindRef { name: dn, offset: span },
                            );
                        }
                    },
                    CUnaryOp::OtherUnary => {},
                }
            },
            CExpression::Identifier(rhs_identifier) => {
                self.reference_assignment(lhs, rhs_identifier.name.clone(), span);
            },
            CExpression::Member(member_expression) => {
                if self.member_identifier.as_str().is_empty() {
                    self.get_member_expression_identifier(member_expression);
                }
                let mi = self.member_identifier.clone();
                self.reference_assignment(lhs, mi, span);
            },
            _ => {},
        }
    }
}

} // verus!
