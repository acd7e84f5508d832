//! Whole-program scenarios: small syntax trees walked end to end, checked
//! against the exact diagnostics they must produce.

use c_borrow_checker::ast::{
    CBinaryExpr, CBinaryOp, CWhileStatement, CBlockItem, CCallExpr, CCompound, CDeclaration,
    CDeclarationSpecifier, CDeclarator, CDeclaratorKind, CDerivedDeclarator, CExpression,
    CExpressionStatement, CExternalDeclaration, CFunctionDeclarator, CFunctionDefinition,
    CIdentifier, CIfStatement, CInitDeclarator, CInitializer, CMemberExpr,
    CParameterDeclaration, CSpecifierQualifier, CStatement, CStructDeclarator, CStructField,
    CStructType, CTranslationUnit, CTypeSpecifier, CUnaryExpr, CUnaryOp,
};
use c_borrow_checker::checker::{BorrowChecker, PrintType};
use c_borrow_checker::diagnostics::Diagnostic;

fn ident(name: &str, span: usize) -> CIdentifier {
    CIdentifier { name: name.to_string(), span }
}

fn e_id(name: &str, span: usize) -> CExpression {
    CExpression::Identifier(ident(name, span))
}

fn e_member(base: CExpression, field: &str, span: usize) -> CExpression {
    CExpression::Member(Box::new(CMemberExpr { base, field: ident(field, span), span }))
}

fn e_unary(op: CUnaryOp, operand: CExpression, span: usize) -> CExpression {
    CExpression::Unary(Box::new(CUnaryExpr { op, operand, span }))
}

fn e_assign(lhs: CExpression, rhs: CExpression, span: usize) -> CExpression {
    CExpression::Binary(Box::new(CBinaryExpr { op: CBinaryOp::Assign, lhs, rhs, span }))
}

fn e_call(fname: &str, args: Vec<CExpression>, span: usize) -> CExpression {
    CExpression::Call(Box::new(CCallExpr { callee: e_id(fname, span), args, span }))
}

fn stmt_expr(e: CExpression, span: usize) -> CStatement {
    CStatement::Expression(Box::new(CExpressionStatement { expression: Some(e), span }))
}

fn compound(items: Vec<CBlockItem>, span: usize) -> CStatement {
    CStatement::Compound(CCompound { items, span })
}

fn spec_other() -> CDeclarationSpecifier {
    CDeclarationSpecifier::DsTypeSpecifier(CTypeSpecifier::OtherType)
}

fn spec_struct(name: &str, span: usize) -> CDeclarationSpecifier {
    CDeclarationSpecifier::DsTypeSpecifier(CTypeSpecifier::StructType(CStructType {
        identifier: Some(ident(name, span)),
        declarations: None,
    }))
}

fn dtor(name: &str, span: usize) -> CDeclarator {
    CDeclarator { kind: CDeclaratorKind::DeclIdentifier(ident(name, span)), derived: vec![] }
}

fn dtor_ptr(name: &str, span: usize) -> CDeclarator {
    CDeclarator {
        kind: CDeclaratorKind::DeclIdentifier(ident(name, span)),
        derived: vec![CDerivedDeclarator::PointerDecl],
    }
}

fn init_decl(declarator: CDeclarator, init: Option<CExpression>, span: usize) -> CInitDeclarator {
    CInitDeclarator {
        declarator,
        initializer: init.map(CInitializer::InitExpression),
        span,
    }
}

fn declaration(
    specifiers: Vec<CDeclarationSpecifier>,
    declarators: Vec<CInitDeclarator>,
    span: usize,
) -> CDeclaration {
    CDeclaration { specifiers, declarators, span }
}

fn decl_item(
    specifiers: Vec<CDeclarationSpecifier>,
    declarators: Vec<CInitDeclarator>,
    span: usize,
) -> CBlockItem {
    CBlockItem::Declaration(declaration(specifiers, declarators, span))
}

/// A definition of `struct <name>` whose fields all use the given
/// specifier-qualifiers.
fn struct_definition(name: &str, fields: Vec<(&str, Vec<CSpecifierQualifier>)>, span: usize) -> CExternalDeclaration {
    let mut decls: Vec<CStructField> = Vec::new();
    for (fname, sqs) in fields {
        decls.push(CStructField {
            specifiers: sqs,
            declarators: vec![CStructDeclarator { declarator: Some(dtor(fname, span)) }],
        });
    }
    CExternalDeclaration::ExtDeclaration(declaration(
        vec![CDeclarationSpecifier::DsTypeSpecifier(CTypeSpecifier::StructType(CStructType {
            identifier: Some(ident(name, span)),
            declarations: Some(decls),
        }))],
        vec![],
        span,
    ))
}

/// A prototype `void <name>(<parameters>)`.
fn prototype(name: &str, parameters: Vec<CParameterDeclaration>, span: usize) -> CExternalDeclaration {
    CExternalDeclaration::ExtDeclaration(declaration(
        vec![spec_other()],
        vec![init_decl(
            CDeclarator {
                kind: CDeclaratorKind::DeclIdentifier(ident(name, span)),
                derived: vec![CDerivedDeclarator::FunctionDecl(CFunctionDeclarator {
                    parameters,
                })],
            },
            None,
            span,
        )],
        span,
    ))
}

/// A definition of a function `<name>` with no parameters and the given
/// body items.
fn function(name: &str, body: Vec<CBlockItem>, span: usize) -> CExternalDeclaration {
    CExternalDeclaration::ExtFunction(CFunctionDefinition {
        specifiers: vec![spec_other()],
        declarator: CDeclarator {
            kind: CDeclaratorKind::DeclIdentifier(ident(name, span)),
            derived: vec![CDerivedDeclarator::FunctionDecl(CFunctionDeclarator {
                parameters: vec![],
            })],
        },
        declarations: vec![],
        body: compound(body, span),
        span,
    })
}

fn run(items: Vec<CExternalDeclaration>) -> BorrowChecker {
    let mut c = BorrowChecker::new(
        vec!["f".to_string()],
        String::new(),
        false,
        PrintType::ErrorOnly,
        PrintType::ErrorOnly,
    );
    c.visit_translation_unit(&CTranslationUnit { items });
    c
}

fn errors(c: &BorrowChecker) -> Vec<Diagnostic> {
    c.diagnostics.iter().filter(|d| d.is_error()).cloned().collect()
}

#[test]
fn simple_move_reports_use_of_moved_value() {
    let unit = vec![
        struct_definition(
            "S",
            vec![("a", vec![CSpecifierQualifier::SqTypeSpecifier(CTypeSpecifier::OtherType)])],
            1,
        ),
        prototype(
            "use",
            vec![CParameterDeclaration {
                specifiers: vec![spec_struct("S", 2)],
                declarator: Some(dtor("s", 2)),
            }],
            2,
        ),
        function(
            "f",
            vec![
                decl_item(vec![spec_struct("S", 10)], vec![init_decl(dtor("s1", 10), None, 10)], 10),
                decl_item(
                    vec![spec_struct("S", 20)],
                    vec![init_decl(dtor("s2", 20), Some(e_id("s1", 20)), 20)],
                    20,
                ),
                CBlockItem::Statement(stmt_expr(e_call("use", vec![e_id("s1", 30)], 30), 30)),
            ],
            5,
        ),
    ];
    let c = run(unit);
    let errs = errors(&c);
    assert!(!errs.is_empty());
    assert!(errs.iter().all(|d| matches!(
        d,
        Diagnostic::UseOfMoved { name, offset: 30 } if name == "s1"
    )));
}

#[test]
fn shared_borrow_invalidates_mutable_reference() {
    // int x; int *p = &x; const int *q = &x; *p;
    let unit = vec![function(
        "f",
        vec![
            decl_item(vec![spec_other()], vec![init_decl(dtor("x", 1), None, 1)], 1),
            decl_item(
                vec![spec_other()],
                vec![init_decl(
                    dtor_ptr("p", 2),
                    Some(e_unary(CUnaryOp::Address, e_id("x", 2), 2)),
                    2,
                )],
                2,
            ),
            decl_item(
                vec![CDeclarationSpecifier::DsConst, spec_other()],
                vec![init_decl(
                    dtor_ptr("q", 3),
                    Some(e_unary(CUnaryOp::Address, e_id("x", 3), 3)),
                    3,
                )],
                3,
            ),
            CBlockItem::Statement(stmt_expr(
                e_unary(CUnaryOp::Indirection, e_id("p", 4), 4),
                4,
            )),
        ],
        0,
    )];
    let c = run(unit);
    let errs = errors(&c);
    assert_eq!(errs.len(), 1);
    assert_eq!(
        errs[0],
        Diagnostic::InvalidRef {
            name: "p".to_string(),
            target: "x".to_string(),
            mutable: true,
            offset: 4
        }
    );
}

#[test]
fn dangling_reference_is_reported_at_the_dereference() {
    // int *p; { int x; p = &x; } *p;
    let unit = vec![function(
        "f",
        vec![
            decl_item(vec![spec_other()], vec![init_decl(dtor_ptr("p", 1), None, 1)], 1),
            CBlockItem::Statement(compound(
                vec![
                    decl_item(vec![spec_other()], vec![init_decl(dtor("x", 2), None, 2)], 2),
                    CBlockItem::Statement(stmt_expr(
                        e_assign(
                            e_id("p", 3),
                            e_unary(CUnaryOp::Address, e_id("x", 3), 3),
                            3,
                        ),
                        3,
                    )),
                ],
                2,
            )),
            CBlockItem::Statement(stmt_expr(
                e_unary(CUnaryOp::Indirection, e_id("p", 9), 9),
                9,
            )),
        ],
        0,
    )];
    let c = run(unit);
    let errs = errors(&c);
    assert_eq!(errs.len(), 1);
    assert_eq!(
        errs[0],
        Diagnostic::RefOutOfScope {
            name: "p".to_string(),
            target: "x".to_string(),
            mutable: true,
            offset: 9
        }
    );
}

#[test]
fn a_branch_that_moves_pessimizes_the_join() {
    // int c; struct S s; if (c) { struct S t = s; } s;
    let unit = vec![
        struct_definition(
            "S",
            vec![("a", vec![CSpecifierQualifier::SqTypeSpecifier(CTypeSpecifier::OtherType)])],
            1,
        ),
        function(
            "f",
            vec![
                decl_item(vec![spec_other()], vec![init_decl(dtor("c", 2), None, 2)], 2),
                decl_item(vec![spec_struct("S", 3)], vec![init_decl(dtor("s", 3), None, 3)], 3),
                CBlockItem::Statement(CStatement::If(Box::new(CIfStatement {
                    condition: e_id("c", 4),
                    then_branch: compound(
                        vec![decl_item(
                            vec![spec_struct("S", 5)],
                            vec![init_decl(dtor("t", 5), Some(e_id("s", 5)), 5)],
                            5,
                        )],
                        5,
                    ),
                    else_branch: None,
                    span: 4,
                }))),
                CBlockItem::Statement(stmt_expr(e_id("s", 8), 8)),
            ],
            0,
        ),
    ];
    let c = run(unit);
    let errs = errors(&c);
    assert_eq!(errs.len(), 1);
    assert_eq!(
        errs[0],
        Diagnostic::UseOfMoved { name: "s".to_string(), offset: 8 }
    );
}

#[test]
fn struct_member_move_cascades_to_the_member() {
    // struct A; struct S { struct A a; }; f: struct S s; struct S other;
    // s.a = other.a; other.a;
    let unit = vec![
        struct_definition(
            "A",
            vec![("v", vec![CSpecifierQualifier::SqTypeSpecifier(CTypeSpecifier::OtherType)])],
            1,
        ),
        struct_definition(
            "S",
            vec![(
                "a",
                vec![CSpecifierQualifier::SqTypeSpecifier(CTypeSpecifier::StructType(
                    CStructType { identifier: Some(ident("A", 1)), declarations: None },
                ))],
            )],
            1,
        ),
        function(
            "f",
            vec![
                decl_item(vec![spec_struct("S", 2)], vec![init_decl(dtor("s", 2), None, 2)], 2),
                decl_item(
                    vec![spec_struct("S", 3)],
                    vec![init_decl(dtor("other", 3), None, 3)],
                    3,
                ),
                CBlockItem::Statement(stmt_expr(
                    e_assign(
                        e_member(e_id("s", 4), "a", 4),
                        e_member(e_id("other", 4), "a", 4),
                        4,
                    ),
                    4,
                )),
                CBlockItem::Statement(stmt_expr(e_member(e_id("other", 7), "a", 7), 7)),
            ],
            0,
        ),
    ];
    let c = run(unit);
    let errs = errors(&c);
    assert_eq!(errs.len(), 1);
    assert_eq!(
        errs[0],
        Diagnostic::UseOfMoved { name: "other.a".to_string(), offset: 7 }
    );
}

#[test]
fn pointer_kind_mismatch_is_reported_on_assignment() {
    // int *mp; const int *cp = mp;
    let unit = vec![function(
        "f",
        vec![
            decl_item(vec![spec_other()], vec![init_decl(dtor_ptr("mp", 1), None, 1)], 1),
            decl_item(
                vec![CDeclarationSpecifier::DsConst, spec_other()],
                vec![init_decl(dtor_ptr("cp", 2), Some(e_id("mp", 2)), 2)],
                2,
            ),
        ],
        0,
    )];
    let c = run(unit);
    let errs = errors(&c);
    assert_eq!(errs.len(), 1);
    assert_eq!(
        errs[0],
        Diagnostic::MutToConstMove {
            from: "mp".to_string(),
            to: "cp".to_string(),
            offset: 2
        }
    );
}

#[test]
fn a_valid_reference_reports_nothing() {
    // int x; int *p = &x; *p;
    let unit = vec![function(
        "f",
        vec![
            decl_item(vec![spec_other()], vec![init_decl(dtor("x", 1), None, 1)], 1),
            decl_item(
                vec![spec_other()],
                vec![init_decl(
                    dtor_ptr("p", 2),
                    Some(e_unary(CUnaryOp::Address, e_id("x", 2), 2)),
                    2,
                )],
                2,
            ),
            CBlockItem::Statement(stmt_expr(
                e_unary(CUnaryOp::Indirection, e_id("p", 3), 3),
                3,
            )),
        ],
        0,
    )];
    let c = run(unit);
    assert!(errors(&c).is_empty());
}

#[test]
fn unknown_function_is_reported_and_arguments_pessimized() {
    // int x; int *p = &x; g(&x); *p;
    let unit = vec![function(
        "f",
        vec![
            decl_item(vec![spec_other()], vec![init_decl(dtor("x", 1), None, 1)], 1),
            decl_item(
                vec![spec_other()],
                vec![init_decl(
                    dtor_ptr("p", 2),
                    Some(e_unary(CUnaryOp::Address, e_id("x", 2), 2)),
                    2,
                )],
                2,
            ),
            CBlockItem::Statement(stmt_expr(
                e_call("g", vec![e_unary(CUnaryOp::Address, e_id("x", 3), 3)], 3),
                3,
            )),
            CBlockItem::Statement(stmt_expr(
                e_unary(CUnaryOp::Indirection, e_id("p", 4), 4),
                4,
            )),
        ],
        0,
    )];
    let c = run(unit);
    assert!(c
        .diagnostics
        .contains(&Diagnostic::UndeclaredFunction { name: "g".to_string() }));
    let errs = errors(&c);
    assert_eq!(errs.len(), 1);
    assert_eq!(
        errs[0],
        Diagnostic::InvalidRef {
            name: "p".to_string(),
            target: "x".to_string(),
            mutable: true,
            offset: 4
        }
    );
}

#[test]
fn moving_out_from_behind_a_reference_is_reported() {
    // struct S s; struct S *sp = &s; struct S t; t = *sp;
    let unit = vec![
        struct_definition(
            "S",
            vec![("a", vec![CSpecifierQualifier::SqTypeSpecifier(CTypeSpecifier::OtherType)])],
            1,
        ),
        function(
            "f",
            vec![
                decl_item(vec![spec_struct("S", 2)], vec![init_decl(dtor("s", 2), None, 2)], 2),
                decl_item(
                    vec![spec_struct("S", 3)],
                    vec![init_decl(
                        dtor_ptr("sp", 3),
                        Some(e_unary(CUnaryOp::Address, e_id("s", 3), 3)),
                        3,
                    )],
                    3,
                ),
                decl_item(vec![spec_struct("S", 4)], vec![init_decl(dtor("t", 4), None, 4)], 4),
                CBlockItem::Statement(stmt_expr(
                    e_assign(
                        e_id("t", 5),
                        e_unary(CUnaryOp::Indirection, e_id("sp", 5), 5),
                        5,
                    ),
                    5,
                )),
            ],
            0,
        ),
    ];
    let c = run(unit);
    let errs = errors(&c);
    assert_eq!(errs.len(), 1);
    assert_eq!(
        errs[0],
        Diagnostic::MoveBehindRef { name: "s".to_string(), offset: 5 }
    );
}

#[test]
fn a_loop_body_is_walked_like_any_block() {
    // int c; struct S s; while (c) { struct S t = s; } s;
    let unit = vec![
        struct_definition(
            "S",
            vec![("a", vec![CSpecifierQualifier::SqTypeSpecifier(CTypeSpecifier::OtherType)])],
            1,
        ),
        function(
            "f",
            vec![
                decl_item(vec![spec_other()], vec![init_decl(dtor("c", 2), None, 2)], 2),
                decl_item(vec![spec_struct("S", 3)], vec![init_decl(dtor("s", 3), None, 3)], 3),
                CBlockItem::Statement(CStatement::While(Box::new(CWhileStatement {
                    condition: e_id("c", 4),
                    body: compound(
                        vec![decl_item(
                            vec![spec_struct("S", 5)],
                            vec![init_decl(dtor("t", 5), Some(e_id("s", 5)), 5)],
                            5,
                        )],
                        5,
                    ),
                    span: 4,
                }))),
                CBlockItem::Statement(stmt_expr(e_id("s", 8), 8)),
            ],
            0,
        ),
    ];
    let c = run(unit);
    let errs = errors(&c);
    assert_eq!(errs.len(), 1);
    assert_eq!(
        errs[0],
        Diagnostic::UseOfMoved { name: "s".to_string(), offset: 8 }
    );
}

