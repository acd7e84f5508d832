//! Member typing, typedef aliases, trace events, and scope resolution.

use c_borrow_checker::ast::{
    CDeclaration, CDeclarationSpecifier, CDeclarator, CDeclaratorKind, CExpression, CIdentifier,
    CMemberExpr, CSpecifierQualifier, CStructDeclarator, CStructField, CStructType,
    CTypeSpecifier,
};
use c_borrow_checker::checker::{BorrowChecker, PrintType};
use c_borrow_checker::diagnostics::Diagnostic;
use c_borrow_checker::variable::{IdSet, VarType, Variable};

fn ident(name: &str) -> CIdentifier {
    CIdentifier { name: name.to_string(), span: 0 }
}

fn quiet(source: &str) -> BorrowChecker {
    BorrowChecker::new(
        Vec::new(),
        source.to_string(),
        false,
        PrintType::ErrorOnly,
        PrintType::ErrorOnly,
    )
}

/// `typedef struct S { struct A a; int n; } alias;` as one declaration.
fn struct_with_alias() -> CDeclaration {
    CDeclaration {
        specifiers: vec![
            CDeclarationSpecifier::DsTypedef,
            CDeclarationSpecifier::DsTypeSpecifier(CTypeSpecifier::StructType(CStructType {
                identifier: Some(ident("S")),
                declarations: Some(vec![
                    CStructField {
                        specifiers: vec![CSpecifierQualifier::SqTypeSpecifier(
                            CTypeSpecifier::StructType(CStructType {
                                identifier: Some(ident("A")),
                                declarations: None,
                            }),
                        )],
                        declarators: vec![CStructDeclarator {
                            declarator: Some(CDeclarator {
                                kind: CDeclaratorKind::DeclIdentifier(ident("a")),
                                derived: vec![],
                            }),
                        }],
                    },
                    CStructField {
                        specifiers: vec![CSpecifierQualifier::SqTypeSpecifier(
                            CTypeSpecifier::OtherType,
                        )],
                        declarators: vec![CStructDeclarator {
                            declarator: Some(CDeclarator {
                                kind: CDeclaratorKind::DeclIdentifier(ident("n")),
                                derived: vec![],
                            }),
                        }],
                    },
                ]),
            })),
        ],
        declarators: vec![c_borrow_checker::ast::CInitDeclarator {
            declarator: CDeclarator {
                kind: CDeclaratorKind::DeclIdentifier(ident("alias")),
                derived: vec![],
            },
            initializer: None,
            span: 0,
        }],
        span: 0,
    }
}

#[test]
fn struct_layouts_are_stored_under_every_alias() {
    let mut c = quiet("");
    c.add_struct(&struct_with_alias());
    assert!(c.structs.contains("S"));
    assert!(c.structs.contains("alias"));
    assert!(!c.structs.contains("A"));
}

#[test]
fn member_paths_draw_their_type_from_the_parent_layout() {
    let mut c = quiet("");
    c.add_struct(&struct_with_alias());
    c.put_var(Variable::new("s".to_string(), 0, VarType::Owner("alias".to_string(), true)));
    let owner_field = c.get_member_var_type("s.a");
    assert!(matches!(owner_field, VarType::Owner(n, true) if n == "A"));
    let copy_field = c.get_member_var_type("s.n");
    assert!(matches!(copy_field, VarType::Copy));
    assert!(c.diagnostics.is_empty());
}

#[test]
fn a_missing_field_falls_back_to_copy_with_a_report() {
    let mut c = quiet("");
    c.add_struct(&struct_with_alias());
    c.put_var(Variable::new("s".to_string(), 0, VarType::Owner("S".to_string(), true)));
    let vt = c.get_member_var_type("s.zzz");
    assert!(matches!(vt, VarType::Copy));
    assert_eq!(
        c.diagnostics.last(),
        Some(&Diagnostic::UnknownField { name: "s.zzz".to_string() })
    );
}

#[test]
fn an_undotted_unknown_name_is_reported_as_unresolved() {
    let mut c = quiet("");
    let vt = c.get_member_var_type("mystery");
    assert!(matches!(vt, VarType::Copy));
    assert_eq!(
        c.diagnostics.last(),
        Some(&Diagnostic::UnresolvedMember { name: "mystery".to_string() })
    );
}

#[test]
fn a_parent_that_is_no_owner_is_reported() {
    let mut c = quiet("");
    c.put_var(Variable::new("x".to_string(), 0, VarType::Copy));
    let vt = c.get_member_var_type("x.f");
    assert!(matches!(vt, VarType::Copy));
    assert_eq!(
        c.diagnostics.last(),
        Some(&Diagnostic::NotAnOwner { name: "x".to_string() })
    );
}

#[test]
fn ownership_trace_events_follow_the_event_mode() {
    let mut c = BorrowChecker::new(
        Vec::new(),
        String::new(),
        false,
        PrintType::ErrorOnly,
        PrintType::Ownership,
    );
    c.put_var(Variable::new("s".to_string(), 0, VarType::Owner("S".to_string(), true)));
    c.set_ownership("s".to_string(), false, 1);
    c.set_ownership("s".to_string(), true, 2);
    assert_eq!(
        c.diagnostics,
        vec![
            Diagnostic::Killed { name: "s".to_string(), offset: 1 },
            Diagnostic::MadeLive { name: "s".to_string(), offset: 2 },
        ]
    );
}

#[test]
fn names_resolve_to_the_innermost_scope_that_declares_them() {
    let mut c = quiet("");
    c.put_var(Variable::new("x".to_string(), 0, VarType::Copy));
    c.push_scope();
    assert_eq!(c.get_scope_number("x"), 0);
    c.put_var(Variable::new("x".to_string(), 1, VarType::Copy));
    assert_eq!(c.get_scope_number("x"), 1);
    assert_eq!(c.get_scope_number("x.field"), 1);
    assert_eq!(c.get_scope_number("never_declared"), 0);
    let id = c.get_id("x");
    assert_eq!(id.scope, 1);
    assert_eq!(id.name, "x");
}

#[test]
fn moving_a_whole_struct_moves_its_member_paths_too() {
    let mut c = quiet("");
    c.add_struct(&struct_with_alias());
    c.put_var(Variable::new("s".to_string(), 0, VarType::Owner("S".to_string(), true)));
    c.put_var(Variable::new("s.a".to_string(), 0, VarType::Owner("A".to_string(), true)));
    c.set_all_ownership("s".to_string(), false, 4);
    assert!(c.diagnostics.is_empty());
    // Reading the member path afterwards is a use of a moved value.
    c.announce_no_ownership("s.a".to_string(), 6);
    assert_eq!(
        c.diagnostics,
        vec![Diagnostic::UseOfMoved { name: "s.a".to_string(), offset: 6 }]
    );
}

#[test]
fn moving_a_struct_also_moves_its_placeholder_members() {
    let mut c = quiet("");
    c.put_var(Variable::new("s".to_string(), 0, VarType::Owner("S".to_string(), true)));
    c.put_var(Variable::new(
        "?s.next".to_string(),
        0,
        VarType::Owner("S".to_string(), true),
    ));
    c.set_all_ownership("s".to_string(), false, 2);
    c.announce_no_ownership("?s.next".to_string(), 5);
    assert_eq!(
        c.diagnostics,
        vec![Diagnostic::UseOfMoved { name: "?s.next".to_string(), offset: 5 }]
    );
}


#[test]
fn borrowing_a_member_path_borrows_the_root_aggregate() {
    let mut c = quiet("");
    c.put_var(Variable::new("s".to_string(), 0, VarType::Owner("S".to_string(), true)));
    c.put_var(Variable::new("p".to_string(), 0, VarType::MutRef(IdSet::new())));
    c.put_var(Variable::new("q".to_string(), 0, VarType::MutRef(IdSet::new())));
    let member = CExpression::Member(Box::new(CMemberExpr {
        base: CExpression::Identifier(ident("s")),
        field: ident("a"),
        span: 3,
    }));
    c.reference_from_address("p".to_string(), &member);
    // `p` now borrows the root aggregate `s`, and `s` records it.
    c.announce_invalid_reference("p".to_string(), 4);
    assert!(c.diagnostics.is_empty());
    // A second mutable borrow of `s` displaces `p`.
    c.reference_from_address("q".to_string(), &CExpression::Identifier(ident("s")));
    c.announce_invalid_reference("p".to_string(), 5);
    assert_eq!(
        c.diagnostics,
        vec![Diagnostic::InvalidRef {
            name: "p".to_string(),
            target: "s".to_string(),
            mutable: true,
            offset: 5,
        }]
    );
}
