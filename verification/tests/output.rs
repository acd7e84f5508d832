//! Output-side checks: the per-statement dump format and the mapping from
//! diagnostic offsets to source lines.

use c_borrow_checker::checker::{BorrowChecker, PrintType};
use c_borrow_checker::diagnostics::Diagnostic;
use c_borrow_checker::ast::{
    CBlockItem, CCompound, CDeclaration, CDeclarationSpecifier, CDeclarator, CDeclaratorKind,
    CDerivedDeclarator, CExternalDeclaration, CFunctionDeclarator, CFunctionDefinition,
    CIdentifier, CInitDeclarator, CStatement, CTranslationUnit, CTypeSpecifier,
};
use c_borrow_checker::variable::{Id, IdSet, VarType, Variable};

fn checker_with_globals(source: &str) -> BorrowChecker {
    BorrowChecker::new(
        Vec::new(),
        source.to_string(),
        true,
        PrintType::ErrorOnly,
        PrintType::ErrorOnly,
    )
}

#[test]
fn ownership_dump_prints_owner_flags_and_bare_names() {
    let mut c = checker_with_globals("");
    c.put_var(Variable::new("x".to_string(), 0, VarType::Owner("S".to_string(), true)));
    c.put_var(Variable::new("y".to_string(), 0, VarType::Copy));
    c.put_var(Variable::new("z".to_string(), 0, VarType::Owner("S".to_string(), false)));
    assert_eq!(c.print_ownership(), "[{x:1, y, z:0}]");
}

#[test]
fn reference_dump_prints_edges_in_both_directions() {
    let mut c = checker_with_globals("");
    let mut x = Variable::new("x".to_string(), 0, VarType::Copy);
    x.const_refs.insert(Id { name: "a".to_string(), scope: 0 });
    x.mut_refs.insert(Id { name: "p".to_string(), scope: 0 });
    c.put_var(x);
    let mut pset = IdSet::new();
    pset.insert(Id { name: "x".to_string(), scope: 0 });
    c.put_var(Variable::new("p".to_string(), 0, VarType::MutRef(pset)));
    let mut qset = IdSet::new();
    qset.insert(Id { name: "x".to_string(), scope: 0 });
    c.put_var(Variable::new("q".to_string(), 0, VarType::ConstRef(qset)));
    assert_eq!(c.print_references(), "[{{a},{p}'->x; p'->{x}; q->{x}}]");
}

#[test]
fn empty_stack_dump_is_just_the_global_frame() {
    let c = checker_with_globals("");
    assert_eq!(c.print_ownership(), "[{}]");
}

#[test]
fn diagnostic_offsets_map_to_source_lines() {
    let c = checker_with_globals("int x;\nint y;\nint z;\n");
    let on_line_two = Diagnostic::UseOfMoved { name: "y".to_string(), offset: 8 };
    assert_eq!(c.diagnostic_line(&on_line_two), Some(2));
    let on_line_one = Diagnostic::UseOfMoved { name: "x".to_string(), offset: 0 };
    assert_eq!(c.diagnostic_line(&on_line_one), Some(1));
    let no_line = Diagnostic::UndeclaredFunction { name: "g".to_string() };
    assert_eq!(c.diagnostic_line(&no_line), None);
    let past_the_end = Diagnostic::UseOfMoved { name: "z".to_string(), offset: 1000 };
    assert_eq!(c.diagnostic_line(&past_the_end), Some(4));
}

#[test]
fn dump_mode_interleaves_state_dumps_with_the_walk() {
    let mut c = BorrowChecker::new(
        vec!["f".to_string()],
        String::new(),
        false,
        PrintType::Ownership,
        PrintType::ErrorOnly,
    );
    let unit = CTranslationUnit {
        items: vec![CExternalDeclaration::ExtFunction(CFunctionDefinition {
            specifiers: vec![CDeclarationSpecifier::DsTypeSpecifier(CTypeSpecifier::OtherType)],
            declarator: CDeclarator {
                kind: CDeclaratorKind::DeclIdentifier(CIdentifier {
                    name: "f".to_string(),
                    span: 0,
                }),
                derived: vec![CDerivedDeclarator::FunctionDecl(CFunctionDeclarator {
                    parameters: vec![],
                })],
            },
            declarations: vec![],
            body: CStatement::Compound(CCompound {
                items: vec![CBlockItem::Declaration(CDeclaration {
                    specifiers: vec![CDeclarationSpecifier::DsTypeSpecifier(
                        CTypeSpecifier::OtherType,
                    )],
                    declarators: vec![CInitDeclarator {
                        declarator: CDeclarator {
                            kind: CDeclaratorKind::DeclIdentifier(CIdentifier {
                                name: "x".to_string(),
                                span: 7,
                            }),
                            derived: vec![],
                        },
                        initializer: None,
                        span: 7,
                    }],
                    span: 7,
                })],
                span: 0,
            }),
            span: 0,
        })],
    };
    c.visit_translation_unit(&unit);
    let dumps: Vec<&Diagnostic> = c
        .diagnostics
        .iter()
        .filter(|d| matches!(d, Diagnostic::StateDump { .. }))
        .collect();
    assert_eq!(dumps.len(), 2);
    assert!(matches!(dumps[0], Diagnostic::StateDump { offset: 7, text } if text == "[{}]"));
    assert!(matches!(dumps[1], Diagnostic::StateDump { offset: 7, text } if text == "[{x}]"));
}

#[test]
fn trace_dump_and_resolution_reports_are_not_errors() {
    assert!(!Diagnostic::UnresolvedMember { name: "m".to_string() }.is_error());
    assert!(!Diagnostic::NotAnOwner { name: "x".to_string() }.is_error());
    assert!(!Diagnostic::UnknownStructType { name: "S".to_string() }.is_error());
    assert!(!Diagnostic::UnknownField { name: "s.f".to_string() }.is_error());
    assert!(!Diagnostic::UndeclaredFunction { name: "g".to_string() }.is_error());
    assert!(!Diagnostic::MadeLive { name: "x".to_string(), offset: 1 }.is_error());
    assert!(Diagnostic::UseOfMoved { name: "x".to_string(), offset: 1 }.is_error());
    assert!(Diagnostic::MoveBehindRef { name: "x".to_string(), offset: 1 }.is_error());
}

#[test]
fn line_lookup_declines_texts_with_long_digit_runs() {
    // Nine consecutive digits could come from a `#line` directive naming a
    // number near the integer limit; such texts get no line numbers.
    assert_eq!(c_borrow_checker::lines::line_for_offset("a123456789b", 3), 0);
    // Eight digits in a run are fine.
    assert_eq!(c_borrow_checker::lines::line_for_offset("a12345678b\ncd", 12), 2);
    assert_eq!(c_borrow_checker::lines::line_for_offset("ab\ncd", 4), 2);
}
