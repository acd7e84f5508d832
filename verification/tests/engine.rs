//! Engine-level checks: ownership changes, borrow wiring, and the branch
//! join, driven directly through the checker's public operations.

use c_borrow_checker::checker::{BorrowChecker, PrintType};
use c_borrow_checker::diagnostics::Diagnostic;
use c_borrow_checker::variable::{Id, VarType, Variable};

fn fresh_checker(source: &str) -> BorrowChecker {
    BorrowChecker::new(
        Vec::new(),
        source.to_string(),
        false,
        PrintType::ErrorOnly,
        PrintType::ErrorOnly,
    )
}

fn lookup<'a>(c: &'a BorrowChecker, scope: usize, name: &str) -> &'a Variable {
    let frame = &c.scopes[scope];
    let n = frame.vars.len();
    let mut i = 0;
    while i < n {
        if frame.vars[i].id.name == name {
            return &frame.vars[i];
        }
        i += 1;
    }
    panic!("variable {} not found in scope {}", name, scope);
}

#[test]
fn move_clears_both_reverse_edge_sets() {
    let mut c = fresh_checker("struct S s;\n");
    let mut s = Variable::new("s".to_string(), 0, VarType::Owner("S".to_string(), true));
    s.const_refs.insert(Id { name: "p".to_string(), scope: 0 });
    s.mut_refs.insert(Id { name: "q".to_string(), scope: 0 });
    c.put_var(s);
    c.set_ownership("s".to_string(), false, 0);
    let after = lookup(&c, 0, "s");
    assert!(after.const_refs.is_empty());
    assert!(after.mut_refs.is_empty());
    assert!(matches!(after.var_type, VarType::Owner(_, false)));
    assert_eq!(c.diagnostics.len(), 0);
}

#[test]
fn repeated_move_reports_exactly_one_more_use_of_moved() {
    let mut c = fresh_checker("struct S s;\n");
    let s = Variable::new("s".to_string(), 0, VarType::Owner("S".to_string(), true));
    c.put_var(s);
    c.set_ownership("s".to_string(), false, 3);
    assert_eq!(c.diagnostics.len(), 0);
    let before = c.diagnostics.len();
    c.set_ownership("s".to_string(), false, 7);
    assert_eq!(c.diagnostics.len(), before + 1);
    assert_eq!(
        c.diagnostics[before],
        Diagnostic::UseOfMoved { name: "s".to_string(), offset: 7 }
    );
}

#[test]
fn set_ownership_ignores_null() {
    let mut c = fresh_checker("x = NULL;\n");
    c.set_ownership("NULL".to_string(), false, 0);
    assert_eq!(c.diagnostics.len(), 0);
    assert_eq!(c.scopes[0].vars.len(), 0);
}

#[test]
fn mutable_borrow_is_exclusive() {
    let mut c = fresh_checker("int x; int *p;\n");
    let mut x = Variable::new("x".to_string(), 0, VarType::Copy);
    x.const_refs.insert(Id { name: "old_shared".to_string(), scope: 0 });
    c.put_var(x);
    let p = Variable::new(
        "p".to_string(),
        0,
        VarType::MutRef(c_borrow_checker::variable::IdSet::new()),
    );
    c.put_var(p);
    let x_id = c.get_id("x");
    let p_id = c.get_id("p");
    c.clear_points_to(&p_id);
    c.add_mut_ref(&x_id, &p_id);
    let x_after = lookup(&c, 0, "x");
    assert!(x_after.const_refs.is_empty());
    assert_eq!(x_after.mut_refs.len(), 1);
    assert!(x_after.mut_refs.contains(&p_id));
}

#[test]
fn shared_borrow_clears_only_mutable_borrows() {
    let mut c = fresh_checker("int x; const int *q;\n");
    let mut x = Variable::new("x".to_string(), 0, VarType::Copy);
    x.const_refs.insert(Id { name: "a".to_string(), scope: 0 });
    x.mut_refs.insert(Id { name: "b".to_string(), scope: 0 });
    c.put_var(x);
    let q = Variable::new(
        "q".to_string(),
        0,
        VarType::ConstRef(c_borrow_checker::variable::IdSet::new()),
    );
    c.put_var(q);
    let x_id = c.get_id("x");
    let q_id = c.get_id("q");
    c.add_const_ref(&x_id, &q_id);
    let x_after = lookup(&c, 0, "x");
    assert!(x_after.mut_refs.is_empty());
    assert_eq!(x_after.const_refs.len(), 2);
    assert!(x_after.const_refs.contains(&q_id));
}

#[test]
fn merging_a_snapshot_of_itself_changes_nothing() {
    let mut c = BorrowChecker::new(
        Vec::new(),
        "struct S s; int *p;\n".to_string(),
        true,
        PrintType::ErrorOnly,
        PrintType::ErrorOnly,
    );
    let s = Variable::new("s".to_string(), 0, VarType::Owner("S".to_string(), false));
    c.put_var(s);
    let mut pset = c_borrow_checker::variable::IdSet::new();
    pset.insert(Id { name: "s".to_string(), scope: 0 });
    let p = Variable::new("p".to_string(), 0, VarType::MutRef(pset));
    c.put_var(p);
    let before_ownership = c.print_ownership();
    let before_references = c.print_references();
    let snap = c.snapshot_scopes();
    c.merge_scopes(&snap);
    assert_eq!(c.print_ownership(), before_ownership);
    assert_eq!(c.print_references(), before_references);
}

#[test]
fn kind_mismatch_copy_reports_and_coerces() {
    let mut c = fresh_checker("int *mp; const int *cp;\n");
    let mp = Variable::new(
        "mp".to_string(),
        0,
        VarType::MutRef(c_borrow_checker::variable::IdSet::new()),
    );
    c.put_var(mp);
    let cp = Variable::new(
        "cp".to_string(),
        0,
        VarType::ConstRef(c_borrow_checker::variable::IdSet::new()),
    );
    c.put_var(cp);
    let cp_id = c.get_id("cp");
    let mp_id = c.get_id("mp");
    c.copy_points_to(&cp_id, &mp_id, 11);
    assert_eq!(c.diagnostics.len(), 1);
    assert_eq!(
        c.diagnostics[0],
        Diagnostic::MutToConstMove {
            from: "mp".to_string(),
            to: "cp".to_string(),
            offset: 11
        }
    );
}

#[test]
fn parameter_pointer_gets_a_placeholder() {
    let mut c = fresh_checker("void f(struct S *p);\n");
    // Remember a struct name the way a pointer declaration would.
    c.previous_struct_name = "S".to_string();
    let p = Variable::new(
        "p".to_string(),
        0,
        VarType::MutRef(c_borrow_checker::variable::IdSet::new()),
    );
    c.put_var(p);
    c.declare_unknown_global(
        "p",
        VarType::MutRef(c_borrow_checker::variable::IdSet::new()),
        true,
    );
    let placeholder = lookup(&c, 0, "?p");
    assert!(matches!(&placeholder.var_type, VarType::Owner(n, true) if n == "S"));
    assert_eq!(placeholder.mut_refs.len(), 1);
    let p_after = lookup(&c, 0, "p");
    match &p_after.var_type {
        VarType::MutRef(points) => {
            assert_eq!(points.len(), 1);
            assert_eq!(points.get(0).name, "?p");
        }
        other => panic!("unexpected type {:?}", std::mem::discriminant(other)),
    }
}

#[test]
fn const_to_mutable_copy_reports_the_other_direction() {
    let mut c = fresh_checker("const int *cp; int *mp;\n");
    let cp = Variable::new(
        "cp".to_string(),
        0,
        VarType::ConstRef(c_borrow_checker::variable::IdSet::new()),
    );
    c.put_var(cp);
    let mp = Variable::new(
        "mp".to_string(),
        0,
        VarType::MutRef(c_borrow_checker::variable::IdSet::new()),
    );
    c.put_var(mp);
    let mp_id = c.get_id("mp");
    let cp_id = c.get_id("cp");
    c.copy_points_to(&mp_id, &cp_id, 5);
    assert_eq!(
        c.diagnostics,
        vec![Diagnostic::ConstToMutMove {
            from: "cp".to_string(),
            to: "mp".to_string(),
            offset: 5
        }]
    );
}

#[test]
fn a_reference_to_no_value_is_reported_when_used() {
    let mut c = fresh_checker("int *p; *p;\n");
    let p = Variable::new(
        "p".to_string(),
        0,
        VarType::MutRef(c_borrow_checker::variable::IdSet::new()),
    );
    c.put_var(p);
    c.announce_invalid_reference("p".to_string(), 9);
    assert_eq!(
        c.diagnostics,
        vec![Diagnostic::RefToNoValue { name: "p".to_string(), mutable: true, offset: 9 }]
    );
}

#[test]
fn a_member_of_an_unknown_struct_type_is_reported() {
    let mut c = fresh_checker("struct Nowhere s; s.f;\n");
    let s = Variable::new(
        "s".to_string(),
        0,
        VarType::Owner("Nowhere".to_string(), true),
    );
    c.put_var(s);
    let vt = c.get_member_var_type("s.f");
    assert!(matches!(vt, VarType::Copy));
    assert_eq!(
        c.diagnostics,
        vec![Diagnostic::UnknownStructType { name: "Nowhere".to_string() }]
    );
}

