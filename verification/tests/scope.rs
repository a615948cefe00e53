use lox::vm::{LexicalScope, UpvalueRef};

#[test]
fn test_blocks() {
    let mut scope = LexicalScope::root();
    scope.enter_block();
    scope.new_local("y");
    scope.enter_block();
    scope.new_local("z");
    scope.new_local("y");
    assert_eq!(scope.iter_locals_in_block_rev(), vec![("y", false), ("z", false)]);
}

#[test]
fn test_is_already_defined() {
    let mut scope = LexicalScope::root();
    scope.enter_block();
    scope.new_local("x");
    assert_eq!(scope.is_already_declared("x"), true);
    scope.enter_block();
    scope.new_local("y");
    assert_eq!(scope.is_already_declared("x"), false);
    assert_eq!(scope.is_already_declared("y"), true);
}

#[test]
fn test_root_scope_locals() {
    let mut scope = LexicalScope::root();
    assert_eq!(scope.new_local("x"), 0);
    scope.enter_block();
    assert_eq!(scope.new_local("y"), 1);
    assert_eq!(scope.new_local("x"), 2);
    assert_eq!(Some(2), scope.resolve_local("x"));

    scope.function_decl("some_fun", &["a", "b"]);
    assert_eq!(scope.new_local("x"), 3);
    assert_eq!(Some(0), scope.resolve_local("some_fun"));
    assert_eq!(Some(3), scope.resolve_local("x"));
    assert_eq!(None, scope.resolve_local("y"));
    assert_eq!(Some(1), scope.resolve_local("a"));
    scope.leave_function();
    scope.leave_block();
    assert_eq!(Some(0), scope.resolve_local("x"));
}

#[test]
fn test_upvalues_nesting() {
    let mut scope = LexicalScope::root();
    scope.enter_block();
    scope.new_local("b");
    scope.function_decl("f1", &["x"]);
    scope.function_decl("inner", &["y"]);
    assert_eq!(scope.resolve_upvalue("x"), Some((0, UpvalueRef::Local(1))));
    scope.leave_function();
    assert_eq!(scope.upvalues.iter().cloned().collect::<Vec<_>>(), vec![]);
    scope.leave_function();
    assert_eq!(scope.upvalues.iter().cloned().collect::<Vec<_>>(), vec![]);
}

#[test]
fn test_with_upvalues() {
    let mut scope = LexicalScope::root();
    scope.enter_block();
    scope.new_local("a");
    scope.new_local("b");

    scope.function_decl("outer", &["p1", "p2"]);

    assert_eq!(None, scope.resolve_local("a"));
    assert_eq!(Some((0, UpvalueRef::Local(0))), scope.resolve_upvalue("a"));
    assert_eq!(Some((1, UpvalueRef::Local(1))), scope.resolve_upvalue("b"));

    scope.function_decl("inner", &["inner_param1"]);
    assert_eq!(Some((0, UpvalueRef::Upvalue(0))), scope.resolve_upvalue("a"));
    assert_eq!(Some((0, UpvalueRef::Upvalue(0))), scope.resolve_upvalue("a"));

    assert_eq!(scope.upvalues.len(), 1);
    assert_eq!(scope.parent.unwrap().upvalues.len(), 2);
}

#[test]
fn test_closing_upvalues() {
    let mut scope = LexicalScope::root();
    scope.enter_block();
    scope.new_local("a");
    scope.new_local("b");

    scope.function_decl("add", &["x"]);
    scope.enter_block();

    scope.function_decl("p", &[]);
    scope.enter_block();
    scope.resolve_upvalue("x");
    scope.resolve_upvalue("a");
    scope.resolve_upvalue("b");
    assert_eq!(
        scope.upvalues.iter().cloned().collect::<Vec<_>>(),
        vec![("x", UpvalueRef::Local(1)), ("a", UpvalueRef::Upvalue(0)), ("b", UpvalueRef::Upvalue(1))]
    );
    scope.leave_block();
    scope.leave_function();
    scope.new_local("p");
    scope.resolve_local("p");
    assert_eq!(scope.iter_local_upvalues(), vec![("a", 0), ("b", 1)]);
    assert_eq!(
        scope.upvalues.iter().cloned().collect::<Vec<_>>(),
        vec![("a", UpvalueRef::Local(0)), ("b", UpvalueRef::Local(1))]
    );
    scope.leave_block();
    scope.leave_function();
    assert_eq!(scope.iter_locals_in_block_rev(), vec![("b", true), ("a", true)]);
}

#[test]
fn test_fun_captures_in_block() {
    let mut scope = LexicalScope::root();
    scope.enter_block();
    scope.new_local("isEven");
    scope.function_decl("isOdd", &["n"]);
    scope.enter_block();
    assert_eq!(scope.resolve_upvalue("isEven"), Some((0, UpvalueRef::Local(0))))
}

#[test]
fn nested_function_names_carry_their_parents() {
    let mut scope = LexicalScope::root();
    assert_eq!(scope.name(), "<script>");
    scope.function_decl("outer", &[]);
    scope.function_decl("inner", &["x"]);
    assert_eq!(scope.name(), "outer/inner");
    scope.leave_function();
    assert_eq!(scope.name(), "outer");
}

#[test]
fn a_block_just_entered_has_no_locals() {
    let mut scope = LexicalScope::root();
    scope.enter_block();
    scope.new_local("a");
    scope.new_local("b");
    scope.enter_block();
    assert!(scope.iter_locals_in_block_rev().is_empty());
    scope.leave_block();
    assert_eq!(scope.iter_locals_in_block_rev(), vec![("b", false), ("a", false)]);
}
