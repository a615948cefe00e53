use lox::interpreter::{DisplayValue, NumberOp, StepOutcome};
use lox::parser::{ParseError, Parser};
use lox::value::Value;
use lox::byte_code::{ByteCode, OpCode};
use lox::object::ObjKind;
use lox::codemap::Codemap;
use lox::vm::{is_reportable, DisplayError, RuntimeErrorKind, VirtualMachine, VirtualMachineError};

fn arith(op: NumberOp, a: u64, b: u64) -> Value {
    let x = f64::from_bits(a);
    let y = f64::from_bits(b);
    match op {
        NumberOp::Add => Value::Number((x + y).to_bits()),
        NumberOp::Subtract => Value::Number((x - y).to_bits()),
        NumberOp::Multiply => Value::Number((x * y).to_bits()),
        NumberOp::Divide => Value::Number((x / y).to_bits()),
        NumberOp::Negate => Value::Number((-x).to_bits()),
        NumberOp::Greater => Value::Bool(x > y),
        NumberOp::Less => Value::Bool(x < y),
        NumberOp::Equal => Value::Bool(x == y),
    }
}

fn number(text: &str) -> u64 {
    text.parse::<f64>().unwrap().to_bits()
}

fn show(vm: &VirtualMachine, v: Value) -> String {
    match vm.display_value(v).unwrap() {
        DisplayValue::Number(bits) => {
            let x = f64::from_bits(bits);
            if x.fract() == 0.0 && x.abs() < 1e15 {
                format!("{}", x as i64)
            } else {
                format!("{}", x)
            }
        }
        DisplayValue::Text(t) => t,
    }
}

fn run(code: &str) -> Result<Vec<String>, VirtualMachineError> {
    let mut vm = VirtualMachine::new();
    vm.compile(code, &number)?;
    vm.begin();
    let mut out = Vec::new();
    loop {
        match vm.step(&arith)? {
            StepOutcome::Continue => {}
            StepOutcome::Print(v) => out.push(show(&vm, v)),
            StepOutcome::Halt => break,
        }
    }
    Ok(out)
}

fn runtime_message(code: &str) -> String {
    match run(code) {
        Err(VirtualMachineError::RuntimeError { kind, .. }) => kind.message(),
        other => panic!("expected a run-time error, got {:?}", other.map(|_| ())),
    }
}

#[test]
fn test_gc_triggers() {
    let mut vm = VirtualMachine::new();
    let initial_threshold = 1024;
    vm.heap.next_gc = initial_threshold;

    for i in 0..100 {
        let s = format!("string_{}", i);
        vm.alloc_string(s);
    }

    assert!(
        vm.heap.next_gc > initial_threshold,
        "GC should have run and updated threshold. Expected > {}, got {}",
        initial_threshold,
        vm.heap.next_gc
    );

    assert!(vm.heap.bytes_allocated > 0, "Should have allocated bytes");
}

#[test]
fn equal_strings_are_allocated_once() {
    let mut vm = VirtualMachine::new();
    let a = vm.alloc_string("same".to_string());
    let b = vm.alloc_string("same".to_string());
    let c = vm.alloc_string("other".to_string());
    assert_eq!(a, b);
    assert_ne!(a, c);
    assert_eq!(vm.get_heap_string(a), "same");
}

#[test]
fn arithmetic_and_precedence() {
    assert_eq!(run("print 1 + 2 * 3;").unwrap(), vec!["7"]);
    assert_eq!(run("print (1 + 2) * 3;").unwrap(), vec!["9"]);
    assert_eq!(run("print 10 - 4 - 3;").unwrap(), vec!["3"]);
    assert_eq!(run("print 7 / 2;").unwrap(), vec!["3.5"]);
    assert_eq!(run("print -(3);").unwrap(), vec!["-3"]);
}

#[test]
fn comparisons_and_equality() {
    assert_eq!(
        run("print 1 < 2; print 2 < 1; print 2 > 1; print 1 >= 1; print 2 <= 1;").unwrap(),
        vec!["true", "false", "true", "true", "false"]
    );
    assert_eq!(
        run("print 1 == 1; print nil == nil; print true == false; print \"a\" == \"a\"; print 1 == \"1\";")
            .unwrap(),
        vec!["true", "true", "false", "true", "false"]
    );
    assert_eq!(run("print !nil; print !0;").unwrap(), vec!["true", "false"]);
}

#[test]
fn strings_concatenate() {
    assert_eq!(run("print \"con\" + \"cat\";").unwrap(), vec!["concat"]);
}

#[test]
fn globals_locals_and_blocks() {
    let code = "var a = 1; { var a = 2; print a; } print a; a = 3; print a;";
    assert_eq!(run(code).unwrap(), vec!["2", "1", "3"]);
}

#[test]
fn control_flow() {
    let code = "var s = 0; for (var i = 0; i < 5; i = i + 1) { s = s + i; } print s;\n\
                var n = 3; while (n > 0) { print n; n = n - 1; }\n\
                if (n == 0) print \"done\"; else print \"not\";";
    assert_eq!(run(code).unwrap(), vec!["10", "3", "2", "1", "done"]);
}

#[test]
fn functions_and_recursion() {
    let code = "fun fib(n) { if (n < 2) return n; return fib(n - 1) + fib(n - 2); } print fib(10); print fib;";
    assert_eq!(run(code).unwrap(), vec!["55", "<fn fib>"]);
}

#[test]
fn closures_keep_their_variables() {
    let code = "fun counter() { var c = 0; fun inc() { c = c + 1; return c; } return inc; }\n\
                var f = counter(); f(); print f();";
    assert_eq!(run(code).unwrap(), vec!["2"]);
}

#[test]
fn instances_hold_fields() {
    let code = "class Point {} var p = Point(); p.x = 3; p.y = p.x + 1; print p.y; print p; print Point;";
    assert_eq!(run(code).unwrap(), vec!["4", "Point instance", "Point"]);
}

#[test]
fn adding_nil_is_a_runtime_error() {
    assert_eq!(
        runtime_message("nil + 1;"),
        "Unexpected runtime Operands must be two numbers or two strings."
    );
}

#[test]
fn undefined_variables_are_runtime_errors() {
    assert_eq!(runtime_message("print nope;"), "Undefined variable 'nope'.");
    assert_eq!(runtime_message("nope = 1;"), "Undefined variable 'nope'.");
}

#[test]
fn calls_check_their_callee_and_arity() {
    assert_eq!(runtime_message("var x = 1; x();"), "Can only call functions and classes.");
    assert_eq!(runtime_message("fun f(a) {} f();"), "Expected 1 arguments but got 0.");
}

#[test]
fn missing_properties_are_runtime_errors() {
    assert_eq!(
        runtime_message("class A {} var a = A(); print a.nope;"),
        "Unexpected runtime Undefined property 'nope'."
    );
    assert_eq!(runtime_message("var x = 1; print x.y;"), "Unexpected runtime Only instances have properties.");
}

#[test]
fn negating_a_string_is_an_operand_error() {
    match run("-\"a\";") {
        Err(VirtualMachineError::UnexpectedStackOperandType { .. }) => {}
        other => panic!("unexpected {:?}", other.map(|_| ())),
    }
}

#[test]
fn runtime_errors_carry_a_stack_trace() {
    match run("fun f() { return nil + 1; }\nf();") {
        Err(VirtualMachineError::RuntimeError { stacktrace, .. }) => {
            assert_eq!(stacktrace, "[line 1] in f\n[line 2] in <script>");
        }
        other => panic!("unexpected {:?}", other.map(|_| ())),
    }
}

#[test]
fn top_level_return_is_a_compile_error() {
    match run("return 1;") {
        Err(VirtualMachineError::CompileError(errors)) => {
            assert_eq!(errors.len(), 1);
            assert!(matches!(errors[0], ParseError::InvalidTopLevelReturn { .. }));
        }
        other => panic!("unexpected {:?}", other.map(|_| ())),
    }
}

#[test]
fn parse_errors_stop_compilation() {
    let mut vm = VirtualMachine::new();
    match vm.compile("var = 1;", &number) {
        Err(VirtualMachineError::CompileError(errors)) => assert!(!errors.is_empty()),
        other => panic!("unexpected {:?}", other),
    }
    assert!(vm.script_closure.is_none());
}

#[test]
fn runtime_error_messages() {
    assert_eq!(RuntimeErrorKind::StackOverflow.message(), "Stack overflow.");
    assert_eq!(
        RuntimeErrorKind::InvalidFunArity { got: 3, expected: 12 }.message(),
        "Expected 12 arguments but got 3."
    );
}

#[test]
fn deep_recursion_overflows_the_frames() {
    assert_eq!(runtime_message("fun f() { f(); } f();"), "Stack overflow.");
}

#[test]
fn compile_errors_are_reported_with_line_and_token() {
    let code = "print 1;\nvar nil = \"value\";";
    let mut vm = VirtualMachine::new();
    let err = vm.compile(code, &number).unwrap_err();
    let codemap = Codemap::new(code);
    if let VirtualMachineError::CompileError(errors) = &err {
        assert!(errors.iter().all(|e| is_reportable(code, e)));
    }
    let report = DisplayError { err: &err, code, codemap: &codemap }.render();
    assert_eq!(report, "[line 2] Error at 'nil': Expect variable name.\n");
}

#[test]
fn runtime_errors_are_reported_with_their_trace() {
    let code = "print nope;";
    let mut vm = VirtualMachine::new();
    vm.compile(code, &number).unwrap();
    vm.begin();
    let err = loop {
        match vm.step(&arith) {
            Ok(_) => {}
            Err(e) => break e,
        }
    };
    let codemap = Codemap::new(code);
    let report = DisplayError { err: &err, code, codemap: &codemap }.render();
    assert_eq!(report, "Undefined variable 'nope'.\n[line 1] in <script>\n");
}

#[test]
fn programs_run_the_same_when_collections_happen_mid_run() {
    let code = "fun join(a, b) { return a + b; }\n\
                var s = \"\"; for (var i = 0; i < 200; i = i + 1) { s = join(s, \"x\"); }\n\
                fun counter() { var c = 0; fun inc() { c = c + 1; return c; } return inc; }\n\
                var f = counter(); f(); f();\n\
                print f(); print s == s; print join(\"ab\", \"cd\");";
    let mut vm = VirtualMachine::new();
    vm.heap.next_gc = 64;
    vm.compile(code, &number).unwrap();
    vm.begin();
    let mut out = Vec::new();
    loop {
        match vm.step(&arith).unwrap() {
            StepOutcome::Continue => {}
            StepOutcome::Print(v) => out.push(show(&vm, v)),
            StepOutcome::Halt => break,
        }
    }
    assert_eq!(out, vec!["3", "true", "abcd"]);
    assert!(vm.heap.next_gc >= 1024 * 1024);
}

#[test]
fn a_collection_keeps_what_the_stack_refers_to() {
    let mut vm = VirtualMachine::new();
    let kept = vm.alloc_string("kept".to_string());
    let lost = vm.alloc_string("lost".to_string());
    vm.push(Value::Object(kept));
    vm.collect_garbage();
    assert!(vm.heap.is_valid(kept));
    assert!(!vm.heap.is_valid(lost));
    assert_eq!(vm.get_heap_string(kept), "kept");
    assert_eq!(vm.heap.next_gc, 1024 * 1024);
}

#[test]
fn logical_operators_short_circuit() {
    let code = "fun boom() { print \"boom\"; return true; }\n\
                print false and boom(); print true or boom(); print nil or \"x\"; print 1 and 2;";
    assert_eq!(run(code).unwrap(), vec!["false", "true", "x", "2"]);
}

#[test]
fn closures_share_a_captured_variable() {
    let code = "var get; var set;\n\
                fun make() { var v = 1; fun g() { return v; } fun s(x) { v = x; } get = g; set = s; }\n\
                make(); set(5); print get();";
    assert_eq!(run(code).unwrap(), vec!["5"]);
}

#[test]
fn closed_upvalues_outlive_their_block() {
    let code = "var f; { var a = \"kept\"; fun g() { print a; } f = g; } f();";
    assert_eq!(run(code).unwrap(), vec!["kept"]);
}

#[test]
fn nested_functions_print_their_names() {
    let code = "fun outer() { fun inner() {} return inner; } print outer(); print outer;";
    assert_eq!(run(code).unwrap(), vec!["<fn inner>", "<fn outer>"]);
}

#[test]
fn this_outside_a_class_is_a_compile_error() {
    match run("print this;") {
        Err(VirtualMachineError::CompileError(errors)) => {
            assert_eq!(errors.len(), 1);
            assert_eq!(errors[0].message(), "Can't use 'this' outside of a class.");
        }
        other => panic!("unexpected {:?}", other.map(|_| ())),
    }
}

#[test]
fn redeclaring_a_local_is_a_compile_error() {
    match run("{ var a = 1; var a = 2; }") {
        Err(VirtualMachineError::CompileError(errors)) => {
            assert!(matches!(errors[0], ParseError::VariableAlreadyDeclared { .. }));
        }
        other => panic!("unexpected {:?}", other.map(|_| ())),
    }
}

#[test]
fn methods_are_called_on_their_instance() {
    let code = "class A { m(x) { return x + 1; } } var a = A(); print a.m(2);";
    assert_eq!(run(code).unwrap(), vec!["3"]);
}

#[test]
fn init_runs_when_a_class_is_called() {
    let code = "class P { init(x) { this.x = x; } get() { return this.x; } } var p = P(7); print p.get(); print p.x;";
    assert_eq!(run(code).unwrap(), vec!["7", "7"]);
}

#[test]
fn init_checks_its_arity() {
    assert_eq!(runtime_message("class P { init(x) {} } P();"), "Expected 1 arguments but got 0.");
}

#[test]
fn subclasses_inherit_methods() {
    let code = "class A { hi() { return \"A\"; } } class B < A {} print B().hi();";
    assert_eq!(run(code).unwrap(), vec!["A"]);
}

#[test]
fn subclass_methods_override_inherited_ones() {
    let code = "class A { hi() { return \"A\"; } } class B < A { hi() { return \"B\"; } } print B().hi();";
    assert_eq!(run(code).unwrap(), vec!["B"]);
}

#[test]
fn a_missing_method_is_an_undefined_property() {
    assert_eq!(runtime_message("class A {} A().nope();"), "Unexpected runtime Undefined property 'nope'.");
}

#[test]
fn an_invoked_field_holding_a_function_is_called() {
    let code = "class Box {} fun hello() { return \"hi\"; } var b = Box(); b.f = hello; print b.f();";
    assert_eq!(run(code).unwrap(), vec!["hi"]);
}

#[test]
fn calling_a_class_with_arguments_is_an_arity_error() {
    assert_eq!(runtime_message("class A {} A(1);"), "Expected 0 arguments but got 1.");
}

#[test]
fn printing_numbers() {
    assert_eq!(run("print 100000000000000000000; print 0.1 + 0.2; print -0; print 100;").unwrap(), vec![
        "100000000000000000000",
        "0.30000000000000004",
        "0",
        "100"
    ]);
}

fn script_code(vm: &VirtualMachine) -> Vec<u8> {
    let closure = vm.script_closure.unwrap();
    let function = match &vm.heap.get(closure).kind {
        ObjKind::Closure(c) => c.function,
        _ => panic!("the script is not a closure"),
    };
    match &vm.heap.get(function).kind {
        ObjKind::Function(f) => f.code.code.clone(),
        _ => panic!("the closure holds no function"),
    }
}

#[test]
fn compiled_expressions_are_in_postfix_order() {
    let mut vm = VirtualMachine::new();
    let c0 = vm.constants.len() as u16;
    vm.compile("print 1 - 2 * -3;", &number).unwrap();
    let mut expected = ByteCode::new();
    expected.write_op(OpCode::Constant(c0), 1);
    expected.write_op(OpCode::Constant(c0 + 1), 1);
    expected.write_op(OpCode::Constant(c0 + 2), 1);
    expected.write_op(OpCode::Negate, 1);
    expected.write_op(OpCode::Multiply, 1);
    expected.write_op(OpCode::Subtract, 1);
    expected.write_op(OpCode::Print, 1);
    let code = script_code(&vm);
    assert!(code.len() >= expected.code.len());
    assert_eq!(&code[..expected.code.len()], &expected.code[..]);
}

#[test]
fn less_compiles_its_right_operand_first() {
    let mut vm = VirtualMachine::new();
    let c0 = vm.constants.len() as u16;
    vm.compile("1 < true;", &number).unwrap();
    let mut expected = ByteCode::new();
    expected.write_op(OpCode::True, 1);
    expected.write_op(OpCode::Constant(c0), 1);
    expected.write_op(OpCode::Less, 1);
    expected.write_op(OpCode::Pop, 1);
    let code = script_code(&vm);
    assert_eq!(&code[..expected.code.len()], &expected.code[..]);
}

#[test]
fn a_local_variable_is_loaded_from_its_slot() {
    let mut vm = VirtualMachine::new();
    let c0 = vm.constants.len() as u16;
    vm.compile("{ var a = 1; a; }", &number).unwrap();
    let mut expected = ByteCode::new();
    expected.write_op(OpCode::Constant(c0), 1);
    expected.write_op(OpCode::SetLocal(0), 1);
    expected.write_op(OpCode::GetLocal(0), 1);
    expected.write_op(OpCode::Pop, 1);
    let code = script_code(&vm);
    assert_eq!(&code[..expected.code.len()], &expected.code[..]);
}

#[test]
fn a_function_redeclaring_a_local_is_a_compile_error() {
    match run("{ var f = 1; fun f() {} }") {
        Err(VirtualMachineError::CompileError(errors)) => {
            assert_eq!(errors.len(), 1);
            assert!(matches!(errors[0], ParseError::VariableAlreadyDeclared { .. }));
        }
        other => panic!("unexpected {:?}", other.map(|_| ())),
    }
}

#[test]
fn an_if_jumps_over_its_branch() {
    let mut vm = VirtualMachine::new();
    let c0 = vm.constants.len() as u16;
    vm.compile("if (true) print 1;", &number).unwrap();
    let mut expected = ByteCode::new();
    expected.write_op(OpCode::True, 1);
    expected.write_op(OpCode::JumpIfFalse(11), 1);
    expected.write_op(OpCode::Pop, 1);
    expected.write_op(OpCode::Constant(c0), 1);
    expected.write_op(OpCode::Print, 1);
    expected.write_op(OpCode::Jump(4), 1);
    expected.write_op(OpCode::Pop, 1);
    let code = script_code(&vm);
    assert_eq!(&code[..expected.code.len()], &expected.code[..]);
}

#[test]
fn and_jumps_over_its_right_operand() {
    let mut vm = VirtualMachine::new();
    vm.compile("true and false;", &number).unwrap();
    let mut expected = ByteCode::new();
    expected.write_op(OpCode::True, 1);
    expected.write_op(OpCode::JumpIfFalse(4), 1);
    expected.write_op(OpCode::False, 1);
    expected.write_op(OpCode::Pop, 1);
    let code = script_code(&vm);
    assert_eq!(&code[..expected.code.len()], &expected.code[..]);
}

#[test]
fn a_method_read_as_a_value_stays_bound_to_its_instance() {
    let code = "class A { init(n) { this.n = n; } get() { return this.n; } } var f = A(5).get; print f();";
    assert_eq!(run(code).unwrap(), vec!["5"]);
}

#[test]
fn a_bound_method_prints_as_its_function() {
    let code = "class A { m() {} } print A().m;";
    assert_eq!(run(code).unwrap(), vec!["<fn m>"]);
}

#[test]
fn super_calls_the_superclass_method() {
    let code = "class A { hi() { return \"A\"; } } class B < A { hi() { return \"B\" + super.hi(); } } print B().hi();";
    assert_eq!(run(code).unwrap(), vec!["BA"]);
}

#[test]
fn a_method_missing_from_the_superclass_is_an_undefined_property() {
    let code = "class A {} class B < A { hi() { return super.nope; } } B().hi();";
    assert_eq!(runtime_message(code), "Unexpected runtime Undefined property 'nope'.");
}

#[test]
fn a_bound_method_checks_its_arity() {
    let code = "class A { m(x) { return x; } } var f = A().m; f();";
    assert_eq!(runtime_message(code), "Expected 1 arguments but got 0.");
}

#[test]
fn a_program_compiles_to_its_statements_in_turn() {
    let mut vm = VirtualMachine::new();
    let c0 = vm.constants.len() as u16;
    let stmts = Parser::new("print 1; 2 + 3;").parse();
    let (code, captured) = vm.compile_program(&stmts, &number).unwrap();
    let mut expected = ByteCode::new();
    expected.write_op(OpCode::Constant(c0), 1);
    expected.write_op(OpCode::Print, 1);
    expected.write_op(OpCode::Constant(c0 + 1), 1);
    expected.write_op(OpCode::Constant(c0 + 2), 1);
    expected.write_op(OpCode::Add, 1);
    expected.write_op(OpCode::Pop, 1);
    assert_eq!(code.code, expected.code);
    assert_eq!(captured, 0);
}

#[test]
fn a_program_reports_the_errors_of_all_its_statements() {
    let mut vm = VirtualMachine::new();
    let stmts = Parser::new("return 1; return 2;").parse();
    match vm.compile_program(&stmts, &number) {
        Err(VirtualMachineError::CompileError(errors)) => assert_eq!(errors.len(), 2),
        _ => panic!("expected compile errors"),
    }
}

#[test]
fn a_class_declaration_begins_with_its_class() {
    let mut vm = VirtualMachine::new();
    let c0 = vm.constants.len() as u16;
    let stmts = Parser::new("class A {}").parse();
    let (code, _) = vm.compile_program(&stmts, &number).unwrap();
    let mut expected = ByteCode::new();
    expected.write_op(OpCode::Class(c0), 1);
    assert!(code.code.len() >= expected.code.len());
    assert_eq!(&code.code[..expected.code.len()], &expected.code[..]);
}

#[test]
fn a_function_declaration_begins_with_its_closure() {
    let mut vm = VirtualMachine::new();
    let c0 = vm.constants.len() as u16;
    let stmts = Parser::new("fun f() {}").parse();
    let (code, _) = vm.compile_program(&stmts, &number).unwrap();
    let mut expected = ByteCode::new();
    expected.write_op(OpCode::Closure(c0), 1);
    assert!(code.code.len() >= expected.code.len());
    assert_eq!(&code.code[..expected.code.len()], &expected.code[..]);
}

#[test]
fn an_assignment_is_its_value_then_one_store() {
    let mut vm = VirtualMachine::new();
    let c0 = vm.constants.len() as u16;
    let stmts = Parser::new("a = 1;").parse();
    let (code, _) = vm.compile_program(&stmts, &number).unwrap();
    let mut value = ByteCode::new();
    value.write_op(OpCode::Constant(c0), 1);
    let mut store = ByteCode::new();
    store.write_op(OpCode::SetGlobal(lox::interner::StrId { idx: 0 }), 1);
    let mut pop = ByteCode::new();
    pop.write_op(OpCode::Pop, 1);
    let n = value.code.len();
    assert_eq!(code.code.len(), n + store.code.len() + pop.code.len());
    assert_eq!(&code.code[..n], &value.code[..]);
    assert_eq!(code.code[n], store.code[0]);
    assert_eq!(code.code[code.code.len() - 1], pop.code[0]);
}
