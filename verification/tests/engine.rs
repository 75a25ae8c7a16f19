use std::collections::HashMap;
use yapko::bytecode::{compile, ByteCode};
use yapko::error::VmError;
use yapko::interpreter::{Mode, Status, VM};
use yapko::native::{Reply, Request};
use yapko::standard::generate_standard;
use yapko::yapko::{generate_int, Native, Primitive, Variable, YapkoObject};

fn start(source: &str) -> (VM, Vec<u8>, HashMap<u8, String>) {
    let mut bytecode = ByteCode::new();
    let tape = compile(String::from(source), &mut bytecode).expect("the source compiles");
    let mut vm = VM::new();
    vm.set_globals(generate_standard());
    (vm, tape, bytecode.opcode_names())
}

fn run(source: &str) -> (VM, Status) {
    let (mut vm, tape, names) = start(source);
    let status = vm.interpret(tape, names, 1_000_000);
    (vm, status)
}

fn run_tape(tape: Vec<u8>) -> (VM, Status) {
    let mut vm = VM::new();
    vm.set_globals(generate_standard());
    let status = vm.interpret(tape, ByteCode::new().opcode_names(), 1_000_000);
    (vm, status)
}

fn int_value(object: &YapkoObject) -> i32 {
    match object.get("value") {
        Some(Variable::Primitive(Primitive::Int(v))) => *v,
        other => panic!("not an integer: {:?}", other),
    }
}

fn global_int(vm: &VM, name: &str) -> i32 {
    let object = vm.scopes().resolve(&String::from(name)).expect("the name is bound");
    int_value(&object)
}

fn finished(status: &Status) -> bool {
    matches!(status, Status::Finished)
}

#[test]
fn while_loop_runs_three_times() {
    let (vm, status) = run("let i = 0\nlet n = 0\nwhile i < 3 {\ni = i + 1\nn = n + 1\n}\n");
    assert!(finished(&status));
    assert_eq!(global_int(&vm, "i"), 3);
    assert_eq!(global_int(&vm, "n"), 3);
    assert_eq!(vm.scopes().depth(), 1);
    assert!(vm.stack().is_empty());
    assert_eq!(vm.mode(), Mode::Normal);
}

#[test]
fn loop_grows_the_tape_by_one_copy_for_each_pass() {
    let source = "let i = 0\nwhile i < 3 {\ni = i + 1\n}\n";
    let (mut vm, tape, names) = start(source);
    let before = tape.len();
    // The code of the loop, from behind `condition` to the `close`, without
    // the padding byte of the opening bracket: ten instructions, 25 bytes.
    let condition = tape.iter().position(|b| *b == 35).expect("a condition");
    assert_eq!(before - (condition + 2), 26);
    let status = vm.interpret(tape, names, 1_000_000);
    assert!(finished(&status));
    // It is inserted once when the loop was read, and once at the close of
    // each of the three passes.
    assert_eq!(vm.tape().len(), before + 4 * 25);
    assert_eq!(vm.cursor(), vm.tape().len());
}

#[test]
fn loop_with_a_false_guard_never_runs_its_body() {
    let (vm, status) = run("let i = 5\nwhile i < 3 {\ni = i + 1\nprintLine(i)\n}\nprintLine(i)\n");
    assert!(finished(&status));
    assert_eq!(vm.output().as_str(), "5\n");
    assert_eq!(vm.scopes().depth(), 1);
}

#[test]
fn nested_loops_run_to_their_ends() {
    let source = "let i = 0\nlet total = 0\nwhile i < 2 {\nlet j = 0\nwhile j < 3 {\nj = j + 1\ntotal = total + 1\n}\ni = i + 1\n}\n";
    let (vm, status) = run(source);
    assert!(finished(&status));
    assert_eq!(global_int(&vm, "i"), 2);
    assert_eq!(global_int(&vm, "total"), 6);
}

#[test]
fn false_branch_is_not_run() {
    let (vm, status) = run("if false {\nprintLine(\"A\")\n}\nprintLine(\"B\")\n");
    assert!(finished(&status));
    assert_eq!(vm.output().as_str(), "B\n");
    assert_eq!(vm.scopes().depth(), 1);
}

#[test]
fn true_branch_is_run() {
    let (vm, status) = run("if true {\nprintLine(\"A\")\n}\nprintLine(\"B\")\n");
    assert!(finished(&status));
    assert_eq!(vm.output().as_str(), "A\nB\n");
}

#[test]
fn blocks_inside_a_false_branch_are_passed_over() {
    let source = "if false {\nif true {\nprintLine(\"x\")\n}\nprintLine(\"y\")\n}\nprintLine(\"z\")\n";
    let (vm, status) = run(source);
    assert!(finished(&status));
    assert_eq!(vm.output().as_str(), "z\n");
    assert_eq!(vm.scopes().depth(), 1);
}

#[test]
fn print_line_renders_integers_and_strings() {
    let (vm, status) = run("printLine(42)\nprintLine(\"raw text\")\nprintLine(true)\n");
    assert!(finished(&status));
    assert_eq!(vm.output().as_str(), "42\nraw text\ntrue\n");
    assert!(vm.stack().is_empty());
}

#[test]
fn print_writes_no_line_break_and_takes_its_value_off_the_stack() {
    let (vm, status) = run("print(7)\nprint(\"s\")\nprint(true)\n");
    assert!(finished(&status));
    assert_eq!(vm.output().as_str(), "7strue");
    assert!(vm.stack().is_empty());
}

#[test]
fn a_call_may_be_the_first_statement() {
    let (vm, status) = run("printLine(\"B\")");
    // Without the end of the statement nothing is compiled.
    assert!(finished(&status));
    assert_eq!(vm.output().as_str(), "");
    let (vm, status) = run("printLine(\"B\")\n");
    assert!(finished(&status));
    assert_eq!(vm.output().as_str(), "B\n");
    assert!(vm.stack().is_empty());
    let (vm, status) = run("x=1\nprintLine(x)\n");
    // `x` is read before it is declared.
    assert!(matches!(status, Status::Failed(VmError::Lookup(_))));
    assert_eq!(vm.output().as_str(), "");
    let (vm, status) = run("let x=1;printLine(x+1);");
    assert!(finished(&status));
    assert_eq!(vm.output().as_str(), "2\n");
}

#[test]
fn a_bracket_may_follow_the_guard_at_once() {
    let (vm, status) = run("let i=0\nwhile i<3{\ni=i+1\n}\nprintLine(i)\n");
    assert!(finished(&status));
    assert_eq!(vm.output().as_str(), "3\n");
}

#[test]
fn print_line_without_a_value_writes_a_line_break() {
    let (vm, status) = run("printLine()\n");
    assert!(finished(&status));
    assert_eq!(vm.output().as_str(), "\n");
}

#[test]
fn take_output_empties_the_buffer() {
    let (mut vm, _) = run("printLine(1)\n");
    assert_eq!(vm.take_output(), "1\n");
    assert_eq!(vm.output().as_str(), "");
}

#[test]
fn redeclaring_a_name_in_one_frame_fails() {
    let (vm, status) = run("let x = 1\nlet x = 2\n");
    match status {
        Status::Failed(VmError::Lookup(name)) => assert_eq!(name, "x"),
        other => panic!("unexpected status {:?}", other),
    }
    assert_eq!(global_int(&vm, "x"), 1);
}

#[test]
fn declaring_in_a_nested_frame_and_then_outside_succeeds() {
    let (vm, status) = run("if true {\nlet x = 1\n}\nlet x = 2\n");
    assert!(finished(&status));
    assert_eq!(global_int(&vm, "x"), 2);
}

#[test]
fn a_nested_frame_may_shadow_an_outer_name() {
    let (vm, status) = run("let x = 1\nif true {\nlet x = 2\nprintLine(x)\n}\nprintLine(x)\n");
    assert!(finished(&status));
    assert_eq!(vm.output().as_str(), "2\n1\n");
}

#[test]
fn reading_an_undeclared_name_fails() {
    let (_, status) = run("printLine(nobody)\n");
    match status {
        Status::Failed(VmError::Lookup(name)) => assert_eq!(name, "nobody"),
        other => panic!("unexpected status {:?}", other),
    }
}

#[test]
fn a_failed_step_leaves_the_engine_as_it_was() {
    let (mut vm, tape, names) = start("let x = 1\nlet x = 2\n");
    let status = vm.interpret(tape, names, 1_000_000);
    assert!(matches!(status, Status::Failed(VmError::Lookup(_))));
    let cursor = vm.cursor();
    let depth = vm.stack().len();
    let again = vm.step();
    assert!(matches!(again, Status::Failed(VmError::Lookup(_))));
    assert_eq!(vm.cursor(), cursor);
    assert_eq!(vm.stack().len(), depth);
}

#[test]
fn assignment_gives_the_value_the_name_of_its_target() {
    let (vm, status) = run("let x = 0\nx = 3 + 4\n");
    assert!(finished(&status));
    let x = vm.scopes().resolve(&String::from("x")).unwrap();
    assert_eq!(x.name, "x");
    assert_eq!(int_value(&x), 7);
}

#[test]
fn assignment_reaches_the_innermost_binding() {
    let (vm, status) = run("let x = 1\nif true {\nlet x = 2\nx = 3\nprintLine(x)\n}\nprintLine(x)\n");
    assert!(finished(&status));
    assert_eq!(vm.output().as_str(), "3\n1\n");
}

#[test]
fn integer_operators_go_through_the_methods_of_the_left_operand() {
    let source = "printLine(7 + 5)\nprintLine(7 - 5)\nprintLine(7 * 5)\nprintLine(7 / 5)\nprintLine(7 < 5)\nprintLine(7 > 5)\n";
    let (vm, status) = run(source);
    assert!(finished(&status));
    assert_eq!(vm.output().as_str(), "12\n2\n35\n1\nfalse\ntrue\n");
}

#[test]
fn remainder_and_equality_run_from_a_tape() {
    // push_num 7, push_num 5, %, push_num 3, push_num 3, ==
    let tape = vec![5, b'7', 0, 5, b'5', 0, 43, 0, 5, b'3', 0, 5, b'3', 0, 41, 0];
    let (vm, status) = run_tape(tape);
    assert!(finished(&status));
    assert_eq!(vm.stack().len(), 2);
    assert_eq!(int_value(&vm.stack()[0]), 2);
    assert_eq!(vm.stack()[0].name, "$int");
    match vm.stack()[1].get("value") {
        Some(Variable::Primitive(Primitive::Boolean(b))) => assert!(*b),
        other => panic!("not a boolean: {:?}", other),
    }
    assert_eq!(vm.stack()[1].name, "$bool");
}

#[test]
fn division_by_zero_is_an_error() {
    let (_, status) = run("printLine(7 / 0)\n");
    match status {
        Status::Failed(VmError::Dispatch(name)) => assert_eq!(name, "div"),
        other => panic!("unexpected status {:?}", other),
    }
}

#[test]
fn an_operator_without_a_method_is_an_error() {
    // push_num 1, push_num 2, <=
    let (_, status) = run_tape(vec![5, b'1', 0, 5, b'2', 0, 39, 0]);
    match status {
        Status::Failed(VmError::Dispatch(name)) => assert_eq!(name, "smallerOrEqual"),
        other => panic!("unexpected status {:?}", other),
    }
    // push_num 1, push_num 2, !=
    let (_, status) = run_tape(vec![5, b'1', 0, 5, b'2', 0, 42, 0]);
    match status {
        Status::Failed(VmError::Dispatch(name)) => assert_eq!(name, "!="),
        other => panic!("unexpected status {:?}", other),
    }
}

#[test]
fn an_operand_of_another_kind_is_an_error() {
    let (_, status) = run("printLine(1 + \"a\")\n");
    match status {
        Status::Failed(VmError::Dispatch(name)) => assert_eq!(name, "add"),
        other => panic!("unexpected status {:?}", other),
    }
}

#[test]
fn logical_operators_work_on_booleans() {
    let source = "printLine(true and false)\nprintLine(true or false)\nprintLine(true xor true)\nprintLine(!true)\n";
    let (vm, status) = run(source);
    assert!(finished(&status));
    assert_eq!(vm.output().as_str(), "false\ntrue\nfalse\nfalse\n");
}

#[test]
fn logical_operator_on_an_integer_is_an_error() {
    let (_, status) = run("printLine(1 and true)\n");
    match status {
        Status::Failed(VmError::Dispatch(name)) => assert_eq!(name, "and"),
        other => panic!("unexpected status {:?}", other),
    }
}

#[test]
fn too_few_operands_is_an_error() {
    // `=` on an empty stack
    let (_, status) = run_tape(vec![11, 0]);
    assert!(matches!(status, Status::Failed(VmError::ArityOrStack)));
    // `+` with one operand
    let (_, status) = run_tape(vec![5, b'1', 0, 7, 0]);
    assert!(matches!(status, Status::Failed(VmError::ArityOrStack)));
    // `call` that reaches below the stack
    let (_, status) = run_tape(vec![5, b'1', 0, 21, 3, 0]);
    assert!(matches!(status, Status::Failed(VmError::ArityOrStack)));
}

#[test]
fn malformed_number_is_an_encoding_error() {
    let (_, status) = run("let x = 1.5\n");
    match status {
        Status::Failed(VmError::Encoding(text)) => assert_eq!(text, "1.5"),
        other => panic!("unexpected status {:?}", other),
    }
}

#[test]
fn an_opcode_byte_without_a_name_is_an_encoding_error() {
    let (_, status) = run_tape(vec![200, 0]);
    match status {
        Status::Failed(VmError::Encoding(text)) => assert_eq!(text, "\u{c8}"),
        other => panic!("unexpected status {:?}", other),
    }
}

#[test]
fn padding_and_unnamed_instructions_do_nothing() {
    // padding, `;`-less no-ops: push (4), return (46), execute (47)
    let (vm, status) = run_tape(vec![0, 0, 4, b'a', 0, 0, 46, 0, 47, b'f', 0, 0]);
    assert!(finished(&status));
    assert!(vm.stack().is_empty());
    assert_eq!(vm.scopes().depth(), 1);
}

#[test]
fn an_instruction_without_its_end_is_not_run() {
    // push_num 1, then push_num 2 without the closing zero byte
    let (vm, status) = run_tape(vec![5, b'1', 0, 5, b'2']);
    assert!(finished(&status));
    assert_eq!(vm.stack().len(), 1);
    assert_eq!(int_value(&vm.stack()[0]), 1);
}

#[test]
fn a_function_sees_the_value_bound_when_it_is_called() {
    let source = "let x = 1\nfunction f() {\nprintLine(x)\n}\nx = 2\nf()\n";
    let (vm, status) = run(source);
    assert!(finished(&status));
    assert_eq!(vm.output().as_str(), "2\n");
    assert_eq!(vm.scopes().depth(), 1);
    assert!(vm.captures().is_empty());
}

#[test]
fn a_function_value_lists_the_visible_names_and_itself() {
    let source = "let x = 1\nfunction f() {\nprintLine(x)\n}\n";
    let (vm, status) = run(source);
    assert!(finished(&status));
    let f = vm.scopes().resolve(&String::from("f")).unwrap();
    assert_eq!(f.yapko_type, "YapkoFunction");
    match f.get("value") {
        Some(Variable::Primitive(Primitive::YapkoFunction(body, captures))) => {
            // get printLine, get x, call 1
            let mut expected = vec![1u8];
            expected.extend_from_slice(b"printLine");
            expected.extend_from_slice(&[0, 1, b'x', 0, 21, 1, 0]);
            assert_eq!(body, &expected);
            let names: Vec<&str> = captures.iter().map(|c| c.1.as_str()).collect();
            assert_eq!(
                names,
                vec!["printLine", "print", "IO", "Random", "Int", "Float", "String", "Boolean", "x", "f"]
            );
            assert!(captures.iter().all(|c| c.0 == 0));
        }
        other => panic!("not a function: {:?}", other),
    }
}

#[test]
fn a_dangling_capture_reads_whatever_frame_stands_at_its_index() {
    // `f` is defined in the frame of a block and captures `y` there, at frame
    // index 1. The function outlives the block in `g`.
    let define = "let g = 0\nif true {\nlet y = 5\nfunction f() {\nprintLine(y)\n}\ng = f\n}\n";
    // Called from another block, whose frame now stands at index 1 and binds
    // another `y`, the function reads that one.
    let source = format!("{}if true {{\nlet y = 9\ng()\n}}\n", define);
    let (vm, status) = run(&source);
    assert!(finished(&status));
    assert_eq!(vm.output().as_str(), "9\n");
    // Called from frame 0, index 1 is the call's own empty frame: the name is
    // not found.
    let source = format!("{}g()\n", define);
    let (_, status) = run(&source);
    match status {
        Status::Failed(VmError::Lookup(name)) => assert_eq!(name, "y"),
        other => panic!("unexpected status {:?}", other),
    }
}

#[test]
fn a_capture_beyond_the_scope_stack_is_a_lookup_error() {
    // The function is defined two blocks deep and captures `y` at index 2.
    let source = "let g = 0\nif true {\nif true {\nlet y = 5\nfunction f() {\nprintLine(y)\n}\ng = f\n}\n}\ng()\n";
    let (_, status) = run(source);
    match status {
        Status::Failed(VmError::Lookup(name)) => assert_eq!(name, "y"),
        other => panic!("unexpected status {:?}", other),
    }
}

#[test]
fn a_typed_parameter_is_bound_in_the_frame_of_the_call() {
    let source = "function f(a: Int) {\nprintLine(a + 1)\n}\nf(41)\n";
    let (vm, status) = run(source);
    assert!(finished(&status));
    assert_eq!(vm.output().as_str(), "42\n");
    assert!(vm.scopes().resolve(&String::from("a")).is_err());
}

#[test]
fn a_typed_parameter_rejects_another_type() {
    let source = "function f(a: Int) {\nprintLine(a)\n}\nf(\"text\")\n";
    let (_, status) = run(source);
    match status {
        Status::Failed(VmError::TypeMismatch(expected, found)) => {
            assert_eq!(expected, "Int");
            assert_eq!(found, "String");
        }
        other => panic!("unexpected status {:?}", other),
    }
}

#[test]
fn calling_something_that_is_no_function_is_an_error() {
    let (_, status) = run("let x = 1\nx()\n");
    match status {
        Status::Failed(VmError::Dispatch(name)) => assert_eq!(name, "x"),
        other => panic!("unexpected status {:?}", other),
    }
}

#[test]
fn a_class_makes_a_template_of_its_frame() {
    let source = "class Point {\nlet x = 1\nlet y = 2\n}\n";
    let (vm, status) = run(source);
    assert!(finished(&status));
    let point = vm.scopes().resolve(&String::from("Point")).unwrap();
    assert_eq!(point.name, "Point");
    assert_eq!(point.yapko_type, "class");
    assert_eq!(point.members.len(), 2);
    assert_eq!(point.members[0].name, "x");
    assert_eq!(point.members[1].name, "y");
    assert_eq!(vm.scopes().depth(), 1);
    assert!(vm.scopes().resolve(&String::from("x")).is_err());
}

#[test]
fn instances_of_a_class_are_independent() {
    let source = "class Point {\nlet x = 1\n}\nlet a = Point()\nlet b = Point()\n";
    let (vm, status) = run(source);
    assert!(finished(&status));
    let mut a = vm.scopes().resolve(&String::from("a")).unwrap();
    let b = vm.scopes().resolve(&String::from("b")).unwrap();
    assert_eq!(a.yapko_type, "Point");
    assert_eq!(b.yapko_type, "Point");
    a.insert(String::from("x"), Variable::YapkoObject(generate_int(String::from("x"), 99)));
    let field = |o: &YapkoObject| match o.get("x") {
        Some(Variable::YapkoObject(x)) => int_value(x),
        other => panic!("no field: {:?}", other),
    };
    assert_eq!(field(&a), 99);
    assert_eq!(field(&b), 1);
    // The template and the binding of `a` in the engine are untouched too.
    assert_eq!(field(&vm.scopes().resolve(&String::from("a")).unwrap()), 1);
    assert_eq!(field(&vm.scopes().resolve(&String::from("Point")).unwrap()), 1);
}

#[test]
fn instancing_does_not_run_initializers_again() {
    // The template holds the value that `x` had when the class closed.
    let source = "let seed = 1\nclass Point {\nlet x = seed\n}\nseed = 2\nlet a = Point()\nprintLine(a.x)\n";
    let (vm, status) = run(source);
    assert!(finished(&status));
    assert_eq!(vm.output().as_str(), "1\n");
}

#[test]
fn member_access_replaces_the_object_by_its_member() {
    let source = "class Point {\nlet x = 7\n}\nlet a = Point()\nprintLine(a.x)\n";
    let (vm, status) = run(source);
    assert!(finished(&status));
    assert_eq!(vm.output().as_str(), "7\n");
}

#[test]
fn a_missing_member_is_an_error() {
    let source = "let a = 1\nprintLine(a.nothing)\n";
    let (_, status) = run(source);
    match status {
        Status::Failed(VmError::Dispatch(name)) => assert_eq!(name, "nothing"),
        other => panic!("unexpected status {:?}", other),
    }
}

#[test]
fn reading_a_line_waits_for_the_host() {
    let source = "let s = IO.readLine(0)\nprintLine(s)\nlet n = s.toInt(s)\nprintLine(n + 1)\n";
    let (mut vm, tape, names) = start(source);
    let status = vm.interpret(tape, names, 1_000_000);
    assert!(matches!(status, Status::Waiting(Request::Line)));
    // Nothing moves while the request waits.
    let cursor = vm.cursor();
    assert!(matches!(vm.run(10), Status::Waiting(Request::Line)));
    assert_eq!(vm.cursor(), cursor);
    // An answer of another kind is refused.
    assert!(!vm.resume(Reply::Int(3)));
    assert!(vm.resume(Reply::Text(String::from(" 41\n"))));
    assert!(!vm.resume(Reply::Text(String::from("again"))));
    let status = vm.proceed(1_000_000);
    assert!(finished(&status));
    assert_eq!(vm.output().as_str(), " 41\n\n42\n");
}

#[test]
fn text_that_is_no_number_does_not_convert() {
    let source = "let s = \"abc\"\nlet n = s.toInt(s)\n";
    let (_, status) = run(source);
    match status {
        Status::Failed(VmError::Encoding(text)) => assert_eq!(text, "abc"),
        other => panic!("unexpected status {:?}", other),
    }
}

#[test]
fn random_numbers_are_drawn_inside_the_library() {
    let source = "let r = Random.generate(0)\n";
    let (vm, status) = run(source);
    assert!(finished(&status));
    let r = vm.scopes().resolve(&String::from("r")).unwrap();
    assert_eq!(r.yapko_type, "Int");
    assert_eq!(r.name, "r");
    let _ = int_value(&r);
}

#[test]
fn run_stops_at_a_request_for_a_random_number() {
    let source = "let r = Random.generate(0)\n";
    let (mut vm, tape, names) = start(source);
    vm.load(tape, &names);
    assert!(matches!(vm.run(1_000_000), Status::Waiting(Request::Random)));
    assert!(vm.resume(Reply::Int(-17)));
    assert!(finished(&vm.run(1_000_000)));
    assert_eq!(global_int(&vm, "r"), -17);
}

#[test]
fn floating_point_work_is_asked_of_the_host() {
    let source = "let f = Float()\nlet g = f + f\nprintLine(g)\nprintLine(f < g)\n";
    let (mut vm, tape, names) = start(source);
    let status = vm.interpret(tape, names, 1_000_000);
    match status {
        Status::Waiting(Request::FloatBinary(Native::FloatAdd, 0, 0)) => {}
        other => panic!("unexpected status {:?}", other),
    }
    let three: u64 = 0x4008_0000_0000_0000;
    assert!(vm.resume(Reply::Bits(three)));
    let status = vm.proceed(1_000_000);
    assert!(matches!(status, Status::Waiting(Request::FloatText(bits)) if bits == three));
    assert!(vm.resume(Reply::Text(String::from("3"))));
    let status = vm.proceed(1_000_000);
    match status {
        Status::Waiting(Request::FloatCompare(Native::FloatSmallerThan, 0, bits)) => {
            assert_eq!(bits, three)
        }
        other => panic!("unexpected status {:?}", other),
    }
    assert!(vm.resume(Reply::Bool(true)));
    assert!(finished(&vm.proceed(1_000_000)));
    assert_eq!(vm.output().as_str(), "3\ntrue\n");
    let g = vm.scopes().resolve(&String::from("g")).unwrap();
    assert_eq!(g.yapko_type, "Float");
    assert!(matches!(g.get("value"), Some(Variable::Primitive(Primitive::Float(bits))) if *bits == three));
}

#[test]
fn fuel_bounds_a_run() {
    let source = "let i = 0\nwhile i < 3 {\ni = i + 1\n}\n";
    let (mut vm, tape, names) = start(source);
    assert!(matches!(vm.interpret(tape, names, 0), Status::Ready));
    assert_eq!(vm.cursor(), 0);
    let mut rounds = 0;
    loop {
        match vm.proceed(5) {
            Status::Ready => rounds += 1,
            Status::Finished => break,
            other => panic!("unexpected status {:?}", other),
        }
    }
    assert!(rounds > 3);
    assert_eq!(global_int(&vm, "i"), 3);
}

#[test]
fn an_endless_loop_uses_up_its_fuel() {
    let source = "while true {\n}\n";
    let (mut vm, tape, names) = start(source);
    assert!(matches!(vm.interpret(tape, names, 10_000), Status::Ready));
    assert!(matches!(vm.proceed(10_000), Status::Ready));
}

#[test]
fn a_stray_close_on_frame_zero_keeps_frame_zero() {
    // close, scope_end, then set_get x
    let (vm, status) = run_tape(vec![36, 0, 25, 0, 2, b'x', 0]);
    assert!(finished(&status));
    assert_eq!(vm.scopes().depth(), 1);
    assert!(vm.scopes().resolve(&String::from("x")).is_ok());
    assert!(vm.scopes().resolve(&String::from("printLine")).is_ok());
}

#[test]
fn a_loop_that_closes_before_it_opens_is_an_encoding_error() {
    // condition, close
    let (_, status) = run_tape(vec![35, 0, 36, 0]);
    match status {
        Status::Failed(VmError::Encoding(text)) => assert_eq!(text, "close"),
        other => panic!("unexpected status {:?}", other),
    }
}

#[test]
fn a_guard_that_is_no_boolean_is_an_error() {
    let (_, status) = run("if 1 {\n}\n");
    match status {
        Status::Failed(VmError::Dispatch(name)) => assert_eq!(name, "if"),
        other => panic!("unexpected status {:?}", other),
    }
}

#[test]
fn the_stacks_outlive_a_tape() {
    let mut vm = VM::new();
    vm.set_globals(generate_standard());
    let names = ByteCode::new().opcode_names();
    // set_get x, push_num 4, =, push_num 9
    let first = vec![2, b'x', 0, 5, b'4', 0, 11, 0, 5, b'9', 0];
    assert!(finished(&vm.interpret(first, names.clone(), 100)));
    // get x
    assert!(finished(&vm.interpret(vec![1, b'x', 0], names, 100)));
    assert_eq!(vm.stack().len(), 2);
    assert_eq!(int_value(&vm.stack()[0]), 9);
    assert_eq!(int_value(&vm.stack()[1]), 4);
    assert_eq!(vm.cursor(), 3);
}

#[test]
fn operands_can_be_pushed_from_outside() {
    let mut vm = VM::new();
    vm.set_globals(generate_standard());
    vm.push_operand(generate_int(String::from("a"), 20));
    vm.push_operand(generate_int(String::from("b"), 22));
    // +
    assert!(finished(&vm.interpret(vec![7, 0], ByteCode::new().opcode_names(), 100)));
    assert_eq!(vm.stack().len(), 1);
    assert_eq!(int_value(&vm.stack()[0]), 42);
    assert_eq!(vm.stack()[0].name, "a");
}

#[test]
fn engine_starts_empty() {
    let vm = VM::new();
    assert_eq!(vm.mode(), Mode::Normal);
    assert_eq!(vm.cursor(), 0);
    assert!(vm.stack().is_empty());
    assert!(vm.tape().is_empty());
    assert_eq!(vm.scopes().depth(), 1);
    assert_eq!(vm.scopes().frame(0).len(), 0);
    assert_eq!(vm.output().as_str(), "");
}

#[test]
fn the_standard_library_binds_its_eight_names() {
    let frame = generate_standard();
    let names: Vec<&str> = frame.bindings.iter().map(|b| b.name.as_str()).collect();
    assert_eq!(names, vec!["printLine", "print", "IO", "Random", "Int", "Float", "String", "Boolean"]);
    let int = frame.get(&String::from("Int")).unwrap();
    assert_eq!(int.yapko_type, "class");
    assert!(int.contains("add"));
    let io = frame.get(&String::from("IO")).unwrap();
    assert_eq!(io.yapko_type, "class");
    assert!(io.contains("readLine"));
    assert!(frame.get(&String::from("Random")).unwrap().contains("generate"));
}

#[test]
fn calling_a_primitive_template_makes_a_value_of_that_type() {
    let (vm, status) = run("let n = Int()\nprintLine(n + 2)\n");
    assert!(finished(&status));
    assert_eq!(vm.output().as_str(), "2\n");
    assert_eq!(vm.scopes().resolve(&String::from("n")).unwrap().yapko_type, "Int");
}

#[test]
fn a_frame_binds_each_name_once() {
    let mut frame = yapko::scope::Frame::new();
    frame.insert(String::from("a"), generate_int(String::from("a"), 1));
    frame.insert(String::from("b"), generate_int(String::from("b"), 2));
    frame.insert(String::from("a"), generate_int(String::from("a"), 3));
    assert_eq!(frame.len(), 2);
    assert_eq!(frame.position(&String::from("a")), Some(0));
    assert_eq!(frame.position(&String::from("b")), Some(1));
    assert!(frame.contains(&String::from("a")));
    assert!(!frame.contains(&String::from("c")));
    assert_eq!(int_value(frame.get(&String::from("a")).unwrap()), 3);
}

#[test]
fn the_scope_stack_declares_resolves_and_assigns() {
    let mut scopes = yapko::scope::ScopeStack::new();
    let x = String::from("x");
    assert!(scopes.declare(x.clone()).is_ok());
    assert!(scopes.assign(&x, generate_int(String::from("$int"), 1)));
    scopes.push_frame();
    assert_eq!(scopes.find(&x), Some(0));
    assert!(scopes.declare(x.clone()).is_ok());
    assert!(scopes.assign(&x, generate_int(String::from("$int"), 2)));
    assert_eq!(scopes.find(&x), Some(1));
    // Frames [ {x: 1}, {x: 2} ]: the inner binding is the one found.
    assert_eq!(int_value(&scopes.resolve(&x).unwrap()), 2);
    assert_eq!(scopes.resolve(&x).unwrap().name, "x");
    assert_eq!(
        scopes.capture_visible(),
        vec![(1usize, String::from("x"))]
    );
    scopes.pop_frame();
    assert_eq!(int_value(&scopes.resolve(&x).unwrap()), 1);
    // Frame 0 is never closed.
    scopes.pop_frame();
    assert_eq!(scopes.depth(), 1);
    assert_eq!(int_value(&scopes.resolve(&x).unwrap()), 1);
    // Assigning to a name that no frame binds changes nothing.
    assert!(!scopes.assign(&String::from("y"), generate_int(String::from("$int"), 5)));
    assert!(scopes.resolve(&String::from("y")).is_err());
    assert!(matches!(scopes.declare(x.clone()), Err(VmError::Lookup(_))));
}

#[test]
fn lookup_asks_the_capture_list_after_the_current_frame() {
    let mut scopes = yapko::scope::ScopeStack::new();
    let x = String::from("x");
    scopes.bind(x.clone(), generate_int(x.clone(), 1));
    scopes.push_frame();
    scopes.bind(x.clone(), generate_int(x.clone(), 2));
    scopes.push_frame();
    // Without a capture list the innermost binding is read.
    assert_eq!(int_value(&scopes.lookup(&x, &Vec::new()).unwrap()), 2);
    // The last entry for the name decides.
    let captures = vec![(1usize, x.clone()), (0usize, x.clone())];
    assert_eq!(int_value(&scopes.lookup(&x, &captures).unwrap()), 1);
    // A name that the list does not hold is not found, whatever the frames
    // bind.
    let other = vec![(0usize, String::from("y"))];
    assert!(matches!(scopes.lookup(&x, &other), Err(VmError::Lookup(_))));
    // The current frame comes first.
    scopes.bind(x.clone(), generate_int(x.clone(), 3));
    assert_eq!(int_value(&scopes.lookup(&x, &captures).unwrap()), 3);
}

#[test]
fn a_change_to_one_instance_reaches_no_other() {
    let source = "class C {\nlet a = 1\n}\nlet p = C()\nlet q = C()\n";
    let (vm, status) = run(source);
    assert!(finished(&status));
    let mut scopes = yapko::scope::ScopeStack::new();
    for name in ["C", "p", "q"] {
        let name = String::from(name);
        scopes.bind(name.clone(), vm.scopes().resolve(&name).unwrap());
    }
    let field = |scopes: &yapko::scope::ScopeStack, name: &str| {
        match scopes.resolve(&String::from(name)).unwrap().get("a") {
            Some(Variable::YapkoObject(a)) => int_value(a),
            other => panic!("no field: {:?}", other),
        }
    };
    assert_eq!((field(&scopes, "C"), field(&scopes, "p"), field(&scopes, "q")), (1, 1, 1));
    // Field `a` of the object bound to `p` becomes 5.
    let mut changed = scopes.resolve(&String::from("p")).unwrap();
    changed.insert(String::from("a"), Variable::YapkoObject(generate_int(String::from("a"), 5)));
    scopes.bind_at(0, String::from("p"), changed);
    assert_eq!((field(&scopes, "C"), field(&scopes, "p"), field(&scopes, "q")), (1, 5, 1));
    assert_eq!(scopes.resolve(&String::from("q")).unwrap().yapko_type, "C");
    assert_eq!(scopes.frame(0).len(), 3);
}
