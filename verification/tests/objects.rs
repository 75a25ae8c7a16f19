use yapko::error::VmError;
use yapko::native::{call_native, execute_function, Continuation, Effect, Request};
use yapko::text::{
    int_to_string, parse_i32, parse_trimmed, space_flags_of, string_chars, string_from_bytes,
    string_from_chars, trim_bounds_by,
};
use yapko::yapko::{
    clone_captures, generate_boolean, generate_float, generate_function,
    generate_int, generate_null, generate_string, generate_yapko_function, Native, Primitive,
    Variable, YapkoObject,
};

fn number(name: &str, value: i32) -> YapkoObject {
    generate_int(String::from(name), value)
}

fn int_value(object: &YapkoObject) -> i32 {
    match object.payload() {
        Some(Primitive::Int(v)) => *v,
        other => panic!("not an integer: {:?}", other),
    }
}

fn bool_value(object: &YapkoObject) -> bool {
    match object.payload() {
        Some(Primitive::Boolean(b)) => *b,
        other => panic!("not a boolean: {:?}", other),
    }
}

fn text_value(object: &YapkoObject) -> String {
    match object.payload() {
        Some(Primitive::YapkoString(s)) => s.clone(),
        other => panic!("not a string: {:?}", other),
    }
}

fn member_names(object: &YapkoObject) -> Vec<&str> {
    object.members.iter().map(|m| m.name.as_str()).collect()
}

fn binary(native: Native, l: i32, r: i32) -> Result<YapkoObject, VmError> {
    let mut stack = vec![number("below", 0), number("left", l), number("right", r)];
    match call_native(native, &mut stack) {
        Ok(effect) => {
            assert!(matches!(effect, Effect::Done));
            assert_eq!(stack.len(), 2);
            assert_eq!(stack[0].name, "below");
            Ok(stack.pop().unwrap())
        }
        Err(e) => {
            assert_eq!(stack.len(), 3);
            Err(e)
        }
    }
}

#[test]
fn integer_object_has_its_payload_and_methods() {
    let object = number("x", 5);
    assert_eq!(object.name, "x");
    assert_eq!(object.yapko_type, "Int");
    assert_eq!(object.parent, "");
    assert_eq!(
        member_names(&object),
        vec![
            "value",
            "toString",
            "add",
            "sub",
            "mul",
            "div",
            "mod",
            "smallerThan",
            "equalTo",
            "greaterThan"
        ]
    );
    assert_eq!(int_value(&object), 5);
    assert!(object.contains("add"));
    assert!(!object.contains("smallerOrEqual"));
    assert!(object.get("nothing").is_none());
    match object.get("equalTo") {
        Some(Variable::YapkoObject(method)) => {
            assert_eq!(method.name, "equalTo");
            assert_eq!(method.yapko_type, "Function");
            assert!(matches!(method.payload(), Some(Primitive::Function(Native::IntEqualTo))));
        }
        other => panic!("no method: {:?}", other),
    }
}

#[test]
fn other_primitive_objects_have_their_tags() {
    let s = generate_string(String::from("s"), String::from("text"));
    assert_eq!(s.yapko_type, "String");
    assert_eq!(member_names(&s), vec!["value", "toInt"]);
    assert_eq!(text_value(&s), "text");

    let b = generate_boolean(String::from("b"), true);
    assert_eq!(b.yapko_type, "Boolean");
    assert_eq!(member_names(&b), vec!["value", "toString"]);
    assert!(bool_value(&b));

    let n = generate_null(String::from("n"));
    assert_eq!(n.yapko_type, "Null");
    assert_eq!(member_names(&n), vec!["value"]);
    assert!(matches!(n.payload(), Some(Primitive::Null)));

    let f = generate_function(String::from("print"), Native::Print);
    assert_eq!(f.yapko_type, "Function");
    assert!(matches!(f.payload(), Some(Primitive::Function(Native::Print))));

    let x = generate_float(String::from("x"), 0x3ff0_0000_0000_0000);
    assert_eq!(x.yapko_type, "Float");
    assert_eq!(
        member_names(&x),
        vec!["value", "toString", "add", "sub", "mul", "div", "smallerThan", "greaterThan"]
    );
    assert!(matches!(x.payload(), Some(Primitive::Float(0x3ff0_0000_0000_0000))));
}

#[test]
fn function_object_closes_its_capture_list_with_itself() {
    let captures = vec![(0usize, String::from("x")), (1usize, String::from("y"))];
    let f = generate_yapko_function(String::from("f"), vec![1, b'x', 0], captures, 2);
    assert_eq!(f.name, "f");
    assert_eq!(f.yapko_type, "YapkoFunction");
    match f.payload() {
        Some(Primitive::YapkoFunction(body, list)) => {
            assert_eq!(body, &vec![1, b'x', 0]);
            assert_eq!(
                list,
                &vec![
                    (0usize, String::from("x")),
                    (1usize, String::from("y")),
                    (2usize, String::from("f"))
                ]
            );
        }
        other => panic!("not a function: {:?}", other),
    }
}

#[test]
fn clones_are_independent() {
    let first = number("x", 5);
    let mut copy = first.clone();
    copy.insert(String::from("value"), Variable::Primitive(Primitive::Int(6)));
    copy.name = String::from("y");
    assert_eq!(int_value(&first), 5);
    assert_eq!(first.name, "x");
    assert_eq!(int_value(&copy), 6);
    assert_eq!(copy.members.len(), first.members.len());

    let list = vec![(3usize, String::from("n"))];
    assert_eq!(clone_captures(&list), list);
}

#[test]
fn insert_replaces_a_member_or_adds_one() {
    let mut object = generate_null(String::from("o"));
    object.insert(String::from("field"), Variable::Primitive(Primitive::Int(1)));
    assert_eq!(member_names(&object), vec!["value", "field"]);
    object.insert(String::from("value"), Variable::Primitive(Primitive::Boolean(true)));
    assert_eq!(member_names(&object), vec!["value", "field"]);
    assert!(bool_value(&object));
    assert_eq!(object.position(&String::from("field")), Some(1));
    assert_eq!(object.position(&String::from("other")), None);
}

#[test]
fn integer_arithmetic_matches_native_arithmetic() {
    let cases = [(7, 5), (-7, 5), (7, -5), (-7, -5), (0, 3), (1, 1), (123456, -789)];
    for (l, r) in cases {
        assert_eq!(int_value(&binary(Native::IntAdd, l, r).unwrap()), l + r);
        assert_eq!(int_value(&binary(Native::IntSub, l, r).unwrap()), l - r);
        assert_eq!(int_value(&binary(Native::IntMul, l, r).unwrap()), l * r);
        assert_eq!(int_value(&binary(Native::IntDiv, l, r).unwrap()), l / r);
        assert_eq!(int_value(&binary(Native::IntMod, l, r).unwrap()), l % r);
    }
}

#[test]
fn integer_arithmetic_wraps_beyond_32_bits() {
    assert_eq!(int_value(&binary(Native::IntAdd, i32::MAX, 1).unwrap()), i32::MIN);
    assert_eq!(int_value(&binary(Native::IntSub, i32::MIN, 1).unwrap()), i32::MAX);
    assert_eq!(
        int_value(&binary(Native::IntMul, i32::MAX, i32::MAX).unwrap()),
        i32::MAX.wrapping_mul(i32::MAX)
    );
    assert_eq!(int_value(&binary(Native::IntMul, i32::MIN, i32::MIN).unwrap()), 0);
    assert_eq!(int_value(&binary(Native::IntDiv, i32::MIN, -1).unwrap()), i32::MIN);
    assert_eq!(int_value(&binary(Native::IntMod, i32::MIN, -1).unwrap()), 0);
}

#[test]
fn division_and_remainder_by_zero_are_errors() {
    match binary(Native::IntDiv, 7, 0) {
        Err(VmError::Dispatch(name)) => assert_eq!(name, "div"),
        other => panic!("unexpected outcome {:?}", other),
    }
    match binary(Native::IntMod, 7, 0) {
        Err(VmError::Dispatch(name)) => assert_eq!(name, "mod"),
        other => panic!("unexpected outcome {:?}", other),
    }
}

#[test]
fn result_of_arithmetic_takes_the_name_of_the_left_operand() {
    assert_eq!(binary(Native::IntAdd, 1, 2).unwrap().name, "left");
    assert_eq!(binary(Native::IntDiv, 1, 2).unwrap().name, "left");
    assert_eq!(binary(Native::IntMod, 1, 2).unwrap().name, "$int");
    assert_eq!(binary(Native::IntSmallerThan, 1, 2).unwrap().name, "$bool");
}

#[test]
fn integer_comparisons_give_booleans() {
    assert!(bool_value(&binary(Native::IntSmallerThan, 1, 2).unwrap()));
    assert!(!bool_value(&binary(Native::IntSmallerThan, 2, 2).unwrap()));
    assert!(bool_value(&binary(Native::IntGreaterThan, 3, 2).unwrap()));
    assert!(!bool_value(&binary(Native::IntGreaterThan, -3, 2).unwrap()));
    assert!(bool_value(&binary(Native::IntEqualTo, 2, 2).unwrap()));
    assert!(!bool_value(&binary(Native::IntEqualTo, 2, 3).unwrap()));
}

#[test]
fn right_operand_must_be_an_integer() {
    let mut stack = vec![number("l", 1), generate_string(String::from("r"), String::from("2"))];
    match call_native(Native::IntAdd, &mut stack) {
        Err(VmError::Dispatch(name)) => assert_eq!(name, "add"),
        other => panic!("unexpected outcome {:?}", other),
    }
    assert_eq!(stack.len(), 2);
    // An integer payload under another type tag is refused too.
    let mut template = number("Int", 0);
    template.yapko_type = String::from("class");
    let mut stack = vec![number("l", 1), template];
    assert!(matches!(call_native(Native::IntSub, &mut stack), Err(VmError::Dispatch(_))));
    assert_eq!(stack.len(), 2);
}

#[test]
fn natives_need_their_operands() {
    let mut empty: Vec<YapkoObject> = Vec::new();
    for native in [
        Native::Print,
        Native::ReadLine,
        Native::RandomGenerate,
        Native::IntToString,
        Native::StringToInt,
        Native::BooleanToString,
        Native::FloatToString,
        Native::IntAdd,
        Native::IntEqualTo,
        Native::FloatAdd,
        Native::FloatGreaterThan,
    ] {
        assert!(matches!(call_native(native, &mut empty), Err(VmError::ArityOrStack)));
    }
    let mut one = vec![number("a", 1)];
    assert!(matches!(call_native(Native::IntMul, &mut one), Err(VmError::ArityOrStack)));
    assert_eq!(one.len(), 1);
}

#[test]
fn conversions_replace_the_top_of_the_stack() {
    let mut stack = vec![number("n", -120)];
    assert!(matches!(call_native(Native::IntToString, &mut stack), Ok(Effect::Done)));
    assert_eq!(stack.len(), 1);
    assert_eq!(stack[0].yapko_type, "String");
    assert_eq!(stack[0].name, "n");
    assert_eq!(text_value(&stack[0]), "-120");

    let mut stack = vec![generate_boolean(String::from("flag"), false)];
    assert!(matches!(call_native(Native::BooleanToString, &mut stack), Ok(Effect::Done)));
    assert_eq!(text_value(&stack[0]), "false");
    assert_eq!(stack[0].name, "flag");

    let mut stack = vec![generate_string(String::from("s"), String::from(" \t-42\n"))];
    assert!(matches!(call_native(Native::StringToInt, &mut stack), Ok(Effect::Done)));
    assert_eq!(int_value(&stack[0]), -42);
    assert_eq!(stack[0].name, "$int");

    let mut stack = vec![generate_string(String::from("s"), String::from("4 2"))];
    match call_native(Native::StringToInt, &mut stack) {
        Err(VmError::Encoding(text)) => assert_eq!(text, "4 2"),
        other => panic!("unexpected outcome {:?}", other),
    }
    assert_eq!(stack.len(), 1);

    let mut stack = vec![number("n", 1)];
    match call_native(Native::BooleanToString, &mut stack) {
        Err(VmError::Dispatch(name)) => assert_eq!(name, "toString"),
        other => panic!("unexpected outcome {:?}", other),
    }
}

#[test]
fn printing_an_integer_uses_its_to_string_method() {
    let mut stack = vec![number("below", 0), number("n", 305)];
    match call_native(Native::PrintLine, &mut stack) {
        Ok(Effect::Write(text)) => assert_eq!(text, "305\n"),
        other => panic!("unexpected outcome {:?}", other),
    }
    assert_eq!(stack.len(), 1);
    let mut stack = vec![number("n", 305)];
    match call_native(Native::Print, &mut stack) {
        Ok(Effect::Write(text)) => assert_eq!(text, "305"),
        other => panic!("unexpected outcome {:?}", other),
    }
    assert!(stack.is_empty());
}

#[test]
fn printing_a_string_writes_its_raw_text() {
    let mut stack = vec![generate_string(String::from("s"), String::from("as is"))];
    match call_native(Native::PrintLine, &mut stack) {
        Ok(Effect::Write(text)) => assert_eq!(text, "as is\n"),
        other => panic!("unexpected outcome {:?}", other),
    }
    assert!(stack.is_empty());
    let mut stack = vec![generate_string(String::from("s"), String::from("as is"))];
    match call_native(Native::Print, &mut stack) {
        Ok(Effect::Write(text)) => assert_eq!(text, "as is"),
        other => panic!("unexpected outcome {:?}", other),
    }
    assert!(stack.is_empty());
    // A string that carries a `toString` method of its own is rendered
    // through it, and a string method cannot render.
    let mut odd = generate_string(String::from("s"), String::from("as is"));
    odd.insert(
        String::from("toString"),
        Variable::YapkoObject(generate_function(String::from("toString"), Native::IntToString)),
    );
    let mut stack = vec![odd];
    assert!(matches!(call_native(Native::PrintLine, &mut stack), Err(VmError::Dispatch(_))));
    assert_eq!(stack.len(), 1);
}

#[test]
fn printing_a_value_without_a_rendering_is_an_error() {
    let mut stack = vec![generate_null(String::from("n"))];
    match call_native(Native::PrintLine, &mut stack) {
        Err(VmError::Dispatch(name)) => assert_eq!(name, "toString"),
        other => panic!("unexpected outcome {:?}", other),
    }
    assert_eq!(stack.len(), 1);
    let mut stack: Vec<YapkoObject> = Vec::new();
    match call_native(Native::PrintLine, &mut stack) {
        Ok(Effect::Write(text)) => assert_eq!(text, "\n"),
        other => panic!("unexpected outcome {:?}", other),
    }
}

#[test]
fn floating_point_natives_ask_the_host() {
    let mut stack = vec![
        generate_float(String::from("a"), 11),
        generate_float(String::from("b"), 22),
    ];
    match call_native(Native::FloatDiv, &mut stack) {
        Ok(Effect::Ask(Request::FloatBinary(Native::FloatDiv, 11, 22), Continuation::PushFloat(name))) => {
            assert_eq!(name, "a")
        }
        other => panic!("unexpected outcome {:?}", other),
    }
    assert!(stack.is_empty());
    let mut stack = vec![
        generate_float(String::from("a"), 11),
        generate_float(String::from("b"), 22),
    ];
    assert!(matches!(
        call_native(Native::FloatGreaterThan, &mut stack),
        Ok(Effect::Ask(Request::FloatCompare(Native::FloatGreaterThan, 11, 22), Continuation::PushBoolean))
    ));
    let mut stack = vec![generate_float(String::from("a"), 11)];
    match call_native(Native::FloatToString, &mut stack) {
        Ok(Effect::Ask(Request::FloatText(11), Continuation::PushString(name))) => assert_eq!(name, "a"),
        other => panic!("unexpected outcome {:?}", other),
    }
    let mut stack = vec![generate_float(String::from("a"), 11)];
    assert!(matches!(
        call_native(Native::Print, &mut stack),
        Ok(Effect::Ask(Request::FloatText(11), Continuation::Write(false)))
    ));
    assert!(stack.is_empty());
    let mut stack = vec![generate_float(String::from("a"), 11), number("b", 2)];
    assert!(matches!(call_native(Native::FloatAdd, &mut stack), Err(VmError::Dispatch(_))));
    assert_eq!(stack.len(), 2);
}

#[test]
fn line_and_random_natives_ask_the_host() {
    let mut stack = vec![number("self", 0)];
    match call_native(Native::ReadLine, &mut stack) {
        Ok(Effect::Ask(Request::Line, Continuation::PushString(name))) => assert_eq!(name, "$String"),
        other => panic!("unexpected outcome {:?}", other),
    }
    assert!(stack.is_empty());
    let mut stack = vec![number("self", 0)];
    match call_native(Native::RandomGenerate, &mut stack) {
        Ok(Effect::Ask(Request::Random, Continuation::PushInt(name))) => assert_eq!(name, "$int"),
        other => panic!("unexpected outcome {:?}", other),
    }
    assert!(stack.is_empty());
}

#[test]
fn execute_function_runs_only_native_functions() {
    let add = generate_function(String::from("add"), Native::IntAdd);
    let mut stack = vec![number("a", 2), number("b", 3)];
    assert!(matches!(execute_function(&mut stack, &add), Ok(Effect::Done)));
    assert_eq!(stack.len(), 1);
    assert_eq!(int_value(&stack[0]), 5);

    let not_a_function = number("n", 1);
    let mut stack = vec![number("a", 2), number("b", 3)];
    assert!(matches!(execute_function(&mut stack, &not_a_function), Ok(Effect::Done)));
    assert_eq!(stack.len(), 2);
}

#[test]
fn integers_render_as_decimal_text() {
    assert_eq!(int_to_string(0), "0");
    assert_eq!(int_to_string(7), "7");
    assert_eq!(int_to_string(-7), "-7");
    assert_eq!(int_to_string(1005), "1005");
    assert_eq!(int_to_string(i32::MAX), "2147483647");
    assert_eq!(int_to_string(i32::MIN), "-2147483648");
}

#[test]
fn decimal_text_parses_to_integers() {
    let parse = |text: &str| {
        let chars: Vec<char> = text.chars().collect();
        parse_i32(&chars, 0, chars.len())
    };
    assert_eq!(parse("42"), Some(42));
    assert_eq!(parse("-5"), Some(-5));
    assert_eq!(parse("+5"), Some(5));
    assert_eq!(parse("007"), Some(7));
    assert_eq!(parse("2147483647"), Some(i32::MAX));
    assert_eq!(parse("-2147483648"), Some(i32::MIN));
    assert_eq!(parse("2147483648"), None);
    assert_eq!(parse("-2147483649"), None);
    assert_eq!(parse("99999999999999999999"), None);
    assert_eq!(parse(""), None);
    assert_eq!(parse("-"), None);
    assert_eq!(parse("+"), None);
    assert_eq!(parse("12a"), None);
    assert_eq!(parse("1.5"), None);
    assert_eq!(parse(" 1"), None);
    for text in ["0", "-1", "18", "+44", "x", "--1", "2147483650"] {
        assert_eq!(parse(text), text.parse::<i32>().ok());
    }
    let chars: Vec<char> = "ab123cd".chars().collect();
    assert_eq!(parse_i32(&chars, 2, 5), Some(123));
}

#[test]
fn bytes_become_characters_of_the_same_code_point() {
    assert_eq!(string_from_bytes(&vec![104, 105]), "hi");
    assert_eq!(string_from_bytes(&vec![233, 255]), "\u{e9}\u{ff}");
    assert_eq!(string_from_bytes(&vec![]), "");
    let chars = string_chars(&String::from("h\u{e9}llo"));
    assert_eq!(chars, vec!['h', '\u{e9}', 'l', 'l', 'o']);
    assert_eq!(string_from_chars(&chars, 1, 4), "\u{e9}ll");
    assert_eq!(string_from_chars(&chars, 2, 2), "");
}

#[test]
fn trimming_cuts_whitespace_at_both_ends() {
    let bounds = |text: &str| {
        let chars: Vec<char> = text.chars().collect();
        trim_bounds_by(&space_flags_of(&chars))
    };
    assert_eq!(bounds(" \t ab c \n"), (3, 7));
    assert_eq!(bounds("abc"), (0, 3));
    assert_eq!(bounds("   "), (3, 3));
    assert_eq!(bounds(""), (0, 0));
    assert_eq!(bounds("\u{2003}x\u{a0}"), (1, 2));
}

#[test]
fn trimming_goes_by_the_flags_it_is_given() {
    assert_eq!(trim_bounds_by(&vec![true, true, false, true, false, true]), (2, 5));
    assert_eq!(trim_bounds_by(&vec![false, false]), (0, 2));
    assert_eq!(trim_bounds_by(&vec![true, true]), (2, 2));
    assert_eq!(trim_bounds_by(&Vec::new()), (0, 0));
    let chars: Vec<char> = "xx-42x".chars().collect();
    // `x` flagged as whitespace
    let spaces = vec![true, true, false, false, false, true];
    assert_eq!(parse_trimmed(&chars, &spaces), Some(-42));
    assert_eq!(parse_trimmed(&chars, &vec![false; 6]), None);
    assert_eq!(parse_trimmed(&chars, &vec![true; 6]), None);
    assert_eq!(parse_trimmed(&chars, &vec![true, true]), None);
    let chars: Vec<char> = " 7\t".chars().collect();
    assert_eq!(space_flags_of(&chars), vec![true, false, true]);
    assert_eq!(parse_trimmed(&chars, &space_flags_of(&chars)), Some(7));
}
