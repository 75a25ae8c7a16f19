//! The built-in operations. Each one works on the operand stack alone: it
//! checks its operands first, so that a failed call leaves the stack as it
//! was, and reports what the host still has to do as an [`Effect`].

use crate::error::{ErrorView, VmError};
use crate::text::{
    decimal, int_to_string, is_text, parse_int, parse_trimmed, push_char, space_flags_of,
    string_chars, trimmed,
};
use crate::yapko::{
    boolean_object, generate_boolean, generate_int, generate_string, int_object, objects_view,
    string_object, Native, ObjectView, Primitive, PrimitiveView, Variable, VariableView,
    YapkoObject,
};
use rand::Rng;
use vstd::arithmetic::div_mod::lemma_mod_multiples_vanish;
use vstd::prelude::*;

verus! {

/// What the engine asks of its host when it cannot go on alone.
#[derive(Clone, Copy, Debug, PartialEq, Eq, Structural)]
pub enum Request {
    /// One line of standard input.
    Line,
    /// A random 32-bit integer.
    Random,
    /// The result of a floating-point operation on two bit patterns, as a bit
    /// pattern.
    FloatBinary(Native, u64, u64),
    /// The truth of a floating-point comparison of two bit patterns.
    FloatCompare(Native, u64, u64),
    /// The text of the floating-point number with the given bit pattern.
    FloatText(u64),
}

/// What the engine does with the host's answer.
#[derive(Debug)]
pub enum Continuation {
    /// Push a string object of this name.
    PushString(String),
    /// Push an integer object of this name.
    PushInt(String),
    /// Push a floating-point object of this name.
    PushFloat(String),
    /// Push a boolean object.
    PushBoolean,
    /// Write the text to standard output, followed by a line break if set.
    Write(bool),
}

/// The mathematical content of a [`Continuation`].
#[verifier::ext_equal]
pub enum ContinuationView {
    PushString(Seq<char>),
    PushInt(Seq<char>),
    PushFloat(Seq<char>),
    PushBoolean,
    Write(bool),
}

impl View for Continuation {
    type V = ContinuationView;

    open spec fn view(&self) -> ContinuationView {
        match *self {
            Continuation::PushString(name) => ContinuationView::PushString(name@),
            Continuation::PushInt(name) => ContinuationView::PushInt(name@),
            Continuation::PushFloat(name) => ContinuationView::PushFloat(name@),
            Continuation::PushBoolean => ContinuationView::PushBoolean,
            Continuation::Write(newline) => ContinuationView::Write(newline),
        }
    }
}

impl Clone for Continuation {
    /// A copy with the same content.
    fn clone(&self) -> (r: Self)
        ensures
            r@ == self@,
    {
        match self {
            Continuation::PushString(name) => Continuation::PushString(name.clone()),
            Continuation::PushInt(name) => Continuation::PushInt(name.clone()),
            Continuation::PushFloat(name) => Continuation::PushFloat(name.clone()),
            Continuation::PushBoolean => Continuation::PushBoolean,
            Continuation::Write(newline) => Continuation::Write(*newline),
        }
    }
}

/// What a built-in operation leaves for the engine to do.
#[derive(Debug)]
pub enum Effect {
    /// Nothing.
    Done,
    /// Write this text to standard output.
    Write(String),
    /// Put the request to the host and treat its answer as told.
    Ask(Request, Continuation),
}

/// The mathematical content of an [`Effect`].
#[verifier::ext_equal]
pub enum EffectView {
    Done,
    Write(Seq<char>),
    Ask(Request, ContinuationView),
}

impl View for Effect {
    type V = EffectView;

    open spec fn view(&self) -> EffectView {
        match *self {
            Effect::Done => EffectView::Done,
            Effect::Write(text) => EffectView::Write(text@),
            Effect::Ask(request, continuation) => EffectView::Ask(request, continuation@),
        }
    }
}

/// The host's answer to a [`Request`].
#[derive(Debug)]
pub enum Reply {
    Text(String),
    Int(i32),
    Bits(u64),
    Bool(bool),
}

/// The mathematical content of a [`Reply`].
#[verifier::ext_equal]
pub enum ReplyView {
    Text(Seq<char>),
    Int(i32),
    Bits(u64),
    Bool(bool),
}

impl View for Reply {
    type V = ReplyView;

    open spec fn view(&self) -> ReplyView {
        match *self {
            Reply::Text(text) => ReplyView::Text(text@),
            Reply::Int(v) => ReplyView::Int(v),
            Reply::Bits(bits) => ReplyView::Bits(bits),
            Reply::Bool(b) => ReplyView::Bool(b),
        }
    }
}

/// Whether a continuation is one that goes with a request: it expects the
/// kind of answer that the request asks for.
pub open spec fn fits(request: Request, continuation: ContinuationView) -> bool {
    match (request, continuation) {
        (Request::Line, ContinuationView::PushString(_)) => true,
        (Request::Random, ContinuationView::PushInt(_)) => true,
        (Request::FloatBinary(_, _, _), ContinuationView::PushFloat(_)) => true,
        (Request::FloatCompare(_, _, _), ContinuationView::PushBoolean) => true,
        (Request::FloatText(_), ContinuationView::PushString(_)) => true,
        (Request::FloatText(_), ContinuationView::Write(_)) => true,
        _ => false,
    }
}

/// Whether an answer is of the kind that a request asks for: a text for a
/// line or for the text of a number, an integer for a random number, a bit
/// pattern for floating-point arithmetic, a truth value for a comparison.
pub open spec fn answers(request: Request, reply: ReplyView) -> bool {
    match (request, reply) {
        (Request::Line, ReplyView::Text(_)) => true,
        (Request::Random, ReplyView::Int(_)) => true,
        (Request::FloatBinary(_, _, _), ReplyView::Bits(_)) => true,
        (Request::FloatCompare(_, _, _), ReplyView::Bool(_)) => true,
        (Request::FloatText(_), ReplyView::Text(_)) => true,
        _ => false,
    }
}

/// Calls `rand::thread_rng` and, on the generator it hands out,
/// `rand::Rng::gen`, which draws a value from the standard distribution: for
/// `i32`, any of its values. Nothing is claimed of the number drawn. The
/// generator is seeded from the operating system when a thread first asks for
/// it, and the call panics where the system gives no seed.
#[verifier::external_body]
pub(crate) fn random_int() -> i32 {
    rand::thread_rng().gen()
}

/// The name of the member under which a built-in operation is stored.
pub open spec fn native_name(native: Native) -> Seq<char> {
    match native {
        Native::PrintLine => "printLine"@,
        Native::Print => "print"@,
        Native::ReadLine => "readLine"@,
        Native::RandomGenerate => "generate"@,
        Native::IntToString | Native::FloatToString | Native::BooleanToString => "toString"@,
        Native::IntAdd | Native::FloatAdd => "add"@,
        Native::IntSub | Native::FloatSub => "sub"@,
        Native::IntMul | Native::FloatMul => "mul"@,
        Native::IntDiv | Native::FloatDiv => "div"@,
        Native::IntMod => "mod"@,
        Native::IntSmallerThan | Native::FloatSmallerThan => "smallerThan"@,
        Native::IntGreaterThan | Native::FloatGreaterThan => "greaterThan"@,
        Native::IntEqualTo => "equalTo"@,
        Native::StringToInt => "toInt"@,
    }
}

/// The integer of 32 bits that a mathematical integer wraps to in two's
/// complement.
pub open spec fn wrap_i32(x: int) -> i32 {
    ((x + 0x8000_0000) % 0x1_0000_0000 - 0x8000_0000) as i32
}

/// The magnitude of an integer.
pub open spec fn magnitude(x: int) -> int {
    if x < 0 {
        -x
    } else {
        x
    }
}

/// The quotient of a division that rounds toward zero. The divisor is not zero.
pub open spec fn truncated_div(a: int, b: int) -> int {
    if (a < 0) == (b < 0) {
        magnitude(a) / magnitude(b)
    } else {
        -(magnitude(a) / magnitude(b))
    }
}

/// The remainder of a division that rounds toward zero: it has the sign of
/// the dividend. The divisor is not zero.
pub open spec fn truncated_rem(a: int, b: int) -> int {
    if a < 0 {
        -(magnitude(a) % magnitude(b))
    } else {
        magnitude(a) % magnitude(b)
    }
}

/// The result of an arithmetic operation on two integers of 32 bits: the
/// mathematical result, wrapped to 32 bits where it does not fit. Division
/// and remainder are defined for a divisor other than zero.
pub open spec fn int_arithmetic(native: Native, l: i32, r: i32) -> i32 {
    match native {
        Native::IntAdd => wrap_i32(l + r),
        Native::IntSub => wrap_i32(l - r),
        Native::IntMul => wrap_i32(l * r),
        Native::IntDiv => wrap_i32(truncated_div(l as int, r as int)),
        _ => wrap_i32(truncated_rem(l as int, r as int)),
    }
}

/// Whether an arithmetic operation divides by its right operand.
pub open spec fn divides(native: Native) -> bool {
    native != Native::IntAdd && native != Native::IntSub && native != Native::IntMul
}

/// The result of a comparison of two integers.
pub open spec fn int_comparison(native: Native, l: i32, r: i32) -> bool {
    match native {
        Native::IntSmallerThan => l < r,
        Native::IntGreaterThan => l > r,
        _ => l == r,
    }
}

/// The integer that an object holds as its payload.
pub open spec fn int_payload(o: ObjectView) -> Option<i32> {
    match o.payload() {
        Some(PrimitiveView::Int(v)) => Some(v),
        _ => None,
    }
}

/// The bit pattern of the floating-point number that an object holds.
pub open spec fn float_payload(o: ObjectView) -> Option<u64> {
    match o.payload() {
        Some(PrimitiveView::Float(bits)) => Some(bits),
        _ => None,
    }
}

/// The text of a boolean.
pub open spec fn bool_text(b: bool) -> Seq<char> {
    if b {
        "true"@
    } else {
        "false"@
    }
}

/// A text as it is written out: with a line break at its end if asked for.
pub open spec fn written(text: Seq<char>, newline: bool) -> Seq<char> {
    if newline {
        text.push('\n')
    } else {
        text
    }
}

/// What a built-in operation does: the stack it leaves and its effect, or the
/// error on which it leaves the stack untouched.
pub type NativeResult = Result<(Seq<ObjectView>, EffectView), ErrorView>;

/// The two integers on top of the stack, for the operation `native`: the
/// second entry from the top is the left operand. The right operand must be
/// tagged `Int`.
pub open spec fn int_operands(stack: Seq<ObjectView>, native: Native) -> Result<
    (i32, i32),
    ErrorView,
> {
    if stack.len() < 2 {
        Err(ErrorView::ArityOrStack)
    } else {
        let left = stack[stack.len() - 2];
        let right = stack[stack.len() - 1];
        match (int_payload(left), int_payload(right)) {
            (Some(l), Some(r)) => if right.yapko_type == "Int"@ {
                Ok((l, r))
            } else {
                Err(ErrorView::Dispatch(native_name(native)))
            },
            _ => Err(ErrorView::Dispatch(native_name(native))),
        }
    }
}

/// The two floating-point bit patterns on top of the stack, for the
/// operation `native`. The right operand must be tagged `Float`.
pub open spec fn float_operands(stack: Seq<ObjectView>, native: Native) -> Result<
    (u64, u64),
    ErrorView,
> {
    if stack.len() < 2 {
        Err(ErrorView::ArityOrStack)
    } else {
        let left = stack[stack.len() - 2];
        let right = stack[stack.len() - 1];
        match (float_payload(left), float_payload(right)) {
            (Some(l), Some(r)) => if right.yapko_type == "Float"@ {
                Ok((l, r))
            } else {
                Err(ErrorView::Dispatch(native_name(native)))
            },
            _ => Err(ErrorView::Dispatch(native_name(native))),
        }
    }
}

/// `add`, `sub`, `mul`, `div`, `mod` of an integer: both operands leave the
/// stack, and the result enters it under the left operand's name (`$int` for
/// `mod`). Division and remainder by zero are errors.
pub open spec fn int_arithmetic_spec(native: Native, stack: Seq<ObjectView>) -> NativeResult {
    match int_operands(stack, native) {
        Err(e) => Err(e),
        Ok((l, r)) => if divides(native) && r == 0 {
            Err(ErrorView::Dispatch(native_name(native)))
        } else {
            let name = if native == Native::IntMod {
                "$int"@
            } else {
                stack[stack.len() - 2].name
            };
            Ok(
                (
                    stack.take(stack.len() - 2).push(
                        int_object(name, int_arithmetic(native, l, r)),
                    ),
                    EffectView::Done,
                ),
            )
        },
    }
}

/// `smallerThan`, `greaterThan`, `equalTo` of an integer: both operands leave
/// the stack, and a boolean called `$bool` enters it.
pub open spec fn int_comparison_spec(native: Native, stack: Seq<ObjectView>) -> NativeResult {
    match int_operands(stack, native) {
        Err(e) => Err(e),
        Ok((l, r)) => Ok(
            (
                stack.take(stack.len() - 2).push(
                    boolean_object("$bool"@, int_comparison(native, l, r)),
                ),
                EffectView::Done,
            ),
        ),
    }
}

/// `toString` of an integer or a boolean, `toInt` of a string: the value on
/// top of the stack is replaced by its conversion.
pub open spec fn conversion_spec(native: Native, stack: Seq<ObjectView>) -> NativeResult {
    if stack.len() < 1 {
        Err(ErrorView::ArityOrStack)
    } else {
        let top = stack.last();
        match (native, top.payload()) {
            (Native::IntToString, Some(PrimitiveView::Int(v))) => Ok(
                (
                    stack.drop_last().push(string_object(top.name, decimal(v as int))),
                    EffectView::Done,
                ),
            ),
            (Native::BooleanToString, Some(PrimitiveView::Boolean(b))) => Ok(
                (stack.drop_last().push(string_object(top.name, bool_text(b))), EffectView::Done),
            ),
            (Native::StringToInt, Some(PrimitiveView::YapkoString(s))) => match parse_int(
                trimmed(s),
            ) {
                Some(v) => Ok((stack.drop_last().push(int_object("$int"@, v)), EffectView::Done)),
                None => Err(ErrorView::Encoding(s)),
            },
            (Native::FloatToString, Some(PrimitiveView::Float(bits))) => Ok(
                (
                    stack.drop_last(),
                    EffectView::Ask(Request::FloatText(bits), ContinuationView::PushString(top.name)),
                ),
            ),
            _ => Err(ErrorView::Dispatch(native_name(native))),
        }
    }
}

/// The arithmetic and the comparisons of floating-point numbers: both
/// operands leave the stack, and the host is asked for the result.
pub open spec fn float_binary_spec(native: Native, stack: Seq<ObjectView>) -> NativeResult {
    match float_operands(stack, native) {
        Err(e) => Err(e),
        Ok((l, r)) => Ok(
            (
                stack.take(stack.len() - 2),
                if native == Native::FloatSmallerThan || native == Native::FloatGreaterThan {
                    EffectView::Ask(
                        Request::FloatCompare(native, l, r),
                        ContinuationView::PushBoolean,
                    )
                } else {
                    EffectView::Ask(
                        Request::FloatBinary(native, l, r),
                        ContinuationView::PushFloat(stack[stack.len() - 2].name),
                    )
                },
            ),
        ),
    }
}

/// `readLine` and `generate`: the receiver on top of the stack leaves it, and
/// the host is asked for a line or a random number.
pub open spec fn supply_spec(native: Native, stack: Seq<ObjectView>) -> NativeResult {
    if stack.len() < 1 {
        Err(ErrorView::ArityOrStack)
    } else if native == Native::ReadLine {
        Ok(
            (
                stack.drop_last(),
                EffectView::Ask(Request::Line, ContinuationView::PushString("$String"@)),
            ),
        )
    } else {
        Ok(
            (
                stack.drop_last(),
                EffectView::Ask(Request::Random, ContinuationView::PushInt("$int"@)),
            ),
        )
    }
}

/// `print` and `printLine`. The value on top of the stack is written and
/// leaves the stack: a value with a `toString` method as that method renders
/// it, a string as it is. `printLine` adds a line break. On an empty stack
/// `printLine` writes a line break alone, and `print` fails.
pub open spec fn print_spec(stack: Seq<ObjectView>, newline: bool) -> NativeResult {
    let fail = Err(ErrorView::Dispatch("toString"@));
    if stack.len() == 0 {
        if newline {
            Ok((stack, EffectView::Write(seq!['\n'])))
        } else {
            Err(ErrorView::ArityOrStack)
        }
    } else {
        let top = stack.last();
        match top.member("toString"@) {
            None => match top.payload() {
                Some(PrimitiveView::YapkoString(s)) => if top.yapko_type == "String"@ {
                    Ok((stack.drop_last(), EffectView::Write(written(s, newline))))
                } else {
                    fail
                },
                _ => fail,
            },
            Some(VariableView::Primitive(_)) => fail,
            Some(VariableView::YapkoObject(method)) => match (method.payload(), top.payload()) {
                (
                    Some(PrimitiveView::Function(Native::IntToString)),
                    Some(PrimitiveView::Int(v)),
                ) => Ok(
                    (stack.drop_last(), EffectView::Write(written(decimal(v as int), newline))),
                ),
                (
                    Some(PrimitiveView::Function(Native::BooleanToString)),
                    Some(PrimitiveView::Boolean(b)),
                ) => Ok((stack.drop_last(), EffectView::Write(written(bool_text(b), newline)))),
                (
                    Some(PrimitiveView::Function(Native::FloatToString)),
                    Some(PrimitiveView::Float(bits)),
                ) => Ok(
                    (
                        stack.drop_last(),
                        EffectView::Ask(Request::FloatText(bits), ContinuationView::Write(newline)),
                    ),
                ),
                _ => fail,
            },
        }
    }
}

/// What each built-in operation does.
pub open spec fn native_spec(native: Native, stack: Seq<ObjectView>) -> NativeResult {
    match native {
        Native::PrintLine => print_spec(stack, true),
        Native::Print => print_spec(stack, false),
        Native::ReadLine | Native::RandomGenerate => supply_spec(native, stack),
        Native::IntToString
        | Native::BooleanToString
        | Native::StringToInt
        | Native::FloatToString => conversion_spec(native, stack),
        Native::IntAdd
        | Native::IntSub
        | Native::IntMul
        | Native::IntDiv
        | Native::IntMod => int_arithmetic_spec(native, stack),
        Native::IntSmallerThan
        | Native::IntGreaterThan
        | Native::IntEqualTo => int_comparison_spec(native, stack),
        Native::FloatAdd
        | Native::FloatSub
        | Native::FloatMul
        | Native::FloatDiv
        | Native::FloatSmallerThan
        | Native::FloatGreaterThan => float_binary_spec(native, stack),
    }
}

/// Whether a call left the stack and returned what `expected` says.
pub open spec fn native_agrees(
    before: Seq<YapkoObject>,
    after: Seq<YapkoObject>,
    r: Result<Effect, VmError>,
    expected: NativeResult,
) -> bool {
    match expected {
        Ok((stack, effect)) => r is Ok && r->Ok_0@ == effect && objects_view(after) == stack,
        Err(e) => r is Err && r->Err_0@ == e && after == before,
    }
}

/// What running a function object does: its built-in operation, or nothing
/// where the object wraps none.
pub open spec fn execute_function_spec(stack: Seq<ObjectView>, function: ObjectView) -> NativeResult {
    match function.payload() {
        Some(PrimitiveView::Function(native)) => native_spec(native, stack),
        _ => Ok((stack, EffectView::Done)),
    }
}

/// The object that the engine pushes for an answer, where the continuation
/// asks for one and the answer has the kind it expects.
pub open spec fn answer_object(continuation: ContinuationView, reply: ReplyView) -> Option<
    ObjectView,
> {
    match (continuation, reply) {
        (ContinuationView::PushString(name), ReplyView::Text(text)) => Some(
            string_object(name, text),
        ),
        (ContinuationView::PushInt(name), ReplyView::Int(v)) => Some(int_object(name, v)),
        (ContinuationView::PushFloat(name), ReplyView::Bits(bits)) => Some(
            crate::yapko::float_object(name, bits),
        ),
        (ContinuationView::PushBoolean, ReplyView::Bool(b)) => Some(boolean_object("$bool"@, b)),
        _ => None,
    }
}

/// The text that the engine writes for an answer, where the continuation is
/// to write it.
pub open spec fn answer_text(continuation: ContinuationView, reply: ReplyView) -> Option<
    Seq<char>,
> {
    match (continuation, reply) {
        (ContinuationView::Write(newline), ReplyView::Text(text)) => Some(written(text, newline)),
        _ => None,
    }
}

/// Whatever a built-in operation asks of the host, it expects the kind of
/// answer that goes with the request.
pub proof fn lemma_native_asks(native: Native, stack: Seq<ObjectView>)
    ensures
        match native_spec(native, stack) {
            Ok((_, EffectView::Ask(request, continuation))) => fits(request, continuation),
            _ => true,
        },
{
}

/// Within 32 bits nothing wraps.
pub proof fn lemma_wrap_in_range(x: int)
    requires
        i32::MIN <= x <= i32::MAX,
    ensures
        wrap_i32(x) == x,
{
}

/// The name of the member under which a built-in operation is stored.
fn native_label(native: Native) -> (r: String)
    ensures
        r@ == native_name(native),
{
    match native {
        Native::PrintLine => String::from_str("printLine"),
        Native::Print => String::from_str("print"),
        Native::ReadLine => String::from_str("readLine"),
        Native::RandomGenerate => String::from_str("generate"),
        Native::IntToString | Native::FloatToString | Native::BooleanToString => String::from_str(
            "toString",
        ),
        Native::IntAdd | Native::FloatAdd => String::from_str("add"),
        Native::IntSub | Native::FloatSub => String::from_str("sub"),
        Native::IntMul | Native::FloatMul => String::from_str("mul"),
        Native::IntDiv | Native::FloatDiv => String::from_str("div"),
        Native::IntMod => String::from_str("mod"),
        Native::IntSmallerThan | Native::FloatSmallerThan => String::from_str("smallerThan"),
        Native::IntGreaterThan | Native::FloatGreaterThan => String::from_str("greaterThan"),
        Native::IntEqualTo => String::from_str("equalTo"),
        Native::StringToInt => String::from_str("toInt"),
    }
}

/// Wraps an integer to 32 bits.
fn wrap(x: i64) -> (r: i32)
    ensures
        r == wrap_i32(x as int),
{
    let shifted: i128 = x as i128 + 0x1_0000_0000_0000_0000_0000 + 0x8000_0000;
    let low: i128 = shifted % 0x1_0000_0000;
    proof {
        lemma_mod_multiples_vanish(0x1_0000_0000_0000, x + 0x8000_0000, 0x1_0000_0000);
        assert(0x1_0000_0000 * 0x1_0000_0000_0000 == 0x1_0000_0000_0000_0000_0000int);
    }
    (low - 0x8000_0000) as i32
}

/// Works out an arithmetic operation on two integers.
fn compute_int(native: Native, l: i32, r: i32) -> (v: i32)
    requires
        divides(native) ==> r != 0,
    ensures
        v == int_arithmetic(native, l, r),
{
    match native {
        Native::IntAdd => wrap(l as i64 + r as i64),
        Native::IntSub => wrap(l as i64 - r as i64),
        Native::IntMul => {
            assert(-0x4000_0000_0000_0000 <= (l as int) * (r as int) <= 0x4000_0000_0000_0000)
                by (nonlinear_arith)
                requires
                    -0x8000_0000 <= l <= 0x7fff_ffff,
                    -0x8000_0000 <= r <= 0x7fff_ffff,
            ;
            wrap((l as i64) * (r as i64))
        },
        Native::IntDiv => {
            let a: u64 = if l < 0 {
                (-(l as i64)) as u64
            } else {
                l as u64
            };
            let b: u64 = if r < 0 {
                (-(r as i64)) as u64
            } else {
                r as u64
            };
            let q: u64 = a / b;
            if (l < 0) == (r < 0) {
                wrap(q as i64)
            } else {
                wrap(-(q as i64))
            }
        },
        _ => {
            let a: u64 = if l < 0 {
                (-(l as i64)) as u64
            } else {
                l as u64
            };
            let b: u64 = if r < 0 {
                (-(r as i64)) as u64
            } else {
                r as u64
            };
            let m: u64 = a % b;
            if l < 0 {
                wrap(-(m as i64))
            } else {
                wrap(m as i64)
            }
        },
    }
}

/// Works out a comparison of two integers.
fn compare_int(native: Native, l: i32, r: i32) -> (v: bool)
    ensures
        v == int_comparison(native, l, r),
{
    match native {
        Native::IntSmallerThan => l < r,
        Native::IntGreaterThan => l > r,
        _ => l == r,
    }
}

/// The integer that an object holds as its payload.
fn read_int(o: &YapkoObject) -> (r: Option<i32>)
    ensures
        r == int_payload(o@),
{
    match o.payload() {
        Some(Primitive::Int(v)) => Some(*v),
        _ => None,
    }
}

/// The bit pattern of the floating-point number that an object holds.
fn read_float(o: &YapkoObject) -> (r: Option<u64>)
    ensures
        r == float_payload(o@),
{
    match o.payload() {
        Some(Primitive::Float(bits)) => Some(*bits),
        _ => None,
    }
}

/// Reads the two integers on top of the stack.
fn read_int_operands(stack: &Vec<YapkoObject>, native: Native) -> (r: Result<(i32, i32), VmError>)
    ensures
        match int_operands(objects_view(stack@), native) {
            Ok(pair) => r == Ok::<(i32, i32), VmError>(pair),
            Err(e) => r is Err && r->Err_0@ == e,
        },
{
    let n = stack.len();
    if n < 2 {
        return Err(VmError::ArityOrStack);
    }
    let left = &stack[n - 2];
    let right = &stack[n - 1];
    match (read_int(left), read_int(right)) {
        (Some(l), Some(r)) => {
            if is_text(&right.yapko_type, "Int") {
                Ok((l, r))
            } else {
                Err(VmError::Dispatch(native_label(native)))
            }
        },
        _ => Err(VmError::Dispatch(native_label(native))),
    }
}

/// Reads the two floating-point bit patterns on top of the stack.
fn read_float_operands(stack: &Vec<YapkoObject>, native: Native) -> (r: Result<
    (u64, u64),
    VmError,
>)
    ensures
        match float_operands(objects_view(stack@), native) {
            Ok(pair) => r == Ok::<(u64, u64), VmError>(pair),
            Err(e) => r is Err && r->Err_0@ == e,
        },
{
    let n = stack.len();
    if n < 2 {
        return Err(VmError::ArityOrStack);
    }
    let left = &stack[n - 2];
    let right = &stack[n - 1];
    match (read_float(left), read_float(right)) {
        (Some(l), Some(r)) => {
            if is_text(&right.yapko_type, "Float") {
                Ok((l, r))
            } else {
                Err(VmError::Dispatch(native_label(native)))
            }
        },
        _ => Err(VmError::Dispatch(native_label(native))),
    }
}

/// Takes the two top entries off the stack and hands back the name of the
/// lower one.
fn pop_operands(stack: &mut Vec<YapkoObject>) -> (name: String)
    requires
        old(stack).len() >= 2,
    ensures
        final(stack)@ == old(stack)@.take(old(stack).len() - 2),
        name@ == old(stack)@[old(stack).len() - 2]@.name,
{
    let right = stack.pop();
    let left = stack.pop();
    assert(stack@ =~= old(stack)@.take(old(stack).len() - 2));
    match left {
        Some(object) => {
            proof {
                crate::yapko::lemma_object_members(object);
            }
            object.name
        },
        None => String::new(),
    }
}

/// Takes the top entry off the stack and hands back its name.
fn pop_operand(stack: &mut Vec<YapkoObject>) -> (name: String)
    requires
        old(stack).len() >= 1,
    ensures
        final(stack)@ == old(stack)@.drop_last(),
        name@ == old(stack)@.last()@.name,
{
    let top = stack.pop();
    match top {
        Some(object) => {
            proof {
                crate::yapko::lemma_object_members(object);
            }
            object.name
        },
        None => String::new(),
    }
}

/// The view of a stack follows its pushes and cuts.
pub proof fn lemma_objects_view_push(stack: Seq<YapkoObject>, object: YapkoObject)
    ensures
        objects_view(stack.push(object)) == objects_view(stack).push(object@),
{
    assert(objects_view(stack.push(object)) =~= objects_view(stack).push(object@));
}

/// The view of a cut stack is the cut view.
pub proof fn lemma_objects_view_take(stack: Seq<YapkoObject>, n: int)
    requires
        0 <= n <= stack.len(),
    ensures
        objects_view(stack.take(n)) == objects_view(stack).take(n),
{
    assert(objects_view(stack.take(n)) =~= objects_view(stack).take(n));
}

/// `add`, `sub`, `mul`, `div`, `mod` of an integer.
fn int_arithmetic_native(native: Native, stack: &mut Vec<YapkoObject>) -> (r: Result<
    Effect,
    VmError,
>)
    ensures
        native_agrees(
            old(stack)@,
            final(stack)@,
            r,
            int_arithmetic_spec(native, objects_view(old(stack)@)),
        ),
{
    let (l, r) = match read_int_operands(stack, native) {
        Ok(pair) => pair,
        Err(e) => {
            return Err(e);
        },
    };
    let by_zero = match native {
        Native::IntAdd | Native::IntSub | Native::IntMul => false,
        _ => r == 0,
    };
    if by_zero {
        return Err(VmError::Dispatch(native_label(native)));
    }
    let value = compute_int(native, l, r);
    let left_name = pop_operands(stack);
    let name = match native {
        Native::IntMod => String::from_str("$int"),
        _ => left_name,
    };
    let ghost cut = stack@;
    let object = generate_int(name, value);
    stack.push(object);
    proof {
        lemma_objects_view_push(cut, object);
        lemma_objects_view_take(old(stack)@, old(stack).len() - 2);
    }
    Ok(Effect::Done)
}

/// `smallerThan`, `greaterThan`, `equalTo` of an integer.
fn int_comparison_native(native: Native, stack: &mut Vec<YapkoObject>) -> (r: Result<
    Effect,
    VmError,
>)
    ensures
        native_agrees(
            old(stack)@,
            final(stack)@,
            r,
            int_comparison_spec(native, objects_view(old(stack)@)),
        ),
{
    let (l, r) = match read_int_operands(stack, native) {
        Ok(pair) => pair,
        Err(e) => {
            return Err(e);
        },
    };
    let value = compare_int(native, l, r);
    let _ = pop_operands(stack);
    let ghost cut = stack@;
    let object = generate_boolean(String::from_str("$bool"), value);
    stack.push(object);
    proof {
        lemma_objects_view_push(cut, object);
        lemma_objects_view_take(old(stack)@, old(stack).len() - 2);
    }
    Ok(Effect::Done)
}

/// The arithmetic and the comparisons of floating-point numbers.
fn float_binary_native(native: Native, stack: &mut Vec<YapkoObject>) -> (r: Result<
    Effect,
    VmError,
>)
    ensures
        native_agrees(
            old(stack)@,
            final(stack)@,
            r,
            float_binary_spec(native, objects_view(old(stack)@)),
        ),
{
    let (l, r) = match read_float_operands(stack, native) {
        Ok(pair) => pair,
        Err(e) => {
            return Err(e);
        },
    };
    let name = pop_operands(stack);
    proof {
        lemma_objects_view_take(old(stack)@, old(stack).len() - 2);
    }
    match native {
        Native::FloatSmallerThan | Native::FloatGreaterThan => Ok(
            Effect::Ask(Request::FloatCompare(native, l, r), Continuation::PushBoolean),
        ),
        _ => Ok(Effect::Ask(Request::FloatBinary(native, l, r), Continuation::PushFloat(name))),
    }
}

/// The text of a boolean.
fn bool_string(b: bool) -> (r: String)
    ensures
        r@ == bool_text(b),
{
    if b {
        String::from_str("true")
    } else {
        String::from_str("false")
    }
}

/// What the top of the stack converts to under `native`: the text of an
/// integer or a boolean, or the integer of a string.
enum Converted {
    Text(String),
    Number(i32),
    Float(u64),
}

/// `toString` and `toInt`.
fn conversion_native(native: Native, stack: &mut Vec<YapkoObject>) -> (r: Result<Effect, VmError>)
    ensures
        native_agrees(
            old(stack)@,
            final(stack)@,
            r,
            conversion_spec(native, objects_view(old(stack)@)),
        ),
{
    let n = stack.len();
    if n < 1 {
        return Err(VmError::ArityOrStack);
    }
    let converted = match (native, stack[n - 1].payload()) {
        (Native::IntToString, Some(Primitive::Int(v))) => Converted::Text(int_to_string(*v)),
        (Native::BooleanToString, Some(Primitive::Boolean(b))) => Converted::Text(bool_string(*b)),
        (Native::StringToInt, Some(Primitive::YapkoString(s))) => {
            let chars = string_chars(s);
            let spaces = space_flags_of(&chars);
            match parse_trimmed(&chars, &spaces) {
                Some(v) => Converted::Number(v),
                None => {
                    return Err(VmError::Encoding(s.clone()));
                },
            }
        },
        (Native::FloatToString, Some(Primitive::Float(bits))) => Converted::Float(*bits),
        _ => {
            return Err(VmError::Dispatch(native_label(native)));
        },
    };
    let name = pop_operand(stack);
    let ghost cut = stack@;
    proof {
        lemma_objects_view_take(old(stack)@, old(stack).len() - 1);
    }
    match converted {
        Converted::Text(text) => {
            let object = generate_string(name, text);
            stack.push(object);
            proof {
                lemma_objects_view_push(cut, object);
            }
            Ok(Effect::Done)
        },
        Converted::Number(v) => {
            let object = generate_int(String::from_str("$int"), v);
            stack.push(object);
            proof {
                lemma_objects_view_push(cut, object);
            }
            Ok(Effect::Done)
        },
        Converted::Float(bits) => Ok(
            Effect::Ask(Request::FloatText(bits), Continuation::PushString(name)),
        ),
    }
}

/// `readLine` and `generate`.
fn supply_native(native: Native, stack: &mut Vec<YapkoObject>) -> (r: Result<Effect, VmError>)
    ensures
        native_agrees(
            old(stack)@,
            final(stack)@,
            r,
            supply_spec(native, objects_view(old(stack)@)),
        ),
{
    if stack.len() < 1 {
        return Err(VmError::ArityOrStack);
    }
    let _ = pop_operand(stack);
    proof {
        lemma_objects_view_take(old(stack)@, old(stack).len() - 1);
    }
    match native {
        Native::ReadLine => Ok(
            Effect::Ask(Request::Line, Continuation::PushString(String::from_str("$String"))),
        ),
        _ => Ok(Effect::Ask(Request::Random, Continuation::PushInt(String::from_str("$int")))),
    }
}

/// A text with a line break at its end if asked for.
fn with_break(text: String, newline: bool) -> (r: String)
    ensures
        r@ == written(text@, newline),
{
    let mut text = text;
    if newline {
        push_char(&mut text, '\n');
    }
    text
}

/// How a value on top of the stack is written out.
enum Rendering {
    Text(String),
    Float(u64),
}

/// `print` and `printLine`.
fn print_native(stack: &mut Vec<YapkoObject>, newline: bool) -> (r: Result<Effect, VmError>)
    ensures
        native_agrees(old(stack)@, final(stack)@, r, print_spec(objects_view(old(stack)@), newline)),
{
    let n = stack.len();
    if n == 0 {
        if newline {
            let mut text = String::new();
            push_char(&mut text, '\n');
            assert(text@ =~= seq!['\n']);
            return Ok(Effect::Write(text));
        } else {
            return Err(VmError::ArityOrStack);
        }
    }
    let top = &stack[n - 1];
    let rendering = match top.get("toString") {
        None => match top.payload() {
            Some(Primitive::YapkoString(s)) => {
                if is_text(&top.yapko_type, "String") {
                    Rendering::Text(s.clone())
                } else {
                    return Err(VmError::Dispatch(String::from_str("toString")));
                }
            },
            _ => {
                return Err(VmError::Dispatch(String::from_str("toString")));
            },
        },
        Some(Variable::Primitive(_)) => {
            return Err(VmError::Dispatch(String::from_str("toString")));
        },
        Some(Variable::YapkoObject(method)) => match (method.payload(), top.payload()) {
            (Some(Primitive::Function(Native::IntToString)), Some(Primitive::Int(v))) => {
                Rendering::Text(int_to_string(*v))
            },
            (Some(Primitive::Function(Native::BooleanToString)), Some(Primitive::Boolean(b))) => {
                Rendering::Text(bool_string(*b))
            },
            (Some(Primitive::Function(Native::FloatToString)), Some(Primitive::Float(bits))) => {
                Rendering::Float(*bits)
            },
            _ => {
                return Err(VmError::Dispatch(String::from_str("toString")));
            },
        },
    };
    let _ = pop_operand(stack);
    proof {
        lemma_objects_view_take(old(stack)@, old(stack).len() - 1);
    }
    match rendering {
        Rendering::Text(text) => Ok(Effect::Write(with_break(text, newline))),
        Rendering::Float(bits) => Ok(
            Effect::Ask(Request::FloatText(bits), Continuation::Write(newline)),
        ),
    }
}

/// Runs a built-in operation against the operand stack. On an error the
/// stack is left as it was.
pub fn call_native(native: Native, stack: &mut Vec<YapkoObject>) -> (r: Result<Effect, VmError>)
    ensures
        native_agrees(old(stack)@, final(stack)@, r, native_spec(native, objects_view(old(stack)@))),
{
    match native {
        Native::PrintLine => print_native(stack, true),
        Native::Print => print_native(stack, false),
        Native::ReadLine | Native::RandomGenerate => supply_native(native, stack),
        Native::IntToString
        | Native::BooleanToString
        | Native::StringToInt
        | Native::FloatToString => conversion_native(native, stack),
        Native::IntAdd
        | Native::IntSub
        | Native::IntMul
        | Native::IntDiv
        | Native::IntMod => int_arithmetic_native(native, stack),
        Native::IntSmallerThan
        | Native::IntGreaterThan
        | Native::IntEqualTo => int_comparison_native(native, stack),
        Native::FloatAdd
        | Native::FloatSub
        | Native::FloatMul
        | Native::FloatDiv
        | Native::FloatSmallerThan
        | Native::FloatGreaterThan => float_binary_native(native, stack),
    }
}

/// Runs the built-in operation that a function object wraps; an object that
/// wraps none leaves the stack as it is.
pub fn execute_function(stack: &mut Vec<YapkoObject>, function_object: &YapkoObject) -> (r: Result<
    Effect,
    VmError,
>)
    ensures
        native_agrees(
            old(stack)@,
            final(stack)@,
            r,
            execute_function_spec(objects_view(old(stack)@), function_object@),
        ),
{
    match function_object.payload() {
        Some(Primitive::Function(native)) => call_native(*native, stack),
        _ => Ok(Effect::Done),
    }
}

} // verus!
