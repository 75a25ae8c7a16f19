//! What holds of the engine whatever the program: the laws of integer
//! arithmetic, of declaration and shadowing, of name resolution, of frames,
//! of instancing and of printing.

use crate::error::ErrorView;
use crate::interpreter::{
    call_op, current_frame, end_scope, execute_spec, instance_of, machine_wf, operator_op,
    resume_spec, step_spec, VmView,
};
use crate::native::{
    answers, int_arithmetic, lemma_wrap_in_range, native_spec, print_spec, truncated_div,
    truncated_rem, EffectView, ReplyView, Request,
};
use crate::bytecode::{command_table, name_of_byte};
use crate::opcode::{
    decode_table, lemma_fetch_bounds, opcode_of_name, splice_spec, Opcode, SCOPE_END_BYTE,
    SCOPE_NEW_BYTE,
};
use crate::lexer::{
    lex_run, lex_step, symbol_tokens, tokens_of, word_tokens, Classified, LexState, TokenType,
    TokenView,
};
use crate::parser::{
    absorb, combine, finish, group, group_start, group_step, insert_by_rank, leaf, parse_spec,
    rank_in,
    shift, sort_by_rank, with_child, Grouped, NodeView, OperatorView, ParseError,
};
use crate::scope::{
    all_distinct, assign_spec, binding_position, declare_spec, frame_get, frame_with, innermost,
    last_capture, lemma_binding_position, lemma_frame_with_get, lemma_scopes_stay_distinct,
    lookup_spec, resolve_spec, BindingView,
};
use crate::text::decimal;
use crate::yapko::{
    function_object, int_object, lemma_member_names_differ, lemma_with_member_get,
    member_position, string_object, with_member, Native, ObjectView, PrimitiveView,
    VariableView,
};
use vstd::prelude::*;

verus! {

/// The three type tags that a call tells apart differ from one another.
pub proof fn lemma_callee_tags_differ()
    ensures
        "class"@ != "Function"@,
        "class"@ != "YapkoFunction"@,
        "Function"@ != "YapkoFunction"@,
{
    reveal_strlit("class");
    reveal_strlit("Function");
    reveal_strlit("YapkoFunction");
    assert("class"@.len() == 5);
    assert("Function"@.len() == 8);
    assert("YapkoFunction"@.len() == 13);
}

/// The members of an integer object are found under their names.
pub proof fn lemma_int_members(name: Seq<char>, value: i32)
    ensures
        int_object(name, value).payload() == Some(PrimitiveView::Int(value)),
        int_object(name, value).member("toString"@) == Some(
            VariableView::YapkoObject(function_object("toString"@, Native::IntToString)),
        ),
        int_object(name, value).member("add"@) == Some(
            VariableView::YapkoObject(function_object("add"@, Native::IntAdd)),
        ),
        int_object(name, value).member("sub"@) == Some(
            VariableView::YapkoObject(function_object("sub"@, Native::IntSub)),
        ),
        int_object(name, value).member("mul"@) == Some(
            VariableView::YapkoObject(function_object("mul"@, Native::IntMul)),
        ),
        int_object(name, value).member("div"@) == Some(
            VariableView::YapkoObject(function_object("div"@, Native::IntDiv)),
        ),
        int_object(name, value).member("mod"@) == Some(
            VariableView::YapkoObject(function_object("mod"@, Native::IntMod)),
        ),
{
    lemma_member_names_differ();
    let members = int_object(name, value).members;
    assert(member_position(members, "value"@, 0) == Some(0int));
    assert(member_position(members, "toString"@, 1) == Some(1int));
    assert(member_position(members, "add"@, 2) == Some(2int));
    assert(member_position(members, "add"@, 1) == Some(2int));
    assert(member_position(members, "sub"@, 3) == Some(3int));
    assert(member_position(members, "sub"@, 2) == Some(3int));
    assert(member_position(members, "sub"@, 1) == Some(3int));
    assert(member_position(members, "mul"@, 4) == Some(4int));
    assert(member_position(members, "mul"@, 3) == Some(4int));
    assert(member_position(members, "mul"@, 2) == Some(4int));
    assert(member_position(members, "mul"@, 1) == Some(4int));
    assert(member_position(members, "div"@, 5) == Some(5int));
    assert(member_position(members, "div"@, 4) == Some(5int));
    assert(member_position(members, "div"@, 3) == Some(5int));
    assert(member_position(members, "div"@, 2) == Some(5int));
    assert(member_position(members, "div"@, 1) == Some(5int));
    assert(member_position(members, "mod"@, 6) == Some(6int));
    assert(member_position(members, "mod"@, 5) == Some(6int));
    assert(member_position(members, "mod"@, 4) == Some(6int));
    assert(member_position(members, "mod"@, 3) == Some(6int));
    assert(member_position(members, "mod"@, 2) == Some(6int));
    assert(member_position(members, "mod"@, 1) == Some(6int));
}

/// The operator of an integer method.
pub open spec fn arithmetic_opcode(native: Native) -> Opcode {
    match native {
        Native::IntAdd => Opcode::Add,
        Native::IntSub => Opcode::Sub,
        Native::IntMul => Opcode::Mul,
        Native::IntDiv => Opcode::Div,
        _ => Opcode::Mod,
    }
}

/// Whether a built-in operation is one of the five of integer arithmetic.
pub open spec fn is_int_arithmetic(native: Native) -> bool {
    native == Native::IntAdd || native == Native::IntSub || native == Native::IntMul || native
        == Native::IntDiv || native == Native::IntMod
}

/// Integer arithmetic. With two integers on top of the stack, `+`, `-`, `*`,
/// `/` and `%` take both off and put the result in their place, and that
/// result is the one of the arithmetic of 32-bit integers: the mathematical
/// sum, difference and product, the quotient rounded toward zero and the
/// remainder with the sign of the dividend, each wrapped to 32 bits where it
/// does not fit. Division and remainder by zero stop the program with an
/// error and change nothing.
pub proof fn law_integer_arithmetic(
    s: VmView,
    native: Native,
    left_name: Seq<char>,
    l: i32,
    right_name: Seq<char>,
    r: i32,
)
    requires
        is_int_arithmetic(native),
        s.stack.len() >= 2,
        s.stack[s.stack.len() - 2] == int_object(left_name, l),
        s.stack[s.stack.len() - 1] == int_object(right_name, r),
    ensures
        (native == Native::IntDiv || native == Native::IntMod) && r == 0 ==> execute_spec(
            s,
            arithmetic_opcode(native),
            Seq::empty(),
        ) is Err,
        !((native == Native::IntDiv || native == Native::IntMod) && r == 0) ==> execute_spec(
            s,
            arithmetic_opcode(native),
            Seq::empty(),
        ) == Ok::<VmView, ErrorView>(
            VmView {
                stack: s.stack.take(s.stack.len() - 2).push(
                    int_object(
                        if native == Native::IntMod {
                            "$int"@
                        } else {
                            left_name
                        },
                        int_arithmetic(native, l, r),
                    ),
                ),
                ..s
            },
        ),
        native == Native::IntAdd && i32::MIN <= l + r <= i32::MAX ==> int_arithmetic(native, l, r)
            == l + r,
        native == Native::IntSub && i32::MIN <= l - r <= i32::MAX ==> int_arithmetic(native, l, r)
            == l - r,
        native == Native::IntMul && i32::MIN <= l * r <= i32::MAX ==> int_arithmetic(native, l, r)
            == l * r,
        native == Native::IntDiv && r != 0 && !(l == i32::MIN && r == -1) ==> int_arithmetic(
            native,
            l,
            r,
        ) == truncated_div(l as int, r as int),
        native == Native::IntMod && r != 0 ==> int_arithmetic(native, l, r) == truncated_rem(
            l as int,
            r as int,
        ),
{
    lemma_int_members(left_name, l);
    lemma_int_members(right_name, r);
    let method = function_object(crate::native::native_name(native), native);
    assert(method.payload() == Some(PrimitiveView::Function(native))) by {
        assert(member_position(method.members, "value"@, 0) == Some(0int));
    }
    if native == Native::IntAdd && i32::MIN <= l + r <= i32::MAX {
        lemma_wrap_in_range(l + r);
    }
    if native == Native::IntSub && i32::MIN <= l - r <= i32::MAX {
        lemma_wrap_in_range(l - r);
    }
    if native == Native::IntMul && i32::MIN <= l * r <= i32::MAX {
        lemma_wrap_in_range(l * r);
    }
    if native == Native::IntDiv && r != 0 && !(l == i32::MIN && r == -1) {
        lemma_truncated_bounds(l as int, r as int);
        lemma_wrap_in_range(truncated_div(l as int, r as int));
    }
    if native == Native::IntMod && r != 0 {
        lemma_truncated_bounds(l as int, r as int);
        lemma_wrap_in_range(truncated_rem(l as int, r as int));
    }
}

/// Quotient and remainder of two 32-bit integers fit in 32 bits, but for the
/// quotient of the least integer by -1.
pub proof fn lemma_truncated_bounds(a: int, b: int)
    requires
        i32::MIN <= a <= i32::MAX,
        i32::MIN <= b <= i32::MAX,
        b != 0,
    ensures
        i32::MIN <= truncated_rem(a, b) <= i32::MAX,
        !(a == i32::MIN && b == -1) ==> i32::MIN <= truncated_div(a, b) <= i32::MAX,
        a == b * truncated_div(a, b) + truncated_rem(a, b),
{
    let x = crate::native::magnitude(a);
    let y = crate::native::magnitude(b);
    vstd::arithmetic::div_mod::lemma_fundamental_div_mod(x, y);
    vstd::arithmetic::div_mod::lemma_mod_bound(x, y);
    vstd::arithmetic::div_mod::lemma_div_pos_is_pos(x, y);
    assert(x / y <= x) by {
        vstd::arithmetic::div_mod::lemma_div_is_ordered_by_denominator(x, 1, y);
        vstd::arithmetic::div_mod::lemma_div_basics(x);
    }
    assert(a == b * truncated_div(a, b) + truncated_rem(a, b)) by (nonlinear_arith)
        requires
            x == y * (x / y) + x % y,
            x == crate::native::magnitude(a),
            y == crate::native::magnitude(b),
            b != 0,
    ;
    if !(a == i32::MIN && b == -1) && x / y > i32::MAX {
        // Only the magnitude of the least integer exceeds the greatest.
        assert(x == 0x8000_0000);
        assert(y >= 2 || b == 1);
        if y >= 2 {
            vstd::arithmetic::div_mod::lemma_div_is_ordered_by_denominator(x, 2, y);
            assert(x / 2 == 0x4000_0000);
        }
    }
}

/// Declaring a name twice in one frame fails: after a declaration went
/// well, a second one of the same name is a lookup error, whatever was bound
/// in between is not asked.
pub proof fn law_redeclaration_fails(frames: Seq<Seq<BindingView>>, name: Seq<char>)
    requires
        frames.len() >= 1,
        declare_spec(frames, name) is Ok,
    ensures
        declare_spec(declare_spec(frames, name)->Ok_0, name) == Err::<
            Seq<Seq<BindingView>>,
            ErrorView,
        >(ErrorView::Lookup(name)),
{
    let after = declare_spec(frames, name)->Ok_0;
    let frame = after.last();
    lemma_binding_position(frames.last(), name, 0);
    lemma_binding_position(frame, name, 0);
    assert(frame[frame.len() - 1].name == name);
}

/// Shadowing. A declaration asks the current frame alone: in a frame opened
/// just now it goes well whatever the outer frames bind, and once that frame
/// is closed again, the declaration in the outer frame goes as if the inner
/// one had never been.
pub proof fn law_shadowing(frames: Seq<Seq<BindingView>>, name: Seq<char>)
    requires
        frames.len() >= 1,
    ensures
        declare_spec(frames.push(Seq::empty()), name) is Ok,
        declare_spec(frames.push(Seq::empty()), name)->Ok_0.drop_last() == frames,
        declare_spec(frames, name) is Ok <==> frame_get(frames.last(), name) is None,
{
    let inner = frames.push(Seq::<BindingView>::empty());
    assert(binding_position(inner.last(), name, 0) is None);
    assert(declare_spec(inner, name)->Ok_0.drop_last() =~= frames);
}

/// The frame that resolution picks binds the name, and no frame above it
/// does.
pub proof fn lemma_innermost(frames: Seq<Seq<BindingView>>, name: Seq<char>, top: int)
    requires
        top < frames.len(),
    ensures
        match innermost(frames, name, top) {
            Some(i) => 0 <= i <= top && frame_get(frames[i], name) is Some && forall|k: int|
                i < k <= top ==> frame_get(#[trigger] frames[k], name) is None,
            None => forall|k: int| 0 <= k <= top ==> frame_get(#[trigger] frames[k], name) is None,
        },
    decreases top + 1,
{
    if top >= 0 && frame_get(frames[top], name) is None {
        lemma_innermost(frames, name, top - 1);
    }
}

/// Resolution returns the innermost binding: where frame `i` binds the name
/// and no frame above it does, the name resolves to what frame `i` binds,
/// whatever the frames below hold.
pub proof fn law_resolve_innermost(frames: Seq<Seq<BindingView>>, name: Seq<char>, i: int)
    requires
        0 <= i < frames.len(),
        frame_get(frames[i], name) is Some,
        forall|k: int| i < k < frames.len() ==> frame_get(#[trigger] frames[k], name) is None,
    ensures
        resolve_spec(frames, name) == Ok::<ObjectView, ErrorView>(frame_get(frames[i], name)->0),
{
    lemma_innermost(frames, name, frames.len() - 1);
}

/// Capture is by place, not by value. While a capture list is active, a name
/// that the current frame does not bind is read from the frame whose index
/// the list records for it, as that frame stands when the name is read: what
/// was bound when the function was defined plays no part. Where no frame
/// stands at that index any more, or the frame that stands there does not
/// bind the name, the name is not found.
pub proof fn law_capture_by_place(
    frames: Seq<Seq<BindingView>>,
    captures: Seq<(usize, Seq<char>)>,
    name: Seq<char>,
    index: usize,
)
    requires
        frames.len() >= 1,
        captures.len() > 0,
        frame_get(frames.last(), name) is None,
        last_capture(captures, name, captures.len() as int) == Some(index),
    ensures
        index < frames.len() && frame_get(frames[index as int], name) is Some ==> lookup_spec(
            frames,
            captures,
            name,
        ) == Ok::<ObjectView, ErrorView>(frame_get(frames[index as int], name)->0),
        index >= frames.len() || frame_get(frames[index as int], name) is None ==> lookup_spec(
            frames,
            captures,
            name,
        ) == Err::<ObjectView, ErrorView>(ErrorView::Lookup(name)),
{
}

/// An assignment changes the innermost binding of the name and no other
/// frame, and never the number of frames.
pub proof fn law_assign_innermost(
    frames: Seq<Seq<BindingView>>,
    name: Seq<char>,
    value: ObjectView,
    i: int,
)
    requires
        0 <= i < frames.len(),
        frame_get(frames[i], name) is Some,
        forall|k: int| i < k < frames.len() ==> frame_get(#[trigger] frames[k], name) is None,
    ensures
        assign_spec(frames, name, value).len() == frames.len(),
        forall|k: int|
            0 <= k < frames.len() && k != i ==> assign_spec(frames, name, value)[k] == frames[k],
        resolve_spec(assign_spec(frames, name, value), name) == Ok::<ObjectView, ErrorView>(
            ObjectView { name, ..value },
        ),
{
    lemma_innermost(frames, name, frames.len() - 1);
    let after = assign_spec(frames, name, value);
    lemma_binding_position(frames[i], name, 0);
    lemma_binding_position(after[i], name, 0);
    let at = binding_position(frames[i], name, 0)->0;
    assert(after[i][at].name == name);
    assert forall|k: int| i < k < after.len() implies frame_get(#[trigger] after[k], name)
        is None by {
        assert(after[k] == frames[k]);
    }
    lemma_innermost(after, name, after.len() - 1);
}

/// Frame 0 is permanent, and closing a frame undoes opening it: `scope_end`
/// never leaves the scope stack empty, and a `scope_new` followed by a
/// `scope_end` leaves every frame as it was.
pub proof fn law_frames(s: VmView)
    requires
        machine_wf(s),
    ensures
        end_scope(s).scopes.len() >= 1,
        s.scopes.len() == 1 ==> end_scope(s) == s,
        end_scope(VmView { scopes: s.scopes.push(Seq::empty()), ..s }).scopes == s.scopes,
        current_frame(end_scope(VmView { scopes: s.scopes.push(Seq::empty()), ..s }))
            == current_frame(s),
{
    assert(s.scopes.push(Seq::<BindingView>::empty()).drop_last() =~= s.scopes);
}

/// Instancing. Calling a class template takes the template off the stack and
/// puts an instance in its place: a copy of the template, tagged with the
/// template's name. Nothing else changes: no frame, so neither the template
/// nor an earlier instance; and no initializer is run, for the tape stays as
/// it is.
pub proof fn law_instancing(s: VmView)
    requires
        s.stack.len() >= 1,
        s.stack.last().yapko_type == "class"@,
    ensures
        call_op(s, Seq::empty()) == Ok::<VmView, ErrorView>(
            VmView { stack: s.stack.drop_last().push(instance_of(s.stack.last())), ..s },
        ),
        instance_of(s.stack.last()).members == s.stack.last().members,
        instance_of(s.stack.last()).yapko_type == s.stack.last().name,
{
    lemma_callee_tags_differ();
    assert(s.stack.remove(s.stack.len() - 1) =~= s.stack.drop_last());
}

/// An object with one of its fields set to a value.
pub open spec fn with_field(object: ObjectView, field: Seq<char>, value: VariableView) -> ObjectView {
    ObjectView { members: with_member(object.members, field, value), ..object }
}

/// Objects are independent. Where a field of the object bound to a name is
/// changed, that object differs in that field and in nothing else, and every
/// other binding of every frame holds what it held. So of two instances of
/// one class template, a change to a field of the one reaches neither the
/// other nor the template: an instance is a copy, and objects share nothing.
/// (Changing a field is what [`crate::yapko::YapkoObject::insert`] does to an
/// object and [`crate::scope::ScopeStack::bind_at`] to the frame.)
pub proof fn law_objects_are_independent(
    frames: Seq<Seq<BindingView>>,
    frame: int,
    name: Seq<char>,
    field: Seq<char>,
    value: VariableView,
)
    requires
        0 <= frame < frames.len(),
        frame_get(frames[frame], name) is Some,
    ensures
        ({
            let object = frame_get(frames[frame], name)->0;
            let changed = with_field(object, field, value);
            let after = frames.update(frame, frame_with(frames[frame], name, changed));
            &&& after.len() == frames.len()
            &&& frame_get(after[frame], name) == Some(changed)
            &&& changed.member(field) == Some(value)
            &&& forall|other: Seq<char>|
                other != field ==> #[trigger] changed.member(other) == object.member(other)
            &&& changed.name == object.name && changed.yapko_type == object.yapko_type
            &&& forall|other: Seq<char>|
                other != name ==> #[trigger] frame_get(after[frame], other) == frame_get(
                    frames[frame],
                    other,
                )
            &&& forall|g: int| 0 <= g < frames.len() && g != frame ==> #[trigger] after[g] == frames[g]
        }),
{
    let object = frame_get(frames[frame], name)->0;
    let changed = with_field(object, field, value);
    assert forall|other: Seq<char>| other != field implies #[trigger] changed.member(other)
        == object.member(other) by {
        lemma_with_member_get(object.members, field, value, other);
    }
    lemma_with_member_get(object.members, field, value, field);
    assert forall|other: Seq<char>| other != name implies #[trigger] frame_get(
        frame_with(frames[frame], name, changed),
        other,
    ) == frame_get(frames[frame], other) by {
        lemma_frame_with_get(frames[frame], name, changed, other);
    }
    lemma_frame_with_get(frames[frame], name, changed, name);
}

/// Two instances of one class template are independent: after a field of
/// the instance bound to `p` was changed, the instance bound to `q` and the
/// template bound to `class` are what they were, with every field.
pub proof fn law_instances_are_independent(
    frames: Seq<Seq<BindingView>>,
    frame: int,
    class: Seq<char>,
    template: ObjectView,
    p: Seq<char>,
    q: Seq<char>,
    field: Seq<char>,
    value: VariableView,
)
    requires
        0 <= frame < frames.len(),
        p != q,
        p != class,
        frame_get(frames[frame], class) == Some(template),
        frame_get(frames[frame], p) == Some(instance_of(template)),
        frame_get(frames[frame], q) == Some(instance_of(template)),
    ensures
        ({
            let changed = with_field(instance_of(template), field, value);
            let after = frames.update(frame, frame_with(frames[frame], p, changed));
            &&& frame_get(after[frame], p) == Some(changed)
            &&& changed.member(field) == Some(value)
            &&& frame_get(after[frame], q) == Some(instance_of(template))
            &&& frame_get(after[frame], class) == Some(template)
            &&& instance_of(template).member(field) == template.member(field)
        }),
{
    law_objects_are_independent(frames, frame, p, field, value);
    let changed = with_field(instance_of(template), field, value);
    lemma_frame_with_get(frames[frame], p, changed, q);
    lemma_frame_with_get(frames[frame], p, changed, class);
}

/// Printing. `printLine` on an integer writes its decimal text with a line
/// break, rendered by the integer's `toString` method; on a string it writes
/// the raw text with a line break and asks no method. `print` writes the
/// same without the line break. Either way the value leaves the stack.
pub proof fn law_print_line(stack: Seq<ObjectView>, name: Seq<char>, value: i32, text: Seq<char>)
    ensures
        print_spec(stack.push(int_object(name, value)), true) == Ok::<
            (Seq<ObjectView>, EffectView),
            ErrorView,
        >((stack, EffectView::Write(decimal(value as int).push('\n')))),
        string_object(name, text).member("toString"@) is None,
        print_spec(stack.push(string_object(name, text)), true) == Ok::<
            (Seq<ObjectView>, EffectView),
            ErrorView,
        >((stack, EffectView::Write(text.push('\n')))),
        native_spec(Native::PrintLine, stack.push(int_object(name, value))) == print_spec(
            stack.push(int_object(name, value)),
            true,
        ),
        print_spec(stack.push(int_object(name, value)), false) == Ok::<
            (Seq<ObjectView>, EffectView),
            ErrorView,
        >((stack, EffectView::Write(decimal(value as int)))),
        print_spec(stack.push(string_object(name, text)), false) == Ok::<
            (Seq<ObjectView>, EffectView),
            ErrorView,
        >((stack, EffectView::Write(text))),
{
    lemma_int_members(name, value);
    lemma_member_names_differ();
    let method = function_object("toString"@, Native::IntToString);
    assert(member_position(method.members, "value"@, 0) == Some(0int));
    let members = string_object(name, text).members;
    assert(member_position(members, "toString"@, 2) is None);
    assert(member_position(members, "toString"@, 1) is None);
    assert(member_position(members, "toString"@, 0) is None);
    assert(member_position(members, "value"@, 0) == Some(0int));
    assert(stack.push(int_object(name, value)).drop_last() =~= stack);
    assert(stack.push(string_object(name, text)).drop_last() =~= stack);
}

/// Every step keeps the engine in order: the scope stack holds frame 0, the
/// cursor lies within the tape, and a request that waits expects the kind of
/// answer that goes with it.
pub proof fn law_step_keeps_order(s: VmView)
    requires
        machine_wf(s),
    ensures
        machine_wf(step_spec(s).0),
        step_spec(s).1 is Failed ==> step_spec(s).0 == s,
        step_spec(s).1 is Finished ==> step_spec(s).0 == s,
{
    lemma_fetch_bounds(s.tape, s.cursor);
    if s.pending is None && crate::opcode::fetch_spec(s.tape, s.cursor) is Some {
        let ins = crate::opcode::fetch_spec(s.tape, s.cursor)->0;
        let op = s.opcodes[ins.opcode as int];
        let at = VmView { cursor: ins.next, ..s };
        assert(machine_wf(at));
        if op != Opcode::Missing && s.mode == crate::interpreter::Mode::Normal {
            lemma_execute_keeps_order(at, op, ins.arguments);
        }
    }
}

/// Running an instruction keeps the engine in order.
pub proof fn lemma_execute_keeps_order(s: VmView, op: Opcode, args: Seq<u8>)
    requires
        machine_wf(s),
    ensures
        execute_spec(s, op, args) is Ok ==> machine_wf(execute_spec(s, op, args)->Ok_0),
{
    match op {
        Opcode::Call => {
            lemma_call_keeps_order(s, args);
        },
        Opcode::Add
        | Opcode::Sub
        | Opcode::Mul
        | Opcode::Div
        | Opcode::Mod
        | Opcode::Less
        | Opcode::Greater
        | Opcode::LessEqual
        | Opcode::GreaterEqual
        | Opcode::Equal
        | Opcode::NotEqual => {
            if operator_op(s, op) is Ok {
                let name = crate::opcode::operator_method(op)->0;
                let method = s.stack[s.stack.len() - 2].member(name)->0->YapkoObject_0;
                let native = method.payload()->0->Function_0;
                crate::native::lemma_native_asks(native, s.stack);
            }
        },
        Opcode::Close => {
            assert(crate::interpreter::close_op(s) is Ok ==> machine_wf(
                crate::interpreter::close_op(s)->Ok_0,
            ));
        },
        Opcode::Assign => {
            if s.stack.len() >= 2 {
                lemma_innermost(s.scopes, s.stack[s.stack.len() - 2].name, s.scopes.len() - 1);
            }
            assert(crate::interpreter::assign_op(s) is Ok ==> machine_wf(
                crate::interpreter::assign_op(s)->Ok_0,
            ));
        },
        Opcode::SetGet => {
            assert(crate::interpreter::set_get_op(s, args) is Ok ==> machine_wf(
                crate::interpreter::set_get_op(s, args)->Ok_0,
            ));
        },
        Opcode::ArgType => {
            assert(crate::interpreter::arg_type_op(s, args) is Ok ==> machine_wf(
                crate::interpreter::arg_type_op(s, args)->Ok_0,
            ));
        },
        Opcode::If | Opcode::While => {
            assert(crate::interpreter::branch_op(s, op) is Ok ==> machine_wf(
                crate::interpreter::branch_op(s, op)->Ok_0,
            ));
        },
        Opcode::Get => {
            assert(crate::interpreter::get_op(s, args) is Ok ==> machine_wf(
                crate::interpreter::get_op(s, args)->Ok_0,
            ));
        },
        _ => {},
    }
}

/// A call keeps the engine in order.
pub proof fn lemma_call_keeps_order(s: VmView, args: Seq<u8>)
    requires
        machine_wf(s),
    ensures
        call_op(s, args) is Ok ==> machine_wf(call_op(s, args)->Ok_0),
{
    if call_op(s, args) is Ok {
        let index = s.stack.len() - 1 - crate::interpreter::call_distance(args);
        let callee = s.stack[index];
        match callee.payload() {
            Some(PrimitiveView::Function(native)) => {
                crate::native::lemma_native_asks(native, s.stack.remove(index));
            },
            _ => {},
        }
    }
}

/// Whether a state follows another in a single pass: the cursor has not gone
/// back, the bytes before it are the ones that were read, and the tape behind
/// it ends in what was still to be read. Whatever is new on the tape stands
/// between the two.
pub open spec fn passes_on(before: VmView, after: VmView) -> bool {
    &&& before.cursor <= after.cursor <= after.tape.len()
    &&& after.tape.len() >= before.tape.len()
    &&& after.cursor <= before.tape.len()
    &&& after.tape.take(after.cursor) == before.tape.take(after.cursor)
    &&& after.tape.skip(after.tape.len() - (before.tape.len() - after.cursor)) == before.tape.skip(
        after.cursor,
    )
}

/// Inserting code at the cursor leaves what was read and what was still to
/// be read as they were.
pub proof fn lemma_splice_passes_on(tape: Seq<u8>, cursor: int, code: Seq<u8>)
    requires
        0 <= cursor <= tape.len(),
    ensures
        splice_spec(tape, cursor, code).len() == tape.len() + code.len(),
        splice_spec(tape, cursor, code).take(cursor) == tape.take(cursor),
        splice_spec(tape, cursor, code).skip(cursor + code.len()) == tape.skip(cursor),
{
    let spliced = splice_spec(tape, cursor, code);
    assert(spliced.take(cursor) =~= tape.take(cursor));
    assert(spliced.skip(cursor + code.len()) =~= tape.skip(cursor));
}

/// The pass is single. A step never moves the cursor back and never changes
/// a byte that was read: code is inserted into the tape behind the cursor
/// only, and the bytes that were still to be read stay behind it.
pub proof fn law_single_pass(s: VmView)
    requires
        machine_wf(s),
    ensures
        passes_on(s, step_spec(s).0),
{
    lemma_fetch_bounds(s.tape, s.cursor);
    let after = step_spec(s).0;
    if s.pending is None && crate::opcode::fetch_spec(s.tape, s.cursor) is Some {
        let ins = crate::opcode::fetch_spec(s.tape, s.cursor)->0;
        let op = s.opcodes[ins.opcode as int];
        let at = VmView { cursor: ins.next, ..s };
        assert(at.tape.skip(at.tape.len() - (s.tape.len() - at.cursor)) =~= s.tape.skip(at.cursor));
        if op != Opcode::Missing {
            match s.mode {
                crate::interpreter::Mode::Normal => {
                    if execute_spec(at, op, ins.arguments) is Ok {
                        match op {
                            Opcode::Call => {
                                let distance = crate::interpreter::call_distance(ins.arguments);
                                let callee = at.stack[at.stack.len() - 1 - distance];
                                match callee.payload() {
                                    Some(PrimitiveView::YapkoFunction(body, _)) => {
                                        lemma_splice_passes_on(
                                            at.tape,
                                            at.cursor,
                                            crate::opcode::call_frame(body),
                                        );
                                    },
                                    _ => {},
                                }
                            },
                            Opcode::Close => {
                                let closed = crate::interpreter::close_op(at)->Ok_0;
                                if closed.tape != at.tape {
                                    let frame = current_frame(closed);
                                    lemma_splice_passes_on(
                                        at.tape,
                                        at.cursor,
                                        closed.loops[frame],
                                    );
                                }
                            },
                            _ => {},
                        }
                    }
                },
                crate::interpreter::Mode::Buffering => {
                    if op == Opcode::Close && at.depth == 1 {
                        lemma_splice_passes_on(
                            at.tape,
                            at.cursor,
                            at.loop_body + crate::opcode::record(ins.opcode, ins.arguments),
                        );
                    }
                },
                _ => {},
            }
        }
    } else {
        assert(s.tape.skip(s.tape.len() - (s.tape.len() - s.cursor)) =~= s.tape.skip(s.cursor));
    }
}

/// Running an instruction never makes a frame bind a name twice.
pub proof fn lemma_execute_keeps_names_apart(s: VmView, op: Opcode, args: Seq<u8>)
    requires
        machine_wf(s),
        all_distinct(s.scopes),
    ensures
        execute_spec(s, op, args) is Ok ==> all_distinct(execute_spec(s, op, args)->Ok_0.scopes),
{
    let name = crate::text::chars_of(args);
    let any = crate::yapko::null_object(name);
    lemma_scopes_stay_distinct(s.scopes, name, any);
    match op {
        Opcode::Assign => {
            if s.stack.len() >= 2 {
                lemma_scopes_stay_distinct(
                    s.scopes,
                    s.stack[s.stack.len() - 2].name,
                    s.stack[s.stack.len() - 1],
                );
            }
        },
        Opcode::ArgType => {
            if s.stack.len() >= 1 {
                lemma_scopes_stay_distinct(s.scopes, s.argument, s.stack.last());
            }
        },
        Opcode::Close => {
            let n = s.scopes.len();
            if s.inside_class && n >= 2 {
                let template = crate::interpreter::class_template(s.class_name, s.scopes.last());
                lemma_scopes_stay_distinct(s.scopes, s.class_name, template);
                let bound = s.scopes.update(
                    n - 2,
                    crate::scope::frame_with(s.scopes[n - 2], s.class_name, template),
                );
                assert(all_distinct(bound));
                lemma_scopes_stay_distinct(bound, name, any);
            }
        },
        _ => {},
    }
}

/// Names stay apart. A frame of the engine binds no name twice, and no step
/// changes that: a declaration refuses a name that its frame binds, and
/// everything else that binds a name replaces the binding that is there.
pub proof fn law_names_stay_apart(s: VmView)
    requires
        machine_wf(s),
        all_distinct(s.scopes),
    ensures
        all_distinct(step_spec(s).0.scopes),
{
    lemma_fetch_bounds(s.tape, s.cursor);
    if s.pending is None && crate::opcode::fetch_spec(s.tape, s.cursor) is Some {
        let ins = crate::opcode::fetch_spec(s.tape, s.cursor)->0;
        let op = s.opcodes[ins.opcode as int];
        let at = VmView { cursor: ins.next, ..s };
        let name = crate::text::chars_of(ins.arguments);
        if op != Opcode::Missing {
            match s.mode {
                crate::interpreter::Mode::Normal => {
                    lemma_execute_keeps_names_apart(at, op, ins.arguments);
                },
                crate::interpreter::Mode::Defining => {
                    lemma_scopes_stay_distinct(
                        at.scopes,
                        name,
                        crate::yapko::yapko_function_object(
                            name,
                            at.function_body,
                            crate::scope::capture_visible_spec(at.scopes),
                            current_frame(at),
                        ),
                    );
                },
                crate::interpreter::Mode::Skipping => {
                    lemma_scopes_stay_distinct(at.scopes, name, crate::yapko::null_object(name));
                },
                crate::interpreter::Mode::Buffering => {},
            }
        }
    }
}

/// The state after the first characters of a run is the same whatever
/// follows them.
pub proof fn lemma_lex_run_of_beginning(chars: Seq<Classified>, n: int, k: int)
    requires
        0 <= k <= n <= chars.len(),
    ensures
        lex_run(chars.take(n), k) == lex_run(chars, k),
    decreases k,
{
    if k > 0 {
        lemma_lex_run_of_beginning(chars, n, k - 1);
        assert(chars.take(n)[k - 1] == chars[k - 1]);
    }
}

/// The tokens made so far stay where they are as the text goes on.
pub proof fn lemma_lex_output_grows(chars: Seq<Classified>, n: int, m: int)
    requires
        0 <= n <= m <= chars.len(),
    ensures
        lex_run(chars, n).output.is_prefix_of(lex_run(chars, m).output),
    decreases m - n,
{
    if n < m {
        lemma_lex_output_grows(chars, n, m - 1);
        let before = lex_run(chars, m - 1);
        let after = lex_step(before, chars[m - 1]);
        assert(lex_run(chars, m) == after);
        assert(before.output.is_prefix_of(after.output));
    }
}

/// Tokens come out in the order of the text. The tokens of a beginning of a
/// text are the first tokens of the whole text, in the same order; and where
/// a symbol ends a word, the token of the word comes before the tokens of
/// the symbol, whatever tokens were made before.
pub proof fn law_tokens_in_text_order(chars: Seq<Classified>, n: int, state: LexState, c: Classified)
    requires
        0 <= n <= chars.len(),
    ensures
        tokens_of(chars.take(n)).is_prefix_of(tokens_of(chars)),
        !state.in_string && symbol_tokens(c.character, state.current) is Some ==> lex_step(
            state,
            c,
        ).output == state.output + word_tokens(state.current) + symbol_tokens(
            c.character,
            state.current,
        )->0,
{
    lemma_lex_run_of_beginning(chars, n, n);
    lemma_lex_output_grows(chars, n, chars.len() as int);
}

/// Whether a token stands for itself in a tree: it is no operator, no
/// parenthesis and no keyword.
pub open spec fn is_operand(token: TokenView) -> bool {
    token.token_type != TokenType::Operator && token.token_type != TokenType::ParenOpen
        && token.token_type != TokenType::ParenClose && token.token_type != TokenType::Keyword
}

/// A node with two children.
pub open spec fn binary(operator: TokenView, left: NodeView, right: NodeView) -> NodeView {
    NodeView { token: operator, children: seq![left, right], invoke: false }
}

/// Two children given to a leaf one after the other make a node of two
/// children.
pub proof fn lemma_two_children(operator: TokenView, left: NodeView, right: NodeView)
    ensures
        with_child(with_child(leaf(operator), left), right) == binary(operator, left, right),
{
    let made = with_child(with_child(leaf(operator), left), right);
    assert(made.children =~= seq![left, right]);
}

/// One more token outside parentheses that is no operator is one more node.
pub proof fn lemma_group_operand(
    table: Seq<(Seq<char>, i32)>,
    tokens: Seq<TokenView>,
    n: int,
    before: Grouped,
)
    requires
        1 <= n <= tokens.len(),
        group(table, tokens, n - 1) == Ok::<Grouped, ParseError>(before),
        before.depth == 0,
        tokens[n - 1].token_type != TokenType::Operator,
        tokens[n - 1].token_type != TokenType::ParenOpen,
        tokens[n - 1].token_type != TokenType::ParenClose,
    ensures
        group(table, tokens, n) == Ok::<Grouped, ParseError>(
            Grouped { nodes: before.nodes.push(leaf(tokens[n - 1])), ..before },
        ),
{
    let stepped = group_step(table, tokens.len(), before, tokens[n - 1]);
    assert(group(table, tokens, n) == stepped);
    assert(stepped->Ok_0 =~= (Grouped { nodes: before.nodes.push(leaf(tokens[n - 1])), ..before }));
}

/// One more operator outside parentheses is one more node, and is listed with
/// the index of its node and its rank.
pub proof fn lemma_group_operator(
    table: Seq<(Seq<char>, i32)>,
    tokens: Seq<TokenView>,
    n: int,
    before: Grouped,
)
    requires
        1 <= n <= tokens.len(),
        group(table, tokens, n - 1) == Ok::<Grouped, ParseError>(before),
        before.depth == 0,
        tokens[n - 1].token_type == TokenType::Operator,
        rank_in(table, tokens[n - 1].value, 0) is Some,
    ensures
        group(table, tokens, n) == Ok::<Grouped, ParseError>(
            Grouped {
                nodes: before.nodes.push(leaf(tokens[n - 1])),
                operators: before.operators.push(
                    OperatorView {
                        value: tokens[n - 1].value,
                        index: before.nodes.len() as int,
                        rank: rank_in(table, tokens[n - 1].value, 0)->0,
                    },
                ),
                ..before
            },
        ),
{
    let stepped = group_step(table, tokens.len(), before, tokens[n - 1]);
    assert(group(table, tokens, n) == stepped);
    assert(stepped is Ok);
    assert(stepped->Ok_0.nodes =~= before.nodes.push(leaf(tokens[n - 1])));
}

/// An operator between two operands takes them as its children, the left one
/// first.
pub proof fn law_binary_statement(
    table: Seq<(Seq<char>, i32)>,
    a: TokenView,
    operator: TokenView,
    b: TokenView,
)
    requires
        is_operand(a),
        is_operand(b),
        operator.token_type == TokenType::Operator,
        operator.value != "!"@,
        rank_in(table, operator.value, 0) is Some,
    ensures
        parse_spec(table, seq![a, operator, b]) == Ok::<NodeView, ParseError>(
            binary(operator, leaf(a), leaf(b)),
        ),
{
    let tokens = seq![a, operator, b];
    let rank = rank_in(table, operator.value, 0)->0;
    let listed = OperatorView { value: operator.value, index: 1, rank };
    let g0 = group_start();
    assert(group(table, tokens, 0) == Ok::<Grouped, ParseError>(g0));
    lemma_group_operand(table, tokens, 1, g0);
    let g1 = Grouped { nodes: g0.nodes.push(leaf(a)), ..g0 };
    lemma_group_operator(table, tokens, 2, g1);
    let g2 = Grouped {
        nodes: g1.nodes.push(leaf(operator)),
        operators: g1.operators.push(listed),
        ..g1
    };
    lemma_group_operand(table, tokens, 3, g2);
    let nodes = seq![leaf(a), leaf(operator), leaf(b)];
    assert(g2.nodes.push(leaf(b)) =~= nodes);
    assert(g2.operators =~= seq![listed]);
    lemma_finish_one(nodes, listed);
}

/// One operator takes the nodes at its two sides.
proof fn lemma_finish_one(nodes: Seq<NodeView>, listed: OperatorView)
    requires
        nodes.len() == 3,
        listed.index == 1,
        listed.value != "!"@,
        nodes[1] == leaf(nodes[1].token),
        nodes[1].token.token_type != TokenType::Keyword,
    ensures
        finish(nodes, seq![listed]) == Ok::<NodeView, ParseError>(
            binary(nodes[1].token, nodes[0], nodes[2]),
        ),
{
    let operators = seq![listed];
    reveal_with_fuel(sort_by_rank, 2);
    reveal_with_fuel(insert_by_rank, 2);
    assert(sort_by_rank(operators, 1) =~= operators);
    let tree = binary(nodes[1].token, nodes[0], nodes[2]);
    lemma_two_children(nodes[1].token, nodes[0], nodes[2]);
    let combined = nodes.update(1, tree).remove(2).remove(0);
    assert(combined =~= seq![tree]);
    reveal_with_fuel(combine, 2);
    assert(combine(combined, shift(operators, 1, 2), 1) == Ok::<Seq<NodeView>, ParseError>(
        combined,
    ));
    assert(combine(nodes, operators, 0) == Ok::<Seq<NodeView>, ParseError>(combined));
    reveal_with_fuel(absorb, 2);
    assert(absorb(combined, 1, 1) == Ok::<Seq<NodeView>, ParseError>(combined));
    assert(absorb(combined, 0, 1) == Ok::<Seq<NodeView>, ParseError>(combined));
}

/// Two operators, the right one first.
proof fn lemma_finish_right_first(nodes: Seq<NodeView>, op1: OperatorView, op2: OperatorView)
    requires
        nodes.len() == 5,
        op1.index == 1,
        op2.index == 3,
        op2.rank > op1.rank,
        op1.value != "!"@,
        op2.value != "!"@,
        nodes[1] == leaf(nodes[1].token),
        nodes[3] == leaf(nodes[3].token),
        nodes[1].token.token_type == TokenType::Operator,
    ensures
        finish(nodes, seq![op1, op2]) == Ok::<NodeView, ParseError>(
            binary(nodes[1].token, nodes[0], binary(nodes[3].token, nodes[2], nodes[4])),
        ),
{
    let operators = seq![op1, op2];
    let sorted = seq![op2, op1];
    reveal_with_fuel(sort_by_rank, 3);
    reveal_with_fuel(insert_by_rank, 3);
    assert(sort_by_rank(operators, 1) =~= seq![op1]);
    assert(sort_by_rank(operators, 2) =~= sorted);
    let inner = binary(nodes[3].token, nodes[2], nodes[4]);
    lemma_two_children(nodes[3].token, nodes[2], nodes[4]);
    let nodes1 = nodes.update(3, inner).remove(4).remove(2);
    assert(nodes1 =~= seq![nodes[0], nodes[1], inner]);
    let shifted = shift(sorted, 3, 2);
    assert(shifted =~= sorted);
    reveal_with_fuel(combine, 2);
    assert(combine(nodes, sorted, 0) == combine(nodes1, shifted, 1));
    lemma_combine_last(nodes1, shifted);
}

/// Two operators, the left one first.
proof fn lemma_finish_left_first(nodes: Seq<NodeView>, op1: OperatorView, op2: OperatorView)
    requires
        nodes.len() == 5,
        op1.index == 1,
        op2.index == 3,
        op2.rank <= op1.rank,
        op1.value != "!"@,
        op2.value != "!"@,
        nodes[1] == leaf(nodes[1].token),
        nodes[3] == leaf(nodes[3].token),
        nodes[3].token.token_type == TokenType::Operator,
    ensures
        finish(nodes, seq![op1, op2]) == Ok::<NodeView, ParseError>(
            binary(nodes[3].token, binary(nodes[1].token, nodes[0], nodes[2]), nodes[4]),
        ),
{
    let operators = seq![op1, op2];
    reveal_with_fuel(sort_by_rank, 3);
    reveal_with_fuel(insert_by_rank, 3);
    assert(sort_by_rank(operators, 1) =~= seq![op1]);
    assert(sort_by_rank(operators, 2) =~= operators);
    let inner = binary(nodes[1].token, nodes[0], nodes[2]);
    lemma_two_children(nodes[1].token, nodes[0], nodes[2]);
    let nodes1 = nodes.update(1, inner).remove(2).remove(0);
    assert(nodes1 =~= seq![inner, nodes[3], nodes[4]]);
    let shifted = shift(operators, 1, 2);
    assert(shifted =~= seq![op1, OperatorView { index: 1, ..op2 }]);
    reveal_with_fuel(combine, 2);
    assert(combine(nodes, operators, 0) == combine(nodes1, shifted, 1));
    lemma_combine_last(nodes1, shifted);
}

/// The last of two operators takes the nodes at its two sides, and one node
/// is left.
proof fn lemma_combine_last(nodes: Seq<NodeView>, operators: Seq<OperatorView>)
    requires
        nodes.len() == 3,
        operators.len() == 2,
        operators[1].index == 1,
        operators[1].value != "!"@,
        nodes[1] == leaf(nodes[1].token),
        nodes[1].token.token_type == TokenType::Operator,
    ensures
        combine(nodes, operators, 1) == Ok::<Seq<NodeView>, ParseError>(
            seq![binary(nodes[1].token, nodes[0], nodes[2])],
        ),
        absorb(seq![binary(nodes[1].token, nodes[0], nodes[2])], 0, 1) == Ok::<
            Seq<NodeView>,
            ParseError,
        >(seq![binary(nodes[1].token, nodes[0], nodes[2])]),
{
    let tree = binary(nodes[1].token, nodes[0], nodes[2]);
    lemma_two_children(nodes[1].token, nodes[0], nodes[2]);
    let combined = nodes.update(1, tree).remove(2).remove(0);
    assert(combined =~= seq![tree]);
    reveal_with_fuel(combine, 2);
    assert(combine(combined, shift(operators, 1, 2), 2) == Ok::<Seq<NodeView>, ParseError>(
        combined,
    ));
    reveal_with_fuel(absorb, 2);
    assert(absorb(combined, 1, 1) == Ok::<Seq<NodeView>, ParseError>(combined));
}

/// A keyword takes the node behind it as its child.
pub proof fn law_keyword_statement(table: Seq<(Seq<char>, i32)>, keyword: TokenView, a: TokenView)
    requires
        keyword.token_type == TokenType::Keyword,
        is_operand(a),
    ensures
        parse_spec(table, seq![keyword, a]) == Ok::<NodeView, ParseError>(
            NodeView { token: keyword, children: seq![leaf(a)], invoke: false },
        ),
{
    let tokens = seq![keyword, a];
    let g0 = group_start();
    assert(group(table, tokens, 0) == Ok::<Grouped, ParseError>(g0));
    lemma_group_operand(table, tokens, 1, g0);
    let g1 = Grouped { nodes: g0.nodes.push(leaf(keyword)), ..g0 };
    lemma_group_operand(table, tokens, 2, g1);
    let nodes = seq![leaf(keyword), leaf(a)];
    assert(g1.nodes.push(leaf(a)) =~= nodes);
    let operators = Seq::<OperatorView>::empty();
    assert(g1.operators =~= operators);
    assert(sort_by_rank(operators, 0) =~= operators);
    assert(combine(nodes, operators, 0) == Ok::<Seq<NodeView>, ParseError>(nodes));
    let tree = NodeView { token: keyword, children: seq![leaf(a)], invoke: false };
    assert(with_child(leaf(keyword), leaf(a)).children =~= seq![leaf(a)]);
    let rest = nodes.update(0, tree).remove(1);
    assert(rest =~= seq![tree]);
    reveal_with_fuel(absorb, 3);
    assert(absorb(rest, 2, 2) == Ok::<Seq<NodeView>, ParseError>(rest));
    assert(absorb(nodes, 1, 2) == Ok::<Seq<NodeView>, ParseError>(rest));
    assert(absorb(nodes, 0, 2) == Ok::<Seq<NodeView>, ParseError>(rest));
}

/// Of two operators in one statement, the one of the higher rank takes its
/// operands first; of two of one rank, the left one. What the first has made
/// is an operand of the second.
pub proof fn law_rank_decides(
    table: Seq<(Seq<char>, i32)>,
    a: TokenView,
    first: TokenView,
    b: TokenView,
    second: TokenView,
    c: TokenView,
)
    requires
        is_operand(a),
        is_operand(b),
        is_operand(c),
        first.token_type == TokenType::Operator,
        second.token_type == TokenType::Operator,
        first.value != "!"@,
        second.value != "!"@,
        rank_in(table, first.value, 0) is Some,
        rank_in(table, second.value, 0) is Some,
    ensures
        parse_spec(table, seq![a, first, b, second, c]) == Ok::<NodeView, ParseError>(
            if rank_in(table, second.value, 0)->0 > rank_in(table, first.value, 0)->0 {
                binary(first, leaf(a), binary(second, leaf(b), leaf(c)))
            } else {
                binary(second, binary(first, leaf(a), leaf(b)), leaf(c))
            },
        ),
{
    let tokens = seq![a, first, b, second, c];
    let rank1 = rank_in(table, first.value, 0)->0;
    let rank2 = rank_in(table, second.value, 0)->0;
    let op1 = OperatorView { value: first.value, index: 1, rank: rank1 };
    let op2 = OperatorView { value: second.value, index: 3, rank: rank2 };
    let g0 = group_start();
    assert(group(table, tokens, 0) == Ok::<Grouped, ParseError>(g0));
    lemma_group_operand(table, tokens, 1, g0);
    let g1 = Grouped { nodes: g0.nodes.push(leaf(a)), ..g0 };
    lemma_group_operator(table, tokens, 2, g1);
    let g2 = Grouped { nodes: g1.nodes.push(leaf(first)), operators: g1.operators.push(op1), ..g1 };
    lemma_group_operand(table, tokens, 3, g2);
    let g3 = Grouped { nodes: g2.nodes.push(leaf(b)), ..g2 };
    lemma_group_operator(table, tokens, 4, g3);
    let g4 = Grouped {
        nodes: g3.nodes.push(leaf(second)),
        operators: g3.operators.push(op2),
        ..g3
    };
    lemma_group_operand(table, tokens, 5, g4);
    let nodes = seq![leaf(a), leaf(first), leaf(b), leaf(second), leaf(c)];
    assert(g4.nodes.push(leaf(c)) =~= nodes);
    assert(g4.operators =~= seq![op1, op2]);
    if rank2 > rank1 {
        lemma_finish_right_first(nodes, op1, op2);
    } else {
        lemma_finish_left_first(nodes, op1, op2);
    }
}

/// Whether operators stand by falling rank, those of one rank by rising
/// index.
pub open spec fn in_rank_order(operators: Seq<OperatorView>) -> bool {
    forall|i: int, j: int|
        0 <= i < j < operators.len() ==> (#[trigger] operators[i]).rank > (
        #[trigger] operators[j]).rank || (operators[i].rank == operators[j].rank
            && operators[i].index < operators[j].index)
}

/// Whether the indices of operators rise.
pub open spec fn indices_rise(operators: Seq<OperatorView>) -> bool {
    forall|i: int, j: int|
        0 <= i < j < operators.len() ==> (#[trigger] operators[i]).index < (
        #[trigger] operators[j]).index
}

/// Putting an operator in its place keeps a run in order and loses none.
pub proof fn lemma_insert_by_rank(sorted: Seq<OperatorView>, operator: OperatorView, from: int)
    requires
        0 <= from <= sorted.len(),
        in_rank_order(sorted),
        forall|k: int| 0 <= k < from ==> (#[trigger] sorted[k]).rank >= operator.rank,
        forall|k: int| 0 <= k < sorted.len() ==> (#[trigger] sorted[k]).index < operator.index,
    ensures
        insert_by_rank(sorted, operator, from).len() == sorted.len() + 1,
        in_rank_order(insert_by_rank(sorted, operator, from)),
        insert_by_rank(sorted, operator, from).contains(operator),
        forall|k: int|
            0 <= k < sorted.len() ==> insert_by_rank(sorted, operator, from).contains(
                #[trigger] sorted[k],
            ),
        forall|k: int|
            0 <= k < sorted.len() + 1 ==> (#[trigger] insert_by_rank(sorted, operator, from)[k])
                == operator || sorted.contains(insert_by_rank(sorted, operator, from)[k]),
    decreases sorted.len() - from,
{
    let result = insert_by_rank(sorted, operator, from);
    if from >= sorted.len() {
        assert(result == sorted.push(operator));
        assert(result[sorted.len() as int] == operator);
        assert forall|k: int| 0 <= k < sorted.len() implies result.contains(
            #[trigger] sorted[k],
        ) by {
            assert(result[k] == sorted[k]);
        }
        assert forall|k: int| 0 <= k < sorted.len() + 1 implies (#[trigger] result[k])
            == operator || sorted.contains(result[k]) by {
            if k < sorted.len() {
                assert(result[k] == sorted[k]);
            }
        }
    } else if sorted[from].rank < operator.rank {
        assert(result == sorted.insert(from, operator));
        assert(result[from] == operator);
        assert forall|k: int| 0 <= k < sorted.len() implies result.contains(
            #[trigger] sorted[k],
        ) by {
            if k < from {
                assert(result[k] == sorted[k]);
            } else {
                assert(result[k + 1] == sorted[k]);
            }
        }
        assert forall|k: int| 0 <= k < sorted.len() + 1 implies (#[trigger] result[k])
            == operator || sorted.contains(result[k]) by {
            if k < from {
                assert(result[k] == sorted[k]);
            } else if k > from {
                assert(result[k] == sorted[k - 1]);
            }
        }
        assert forall|i: int, j: int| 0 <= i < j < result.len() implies (#[trigger] result[i]).rank
            > (#[trigger] result[j]).rank || (result[i].rank == result[j].rank && result[i].index
            < result[j].index) by {
            let a = if i < from {
                i
            } else {
                i - 1
            };
            let b = if j < from {
                j
            } else {
                j - 1
            };
            if i == from {
                assert(result[j] == sorted[b]);
                if b > from {
                    assert(sorted[from].rank >= sorted[b].rank);
                }
            } else if j == from {
                assert(result[i] == sorted[a]);
            } else {
                assert(result[i] == sorted[a]);
                assert(result[j] == sorted[b]);
            }
        }
    } else {
        lemma_insert_by_rank(sorted, operator, from + 1);
    }
}

/// The operators take their operands in one order only: by falling rank,
/// and those of one rank from left to right. The sorted run holds every
/// operator once.
pub proof fn law_operators_by_rank(operators: Seq<OperatorView>, n: int)
    requires
        0 <= n <= operators.len(),
        indices_rise(operators),
    ensures
        sort_by_rank(operators, n).len() == n,
        in_rank_order(sort_by_rank(operators, n)),
        forall|k: int| 0 <= k < n ==> sort_by_rank(operators, n).contains(#[trigger] operators[k]),
        forall|k: int|
            0 <= k < n ==> operators.take(n).contains(#[trigger] sort_by_rank(operators, n)[k]),
    decreases n,
{
    if n > 0 {
        law_operators_by_rank(operators, n - 1);
        let before = sort_by_rank(operators, n - 1);
        let operator = operators[n - 1];
        assert forall|k: int| 0 <= k < before.len() implies (#[trigger] before[k]).index
            < operator.index by {
            let prefix = operators.take(n - 1);
            assert(prefix.contains(before[k]));
            let m = choose|m: int| 0 <= m < prefix.len() && (#[trigger] prefix[m]) == before[k];
            assert(operators[m] == before[k]);
        }
        lemma_insert_by_rank(before, operator, 0);
        let after = sort_by_rank(operators, n);
        assert forall|k: int| 0 <= k < n implies after.contains(#[trigger] operators[k]) by {
            if k < n - 1 {
                assert(before.contains(operators[k]));
                let m = choose|m: int| 0 <= m < before.len() && (#[trigger] before[m])
                    == operators[k];
                assert(after.contains(before[m]));
            }
        }
        assert forall|k: int| 0 <= k < n implies operators.take(n).contains(
            #[trigger] after[k],
        ) by {
            if after[k] == operator {
                assert(operators.take(n)[n - 1] == operator);
            } else {
                let prefix = operators.take(n - 1);
                assert(before.contains(after[k]));
                let m = choose|m: int| 0 <= m < before.len() && (#[trigger] before[m]) == after[k];
                assert(prefix.contains(before[m]));
                let q = choose|q: int| 0 <= q < prefix.len() && (#[trigger] prefix[q]) == before[m];
                assert(operators.take(n)[q] == after[k]);
            }
        }
    }
}

/// What each byte means under the command table of the language.
pub open spec fn language_opcode(byte: u8) -> Opcode {
    match byte {
        0 => Opcode::Other,
        1 => Opcode::Get,
        2 => Opcode::SetGet,
        3 => Opcode::Other,
        4 => Opcode::Other,
        5 => Opcode::PushNum,
        6 => Opcode::PushStr,
        7 => Opcode::Add,
        8 => Opcode::Sub,
        9 => Opcode::Mul,
        10 => Opcode::Div,
        11 => Opcode::Assign,
        21 => Opcode::Call,
        22 => Opcode::FunStart,
        23 => Opcode::FunEnd,
        24 => Opcode::ScopeNew,
        25 => Opcode::ScopeEnd,
        26 => Opcode::Arg,
        27 => Opcode::ArgType,
        28 => Opcode::PushBool,
        29 => Opcode::Or,
        30 => Opcode::Xor,
        31 => Opcode::And,
        32 => Opcode::Not,
        33 => Opcode::If,
        34 => Opcode::While,
        35 => Opcode::Condition,
        36 => Opcode::Close,
        37 => Opcode::Less,
        38 => Opcode::Greater,
        39 => Opcode::LessEqual,
        40 => Opcode::GreaterEqual,
        41 => Opcode::Equal,
        42 => Opcode::NotEqual,
        43 => Opcode::Mod,
        44 => Opcode::Member,
        45 => Opcode::Class,
        46 => Opcode::Other,
        47 => Opcode::Other,
        _ => Opcode::Missing,
    }
}

/// Whether a table of names gives every byte the name that a command table
/// gives it, and no name to the bytes that the command table does not use.
pub open spec fn names_follow(names: Map<u8, String>, commands: Seq<(Seq<char>, u8)>) -> bool {
    forall|b: u8|
        match #[trigger] name_of_byte(commands, b, commands.len() as int) {
            Some(name) => names.contains_key(b) && names[b]@ == name,
            None => !names.contains_key(b),
        }
}

/// The engine and the encoder speak one language. Under the table of names
/// that the encoder hands out for the command table of the language, every
/// byte means to the engine what the encoder uses it for. The bytes 24 and 25,
/// which the engine itself puts on the tape around the body of a called
/// function, open and close a frame.
pub proof fn law_one_language(names: Map<u8, String>)
    requires
        names_follow(names, command_table()),
    ensures
        forall|b: u8| #[trigger] decode_table(names)[b as int] == language_opcode(b),
        language_opcode(SCOPE_NEW_BYTE) == Opcode::ScopeNew,
        language_opcode(SCOPE_END_BYTE) == Opcode::ScopeEnd,
{
    reveal_with_fuel(name_of_byte, 40);
    reveal_strlit(";");
    reveal_strlit("get");
    reveal_strlit("set_get");
    reveal_strlit("set_get_num");
    reveal_strlit("push");
    reveal_strlit("push_num");
    reveal_strlit("push_str");
    reveal_strlit("+");
    reveal_strlit("-");
    reveal_strlit("*");
    reveal_strlit("/");
    reveal_strlit("=");
    reveal_strlit("call");
    reveal_strlit("fun_start");
    reveal_strlit("fun_end");
    reveal_strlit("scope_new");
    reveal_strlit("scope_end");
    reveal_strlit("arg");
    reveal_strlit("arg_type");
    reveal_strlit("push_bool");
    reveal_strlit("or");
    reveal_strlit("xor");
    reveal_strlit("and");
    reveal_strlit("!");
    reveal_strlit("if");
    reveal_strlit("while");
    reveal_strlit("condition");
    reveal_strlit("close");
    reveal_strlit("<");
    reveal_strlit(">");
    reveal_strlit("<=");
    reveal_strlit(">=");
    reveal_strlit("==");
    reveal_strlit("!=");
    reveal_strlit("%");
    reveal_strlit(".");
    reveal_strlit("class");
    reveal_strlit("return");
    reveal_strlit("execute");
    let table = command_table();
    assert(table[0].0.len() == 1 && table[0].0[0] == ';');
    assert(table[1].0.len() == 3 && table[1].0[0] == 'g' && table[1].0[1] == 'e' && table[1].0[2] == 't');
    assert(table[2].0.len() == 7 && table[2].0[0] == 's' && table[2].0[5] == 'e' && table[2].0[6] == 't' && table[2].0[1] == 'e' && table[2].0[2] == 't');
    assert(table[3].0.len() == 11 && table[3].0[0] == 's' && table[3].0[5] == 'e' && table[3].0[6] == 't' && table[3].0[1] == 'e' && table[3].0[2] == 't');
    assert(table[4].0.len() == 4 && table[4].0[0] == 'p' && table[4].0[1] == 'u' && table[4].0[2] == 's');
    assert(table[5].0.len() == 8 && table[5].0[0] == 'p' && table[5].0[5] == 'n' && table[5].0[6] == 'u' && table[5].0[1] == 'u' && table[5].0[2] == 's');
    assert(table[6].0.len() == 8 && table[6].0[0] == 'p' && table[6].0[5] == 's' && table[6].0[6] == 't' && table[6].0[1] == 'u' && table[6].0[2] == 's');
    assert(table[7].0.len() == 1 && table[7].0[0] == '+');
    assert(table[8].0.len() == 1 && table[8].0[0] == '-');
    assert(table[9].0.len() == 1 && table[9].0[0] == '*');
    assert(table[10].0.len() == 1 && table[10].0[0] == '/');
    assert(table[11].0.len() == 1 && table[11].0[0] == '=');
    assert(table[12].0.len() == 4 && table[12].0[0] == 'c' && table[12].0[1] == 'a' && table[12].0[2] == 'l');
    assert(table[13].0.len() == 9 && table[13].0[0] == 'f' && table[13].0[5] == 't' && table[13].0[6] == 'a' && table[13].0[1] == 'u' && table[13].0[2] == 'n');
    assert(table[14].0.len() == 7 && table[14].0[0] == 'f' && table[14].0[5] == 'n' && table[14].0[6] == 'd' && table[14].0[1] == 'u' && table[14].0[2] == 'n');
    assert(table[15].0.len() == 9 && table[15].0[0] == 's' && table[15].0[5] == '_' && table[15].0[6] == 'n' && table[15].0[1] == 'c' && table[15].0[2] == 'o');
    assert(table[16].0.len() == 9 && table[16].0[0] == 's' && table[16].0[5] == '_' && table[16].0[6] == 'e' && table[16].0[1] == 'c' && table[16].0[2] == 'o');
    assert(table[17].0.len() == 3 && table[17].0[0] == 'a' && table[17].0[1] == 'r' && table[17].0[2] == 'g');
    assert(table[18].0.len() == 8 && table[18].0[0] == 'a' && table[18].0[5] == 'y' && table[18].0[6] == 'p' && table[18].0[1] == 'r' && table[18].0[2] == 'g');
    assert(table[19].0.len() == 9 && table[19].0[0] == 'p' && table[19].0[5] == 'b' && table[19].0[6] == 'o' && table[19].0[1] == 'u' && table[19].0[2] == 's');
    assert(table[20].0.len() == 2 && table[20].0[0] == 'o' && table[20].0[1] == 'r');
    assert(table[21].0.len() == 3 && table[21].0[0] == 'x' && table[21].0[1] == 'o' && table[21].0[2] == 'r');
    assert(table[22].0.len() == 3 && table[22].0[0] == 'a' && table[22].0[1] == 'n' && table[22].0[2] == 'd');
    assert(table[23].0.len() == 1 && table[23].0[0] == '!');
    assert(table[24].0.len() == 2 && table[24].0[0] == 'i' && table[24].0[1] == 'f');
    assert(table[25].0.len() == 5 && table[25].0[0] == 'w' && table[25].0[1] == 'h' && table[25].0[2] == 'i');
    assert(table[26].0.len() == 9 && table[26].0[0] == 'c' && table[26].0[5] == 't' && table[26].0[6] == 'i' && table[26].0[1] == 'o' && table[26].0[2] == 'n');
    assert(table[27].0.len() == 5 && table[27].0[0] == 'c' && table[27].0[1] == 'l' && table[27].0[2] == 'o');
    assert(table[28].0.len() == 1 && table[28].0[0] == '<');
    assert(table[29].0.len() == 1 && table[29].0[0] == '>');
    assert(table[30].0.len() == 2 && table[30].0[0] == '<' && table[30].0[1] == '=');
    assert(table[31].0.len() == 2 && table[31].0[0] == '>' && table[31].0[1] == '=');
    assert(table[32].0.len() == 2 && table[32].0[0] == '=' && table[32].0[1] == '=');
    assert(table[33].0.len() == 2 && table[33].0[0] == '!' && table[33].0[1] == '=');
    assert(table[34].0.len() == 1 && table[34].0[0] == '%');
    assert(table[35].0.len() == 1 && table[35].0[0] == '.');
    assert(table[36].0.len() == 5 && table[36].0[0] == 'c' && table[36].0[1] == 'l' && table[36].0[2] == 'a');
    assert(table[37].0.len() == 6 && table[37].0[0] == 'r' && table[37].0[5] == 'n' && table[37].0[1] == 'e' && table[37].0[2] == 't');
    assert(table[38].0.len() == 7 && table[38].0[0] == 'e' && table[38].0[5] == 't' && table[38].0[6] == 'e' && table[38].0[1] == 'x' && table[38].0[2] == 'e');
    assert(opcode_of_name(table[0].0) == Opcode::Other);
    assert(opcode_of_name(table[1].0) == Opcode::Get);
    assert(opcode_of_name(table[2].0) == Opcode::SetGet);
    assert(opcode_of_name(table[3].0) == Opcode::Other);
    assert(opcode_of_name(table[4].0) == Opcode::Other);
    assert(opcode_of_name(table[5].0) == Opcode::PushNum);
    assert(opcode_of_name(table[6].0) == Opcode::PushStr);
    assert(opcode_of_name(table[7].0) == Opcode::Add);
    assert(opcode_of_name(table[8].0) == Opcode::Sub);
    assert(opcode_of_name(table[9].0) == Opcode::Mul);
    assert(opcode_of_name(table[10].0) == Opcode::Div);
    assert(opcode_of_name(table[11].0) == Opcode::Assign);
    assert(opcode_of_name(table[12].0) == Opcode::Call);
    assert(opcode_of_name(table[13].0) == Opcode::FunStart);
    assert(opcode_of_name(table[14].0) == Opcode::FunEnd);
    assert(opcode_of_name(table[15].0) == Opcode::ScopeNew);
    assert(opcode_of_name(table[16].0) == Opcode::ScopeEnd);
    assert(opcode_of_name(table[17].0) == Opcode::Arg);
    assert(opcode_of_name(table[18].0) == Opcode::ArgType);
    assert(opcode_of_name(table[19].0) == Opcode::PushBool);
    assert(opcode_of_name(table[20].0) == Opcode::Or);
    assert(opcode_of_name(table[21].0) == Opcode::Xor);
    assert(opcode_of_name(table[22].0) == Opcode::And);
    assert(opcode_of_name(table[23].0) == Opcode::Not);
    assert(opcode_of_name(table[24].0) == Opcode::If);
    assert(opcode_of_name(table[25].0) == Opcode::While);
    assert(opcode_of_name(table[26].0) == Opcode::Condition);
    assert(opcode_of_name(table[27].0) == Opcode::Close);
    assert(opcode_of_name(table[28].0) == Opcode::Less);
    assert(opcode_of_name(table[29].0) == Opcode::Greater);
    assert(opcode_of_name(table[30].0) == Opcode::LessEqual);
    assert(opcode_of_name(table[31].0) == Opcode::GreaterEqual);
    assert(opcode_of_name(table[32].0) == Opcode::Equal);
    assert(opcode_of_name(table[33].0) == Opcode::NotEqual);
    assert(opcode_of_name(table[34].0) == Opcode::Mod);
    assert(opcode_of_name(table[35].0) == Opcode::Member);
    assert(opcode_of_name(table[36].0) == Opcode::Class);
    assert(opcode_of_name(table[37].0) == Opcode::Other);
    assert(opcode_of_name(table[38].0) == Opcode::Other);
    assert forall|b: u8| #[trigger] decode_table(names)[b as int] == language_opcode(b) by {
        let found = name_of_byte(table, b, table.len() as int);
        assert(table.len() == 39);
    }
}

/// An answer of the kind that the waiting request asks for is always taken
/// in.
pub proof fn law_fitting_answer_is_accepted(s: VmView, request: Request, reply: ReplyView)
    requires
        machine_wf(s),
        crate::interpreter::standing(s) == crate::interpreter::StatusView::Waiting(request),
        answers(request, reply),
    ensures
        resume_spec(s, reply) is Some,
        machine_wf(resume_spec(s, reply)->0),
        resume_spec(s, reply)->0.pending is None,
{
}

} // verus!
