//! The execution engine. It makes a single pass over the instruction tape
//! with an explicit cursor. There are no jumps and no call stack: a call
//! inserts the function's body into the tape just behind the cursor, a loop
//! inserts its own code again when its body closes, and a branch not taken is
//! read without being run.
//!
//! The engine does no input or output of its own. Text for standard output
//! gathers in a buffer that the host empties; where a program needs a line of
//! input, a random number or floating-point arithmetic, the engine stops with
//! a [`Request`] and goes on when the host answers.

use crate::error::{ErrorView, VmError};
use crate::native::{
    answer_object, answer_text, call_native, fits, lemma_native_asks,
    lemma_objects_view_push, lemma_objects_view_take, native_spec, random_int, Continuation,
    ContinuationView, Effect, EffectView, Reply, ReplyView, Request,
};
use crate::opcode::{
    append_record, call_frame, decode_commands, decode_table, fetch, fetch_spec, make_call_frame,
    method_of, opcode_sign, operator_method, record, sign_of, splice, splice_spec, Instruction,
    Opcode,
};
use crate::scope::{
    assign_spec, bind_spec, capture_visible_spec, declare_spec, frame_members, frame_with,
    lookup_spec, BindingView, Frame, ScopeStack,
};
use crate::text::{chars_of, is_text, parse_i32, parse_int, string_chars, string_from_bytes};
use crate::yapko::{
    boolean_object, generate_boolean, generate_float, generate_int, generate_string,
    generate_yapko_function, int_object, lemma_object_members, null_object, objects_view,
    string_object, yapko_function_object, Member, MemberView, ObjectView, Primitive,
    PrimitiveView, Variable, VariableView, YapkoObject,
};
use std::collections::HashMap;
use vstd::prelude::*;

verus! {

broadcast use vstd::std_specs::hash::group_hash_axioms;

/// What the engine does with the instructions it reads.
#[derive(Clone, Copy, Debug, PartialEq, Eq, Structural)]
pub enum Mode {
    /// It runs them.
    Normal,
    /// It copies them into the body of the function being defined.
    Defining,
    /// It passes over them: they belong to a branch that is not taken.
    Skipping,
    /// It copies them into the buffer of the loop being read.
    Buffering,
}

/// How the engine stands after a step or a run.
#[derive(Debug)]
pub enum Status {
    /// It can go on.
    Ready,
    /// The tape holds no further instruction.
    Finished,
    /// It waits for the host's answer to a request.
    Waiting(Request),
    /// The program was stopped; the engine is as it was before the failed
    /// instruction.
    Failed(VmError),
}

/// The mathematical content of a [`Status`].
#[verifier::ext_equal]
pub enum StatusView {
    Ready,
    Finished,
    Waiting(Request),
    Failed(ErrorView),
}

impl View for Status {
    type V = StatusView;

    open spec fn view(&self) -> StatusView {
        match *self {
            Status::Ready => StatusView::Ready,
            Status::Finished => StatusView::Finished,
            Status::Waiting(request) => StatusView::Waiting(request),
            Status::Failed(e) => StatusView::Failed(e@),
        }
    }
}

/// The engine: the operand stack, the scope stack, the tape with its cursor,
/// and what the single pass carries along.
pub struct VM {
    stack: Vec<YapkoObject>,
    scopes: ScopeStack,
    tape: Vec<u8>,
    cursor: usize,
    opcodes: Vec<Opcode>,
    mode: Mode,
    depth: usize,
    function_body: Vec<u8>,
    loop_body: Vec<u8>,
    loop_frame: usize,
    loops: HashMap<usize, Vec<u8>>,
    captures: Vec<(usize, String)>,
    invoke_frame: usize,
    argument: String,
    inside_class: bool,
    class_name: String,
    pending: Option<(Request, Continuation)>,
    output: String,
}

/// The mathematical content of the engine.
#[verifier::ext_equal]
pub struct VmView {
    /// The operand stack; its last entry is the top.
    pub stack: Seq<ObjectView>,
    /// The scope stack; its last frame is the current one.
    pub scopes: Seq<Seq<BindingView>>,
    /// The instruction tape.
    pub tape: Seq<u8>,
    /// The position of the next byte to read.
    pub cursor: int,
    /// The meaning of each of the 256 byte values as an opcode.
    pub opcodes: Seq<Opcode>,
    pub mode: Mode,
    /// How many blocks are open inside the branch passed over or the loop
    /// being read.
    pub depth: int,
    /// The body of the function being defined.
    pub function_body: Seq<u8>,
    /// The code of the loop being read.
    pub loop_body: Seq<u8>,
    /// The index of the frame in which the loop being read began.
    pub loop_frame: usize,
    /// The code of the loops that are running, by the index of the frame in
    /// which each began.
    pub loops: Map<usize, Seq<u8>>,
    /// The active capture list.
    pub captures: Seq<(usize, Seq<char>)>,
    /// The index of the frame in which the latest call began.
    pub invoke_frame: usize,
    /// The parameter name that the next typed argument is bound to.
    pub argument: Seq<char>,
    /// Whether a class body is open.
    pub inside_class: bool,
    pub class_name: Seq<char>,
    /// The request that waits for the host's answer.
    pub pending: Option<(Request, ContinuationView)>,
    /// The text written and not yet taken by the host.
    pub output: Seq<char>,
}

/// The content of the loop table.
pub open spec fn loops_view(loops: Map<usize, Vec<u8>>) -> Map<usize, Seq<u8>> {
    loops.map_values(|code: Vec<u8>| code@)
}

/// The content of a pending request.
pub open spec fn pending_view(pending: Option<(Request, Continuation)>) -> Option<
    (Request, ContinuationView),
> {
    match pending {
        Some((request, continuation)) => Some((request, continuation@)),
        None => None,
    }
}

/// Whether an engine state is in order.
pub open spec fn machine_wf(s: VmView) -> bool {
    &&& s.scopes.len() >= 1
    &&& 0 <= s.cursor <= s.tape.len()
    &&& s.opcodes.len() == 256
    &&& 0 <= s.depth <= s.cursor
    &&& s.pending matches Some((request, continuation)) ==> fits(request, continuation)
}

/// The index of the current frame.
pub open spec fn current_frame(s: VmView) -> usize {
    (s.scopes.len() - 1) as usize
}

/// The state with one more object on the stack.
pub open spec fn push_object(s: VmView, o: ObjectView) -> VmView {
    VmView { stack: s.stack.push(o), ..s }
}

/// The state after the current frame was closed. Frame 0 stays. Where that
/// brings the engine back to the frame in which the latest call began, the
/// capture list is emptied.
pub open spec fn end_scope(s: VmView) -> VmView {
    if s.scopes.len() > 1 {
        VmView {
            scopes: s.scopes.drop_last(),
            captures: if s.scopes.len() - 2 == s.invoke_frame {
                Seq::empty()
            } else {
                s.captures
            },
            ..s
        }
    } else {
        s
    }
}

/// The state after the effect of a built-in operation was taken in.
pub open spec fn apply_effect(s: VmView, effect: EffectView) -> VmView {
    match effect {
        EffectView::Done => s,
        EffectView::Write(text) => VmView { output: s.output + text, ..s },
        EffectView::Ask(request, continuation) => VmView {
            pending: Some((request, continuation)),
            ..s
        },
    }
}

/// The state after a built-in operation ran against the stack.
pub open spec fn run_native(s: VmView, native: crate::yapko::Native) -> Result<VmView, ErrorView> {
    match native_spec(native, s.stack) {
        Ok((stack, effect)) => Ok(apply_effect(VmView { stack, ..s }, effect)),
        Err(e) => Err(e),
    }
}

/// `=`: the top of the stack is assigned to the innermost binding that has
/// the name of the entry below it; both leave the stack.
pub open spec fn assign_op(s: VmView) -> Result<VmView, ErrorView> {
    let n = s.stack.len();
    if n < 2 {
        Err(ErrorView::ArityOrStack)
    } else {
        Ok(
            VmView {
                scopes: assign_spec(s.scopes, s.stack[n - 2].name, s.stack[n - 1]),
                stack: s.stack.take(n - 2),
                ..s
            },
        )
    }
}

/// `push_num`: the integer that the argument writes in decimal enters the
/// stack as `$int`.
pub open spec fn push_num_op(s: VmView, args: Seq<u8>) -> Result<VmView, ErrorView> {
    match parse_int(chars_of(args)) {
        Some(v) => Ok(push_object(s, int_object("$int"@, v))),
        None => Err(ErrorView::Encoding(chars_of(args))),
    }
}

/// `get`: a copy of the object that the name reads enters the stack.
pub open spec fn get_op(s: VmView, args: Seq<u8>) -> Result<VmView, ErrorView> {
    match lookup_spec(s.scopes, s.captures, chars_of(args)) {
        Ok(o) => Ok(push_object(s, o)),
        Err(e) => Err(e),
    }
}

/// `set_get`: the name is declared in the current frame, and a copy of its
/// null object enters the stack.
pub open spec fn set_get_op(s: VmView, args: Seq<u8>) -> Result<VmView, ErrorView> {
    match declare_spec(s.scopes, chars_of(args)) {
        Ok(scopes) => Ok(
            VmView { scopes, stack: s.stack.push(null_object(chars_of(args))), ..s },
        ),
        Err(e) => Err(e),
    }
}

/// How far below the top of the stack the callee of a `call` stands: the
/// value of the first argument byte, or nothing where there is none.
pub open spec fn call_distance(args: Seq<u8>) -> int {
    if args.len() < 1 {
        0
    } else {
        args[0] as int
    }
}

/// The instance that calling a class template makes: a copy of the template
/// whose type tag is the template's name.
pub open spec fn instance_of(template: ObjectView) -> ObjectView {
    ObjectView { yapko_type: template.name, ..template }
}

/// `call`: the callee leaves the stack. A built-in operation runs at once. A
/// function of the language has its body inserted into the tape behind the
/// cursor, between an instruction that opens a frame and one that closes it;
/// its capture list is added to the active one, and the current frame is
/// remembered as the one in which the call began. A class template puts an
/// instance of itself on the stack.
pub open spec fn call_op(s: VmView, args: Seq<u8>) -> Result<VmView, ErrorView> {
    let distance = call_distance(args);
    if s.stack.len() < 1 + distance {
        Err(ErrorView::ArityOrStack)
    } else {
        let index = s.stack.len() - 1 - distance;
        let callee = s.stack[index];
        let rest = VmView { stack: s.stack.remove(index), ..s };
        if callee.yapko_type == "Function"@ || callee.yapko_type == "YapkoFunction"@ {
            match callee.payload() {
                Some(PrimitiveView::Function(native)) => run_native(rest, native),
                Some(PrimitiveView::YapkoFunction(body, captures)) => Ok(
                    VmView {
                        tape: splice_spec(s.tape, s.cursor, call_frame(body)),
                        captures: s.captures + captures,
                        invoke_frame: current_frame(s),
                        ..rest
                    },
                ),
                _ => Err(ErrorView::Dispatch(callee.name)),
            }
        } else if callee.yapko_type == "class"@ {
            Ok(push_object(rest, instance_of(callee)))
        } else {
            Err(ErrorView::Dispatch(callee.name))
        }
    }
}

/// A binary operator: the method of that name on the left operand, which is
/// the second entry from the top, runs against the stack.
pub open spec fn operator_op(s: VmView, op: Opcode) -> Result<VmView, ErrorView> {
    if s.stack.len() < 2 {
        Err(ErrorView::ArityOrStack)
    } else {
        match operator_method(op) {
            None => Err(ErrorView::Dispatch(opcode_sign(op))),
            Some(name) => match s.stack[s.stack.len() - 2].member(name) {
                Some(VariableView::YapkoObject(method)) => match method.payload() {
                    Some(PrimitiveView::Function(native)) => run_native(s, native),
                    _ => Err(ErrorView::Dispatch(name)),
                },
                _ => Err(ErrorView::Dispatch(name)),
            },
        }
    }
}

/// The boolean that an object holds as its payload.
pub open spec fn bool_payload(o: ObjectView) -> Option<bool> {
    match o.payload() {
        Some(PrimitiveView::Boolean(b)) => Some(b),
        _ => None,
    }
}

/// The result of `and`, `or`, `xor`.
pub open spec fn logic_result(op: Opcode, l: bool, r: bool) -> bool {
    match op {
        Opcode::And => l && r,
        Opcode::Or => l || r,
        _ => l != r,
    }
}

/// `and`, `or`, `xor`: both booleans leave the stack, and the result enters
/// it as `$bool`.
pub open spec fn logic_op(s: VmView, op: Opcode) -> Result<VmView, ErrorView> {
    let n = s.stack.len();
    if n < 2 {
        Err(ErrorView::ArityOrStack)
    } else {
        match (bool_payload(s.stack[n - 2]), bool_payload(s.stack[n - 1])) {
            (Some(l), Some(r)) => Ok(
                VmView {
                    stack: s.stack.take(n - 2).push(
                        boolean_object("$bool"@, logic_result(op, l, r)),
                    ),
                    ..s
                },
            ),
            _ => Err(ErrorView::Dispatch(opcode_sign(op))),
        }
    }
}

/// `!`: the boolean on top of the stack is replaced by its negation.
pub open spec fn not_op(s: VmView) -> Result<VmView, ErrorView> {
    if s.stack.len() < 1 {
        Err(ErrorView::ArityOrStack)
    } else {
        match bool_payload(s.stack.last()) {
            Some(b) => Ok(
                VmView { stack: s.stack.drop_last().push(boolean_object("$bool"@, !b)), ..s },
            ),
            None => Err(ErrorView::Dispatch(opcode_sign(Opcode::Not))),
        }
    }
}

/// `.`: the top of the stack is replaced by its member of the given name. A
/// member that is a raw value puts nothing in its place.
pub open spec fn member_op(s: VmView, args: Seq<u8>) -> Result<VmView, ErrorView> {
    if s.stack.len() < 1 {
        Err(ErrorView::ArityOrStack)
    } else {
        match s.stack.last().member(chars_of(args)) {
            Some(VariableView::YapkoObject(o)) => Ok(
                VmView { stack: s.stack.drop_last().push(o), ..s },
            ),
            Some(VariableView::Primitive(_)) => Ok(VmView { stack: s.stack.drop_last(), ..s }),
            None => Err(ErrorView::Dispatch(chars_of(args))),
        }
    }
}

/// `arg_type`: the top of the stack, which must have the given type tag, is
/// bound in the current frame to the parameter named last, and leaves the
/// stack.
pub open spec fn arg_type_op(s: VmView, args: Seq<u8>) -> Result<VmView, ErrorView> {
    if s.stack.len() < 1 {
        Err(ErrorView::ArityOrStack)
    } else if s.stack.last().yapko_type != chars_of(args) {
        Err(ErrorView::TypeMismatch(chars_of(args), s.stack.last().yapko_type))
    } else {
        Ok(
            VmView {
                scopes: bind_spec(s.scopes, s.argument, s.stack.last()),
                stack: s.stack.drop_last(),
                ..s
            },
        )
    }
}

/// `if` and `while`: the boolean on top of the stack leaves it and a frame
/// opens. Where the boolean is false the engine passes over the block; a
/// `while` then also drops the code of its loop.
pub open spec fn branch_op(s: VmView, op: Opcode) -> Result<VmView, ErrorView> {
    if s.stack.len() < 1 {
        Err(ErrorView::ArityOrStack)
    } else {
        match bool_payload(s.stack.last()) {
            None => Err(ErrorView::Dispatch(opcode_sign(op))),
            Some(taken) => Ok(
                VmView {
                    stack: s.stack.drop_last(),
                    scopes: s.scopes.push(Seq::empty()),
                    mode: if taken {
                        Mode::Normal
                    } else {
                        Mode::Skipping
                    },
                    depth: 0,
                    loops: if !taken && op == Opcode::While {
                        s.loops.remove(current_frame(s))
                    } else {
                        s.loops
                    },
                    ..s
                },
            ),
        }
    }
}

/// `condition`: the engine begins to read a loop that starts in the current
/// frame. The code that follows is kept, not run, until the loop's body
/// closes.
pub open spec fn condition_op(s: VmView) -> VmView {
    VmView {
        mode: Mode::Buffering,
        depth: 0,
        loop_body: Seq::empty(),
        loop_frame: current_frame(s),
        loops: s.loops.remove(current_frame(s)),
        ..s
    }
}

/// The template that the close of a class body makes of the current frame.
pub open spec fn class_template(name: Seq<char>, frame: Seq<BindingView>) -> ObjectView {
    ObjectView {
        name,
        yapko_type: "class"@,
        parent: Seq::empty(),
        members: frame_members(frame),
    }
}

/// The tape after the code of the loop that began in the current frame, if
/// there is one, was inserted behind the cursor.
pub open spec fn requeue(s: VmView) -> VmView {
    if s.loops.contains_key(current_frame(s)) {
        VmView { tape: splice_spec(s.tape, s.cursor, s.loops[current_frame(s)]), ..s }
    } else {
        s
    }
}

/// `close`. Where a class body is open, the bindings of the current frame
/// become the members of a template, which is bound under the class name in
/// the frame below. Then the current frame closes. Where a loop began in the
/// frame that is current now, its code is inserted behind the cursor, so
/// that its guard is evaluated again.
pub open spec fn close_op(s: VmView) -> Result<VmView, ErrorView> {
    let n = s.scopes.len();
    if s.inside_class && n < 2 {
        Err(ErrorView::Encoding(opcode_sign(Opcode::Close)))
    } else if s.inside_class {
        Ok(
            requeue(
                end_scope(
                    VmView {
                        scopes: s.scopes.update(
                            n - 2,
                            frame_with(
                                s.scopes[n - 2],
                                s.class_name,
                                class_template(s.class_name, s.scopes.last()),
                            ),
                        ),
                        inside_class: false,
                        ..s
                    },
                ),
            ),
        )
    } else {
        Ok(requeue(end_scope(s)))
    }
}

/// What running one instruction does to the engine: the state it leaves, or
/// the error on which the program stops. `s` is the state with the cursor
/// already behind the instruction.
pub open spec fn execute_spec(s: VmView, op: Opcode, args: Seq<u8>) -> Result<VmView, ErrorView> {
    match op {
        Opcode::Assign => assign_op(s),
        Opcode::PushNum => push_num_op(s, args),
        Opcode::PushStr => Ok(push_object(s, string_object("$string"@, chars_of(args)))),
        Opcode::PushBool => Ok(push_object(s, boolean_object("bool"@, args == seq![49u8]))),
        Opcode::Get => get_op(s, args),
        Opcode::SetGet => set_get_op(s, args),
        Opcode::Call => call_op(s, args),
        Opcode::Add
        | Opcode::Sub
        | Opcode::Mul
        | Opcode::Div
        | Opcode::Mod
        | Opcode::Less
        | Opcode::Greater
        | Opcode::LessEqual
        | Opcode::GreaterEqual
        | Opcode::Equal
        | Opcode::NotEqual => operator_op(s, op),
        Opcode::And | Opcode::Or | Opcode::Xor => logic_op(s, op),
        Opcode::Not => not_op(s),
        Opcode::Member => member_op(s, args),
        Opcode::FunStart => Ok(VmView { mode: Mode::Defining, function_body: Seq::empty(), ..s }),
        Opcode::ScopeNew => Ok(VmView { scopes: s.scopes.push(Seq::empty()), ..s }),
        Opcode::ScopeEnd => Ok(end_scope(s)),
        Opcode::Arg => Ok(VmView { argument: chars_of(args), ..s }),
        Opcode::ArgType => arg_type_op(s, args),
        Opcode::If | Opcode::While => branch_op(s, op),
        Opcode::Condition => Ok(condition_op(s)),
        Opcode::Class => Ok(
            VmView {
                scopes: s.scopes.push(Seq::empty()),
                inside_class: true,
                class_name: chars_of(args),
                ..s
            },
        ),
        Opcode::Close => close_op(s),
        _ => Ok(s),
    }
}

/// What an instruction does while a function is being defined. `fun_end`
/// ends the definition: the function, with the capture list of this moment
/// and under the name that `fun_end` carries, is bound in the current frame.
/// Every other instruction is copied into the body.
pub open spec fn define_spec(s: VmView, op: Opcode, opcode: u8, args: Seq<u8>) -> VmView {
    if op == Opcode::FunEnd {
        VmView {
            scopes: bind_spec(
                s.scopes,
                chars_of(args),
                yapko_function_object(
                    chars_of(args),
                    s.function_body,
                    capture_visible_spec(s.scopes),
                    current_frame(s),
                ),
            ),
            mode: Mode::Normal,
            function_body: Seq::empty(),
            ..s
        }
    } else {
        VmView { function_body: s.function_body + record(opcode, args), ..s }
    }
}

/// What an instruction does while the engine passes over a branch: `if` and
/// `while` open a block, `close` closes one. The `close` of the branch
/// itself closes its frame and ends the passing over.
pub open spec fn skip_spec(s: VmView, op: Opcode) -> VmView {
    match op {
        Opcode::If | Opcode::While => VmView { depth: s.depth + 1, ..s },
        Opcode::Close => if s.depth == 0 {
            end_scope(VmView { mode: Mode::Normal, ..s })
        } else {
            VmView { depth: s.depth - 1, ..s }
        },
        _ => s,
    }
}

/// What an instruction does while the engine reads a loop: it is copied into
/// the loop's code. `if` and `while` open a block, `close` closes one. The
/// `close` of the loop's body completes the code, which is kept under the
/// loop's frame and inserted into the tape behind the cursor, to be run from
/// its guard on. A `close` before any block was opened is an error.
pub open spec fn buffer_spec(s: VmView, op: Opcode, opcode: u8, args: Seq<u8>) -> Result<
    VmView,
    ErrorView,
> {
    let code = s.loop_body + record(opcode, args);
    match op {
        Opcode::If | Opcode::While => Ok(VmView { depth: s.depth + 1, loop_body: code, ..s }),
        Opcode::Close => if s.depth == 0 {
            Err(ErrorView::Encoding(opcode_sign(Opcode::Close)))
        } else if s.depth == 1 {
            Ok(
                VmView {
                    mode: Mode::Normal,
                    depth: 0,
                    loop_body: Seq::empty(),
                    loops: s.loops.insert(s.loop_frame, code),
                    tape: splice_spec(s.tape, s.cursor, code),
                    ..s
                },
            )
        } else {
            Ok(VmView { depth: s.depth - 1, loop_body: code, ..s })
        },
        _ => Ok(VmView { loop_body: code, ..s }),
    }
}

/// How the engine stands after a step that went well.
pub open spec fn standing(s: VmView) -> StatusView {
    match s.pending {
        Some((request, _)) => StatusView::Waiting(request),
        None => StatusView::Ready,
    }
}

/// One step of the engine: the state it leaves and how the engine stands.
/// Where a request waits for its answer nothing happens. Otherwise the next
/// instruction is read and treated as the mode says. A failed step leaves
/// the state as it was.
pub open spec fn step_spec(s: VmView) -> (VmView, StatusView) {
    if s.pending is Some {
        (s, standing(s))
    } else {
        match fetch_spec(s.tape, s.cursor) {
            None => (s, StatusView::Finished),
            Some(ins) => {
                let op = s.opcodes[ins.opcode as int];
                let at = VmView { cursor: ins.next, ..s };
                let stepped = if op == Opcode::Missing {
                    Err(ErrorView::Encoding(chars_of(seq![ins.opcode])))
                } else {
                    match s.mode {
                        Mode::Normal => execute_spec(at, op, ins.arguments),
                        Mode::Defining => Ok(define_spec(at, op, ins.opcode, ins.arguments)),
                        Mode::Skipping => Ok(skip_spec(at, op)),
                        Mode::Buffering => buffer_spec(at, op, ins.opcode, ins.arguments),
                    }
                };
                match stepped {
                    Ok(after) => (after, standing(after)),
                    Err(e) => (s, StatusView::Failed(e)),
                }
            },
        }
    }
}

/// A run of at most `fuel` steps: it ends early where a step leaves the
/// engine in any standing but ready.
pub open spec fn run_spec(s: VmView, fuel: nat) -> (VmView, StatusView)
    decreases fuel,
{
    if fuel == 0 {
        (s, StatusView::Ready)
    } else {
        let (after, status) = step_spec(s);
        if status == StatusView::Ready {
            run_spec(after, (fuel - 1) as nat)
        } else {
            (after, status)
        }
    }
}

/// A run of at most `fuel` steps in which requests for a random number are
/// answered from a list of draws, one draw for each request, as long as the
/// list lasts. Apart from that it is a run as [`run_spec`] describes it.
pub open spec fn run_drawing(s: VmView, fuel: nat, draws: Seq<i32>) -> (VmView, StatusView)
    decreases fuel,
{
    if fuel == 0 {
        (s, StatusView::Ready)
    } else {
        let (after, status) = step_spec(s);
        if status == StatusView::Ready {
            run_drawing(after, (fuel - 1) as nat, draws)
        } else if status == StatusView::Waiting(Request::Random) && draws.len() > 0 && resume_spec(
            after,
            ReplyView::Int(draws[0]),
        ) is Some {
            run_drawing(
                resume_spec(after, ReplyView::Int(draws[0]))->0,
                (fuel - 1) as nat,
                draws.drop_first(),
            )
        } else {
            (after, status)
        }
    }
}

/// The state after the host's answer was taken in, or `None` where no request
/// waits or the answer is not of the kind asked for.
pub open spec fn resume_spec(s: VmView, reply: ReplyView) -> Option<VmView> {
    match s.pending {
        None => None,
        Some((_, continuation)) => match answer_object(continuation, reply) {
            Some(o) => Some(VmView { stack: s.stack.push(o), pending: None, ..s }),
            None => match answer_text(continuation, reply) {
                Some(text) => Some(VmView { output: s.output + text, pending: None, ..s }),
                None => None,
            },
        },
    }
}

/// The state after a tape was loaded: the cursor stands at its start, and
/// what a pass carries along is reset. The operand stack, the scope stack and
/// the output stay, and so does an unfinished function definition.
pub open spec fn load_spec(s: VmView, tape: Seq<u8>, commands: Map<u8, String>) -> VmView {
    VmView {
        stack: s.stack,
        scopes: s.scopes,
        tape,
        cursor: 0,
        opcodes: decode_table(commands),
        mode: if s.mode == Mode::Defining {
            Mode::Defining
        } else {
            Mode::Normal
        },
        depth: 0,
        function_body: Seq::empty(),
        loop_body: Seq::empty(),
        loop_frame: 0,
        loops: Map::empty(),
        captures: Seq::empty(),
        invoke_frame: 0,
        argument: Seq::empty(),
        inside_class: false,
        class_name: Seq::empty(),
        pending: None,
        output: s.output,
    }
}

/// The state of a new engine: an empty operand stack, an empty frame 0, no
/// tape and no name for any opcode byte.
pub open spec fn fresh_machine() -> VmView {
    VmView {
        stack: Seq::empty(),
        scopes: seq![Seq::<BindingView>::empty()],
        tape: Seq::empty(),
        cursor: 0,
        opcodes: decode_table(Map::empty()),
        mode: Mode::Normal,
        depth: 0,
        function_body: Seq::empty(),
        loop_body: Seq::empty(),
        loop_frame: 0,
        loops: Map::empty(),
        captures: Seq::empty(),
        invoke_frame: 0,
        argument: Seq::empty(),
        inside_class: false,
        class_name: Seq::empty(),
        pending: None,
        output: Seq::empty(),
    }
}

/// Whether an operation left the engine and returned what `expected` says.
pub open spec fn agrees(
    before: VmView,
    after: VmView,
    r: Result<(), VmError>,
    expected: Result<VmView, ErrorView>,
) -> bool {
    match expected {
        Ok(s) => r is Ok && after == s,
        Err(e) => r is Err && r->Err_0@ == e && after == before,
    }
}

impl View for VM {
    type V = VmView;

    closed spec fn view(&self) -> VmView {
        VmView {
            stack: objects_view(self.stack@),
            scopes: self.scopes@,
            tape: self.tape@,
            cursor: self.cursor as int,
            opcodes: self.opcodes@,
            mode: self.mode,
            depth: self.depth as int,
            function_body: self.function_body@,
            loop_body: self.loop_body@,
            loop_frame: self.loop_frame,
            loops: loops_view(self.loops@),
            captures: crate::yapko::captures_view(self.captures@),
            invoke_frame: self.invoke_frame,
            argument: self.argument@,
            inside_class: self.inside_class,
            class_name: self.class_name@,
            pending: pending_view(self.pending),
            output: self.output@,
        }
    }
}

impl VM {
    /// Whether the engine is in order. Every engine that this library hands
    /// out is, and every operation keeps it so.
    pub open spec fn wf(&self) -> bool {
        machine_wf(self@)
    }

    /// An engine with an empty operand stack, an empty frame 0 and no tape.
    pub fn new() -> (vm: VM)
        ensures
            vm.wf(),
            vm@ == fresh_machine(),
    {
        let commands: HashMap<u8, String> = HashMap::new();
        let vm = VM {
            stack: Vec::new(),
            scopes: ScopeStack::new(),
            tape: Vec::new(),
            cursor: 0,
            opcodes: decode_commands(&commands),
            mode: Mode::Normal,
            depth: 0,
            function_body: Vec::new(),
            loop_body: Vec::new(),
            loop_frame: 0,
            loops: HashMap::new(),
            captures: Vec::new(),
            invoke_frame: 0,
            argument: String::new(),
            inside_class: false,
            class_name: String::new(),
            pending: None,
            output: String::new(),
        };
        assert(vm@ =~= fresh_machine());
        vm
    }
}


/// The view of a stack follows the removal of an entry.
pub proof fn lemma_objects_view_remove(stack: Seq<YapkoObject>, index: int)
    requires
        0 <= index < stack.len(),
    ensures
        objects_view(stack.remove(index)) == objects_view(stack).remove(index),
{
    assert(objects_view(stack.remove(index)) =~= objects_view(stack).remove(index));
}

/// The boolean that an object holds as its payload.
fn read_bool(o: &YapkoObject) -> (r: Option<bool>)
    ensures
        r == bool_payload(o@),
{
    match o.payload() {
        Some(Primitive::Boolean(b)) => Some(*b),
        _ => None,
    }
}

/// Works out `and`, `or`, `xor`.
fn compute_logic(op: Opcode, l: bool, r: bool) -> (v: bool)
    ensures
        v == logic_result(op, l, r),
{
    match op {
        Opcode::And => l && r,
        Opcode::Or => l || r,
        _ => l != r,
    }
}

/// Builds the template that the close of a class body makes of a frame.
pub fn make_template(name: String, frame: &Frame) -> (r: YapkoObject)
    ensures
        r@ == class_template(name@, frame@),
        crate::scope::distinct_names(frame@) ==> r@.distinct(),
{
    proof {
        if crate::scope::distinct_names(frame@) {
            crate::scope::lemma_frame_members_distinct(frame@);
        }
    }
    let mut members: Vec<Member> = Vec::new();
    let mut i: usize = 0;
    while i < frame.bindings.len()
        invariant
            i <= frame.bindings.len(),
            members@.len() == i,
            forall|k: int|
                0 <= k < i ==> (#[trigger] members@[k])@ == (MemberView {
                    name: frame@[k].name,
                    value: VariableView::YapkoObject(frame@[k].value),
                }),
        decreases frame.bindings.len() - i,
    {
        let binding = &frame.bindings[i];
        members.push(
            Member {
                name: binding.name.clone(),
                value: Variable::YapkoObject(binding.value.clone()),
            },
        );
        i = i + 1;
    }
    let r = YapkoObject {
        name,
        yapko_type: String::from_str("class"),
        parent: String::new(),
        members,
    };
    proof {
        lemma_object_members(r);
        assert(r@.members =~= frame_members(frame@));
    }
    r
}

impl VM {
    /// Puts an object on top of the operand stack.
    fn push(&mut self, object: YapkoObject)
        ensures
            final(self)@ == push_object(old(self)@, object@),
    {
        self.stack.push(object);
        proof {
            lemma_objects_view_push(old(self).stack@, object);
        }
    }

    /// Takes the top off the operand stack.
    fn pop(&mut self) -> (object: YapkoObject)
        requires
            old(self)@.stack.len() > 0,
        ensures
            object@ == old(self)@.stack.last(),
            final(self)@ == (VmView { stack: old(self)@.stack.drop_last(), ..old(self)@ }),
    {
        let top = self.stack.pop();
        proof {
            lemma_objects_view_take(old(self).stack@, old(self).stack@.len() - 1);
            assert(self.stack@ =~= old(self).stack@.take(old(self).stack@.len() - 1));
            assert(old(self)@.stack.take(old(self).stack@.len() - 1) =~= old(self)@.stack.drop_last());
        }
        top.unwrap()
    }

    /// Closes the current frame: see [`end_scope`].
    fn close_frame(&mut self)
        requires
            old(self).wf(),
        ensures
            final(self).wf(),
            final(self)@ == end_scope(old(self)@),
    {
        if self.scopes.depth() > 1 {
            self.scopes.pop_frame();
            if self.scopes.depth() - 1 == self.invoke_frame {
                self.captures.clear();
                assert(crate::yapko::captures_view(self.captures@) =~= Seq::<
                    (usize, Seq<char>),
                >::empty());
            }
        }
    }

    /// Inserts the code of the loop that began in the current frame, if there
    /// is one, behind the cursor.
    fn requeue_loop(&mut self)
        requires
            old(self).wf(),
        ensures
            final(self).wf(),
            final(self)@ == requeue(old(self)@),
    {
        let frame = self.scopes.depth() - 1;
        match self.loops.get(&frame) {
            Some(code) => {
                splice(&mut self.tape, self.cursor, code);
            },
            None => {},
        }
    }

    /// Takes in the effect of a built-in operation.
    fn take_in(&mut self, effect: Effect)
        ensures
            final(self)@ == apply_effect(old(self)@, effect@),
    {
        match effect {
            Effect::Done => {},
            Effect::Write(text) => {
                self.output.append(text.as_str());
            },
            Effect::Ask(request, continuation) => {
                self.pending = Some((request, continuation));
            },
        }
    }

    /// Runs a built-in operation against the operand stack.
    fn run_native(&mut self, native: crate::yapko::Native) -> (r: Result<(), VmError>)
        ensures
            agrees(old(self)@, final(self)@, r, run_native(old(self)@, native)),
            r is Err ==> final(self).stack@ == old(self).stack@,
            old(self).wf() ==> final(self).wf(),
    {
        proof {
            lemma_native_asks(native, old(self)@.stack);
        }
        match call_native(native, &mut self.stack) {
            Ok(effect) => {
                self.take_in(effect);
                Ok(())
            },
            Err(e) => Err(e),
        }
    }

    /// Runs `=`.
    fn op_assign(&mut self) -> (r: Result<(), VmError>)
        requires
            old(self).wf(),
        ensures
            final(self).wf(),
            agrees(old(self)@, final(self)@, r, assign_op(old(self)@)),
    {
        if self.stack.len() < 2 {
            return Err(VmError::ArityOrStack);
        }
        let value = self.pop();
        let target = self.pop();
        proof {
            lemma_object_members(target);
            assert(old(self)@.stack.drop_last().drop_last() =~= old(self)@.stack.take(
                old(self)@.stack.len() - 2,
            ));
        }
        let _ = self.scopes.assign(&target.name, value);
        Ok(())
    }

    /// Runs `push_num`.
    fn op_push_num(&mut self, args: &Vec<u8>) -> (r: Result<(), VmError>)
        ensures
            agrees(old(self)@, final(self)@, r, push_num_op(old(self)@, args@)),
    {
        let text = string_from_bytes(args);
        let chars = string_chars(&text);
        assert(chars@.subrange(0, chars@.len() as int) =~= chars@);
        match parse_i32(&chars, 0, chars.len()) {
            Some(v) => {
                self.push(generate_int(String::from_str("$int"), v));
                Ok(())
            },
            None => Err(VmError::Encoding(text)),
        }
    }

    /// Runs `push_bool`: the argument `1` is true, every other is false.
    fn op_push_bool(&mut self, args: &Vec<u8>)
        ensures
            final(self)@ == push_object(
                old(self)@,
                boolean_object("bool"@, args@ == seq![49u8]),
            ),
    {
        let value = args.len() == 1 && args[0] == 49;
        assert(value == (args@ =~= seq![49u8]));
        self.push(generate_boolean(String::from_str("bool"), value));
    }

    /// Runs `get`.
    fn op_get(&mut self, args: &Vec<u8>) -> (r: Result<(), VmError>)
        requires
            old(self).wf(),
        ensures
            agrees(old(self)@, final(self)@, r, get_op(old(self)@, args@)),
    {
        let name = string_from_bytes(args);
        match self.scopes.lookup(&name, &self.captures) {
            Ok(object) => {
                self.push(object);
                Ok(())
            },
            Err(e) => Err(e),
        }
    }

    /// Runs `set_get`.
    fn op_set_get(&mut self, args: &Vec<u8>) -> (r: Result<(), VmError>)
        requires
            old(self).wf(),
        ensures
            final(self).wf(),
            agrees(old(self)@, final(self)@, r, set_get_op(old(self)@, args@)),
    {
        let name = string_from_bytes(args);
        match self.scopes.declare(name) {
            Ok(object) => {
                self.push(object);
                Ok(())
            },
            Err(e) => Err(e),
        }
    }

    /// Runs `call`.
    fn op_call(&mut self, args: &Vec<u8>) -> (r: Result<(), VmError>)
        requires
            old(self).wf(),
        ensures
            final(self).wf(),
            agrees(old(self)@, final(self)@, r, call_op(old(self)@, args@)),
    {
        let distance: usize = if args.len() < 1 {
            0
        } else {
            args[0] as usize
        };
        let n = self.stack.len();
        if n < 1 + distance {
            return Err(VmError::ArityOrStack);
        }
        let index = n - 1 - distance;
        proof {
            lemma_objects_view_remove(self.stack@, index as int);
            lemma_object_members(self.stack@[index as int]);
        }
        let callee = &self.stack[index];
        if is_text(&callee.yapko_type, "Function") || is_text(&callee.yapko_type, "YapkoFunction") {
            match callee.payload() {
                Some(Primitive::Function(native)) => {
                    let native = *native;
                    let callee = self.stack.remove(index);
                    let r = self.run_native(native);
                    if r.is_err() {
                        self.stack.insert(index, callee);
                        assert(self.stack@ =~= old(self).stack@);
                    }
                    r
                },
                Some(Primitive::YapkoFunction(body, captures)) => {
                    let code = make_call_frame(body);
                    let mut added = crate::yapko::clone_captures(captures);
                    let ghost before = crate::yapko::captures_view(self.captures@);
                    let ghost more = crate::yapko::captures_view(added@);
                    let _ = self.stack.remove(index);
                    splice(&mut self.tape, self.cursor, &code);
                    self.captures.append(&mut added);
                    assert(crate::yapko::captures_view(self.captures@) =~= before + more);
                    self.invoke_frame = self.scopes.depth() - 1;
                    Ok(())
                },
                _ => Err(VmError::Dispatch(callee.name.clone())),
            }
        } else if is_text(&callee.yapko_type, "class") {
            let mut instance = self.stack.remove(index);
            proof {
                lemma_object_members(instance);
            }
            instance.yapko_type = instance.name.clone();
            proof {
                lemma_object_members(instance);
                assert(instance@ =~= instance_of(old(self)@.stack[index as int]));
                lemma_objects_view_push(self.stack@, instance);
            }
            self.stack.push(instance);
            Ok(())
        } else {
            Err(VmError::Dispatch(callee.name.clone()))
        }
    }

    /// Runs a binary operator.
    fn op_operator(&mut self, op: Opcode) -> (r: Result<(), VmError>)
        requires
            old(self).wf(),
        ensures
            final(self).wf(),
            agrees(old(self)@, final(self)@, r, operator_op(old(self)@, op)),
    {
        let n = self.stack.len();
        if n < 2 {
            return Err(VmError::ArityOrStack);
        }
        let name = match method_of(op) {
            Some(name) => name,
            None => {
                return Err(VmError::Dispatch(sign_of(op)));
            },
        };
        let native = match self.stack[n - 2].get(name.as_str()) {
            Some(Variable::YapkoObject(method)) => match method.payload() {
                Some(Primitive::Function(native)) => *native,
                _ => {
                    return Err(VmError::Dispatch(name));
                },
            },
            _ => {
                return Err(VmError::Dispatch(name));
            },
        };
        self.run_native(native)
    }

    /// Runs `and`, `or`, `xor`.
    fn op_logic(&mut self, op: Opcode) -> (r: Result<(), VmError>)
        ensures
            agrees(old(self)@, final(self)@, r, logic_op(old(self)@, op)),
    {
        let n = self.stack.len();
        if n < 2 {
            return Err(VmError::ArityOrStack);
        }
        match (read_bool(&self.stack[n - 2]), read_bool(&self.stack[n - 1])) {
            (Some(l), Some(r)) => {
                let _ = self.pop();
                let _ = self.pop();
                proof {
                    assert(old(self)@.stack.drop_last().drop_last() =~= old(self)@.stack.take(
                        old(self)@.stack.len() - 2,
                    ));
                }
                self.push(generate_boolean(String::from_str("$bool"), compute_logic(op, l, r)));
                Ok(())
            },
            _ => Err(VmError::Dispatch(sign_of(op))),
        }
    }

    /// Runs `!`.
    fn op_not(&mut self) -> (r: Result<(), VmError>)
        ensures
            agrees(old(self)@, final(self)@, r, not_op(old(self)@)),
    {
        let n = self.stack.len();
        if n < 1 {
            return Err(VmError::ArityOrStack);
        }
        match read_bool(&self.stack[n - 1]) {
            Some(b) => {
                let _ = self.pop();
                self.push(generate_boolean(String::from_str("$bool"), !b));
                Ok(())
            },
            None => Err(VmError::Dispatch(sign_of(Opcode::Not))),
        }
    }

    /// Runs `.`.
    fn op_member(&mut self, args: &Vec<u8>) -> (r: Result<(), VmError>)
        ensures
            agrees(old(self)@, final(self)@, r, member_op(old(self)@, args@)),
    {
        let n = self.stack.len();
        if n < 1 {
            return Err(VmError::ArityOrStack);
        }
        let name = string_from_bytes(args);
        let found = match self.stack[n - 1].get(name.as_str()) {
            Some(Variable::YapkoObject(o)) => Some(o.clone()),
            Some(Variable::Primitive(_)) => None,
            None => {
                return Err(VmError::Dispatch(name));
            },
        };
        let _ = self.pop();
        match found {
            Some(member) => {
                self.push(member);
            },
            None => {},
        }
        Ok(())
    }

    /// Runs `arg_type`.
    fn op_arg_type(&mut self, args: &Vec<u8>) -> (r: Result<(), VmError>)
        requires
            old(self).wf(),
        ensures
            final(self).wf(),
            agrees(old(self)@, final(self)@, r, arg_type_op(old(self)@, args@)),
    {
        let n = self.stack.len();
        if n < 1 {
            return Err(VmError::ArityOrStack);
        }
        let name = string_from_bytes(args);
        proof {
            lemma_object_members(self.stack@[n - 1]);
        }
        if !(self.stack[n - 1].yapko_type == name) {
            return Err(VmError::TypeMismatch(name, self.stack[n - 1].yapko_type.clone()));
        }
        let top = self.pop();
        self.scopes.bind(self.argument.clone(), top);
        Ok(())
    }

    /// Runs `if` and `while`.
    fn op_branch(&mut self, op: Opcode) -> (r: Result<(), VmError>)
        requires
            old(self).wf(),
        ensures
            final(self).wf(),
            agrees(old(self)@, final(self)@, r, branch_op(old(self)@, op)),
    {
        let n = self.stack.len();
        if n < 1 {
            return Err(VmError::ArityOrStack);
        }
        let taken = match read_bool(&self.stack[n - 1]) {
            Some(b) => b,
            None => {
                return Err(VmError::Dispatch(sign_of(op)));
            },
        };
        let _ = self.pop();
        let frame = self.scopes.depth() - 1;
        self.scopes.push_frame();
        self.depth = 0;
        if taken {
            self.mode = Mode::Normal;
        } else {
            self.mode = Mode::Skipping;
            match op {
                Opcode::While => {
                    let _ = self.loops.remove(&frame);
                },
                _ => {},
            }
        }
        assert(self@ =~= branch_op(old(self)@, op)->Ok_0);
        Ok(())
    }

    /// Runs `condition`.
    fn op_condition(&mut self)
        requires
            old(self).wf(),
        ensures
            final(self).wf(),
            final(self)@ == condition_op(old(self)@),
    {
        let frame = self.scopes.depth() - 1;
        self.mode = Mode::Buffering;
        self.depth = 0;
        self.loop_body.clear();
        self.loop_frame = frame;
        let _ = self.loops.remove(&frame);
        assert(self@ =~= condition_op(old(self)@));
    }

    /// Runs `close`.
    fn op_close(&mut self) -> (r: Result<(), VmError>)
        requires
            old(self).wf(),
        ensures
            final(self).wf(),
            agrees(old(self)@, final(self)@, r, close_op(old(self)@)),
    {
        if self.inside_class {
            let n = self.scopes.depth();
            if n < 2 {
                return Err(VmError::Encoding(sign_of(Opcode::Close)));
            }
            let template = make_template(self.class_name.clone(), self.scopes.frame(n - 1));
            self.scopes.bind_at(n - 2, self.class_name.clone(), template);
            self.inside_class = false;
        }
        self.close_frame();
        self.requeue_loop();
        Ok(())
    }

    /// Runs one instruction.
    fn execute(&mut self, op: Opcode, args: &Vec<u8>) -> (r: Result<(), VmError>)
        requires
            old(self).wf(),
        ensures
            final(self).wf(),
            agrees(old(self)@, final(self)@, r, execute_spec(old(self)@, op, args@)),
    {
        match op {
            Opcode::Assign => self.op_assign(),
            Opcode::PushNum => self.op_push_num(args),
            Opcode::PushStr => {
                self.push(generate_string(String::from_str("$string"), string_from_bytes(args)));
                Ok(())
            },
            Opcode::PushBool => {
                self.op_push_bool(args);
                Ok(())
            },
            Opcode::Get => self.op_get(args),
            Opcode::SetGet => self.op_set_get(args),
            Opcode::Call => self.op_call(args),
            Opcode::Add
            | Opcode::Sub
            | Opcode::Mul
            | Opcode::Div
            | Opcode::Mod
            | Opcode::Less
            | Opcode::Greater
            | Opcode::LessEqual
            | Opcode::GreaterEqual
            | Opcode::Equal
            | Opcode::NotEqual => self.op_operator(op),
            Opcode::And | Opcode::Or | Opcode::Xor => self.op_logic(op),
            Opcode::Not => self.op_not(),
            Opcode::Member => self.op_member(args),
            Opcode::FunStart => {
                self.mode = Mode::Defining;
                self.function_body.clear();
                Ok(())
            },
            Opcode::ScopeNew => {
                self.scopes.push_frame();
                Ok(())
            },
            Opcode::ScopeEnd => {
                self.close_frame();
                Ok(())
            },
            Opcode::Arg => {
                self.argument = string_from_bytes(args);
                Ok(())
            },
            Opcode::ArgType => self.op_arg_type(args),
            Opcode::If | Opcode::While => self.op_branch(op),
            Opcode::Condition => {
                self.op_condition();
                Ok(())
            },
            Opcode::Class => {
                self.scopes.push_frame();
                self.inside_class = true;
                self.class_name = string_from_bytes(args);
                Ok(())
            },
            Opcode::Close => self.op_close(),
            _ => Ok(()),
        }
    }

    /// Treats one instruction while a function is being defined.
    fn define(&mut self, op: Opcode, ins: &Instruction)
        requires
            old(self).wf(),
        ensures
            final(self).wf(),
            final(self)@ == define_spec(old(self)@, op, ins.opcode, ins.arguments@),
    {
        match op {
            Opcode::FunEnd => {
                let name = string_from_bytes(&ins.arguments);
                let captures = self.scopes.capture_visible();
                let frame = self.scopes.depth() - 1;
                let mut body: Vec<u8> = Vec::new();
                std::mem::swap(&mut body, &mut self.function_body);
                let function = generate_yapko_function(name.clone(), body, captures, frame);
                self.scopes.bind(name, function);
                self.mode = Mode::Normal;
            },
            _ => {
                append_record(&mut self.function_body, ins);
            },
        }
    }

    /// Treats one instruction while a branch is passed over.
    fn skip(&mut self, op: Opcode)
        requires
            old(self).wf(),
            old(self)@.depth < old(self)@.cursor,
        ensures
            final(self).wf(),
            final(self)@ == skip_spec(old(self)@, op),
    {
        match op {
            Opcode::If | Opcode::While => {
                self.depth = self.depth + 1;
            },
            Opcode::Close => {
                if self.depth == 0 {
                    self.mode = Mode::Normal;
                    self.close_frame();
                } else {
                    self.depth = self.depth - 1;
                }
            },
            _ => {},
        }
    }

    /// Treats one instruction while a loop is being read.
    fn buffer(&mut self, op: Opcode, ins: &Instruction) -> (r: Result<(), VmError>)
        requires
            old(self).wf(),
            old(self)@.depth < old(self)@.cursor,
        ensures
            final(self).wf(),
            agrees(
                old(self)@,
                final(self)@,
                r,
                buffer_spec(old(self)@, op, ins.opcode, ins.arguments@),
            ),
    {
        match op {
            Opcode::If | Opcode::While => {
                append_record(&mut self.loop_body, ins);
                self.depth = self.depth + 1;
                Ok(())
            },
            Opcode::Close => {
                if self.depth == 0 {
                    Err(VmError::Encoding(sign_of(Opcode::Close)))
                } else if self.depth == 1 {
                    append_record(&mut self.loop_body, ins);
                    let mut code: Vec<u8> = Vec::new();
                    std::mem::swap(&mut code, &mut self.loop_body);
                    splice(&mut self.tape, self.cursor, &code);
                    let _ = self.loops.insert(self.loop_frame, code);
                    self.mode = Mode::Normal;
                    self.depth = 0;
                    assert(self@ =~= buffer_spec(
                        old(self)@,
                        op,
                        ins.opcode,
                        ins.arguments@,
                    )->Ok_0);
                    Ok(())
                } else {
                    append_record(&mut self.loop_body, ins);
                    self.depth = self.depth - 1;
                    Ok(())
                }
            },
            _ => {
                append_record(&mut self.loop_body, ins);
                Ok(())
            },
        }
    }

    /// How the engine stands: waiting where a request is pending, else ready.
    fn standing(&self) -> (status: Status)
        ensures
            status@ == standing(self@),
    {
        match &self.pending {
            Some((request, _)) => Status::Waiting(*request),
            None => Status::Ready,
        }
    }

    /// Makes one step: reads the next instruction and treats it as the mode
    /// says. Where a request waits for its answer, nothing happens. A failed
    /// step leaves the engine as it was.
    pub fn step(&mut self) -> (status: Status)
        requires
            old(self).wf(),
        ensures
            final(self).wf(),
            final(self)@ == step_spec(old(self)@).0,
            status@ == step_spec(old(self)@).1,
    {
        if self.pending.is_some() {
            return self.standing();
        }
        let ins = match fetch(&self.tape, self.cursor) {
            Some(ins) => ins,
            None => {
                return Status::Finished;
            },
        };
        let op = self.opcodes[ins.opcode as usize];
        match op {
            Opcode::Missing => {
                let mut byte: Vec<u8> = Vec::new();
                byte.push(ins.opcode);
                assert(byte@ =~= seq![ins.opcode]);
                return Status::Failed(VmError::Encoding(string_from_bytes(&byte)));
            },
            _ => {},
        }
        let start = self.cursor;
        self.cursor = ins.next;
        let r = match self.mode {
            Mode::Normal => self.execute(op, &ins.arguments),
            Mode::Defining => {
                self.define(op, &ins);
                Ok(())
            },
            Mode::Skipping => {
                self.skip(op);
                Ok(())
            },
            Mode::Buffering => self.buffer(op, &ins),
        };
        match r {
            Ok(()) => self.standing(),
            Err(e) => {
                self.cursor = start;
                Status::Failed(e)
            },
        }
    }

    /// Makes at most `fuel` steps, and stops early where the engine is no
    /// longer ready: at the end of the tape, at a request, at an error.
    /// `Ready` says that the steps were used up.
    pub fn run(&mut self, fuel: u64) -> (status: Status)
        requires
            old(self).wf(),
        ensures
            final(self).wf(),
            final(self)@ == run_spec(old(self)@, fuel as nat).0,
            status@ == run_spec(old(self)@, fuel as nat).1,
    {
        let mut left: u64 = fuel;
        while left > 0
            invariant
                self.wf(),
                run_spec(self@, left as nat) == run_spec(old(self)@, fuel as nat),
            decreases left,
        {
            let status = self.step();
            match status {
                Status::Ready => {},
                _ => {
                    return status;
                },
            }
            left = left - 1;
        }
        Status::Ready
    }

    /// Takes in the host's answer to the request that waits. Returns whether
    /// the answer was accepted: it is not where no request waits or the answer
    /// is of another kind than asked for, and the engine then stays as it was.
    pub fn resume(&mut self, reply: Reply) -> (accepted: bool)
        requires
            old(self).wf(),
        ensures
            final(self).wf(),
            match resume_spec(old(self)@, reply@) {
                Some(s) => accepted && final(self)@ == s,
                None => !accepted && final(self)@ == old(self)@,
            },
    {
        let kind = match &self.pending {
            None => {
                return false;
            },
            Some((_, continuation)) => continuation.clone(),
        };
        match (kind, reply) {
            (Continuation::PushString(name), Reply::Text(text)) => {
                self.push(generate_string(name, text));
            },
            (Continuation::PushInt(name), Reply::Int(v)) => {
                self.push(generate_int(name, v));
            },
            (Continuation::PushFloat(name), Reply::Bits(bits)) => {
                self.push(generate_float(name, bits));
            },
            (Continuation::PushBoolean, Reply::Bool(b)) => {
                self.push(generate_boolean(String::from_str("$bool"), b));
            },
            (Continuation::Write(newline), Reply::Text(text)) => {
                let mut text = text;
                if newline {
                    crate::text::push_char(&mut text, '\n');
                }
                self.output.append(text.as_str());
            },
            _ => {
                return false;
            },
        }
        self.pending = None;
        true
    }

    /// Loads a tape and the table that names its opcode bytes. The cursor
    /// goes to the start of the tape; the operand stack, the scope stack and
    /// the output stay.
    pub fn load(&mut self, bytecode: Vec<u8>, commands: &HashMap<u8, String>)
        requires
            old(self).wf(),
        ensures
            final(self).wf(),
            final(self)@ == load_spec(old(self)@, bytecode@, commands@),
    {
        self.tape = bytecode;
        self.cursor = 0;
        self.opcodes = decode_commands(commands);
        match self.mode {
            Mode::Defining => {},
            _ => {
                self.mode = Mode::Normal;
            },
        }
        self.depth = 0;
        self.function_body = Vec::new();
        self.loop_body = Vec::new();
        self.loop_frame = 0;
        self.loops = HashMap::new();
        self.captures = Vec::new();
        self.invoke_frame = 0;
        self.argument = String::new();
        self.inside_class = false;
        self.class_name = String::new();
        self.pending = None;
        assert(self@ =~= load_spec(old(self)@, bytecode@, commands@));
    }

    /// Runs like [`VM::run`], and answers every request for a random number
    /// itself, with a number drawn from the thread's generator: the outcome
    /// is that of a run with some list of draws. So long as no such request
    /// arises, it is the outcome of `run`.
    pub fn proceed(&mut self, fuel: u64) -> (status: Status)
        requires
            old(self).wf(),
        ensures
            final(self).wf(),
            status@ != StatusView::Waiting(Request::Random),
            exists|draws: Seq<i32>|
                (final(self)@, status@) == #[trigger] run_drawing(old(self)@, fuel as nat, draws),
            run_spec(old(self)@, fuel as nat).1 != StatusView::Waiting(Request::Random) ==> {
                &&& final(self)@ == run_spec(old(self)@, fuel as nat).0
                &&& status@ == run_spec(old(self)@, fuel as nat).1
            },
    {
        let mut left: u64 = fuel;
        let ghost mut used: Seq<i32> = Seq::empty();
        let ghost start = self@;
        assert forall|rest: Seq<i32>| #[trigger]
            run_drawing(start, fuel as nat, used + rest) == run_drawing(
                self@,
                left as nat,
                rest,
            ) by {
            assert(used + rest =~= rest);
        }
        while left > 0
            invariant
                self.wf(),
                start == old(self)@,
                used.len() == 0 ==> run_spec(self@, left as nat) == run_spec(start, fuel as nat),
                used.len() > 0 ==> run_spec(start, fuel as nat).1 == StatusView::Waiting(
                    Request::Random,
                ),
                forall|rest: Seq<i32>| #[trigger]
                    run_drawing(start, fuel as nat, used + rest) == run_drawing(
                        self@,
                        left as nat,
                        rest,
                    ),
            decreases left,
        {
            let ghost before = self@;
            let status = self.step();
            let ghost stepped = self@;
            match status {
                Status::Ready => {
                    assert forall|rest: Seq<i32>| #[trigger]
                        run_drawing(start, fuel as nat, used + rest) == run_drawing(
                            stepped,
                            (left - 1) as nat,
                            rest,
                        ) by {
                        assert(run_drawing(before, left as nat, rest) == run_drawing(
                            stepped,
                            (left - 1) as nat,
                            rest,
                        ));
                    }
                },
                Status::Waiting(Request::Random) => {
                    let number = random_int();
                    let accepted = self.resume(Reply::Int(number));
                    assert(accepted);
                    let ghost resumed = self@;
                    let ghost earlier = used;
                    proof {
                        used = used.push(number);
                    }
                    assert forall|rest: Seq<i32>| #[trigger]
                        run_drawing(start, fuel as nat, used + rest) == run_drawing(
                            resumed,
                            (left - 1) as nat,
                            rest,
                        ) by {
                        let more = seq![number] + rest;
                        assert(used + rest =~= earlier + more);
                        assert(more.drop_first() =~= rest);
                        assert(more[0] == number);
                        assert(run_drawing(start, fuel as nat, earlier + more) == run_drawing(
                            before,
                            left as nat,
                            more,
                        ));
                        assert(run_drawing(before, left as nat, more) == run_drawing(
                            resumed,
                            (left - 1) as nat,
                            rest,
                        ));
                    }
                },
                _ => {
                    proof {
                        let none = Seq::<i32>::empty();
                        assert(used + none =~= used);
                        assert(run_drawing(start, fuel as nat, used + none) == run_drawing(
                            before,
                            left as nat,
                            none,
                        ));
                        assert(run_drawing(before, left as nat, none) == (stepped, status@));
                    }
                    return status;
                },
            }
            left = left - 1;
        }
        proof {
            let none = Seq::<i32>::empty();
            assert(used + none =~= used);
            assert(run_drawing(start, fuel as nat, used + none) == run_drawing(self@, 0, none));
        }
        Status::Ready
    }

    /// Loads a tape with the table that names its opcode bytes, and runs it
    /// for at most `fuel` steps as [`VM::proceed`] does.
    pub fn interpret(&mut self, bytecode: Vec<u8>, commands: HashMap<u8, String>, fuel: u64) -> (status:
        Status)
        requires
            old(self).wf(),
        ensures
            final(self).wf(),
            status@ != StatusView::Waiting(Request::Random),
            exists|draws: Seq<i32>|
                (final(self)@, status@) == #[trigger] run_drawing(
                    load_spec(old(self)@, bytecode@, commands@),
                    fuel as nat,
                    draws,
                ),
            run_spec(load_spec(old(self)@, bytecode@, commands@), fuel as nat).1
                != StatusView::Waiting(Request::Random) ==> {
                &&& final(self)@ == run_spec(
                    load_spec(old(self)@, bytecode@, commands@),
                    fuel as nat,
                ).0
                &&& status@ == run_spec(load_spec(old(self)@, bytecode@, commands@), fuel as nat).1
            },
    {
        self.load(bytecode, &commands);
        self.proceed(fuel)
    }

    /// The operand stack; its last entry is the top.
    pub fn stack(&self) -> (r: &Vec<YapkoObject>)
        ensures
            objects_view(r@) == self@.stack,
    {
        &self.stack
    }

    /// The scope stack.
    pub fn scopes(&self) -> (r: &ScopeStack)
        ensures
            r@ == self@.scopes,
    {
        &self.scopes
    }

    /// The tape as it stands, with all that was inserted into it.
    pub fn tape(&self) -> (r: &Vec<u8>)
        ensures
            r@ == self@.tape,
    {
        &self.tape
    }

    /// The position of the next byte to read.
    pub fn cursor(&self) -> (r: usize)
        ensures
            r == self@.cursor,
    {
        self.cursor
    }

    /// What the engine does with the instructions it reads.
    pub fn mode(&self) -> (r: Mode)
        ensures
            r == self@.mode,
    {
        self.mode
    }

    /// The active capture list.
    pub fn captures(&self) -> (r: &Vec<(usize, String)>)
        ensures
            crate::yapko::captures_view(r@) == self@.captures,
    {
        &self.captures
    }

    /// The text written and not yet taken.
    pub fn output(&self) -> (r: &String)
        ensures
            r@ == self@.output,
    {
        &self.output
    }

    /// Hands out the text written so far and empties the buffer.
    pub fn take_output(&mut self) -> (text: String)
        ensures
            text@ == old(self)@.output,
            final(self)@ == (VmView { output: Seq::empty(), ..old(self)@ }),
    {
        let mut text = String::new();
        std::mem::swap(&mut text, &mut self.output);
        text
    }

    /// Replaces frame 0, which holds the bindings of the standard library.
    pub fn set_globals(&mut self, globals: Frame)
        requires
            old(self).wf(),
        ensures
            final(self).wf(),
            final(self)@ == (VmView {
                scopes: old(self)@.scopes.update(0, globals@),
                ..old(self)@
            }),
    {
        self.scopes.set_globals(globals);
    }

    /// Puts an object on top of the operand stack.
    pub fn push_operand(&mut self, object: YapkoObject)
        ensures
            final(self)@ == push_object(old(self)@, object@),
    {
        self.push(object);
    }
}

} // verus!
