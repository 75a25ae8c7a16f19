//! The instruction tape: how opcode bytes get their meaning from the name
//! table, how one instruction is read, and how code is spliced into the tape.
//!
//! An instruction is an opcode byte, its argument bytes, and a zero byte that
//! ends it. A zero byte where an opcode is due is padding. An argument can
//! therefore hold no zero byte.

use crate::text::is_text;
use std::collections::HashMap;
use vstd::prelude::*;

verus! {

broadcast use vstd::std_specs::hash::group_hash_axioms;

/// The opcode byte that opens a frame around an inlined function body.
pub const SCOPE_NEW_BYTE: u8 = 24;

/// The opcode byte that closes the frame around an inlined function body.
pub const SCOPE_END_BYTE: u8 = 25;

/// What an opcode byte means to the engine.
#[derive(Clone, Copy, Debug, PartialEq, Eq, Structural)]
pub enum Opcode {
    /// The name table has no entry for the byte.
    Missing,
    /// A name that the engine gives no meaning: the instruction does nothing.
    /// `return` is among them.
    Other,
    Get,
    SetGet,
    PushNum,
    PushStr,
    PushBool,
    Add,
    Sub,
    Mul,
    Div,
    Mod,
    Less,
    Greater,
    LessEqual,
    GreaterEqual,
    Equal,
    NotEqual,
    Assign,
    Call,
    FunStart,
    FunEnd,
    ScopeNew,
    ScopeEnd,
    Arg,
    ArgType,
    Or,
    Xor,
    And,
    Not,
    If,
    While,
    Condition,
    Close,
    Member,
    Class,
}

/// The meaning of an opcode name.
pub open spec fn opcode_of_name(name: Seq<char>) -> Opcode {
    if name == "get"@ {
        Opcode::Get
    } else if name == "set_get"@ {
        Opcode::SetGet
    } else if name == "push_num"@ {
        Opcode::PushNum
    } else if name == "push_str"@ {
        Opcode::PushStr
    } else if name == "push_bool"@ {
        Opcode::PushBool
    } else if name == "+"@ {
        Opcode::Add
    } else if name == "-"@ {
        Opcode::Sub
    } else if name == "*"@ {
        Opcode::Mul
    } else if name == "/"@ {
        Opcode::Div
    } else if name == "%"@ {
        Opcode::Mod
    } else if name == "<"@ {
        Opcode::Less
    } else if name == ">"@ {
        Opcode::Greater
    } else if name == "<="@ {
        Opcode::LessEqual
    } else if name == ">="@ {
        Opcode::GreaterEqual
    } else if name == "=="@ {
        Opcode::Equal
    } else if name == "!="@ {
        Opcode::NotEqual
    } else if name == "="@ {
        Opcode::Assign
    } else if name == "call"@ {
        Opcode::Call
    } else if name == "fun_start"@ {
        Opcode::FunStart
    } else if name == "fun_end"@ {
        Opcode::FunEnd
    } else if name == "scope_new"@ {
        Opcode::ScopeNew
    } else if name == "scope_end"@ {
        Opcode::ScopeEnd
    } else if name == "arg"@ {
        Opcode::Arg
    } else if name == "arg_type"@ {
        Opcode::ArgType
    } else if name == "or"@ {
        Opcode::Or
    } else if name == "xor"@ {
        Opcode::Xor
    } else if name == "and"@ {
        Opcode::And
    } else if name == "!"@ {
        Opcode::Not
    } else if name == "if"@ {
        Opcode::If
    } else if name == "while"@ {
        Opcode::While
    } else if name == "condition"@ {
        Opcode::Condition
    } else if name == "close"@ {
        Opcode::Close
    } else if name == "."@ {
        Opcode::Member
    } else if name == "class"@ {
        Opcode::Class
    } else {
        Opcode::Other
    }
}

/// Gives an opcode name its meaning.
pub fn decode_name(name: &String) -> (op: Opcode)
    ensures
        op == opcode_of_name(name@),
{
    if is_text(name, "get") {
        Opcode::Get
    } else if is_text(name, "set_get") {
        Opcode::SetGet
    } else if is_text(name, "push_num") {
        Opcode::PushNum
    } else if is_text(name, "push_str") {
        Opcode::PushStr
    } else if is_text(name, "push_bool") {
        Opcode::PushBool
    } else if is_text(name, "+") {
        Opcode::Add
    } else if is_text(name, "-") {
        Opcode::Sub
    } else if is_text(name, "*") {
        Opcode::Mul
    } else if is_text(name, "/") {
        Opcode::Div
    } else if is_text(name, "%") {
        Opcode::Mod
    } else if is_text(name, "<") {
        Opcode::Less
    } else if is_text(name, ">") {
        Opcode::Greater
    } else if is_text(name, "<=") {
        Opcode::LessEqual
    } else if is_text(name, ">=") {
        Opcode::GreaterEqual
    } else if is_text(name, "==") {
        Opcode::Equal
    } else if is_text(name, "!=") {
        Opcode::NotEqual
    } else if is_text(name, "=") {
        Opcode::Assign
    } else if is_text(name, "call") {
        Opcode::Call
    } else if is_text(name, "fun_start") {
        Opcode::FunStart
    } else if is_text(name, "fun_end") {
        Opcode::FunEnd
    } else if is_text(name, "scope_new") {
        Opcode::ScopeNew
    } else if is_text(name, "scope_end") {
        Opcode::ScopeEnd
    } else if is_text(name, "arg") {
        Opcode::Arg
    } else if is_text(name, "arg_type") {
        Opcode::ArgType
    } else if is_text(name, "or") {
        Opcode::Or
    } else if is_text(name, "xor") {
        Opcode::Xor
    } else if is_text(name, "and") {
        Opcode::And
    } else if is_text(name, "!") {
        Opcode::Not
    } else if is_text(name, "if") {
        Opcode::If
    } else if is_text(name, "while") {
        Opcode::While
    } else if is_text(name, "condition") {
        Opcode::Condition
    } else if is_text(name, "close") {
        Opcode::Close
    } else if is_text(name, ".") {
        Opcode::Member
    } else if is_text(name, "class") {
        Opcode::Class
    } else {
        Opcode::Other
    }
}

/// The meaning of every byte under a name table: 256 entries, one for each
/// byte value.
pub open spec fn decode_table(commands: Map<u8, String>) -> Seq<Opcode> {
    Seq::new(
        256,
        |b: int|
            if commands.contains_key(b as u8) {
                opcode_of_name(commands[b as u8]@)
            } else {
                Opcode::Missing
            },
    )
}

/// Works out the meaning of every byte under a name table.
pub fn decode_commands(commands: &HashMap<u8, String>) -> (table: Vec<Opcode>)
    ensures
        table@ == decode_table(commands@),
{
    let mut table: Vec<Opcode> = Vec::new();
    let mut b: usize = 0;
    while b < 256
        invariant
            b <= 256,
            table@.len() == b,
            forall|k: int| 0 <= k < b ==> table@[k] == decode_table(commands@)[k],
        decreases 256 - b,
    {
        let key: u8 = b as u8;
        let op = match commands.get(&key) {
            Some(name) => decode_name(name),
            None => Opcode::Missing,
        };
        table.push(op);
        b = b + 1;
    }
    assert(table@ =~= decode_table(commands@));
    table
}

/// The method that a binary operator calls on its left operand. `!=` has
/// none.
pub open spec fn operator_method(op: Opcode) -> Option<Seq<char>> {
    match op {
        Opcode::Add => Some("add"@),
        Opcode::Sub => Some("sub"@),
        Opcode::Mul => Some("mul"@),
        Opcode::Div => Some("div"@),
        Opcode::Mod => Some("mod"@),
        Opcode::Less => Some("smallerThan"@),
        Opcode::Greater => Some("greaterThan"@),
        Opcode::LessEqual => Some("smallerOrEqual"@),
        Opcode::GreaterEqual => Some("greaterOrEqual"@),
        Opcode::Equal => Some("equalTo"@),
        _ => None,
    }
}

/// The sign of an operator or of another instruction, for diagnostics.
pub open spec fn opcode_sign(op: Opcode) -> Seq<char> {
    match op {
        Opcode::NotEqual => "!="@,
        Opcode::Or => "or"@,
        Opcode::Xor => "xor"@,
        Opcode::And => "and"@,
        Opcode::Not => "!"@,
        Opcode::If => "if"@,
        Opcode::While => "while"@,
        Opcode::Close => "close"@,
        _ => "?"@,
    }
}

/// The sign of an instruction, for diagnostics.
pub fn sign_of(op: Opcode) -> (r: String)
    ensures
        r@ == opcode_sign(op),
{
    match op {
        Opcode::NotEqual => String::from_str("!="),
        Opcode::Or => String::from_str("or"),
        Opcode::Xor => String::from_str("xor"),
        Opcode::And => String::from_str("and"),
        Opcode::Not => String::from_str("!"),
        Opcode::If => String::from_str("if"),
        Opcode::While => String::from_str("while"),
        Opcode::Close => String::from_str("close"),
        _ => String::from_str("?"),
    }
}

/// The name of the method that a binary operator calls.
pub fn method_of(op: Opcode) -> (r: Option<String>)
    ensures
        match operator_method(op) {
            Some(name) => r is Some && r->0@ == name,
            None => r is None,
        },
{
    match op {
        Opcode::Add => Some(String::from_str("add")),
        Opcode::Sub => Some(String::from_str("sub")),
        Opcode::Mul => Some(String::from_str("mul")),
        Opcode::Div => Some(String::from_str("div")),
        Opcode::Mod => Some(String::from_str("mod")),
        Opcode::Less => Some(String::from_str("smallerThan")),
        Opcode::Greater => Some(String::from_str("greaterThan")),
        Opcode::LessEqual => Some(String::from_str("smallerOrEqual")),
        Opcode::GreaterEqual => Some(String::from_str("greaterOrEqual")),
        Opcode::Equal => Some(String::from_str("equalTo")),
        _ => None,
    }
}

/// One instruction read from the tape.
#[derive(Debug)]
pub struct Instruction {
    /// The opcode byte.
    pub opcode: u8,
    /// The argument bytes, without the zero byte that ends them.
    pub arguments: Vec<u8>,
    /// The position just behind the instruction.
    pub next: usize,
}

/// The mathematical content of an [`Instruction`].
#[verifier::ext_equal]
pub struct InstructionView {
    pub opcode: u8,
    pub arguments: Seq<u8>,
    pub next: int,
}

impl View for Instruction {
    type V = InstructionView;

    open spec fn view(&self) -> InstructionView {
        InstructionView { opcode: self.opcode, arguments: self.arguments@, next: self.next as int }
    }
}

/// The first position at or after `from` that holds a byte other than zero,
/// or the length of the tape.
pub open spec fn skip_padding(tape: Seq<u8>, from: int) -> int
    decreases tape.len() - from,
{
    if from < 0 || from >= tape.len() {
        tape.len() as int
    } else if tape[from] == 0 {
        skip_padding(tape, from + 1)
    } else {
        from
    }
}

/// The first position at or after `from` that holds a zero byte, or the length
/// of the tape.
pub open spec fn find_end(tape: Seq<u8>, from: int) -> int
    decreases tape.len() - from,
{
    if from < 0 || from >= tape.len() {
        tape.len() as int
    } else if tape[from] == 0 {
        from
    } else {
        find_end(tape, from + 1)
    }
}

/// The instruction that stands at the cursor, behind any padding. `None`
/// where the tape holds no further complete instruction.
pub open spec fn fetch_spec(tape: Seq<u8>, cursor: int) -> Option<InstructionView> {
    let start = skip_padding(tape, cursor);
    let end = find_end(tape, start + 1);
    if start >= tape.len() || end >= tape.len() {
        None
    } else {
        Some(
            InstructionView {
                opcode: tape[start],
                arguments: tape.subrange(start + 1, end),
                next: end + 1,
            },
        )
    }
}

/// The bounds that the two scans keep.
pub proof fn lemma_scan_bounds(tape: Seq<u8>, from: int)
    requires
        0 <= from <= tape.len(),
    ensures
        from <= skip_padding(tape, from) <= tape.len(),
        from <= find_end(tape, from) <= tape.len(),
    decreases tape.len() - from,
{
    if from < tape.len() {
        lemma_scan_bounds(tape, from + 1);
    }
}

/// An instruction that was read lies behind the cursor and within the tape.
pub proof fn lemma_fetch_bounds(tape: Seq<u8>, cursor: int)
    requires
        0 <= cursor <= tape.len(),
    ensures
        fetch_spec(tape, cursor) is Some ==> cursor + 2 <= fetch_spec(tape, cursor)->0.next
            <= tape.len(),
{
    lemma_scan_bounds(tape, cursor);
    let start = skip_padding(tape, cursor);
    if start < tape.len() {
        lemma_scan_bounds(tape, start + 1);
    }
}

/// Reads the instruction at the cursor.
pub fn fetch(tape: &Vec<u8>, cursor: usize) -> (r: Option<Instruction>)
    requires
        cursor <= tape.len(),
    ensures
        match fetch_spec(tape@, cursor as int) {
            Some(ins) => r is Some && r->0@ == ins && cursor + 2 <= r->0.next <= tape.len(),
            None => r is None,
        },
{
    proof {
        lemma_fetch_bounds(tape@, cursor as int);
    }
    let mut start: usize = cursor;
    while start < tape.len() && tape[start] == 0
        invariant
            cursor <= start <= tape.len(),
            skip_padding(tape@, start as int) == skip_padding(tape@, cursor as int),
        decreases tape.len() - start,
    {
        start = start + 1;
    }
    if start >= tape.len() {
        return None;
    }
    let mut arguments: Vec<u8> = Vec::new();
    let mut end: usize = start + 1;
    while end < tape.len() && tape[end] != 0
        invariant
            start + 1 <= end <= tape.len(),
            find_end(tape@, end as int) == find_end(tape@, start + 1),
            arguments@ == tape@.subrange(start + 1, end as int),
        decreases tape.len() - end,
    {
        arguments.push(tape[end]);
        end = end + 1;
        assert(arguments@ =~= tape@.subrange(start + 1, end as int));
    }
    if end >= tape.len() {
        return None;
    }
    Some(Instruction { opcode: tape[start], arguments, next: end + 1 })
}

/// An instruction as it stands on the tape: the opcode byte, the argument
/// bytes, and the zero byte.
pub open spec fn record(opcode: u8, arguments: Seq<u8>) -> Seq<u8> {
    seq![opcode] + arguments + seq![0u8]
}

/// Appends an instruction to a buffer as it stands on the tape.
pub fn append_record(buffer: &mut Vec<u8>, ins: &Instruction)
    ensures
        final(buffer)@ == old(buffer)@ + record(ins.opcode, ins.arguments@),
{
    buffer.push(ins.opcode);
    let mut i: usize = 0;
    while i < ins.arguments.len()
        invariant
            i <= ins.arguments.len(),
            buffer@ == old(buffer)@ + seq![ins.opcode] + ins.arguments@.take(i as int),
        decreases ins.arguments.len() - i,
    {
        buffer.push(ins.arguments[i]);
        i = i + 1;
        assert(buffer@ =~= old(buffer)@ + seq![ins.opcode] + ins.arguments@.take(i as int));
    }
    buffer.push(0);
    assert(ins.arguments@.take(ins.arguments.len() as int) =~= ins.arguments@);
    assert(buffer@ =~= old(buffer)@ + record(ins.opcode, ins.arguments@));
}

/// A tape with `code` inserted at position `at`.
pub open spec fn splice_spec(tape: Seq<u8>, at: int, code: Seq<u8>) -> Seq<u8> {
    tape.take(at) + code + tape.skip(at)
}

/// Inserts `code` into the tape at position `at`.
pub fn splice(tape: &mut Vec<u8>, at: usize, code: &Vec<u8>)
    requires
        at <= old(tape).len(),
    ensures
        final(tape)@ == splice_spec(old(tape)@, at as int, code@),
{
    let mut rest = tape.split_off(at);
    let mut copy = code.clone();
    tape.append(&mut copy);
    tape.append(&mut rest);
    assert(tape@ =~= splice_spec(old(tape)@, at as int, code@));
}

/// The code that a call of a function of the language puts on the tape: the
/// body between an instruction that opens a frame and one that closes it.
pub open spec fn call_frame(body: Seq<u8>) -> Seq<u8> {
    seq![SCOPE_NEW_BYTE, 0u8] + body + seq![SCOPE_END_BYTE, 0u8]
}

/// Builds the code that a call of a function of the language puts on the
/// tape.
pub fn make_call_frame(body: &Vec<u8>) -> (code: Vec<u8>)
    ensures
        code@ == call_frame(body@),
{
    let mut code: Vec<u8> = Vec::new();
    code.push(SCOPE_NEW_BYTE);
    code.push(0);
    let mut copy = body.clone();
    code.append(&mut copy);
    code.push(SCOPE_END_BYTE);
    code.push(0);
    assert(code@ =~= call_frame(body@));
    code
}

} // verus!
