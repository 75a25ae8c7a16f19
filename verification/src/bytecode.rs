//! The encoder: it turns the tree of a statement into tape bytes, and a whole
//! source text into a tape.

use crate::lexer::{
    is_keyword, lemma_keyword_list, tokenize, tokenize_spec, tokens_view, Keywords, Token,
    TokenType, TokenView,
};
use crate::text::is_text;
use crate::parser::{
    lemma_node_children, nodes_view, parse_spec, rank_table, Node, NodeView, ParseError, Parser,
};
use crate::text::string_chars;
use std::collections::HashMap;
use vstd::prelude::*;

verus! {

broadcast use vstd::std_specs::hash::group_hash_axioms;

/// Why a tree makes no code.
#[derive(Clone, Copy, Debug, PartialEq, Eq, Structural)]
pub enum EncodeError {
    /// The command table has no byte for a command that the tree needs.
    MissingCommand,
    /// A node lacks a child that its kind needs.
    MissingChild,
    /// A parameter of a function is not declared as a name, a colon and a
    /// type.
    BadParameter,
    /// The count of open brackets left the range of 32 bits.
    TooDeep,
}

/// Why a source text makes no tape.
#[derive(Clone, Copy, Debug, PartialEq, Eq, Structural)]
pub enum CompileError {
    Parse(ParseError),
    Encode(EncodeError),
}

/// The encoder: the byte of each command, and what it carries from statement
/// to statement.
#[derive(Debug)]
pub struct ByteCode {
    /// The byte of each command name.
    pub commands: Vec<(String, u8)>,
    /// How many brackets are open.
    pub brackets_opened: i32,
    /// The functions whose bodies are open, by the count of open brackets
    /// inside their body.
    pub functions: HashMap<i32, String>,
}

/// The mathematical content of a [`ByteCode`].
#[verifier::ext_equal]
pub struct EncoderView {
    pub commands: Seq<(Seq<char>, u8)>,
    pub brackets_opened: i32,
    pub functions: Map<i32, Seq<char>>,
}

/// The content of a command table.
pub open spec fn commands_view(commands: Seq<(String, u8)>) -> Seq<(Seq<char>, u8)> {
    Seq::new(commands.len(), |i: int| (commands[i].0@, commands[i].1))
}

impl View for ByteCode {
    type V = EncoderView;

    open spec fn view(&self) -> EncoderView {
        EncoderView {
            commands: commands_view(self.commands@),
            brackets_opened: self.brackets_opened,
            functions: self.functions@.map_values(|name: String| name@),
        }
    }
}

/// The command table of the language.
pub open spec fn command_table() -> Seq<(Seq<char>, u8)> {
    seq![
        (";"@, 0u8),
        ("get"@, 1u8),
        ("set_get"@, 2u8),
        ("set_get_num"@, 3u8),
        ("push"@, 4u8),
        ("push_num"@, 5u8),
        ("push_str"@, 6u8),
        ("+"@, 7u8),
        ("-"@, 8u8),
        ("*"@, 9u8),
        ("/"@, 10u8),
        ("="@, 11u8),
        ("call"@, 21u8),
        ("fun_start"@, 22u8),
        ("fun_end"@, 23u8),
        ("scope_new"@, 24u8),
        ("scope_end"@, 25u8),
        ("arg"@, 26u8),
        ("arg_type"@, 27u8),
        ("push_bool"@, 28u8),
        ("or"@, 29u8),
        ("xor"@, 30u8),
        ("and"@, 31u8),
        ("!"@, 32u8),
        ("if"@, 33u8),
        ("while"@, 34u8),
        ("condition"@, 35u8),
        ("close"@, 36u8),
        ("<"@, 37u8),
        (">"@, 38u8),
        ("<="@, 39u8),
        (">="@, 40u8),
        ("=="@, 41u8),
        ("!="@, 42u8),
        ("%"@, 43u8),
        ("."@, 44u8),
        ("class"@, 45u8),
        ("return"@, 46u8),
        ("execute"@, 47u8),
    ]
}

/// Whether no two entries of a table are for the same command.
pub open spec fn commands_once(commands: Seq<(Seq<char>, u8)>) -> bool {
    forall|i: int, j: int|
        0 <= i < j < commands.len() ==> (#[trigger] commands[i]).0 != (#[trigger] commands[j]).0
}

/// The command table lists every command once.
pub proof fn lemma_command_table_distinct()
    ensures
        commands_once(command_table()),
{
    reveal_strlit(";");
    reveal_strlit("get");
    reveal_strlit("set_get");
    reveal_strlit("set_get_num");
    reveal_strlit("push");
    reveal_strlit("push_num");
    reveal_strlit("push_str");
    reveal_strlit("+");
    reveal_strlit("-");
    reveal_strlit("*");
    reveal_strlit("/");
    reveal_strlit("=");
    reveal_strlit("call");
    reveal_strlit("fun_start");
    reveal_strlit("fun_end");
    reveal_strlit("scope_new");
    reveal_strlit("scope_end");
    reveal_strlit("arg");
    reveal_strlit("arg_type");
    reveal_strlit("push_bool");
    reveal_strlit("or");
    reveal_strlit("xor");
    reveal_strlit("and");
    reveal_strlit("!");
    reveal_strlit("if");
    reveal_strlit("while");
    reveal_strlit("condition");
    reveal_strlit("close");
    reveal_strlit("<");
    reveal_strlit(">");
    reveal_strlit("<=");
    reveal_strlit(">=");
    reveal_strlit("==");
    reveal_strlit("!=");
    reveal_strlit("%");
    reveal_strlit(".");
    reveal_strlit("class");
    reveal_strlit("return");
    reveal_strlit("execute");
    let table = command_table();
    assert(table[0].0.len() == 1 && table[0].0[0] == ';');
    assert(table[1].0.len() == 3 && table[1].0[0] == 'g' && table[1].0[1] == 'e' && table[1].0[2] == 't');
    assert(table[2].0.len() == 7 && table[2].0[0] == 's' && table[2].0[5] == 'e' && table[2].0[6] == 't' && table[2].0[1] == 'e' && table[2].0[2] == 't');
    assert(table[3].0.len() == 11 && table[3].0[0] == 's' && table[3].0[5] == 'e' && table[3].0[6] == 't' && table[3].0[1] == 'e' && table[3].0[2] == 't');
    assert(table[4].0.len() == 4 && table[4].0[0] == 'p' && table[4].0[1] == 'u' && table[4].0[2] == 's');
    assert(table[5].0.len() == 8 && table[5].0[0] == 'p' && table[5].0[5] == 'n' && table[5].0[6] == 'u' && table[5].0[1] == 'u' && table[5].0[2] == 's');
    assert(table[6].0.len() == 8 && table[6].0[0] == 'p' && table[6].0[5] == 's' && table[6].0[6] == 't' && table[6].0[1] == 'u' && table[6].0[2] == 's');
    assert(table[7].0.len() == 1 && table[7].0[0] == '+');
    assert(table[8].0.len() == 1 && table[8].0[0] == '-');
    assert(table[9].0.len() == 1 && table[9].0[0] == '*');
    assert(table[10].0.len() == 1 && table[10].0[0] == '/');
    assert(table[11].0.len() == 1 && table[11].0[0] == '=');
    assert(table[12].0.len() == 4 && table[12].0[0] == 'c' && table[12].0[1] == 'a' && table[12].0[2] == 'l');
    assert(table[13].0.len() == 9 && table[13].0[0] == 'f' && table[13].0[5] == 't' && table[13].0[6] == 'a' && table[13].0[1] == 'u' && table[13].0[2] == 'n');
    assert(table[14].0.len() == 7 && table[14].0[0] == 'f' && table[14].0[5] == 'n' && table[14].0[6] == 'd' && table[14].0[1] == 'u' && table[14].0[2] == 'n');
    assert(table[15].0.len() == 9 && table[15].0[0] == 's' && table[15].0[5] == '_' && table[15].0[6] == 'n' && table[15].0[1] == 'c' && table[15].0[2] == 'o');
    assert(table[16].0.len() == 9 && table[16].0[0] == 's' && table[16].0[5] == '_' && table[16].0[6] == 'e' && table[16].0[1] == 'c' && table[16].0[2] == 'o');
    assert(table[17].0.len() == 3 && table[17].0[0] == 'a' && table[17].0[1] == 'r' && table[17].0[2] == 'g');
    assert(table[18].0.len() == 8 && table[18].0[0] == 'a' && table[18].0[5] == 'y' && table[18].0[6] == 'p' && table[18].0[1] == 'r' && table[18].0[2] == 'g');
    assert(table[19].0.len() == 9 && table[19].0[0] == 'p' && table[19].0[5] == 'b' && table[19].0[6] == 'o' && table[19].0[1] == 'u' && table[19].0[2] == 's');
    assert(table[20].0.len() == 2 && table[20].0[0] == 'o' && table[20].0[1] == 'r');
    assert(table[21].0.len() == 3 && table[21].0[0] == 'x' && table[21].0[1] == 'o' && table[21].0[2] == 'r');
    assert(table[22].0.len() == 3 && table[22].0[0] == 'a' && table[22].0[1] == 'n' && table[22].0[2] == 'd');
    assert(table[23].0.len() == 1 && table[23].0[0] == '!');
    assert(table[24].0.len() == 2 && table[24].0[0] == 'i' && table[24].0[1] == 'f');
    assert(table[25].0.len() == 5 && table[25].0[0] == 'w' && table[25].0[1] == 'h' && table[25].0[2] == 'i');
    assert(table[26].0.len() == 9 && table[26].0[0] == 'c' && table[26].0[5] == 't' && table[26].0[6] == 'i' && table[26].0[1] == 'o' && table[26].0[2] == 'n');
    assert(table[27].0.len() == 5 && table[27].0[0] == 'c' && table[27].0[1] == 'l' && table[27].0[2] == 'o');
    assert(table[28].0.len() == 1 && table[28].0[0] == '<');
    assert(table[29].0.len() == 1 && table[29].0[0] == '>');
    assert(table[30].0.len() == 2 && table[30].0[0] == '<' && table[30].0[1] == '=');
    assert(table[31].0.len() == 2 && table[31].0[0] == '>' && table[31].0[1] == '=');
    assert(table[32].0.len() == 2 && table[32].0[0] == '=' && table[32].0[1] == '=');
    assert(table[33].0.len() == 2 && table[33].0[0] == '!' && table[33].0[1] == '=');
    assert(table[34].0.len() == 1 && table[34].0[0] == '%');
    assert(table[35].0.len() == 1 && table[35].0[0] == '.');
    assert(table[36].0.len() == 5 && table[36].0[0] == 'c' && table[36].0[1] == 'l' && table[36].0[2] == 'a');
    assert(table[37].0.len() == 6 && table[37].0[0] == 'r' && table[37].0[5] == 'n' && table[37].0[1] == 'e' && table[37].0[2] == 't');
    assert(table[38].0.len() == 7 && table[38].0[0] == 'e' && table[38].0[5] == 't' && table[38].0[6] == 'e' && table[38].0[1] == 'x' && table[38].0[2] == 'e');
}

/// The byte that a table gives a command: that of its first entry for the
/// name, at or after `from`.
pub open spec fn command_in(commands: Seq<(Seq<char>, u8)>, name: Seq<char>, from: int) -> Option<
    u8,
>
    decreases commands.len() - from,
{
    if from < 0 || from >= commands.len() {
        None
    } else if commands[from].0 == name {
        Some(commands[from].1)
    } else {
        command_in(commands, name, from + 1)
    }
}

/// The name that a command table gives a byte: that of its last entry with
/// the byte, before `upto`.
pub open spec fn name_of_byte(commands: Seq<(Seq<char>, u8)>, byte: u8, upto: int) -> Option<
    Seq<char>,
>
    decreases upto,
{
    if upto <= 0 || upto > commands.len() {
        None
    } else if commands[upto - 1].1 == byte {
        Some(commands[upto - 1].0)
    } else {
        name_of_byte(commands, byte, upto - 1)
    }
}

/// The byte that a character is written as: its code point, cut to eight
/// bits.
pub open spec fn byte_of(c: char) -> u8 {
    ((c as u32) % 256) as u8
}

/// The bytes that a text is written as.
pub open spec fn bytes_of(text: Seq<char>) -> Seq<u8> {
    Seq::new(text.len(), |i: int| byte_of(text[i]))
}

/// The byte that a count is written as: the count, cut to eight bits.
pub open spec fn count_byte(n: nat) -> u8 {
    (n % 256) as u8
}

/// An instruction with a text as its argument.
pub open spec fn instruction(opcode: u8, text: Seq<char>) -> Seq<u8> {
    seq![opcode] + bytes_of(text) + seq![0u8]
}

/// The outcome of encoding: the encoder afterwards and the code, or an error.
pub type Encoded = Result<(EncoderView, Seq<u8>), EncodeError>;

/// The code of the parameters of a function from the `from`-th on, added to
/// `code`. A parameter is a colon with the name and the type as its
/// children.
pub open spec fn encode_parameters(
    commands: Seq<(Seq<char>, u8)>,
    parameters: Seq<NodeView>,
    from: int,
    code: Seq<u8>,
) -> Result<Seq<u8>, EncodeError>
    decreases parameters.len() - from,
{
    if from < 0 || from >= parameters.len() {
        Ok(code)
    } else {
        let parameter = parameters[from];
        if parameter.token.value != ":"@ {
            Err(EncodeError::BadParameter)
        } else {
            match (command_in(commands, "arg"@, 0), command_in(commands, "arg_type"@, 0)) {
                (Some(arg), Some(arg_type)) => if parameter.children.len() < 2 {
                    Err(EncodeError::MissingChild)
                } else {
                    encode_parameters(
                        commands,
                        parameters,
                        from + 1,
                        code + instruction(arg, parameter.children[0].token.value) + instruction(
                            arg_type,
                            parameter.children[1].token.value,
                        ),
                    )
                },
                _ => Err(EncodeError::MissingCommand),
            }
        }
    }
}

/// The code of the arguments of a call from the `from`-th on, each followed
/// by a zero byte, added to `code`.
pub open spec fn encode_arguments(
    state: EncoderView,
    arguments: Seq<NodeView>,
    from: int,
    code: Seq<u8>,
) -> Encoded
    decreases arguments, arguments.len() - from,
{
    if from < 0 || from >= arguments.len() {
        Ok((state, code))
    } else {
        match encode(state, arguments[from]) {
            Err(e) => Err(e),
            Ok((after, argument)) => encode_arguments(
                after,
                arguments,
                from + 1,
                code + argument + seq![0u8],
            ),
        }
    }
}

/// The code of a call: the arguments, then `call` with their count.
pub open spec fn encode_call(state: EncoderView, arguments: Seq<NodeView>, code: Seq<u8>) -> Encoded
    decreases arguments, arguments.len() + 1,
{
    match encode_arguments(state, arguments, 0, code) {
        Err(e) => Err(e),
        Ok((after, with_arguments)) => match command_in(after.commands, "call"@, 0) {
            None => Err(EncodeError::MissingCommand),
            Some(call) => Ok(
                (after, with_arguments + seq![call, count_byte(arguments.len()), 0u8]),
            ),
        },
    }
}

/// The code of an operator node.
pub open spec fn encode_operator(state: EncoderView, node: NodeView) -> Encoded
    decreases node, 0nat,
{
    let sign = command_in(state.commands, node.token.value, 0);
    if node.children.len() < 1 {
        Err(EncodeError::MissingChild)
    } else {
        match encode(state, node.children[0]) {
            Err(e) => Err(e),
            Ok((after, left)) => if node.token.value == "!"@ {
                match sign {
                    None => Err(EncodeError::MissingCommand),
                    Some(not) => Ok((after, left + seq![not, 0u8])),
                }
            } else if node.children.len() < 2 {
                Err(EncodeError::MissingChild)
            } else if node.token.value == "."@ {
                match sign {
                    None => Err(EncodeError::MissingCommand),
                    Some(point) => {
                        let member = node.children[1];
                        let code = left + instruction(point, member.token.value);
                        if member.invoke {
                            encode_call(after, member.children, code)
                        } else {
                            Ok((after, code))
                        }
                    },
                }
            } else {
                match encode(after, node.children[1]) {
                    Err(e) => Err(e),
                    Ok((last, right)) => match sign {
                        None => Err(EncodeError::MissingCommand),
                        Some(operator) => Ok((last, left + right + seq![operator, 0u8])),
                    },
                }
            },
        }
    }
}

/// The code of a keyword node.
pub open spec fn encode_keyword(state: EncoderView, node: NodeView) -> Encoded
    decreases node, 0nat,
{
    let word = node.token.value;
    if !is_keyword(word) {
        Ok((state, seq![0u8]))
    } else if node.children.len() < 1 {
        Err(EncodeError::MissingChild)
    } else {
        let child = node.children[0];
        if word == "let"@ {
            match encode(state, child) {
                Err(e) => Err(e),
                Ok((after, code)) => match command_in(after.commands, "set_get"@, 0) {
                    None => Err(EncodeError::MissingCommand),
                    Some(set_get) => Ok(
                        (
                            after,
                            if code.len() > 0 {
                                code.update(0, set_get)
                            } else {
                                code
                            },
                        ),
                    ),
                },
            }
        } else if word == "function"@ {
            match command_in(state.commands, "fun_start"@, 0) {
                None => Err(EncodeError::MissingCommand),
                Some(fun_start) => if state.brackets_opened == i32::MAX {
                    Err(EncodeError::TooDeep)
                } else {
                    match encode_parameters(
                        state.commands,
                        child.children,
                        0,
                        instruction(fun_start, child.token.value),
                    ) {
                        Err(e) => Err(e),
                        Ok(code) => Ok(
                            (
                                EncoderView {
                                    functions: state.functions.insert(
                                        (state.brackets_opened + 1) as i32,
                                        child.token.value,
                                    ),
                                    ..state
                                },
                                code,
                            ),
                        ),
                    }
                },
            }
        } else if word == "if"@ {
            match encode(state, child) {
                Err(e) => Err(e),
                Ok((after, code)) => match command_in(after.commands, "if"@, 0) {
                    None => Err(EncodeError::MissingCommand),
                    Some(branch) => Ok((after, code + seq![branch, 0u8])),
                },
            }
        } else if word == "while"@ {
            match command_in(state.commands, "condition"@, 0) {
                None => Err(EncodeError::MissingCommand),
                Some(condition) => match encode(state, child) {
                    Err(e) => Err(e),
                    Ok((after, code)) => match command_in(after.commands, "while"@, 0) {
                        None => Err(EncodeError::MissingCommand),
                        Some(branch) => Ok(
                            (after, seq![condition, 0u8] + code + seq![branch, 0u8]),
                        ),
                    },
                },
            }
        } else if word == "return"@ {
            match encode(state, child) {
                Err(e) => Err(e),
                Ok((after, code)) => match command_in(after.commands, "return"@, 0) {
                    None => Err(EncodeError::MissingCommand),
                    Some(back) => Ok((after, code + seq![0u8, back, 0u8])),
                },
            }
        } else {
            match command_in(state.commands, word, 0) {
                None => Err(EncodeError::MissingCommand),
                Some(opcode) => Ok((state, instruction(opcode, child.token.value))),
            }
        }
    }
}

/// The code of a closing bracket. Where a function's body closes, the code is
/// `fun_end` with the function's name, and the count of open brackets falls
/// by two; else the code is `close`, and the count falls by one.
pub open spec fn encode_bracket_close(state: EncoderView) -> Encoded {
    if state.functions.contains_key(state.brackets_opened) {
        match command_in(state.commands, "fun_end"@, 0) {
            None => Err(EncodeError::MissingCommand),
            Some(fun_end) => if state.brackets_opened < i32::MIN + 2 {
                Err(EncodeError::TooDeep)
            } else {
                Ok(
                    (
                        EncoderView {
                            functions: state.functions.remove(state.brackets_opened),
                            brackets_opened: (state.brackets_opened - 2) as i32,
                            ..state
                        },
                        instruction(fun_end, state.functions[state.brackets_opened]),
                    ),
                )
            },
        }
    } else {
        match command_in(state.commands, "close"@, 0) {
            None => Err(EncodeError::MissingCommand),
            Some(close) => if state.brackets_opened == i32::MIN {
                Err(EncodeError::TooDeep)
            } else {
                Ok(
                    (
                        EncoderView {
                            brackets_opened: (state.brackets_opened - 1) as i32,
                            ..state
                        },
                        seq![close, 0u8],
                    ),
                )
            },
        }
    }
}

/// The code of a tree, and the encoder after it.
pub open spec fn encode(state: EncoderView, node: NodeView) -> Encoded
    decreases node, 1nat,
{
    let text = node.token.value;
    match node.token.token_type {
        TokenType::Identifier => match command_in(state.commands, "get"@, 0) {
            None => Err(EncodeError::MissingCommand),
            Some(get) => if node.invoke {
                encode_call(state, node.children, instruction(get, text))
            } else {
                Ok((state, instruction(get, text)))
            },
        },
        TokenType::NumberLiteral => match command_in(state.commands, "push_num"@, 0) {
            None => Err(EncodeError::MissingCommand),
            Some(push) => Ok((state, instruction(push, text))),
        },
        TokenType::StringLiteral => match command_in(state.commands, "push_str"@, 0) {
            None => Err(EncodeError::MissingCommand),
            Some(push) => Ok((state, instruction(push, text))),
        },
        TokenType::BooleanLiteral => match command_in(state.commands, "push_bool"@, 0) {
            None => Err(EncodeError::MissingCommand),
            Some(push) => Ok(
                (
                    state,
                    seq![
                        push,
                        if text == "true"@ {
                            49u8
                        } else {
                            48u8
                        },
                        0u8,
                    ],
                ),
            ),
        },
        TokenType::Operator => encode_operator(state, node),
        TokenType::Keyword => encode_keyword(state, node),
        TokenType::BracketOpen => if state.brackets_opened == i32::MAX {
            Err(EncodeError::TooDeep)
        } else {
            Ok(
                (
                    EncoderView { brackets_opened: (state.brackets_opened + 1) as i32, ..state },
                    seq![0u8],
                ),
            )
        },
        TokenType::BracketClose => encode_bracket_close(state),
        _ => Ok((state, seq![0u8])),
    }
}

/// The tape of the tokens from the `from`-th on, added to `code`. The tokens
/// between two `End` tokens are one statement; tokens behind the last `End`
/// make no code.
pub open spec fn compile_tokens(
    state: EncoderView,
    tokens: Seq<TokenView>,
    from: int,
    statement: Seq<TokenView>,
    code: Seq<u8>,
) -> Result<(EncoderView, Seq<u8>), CompileError>
    decreases tokens.len() - from,
{
    if from < 0 || from >= tokens.len() {
        Ok((state, code))
    } else if tokens[from].token_type != TokenType::End {
        compile_tokens(state, tokens, from + 1, statement.push(tokens[from]), code)
    } else if statement.len() == 0 {
        compile_tokens(state, tokens, from + 1, statement, code)
    } else {
        match parse_spec(rank_table(), statement) {
            Err(e) => Err(CompileError::Parse(e)),
            Ok(tree) => match encode(state, tree) {
                Err(e) => Err(CompileError::Encode(e)),
                Ok((after, more)) => compile_tokens(
                    after,
                    tokens,
                    from + 1,
                    Seq::empty(),
                    code + more,
                ),
            },
        }
    }
}

/// The tape of a source text, and the encoder after it.
pub open spec fn compile_spec(state: EncoderView, text: Seq<char>) -> Result<
    (EncoderView, Seq<u8>),
    CompileError,
> {
    compile_tokens(state, tokenize_spec(text), 0, Seq::empty(), Seq::empty())
}

/// Whether a part of the encoding left the encoder and returned what
/// `expected` says. On the way to an error the count of brackets and the
/// open functions may have changed; the command table never does.
pub open spec fn encoded_as(
    before: EncoderView,
    after: EncoderView,
    r: Result<Vec<u8>, EncodeError>,
    expected: Encoded,
) -> bool {
    &&& after.commands == before.commands
    &&& match expected {
        Ok((state, code)) => r is Ok && r->Ok_0@ == code && after == state,
        Err(e) => r == Err::<Vec<u8>, EncodeError>(e),
    }
}

/// Whether the making of code left the encoder and returned what `expected`
/// says: after an error the encoder is as it was.
pub open spec fn generated_as(
    before: EncoderView,
    after: EncoderView,
    r: Result<Vec<u8>, EncodeError>,
    expected: Encoded,
) -> bool {
    match expected {
        Ok((state, code)) => r is Ok && r->Ok_0@ == code && after == state,
        Err(e) => r == Err::<Vec<u8>, EncodeError>(e) && after == before,
    }
}

/// Appends the bytes of a text.
fn push_text(output: &mut Vec<u8>, text: &String)
    ensures
        final(output)@ == old(output)@ + bytes_of(text@),
{
    let chars = string_chars(text);
    let mut i: usize = 0;
    while i < chars.len()
        invariant
            i <= chars.len(),
            chars@ == text@,
            output@ == old(output)@ + bytes_of(text@.take(i as int)),
        decreases chars.len() - i,
    {
        output.push((((chars[i] as u32) % 256) as u8));
        i = i + 1;
        assert(output@ =~= old(output)@ + bytes_of(text@.take(i as int)));
    }
    assert(text@.take(chars.len() as int) =~= text@);
}

/// Appends an instruction with a text as its argument.
fn push_instruction(output: &mut Vec<u8>, opcode: u8, text: &String)
    ensures
        final(output)@ == old(output)@ + instruction(opcode, text@),
{
    output.push(opcode);
    push_text(output, text);
    output.push(0);
    assert(output@ =~= old(output)@ + instruction(opcode, text@));
}

impl ByteCode {
    /// The encoder of the language, with no bracket open.
    pub fn new() -> (r: ByteCode)
        ensures
            r@ == (EncoderView {
                commands: command_table(),
                brackets_opened: 0,
                functions: Map::empty(),
            }),
            commands_once(r@.commands),
    {
        proof {
            lemma_command_table_distinct();
        }
        let mut commands: Vec<(String, u8)> = Vec::new();
        commands.push((String::from_str(";"), 0));
        commands.push((String::from_str("get"), 1));
        commands.push((String::from_str("set_get"), 2));
        commands.push((String::from_str("set_get_num"), 3));
        commands.push((String::from_str("push"), 4));
        commands.push((String::from_str("push_num"), 5));
        commands.push((String::from_str("push_str"), 6));
        commands.push((String::from_str("+"), 7));
        commands.push((String::from_str("-"), 8));
        commands.push((String::from_str("*"), 9));
        commands.push((String::from_str("/"), 10));
        commands.push((String::from_str("="), 11));
        commands.push((String::from_str("call"), 21));
        commands.push((String::from_str("fun_start"), 22));
        commands.push((String::from_str("fun_end"), 23));
        commands.push((String::from_str("scope_new"), 24));
        commands.push((String::from_str("scope_end"), 25));
        commands.push((String::from_str("arg"), 26));
        commands.push((String::from_str("arg_type"), 27));
        commands.push((String::from_str("push_bool"), 28));
        commands.push((String::from_str("or"), 29));
        commands.push((String::from_str("xor"), 30));
        commands.push((String::from_str("and"), 31));
        commands.push((String::from_str("!"), 32));
        commands.push((String::from_str("if"), 33));
        commands.push((String::from_str("while"), 34));
        commands.push((String::from_str("condition"), 35));
        commands.push((String::from_str("close"), 36));
        commands.push((String::from_str("<"), 37));
        commands.push((String::from_str(">"), 38));
        commands.push((String::from_str("<="), 39));
        commands.push((String::from_str(">="), 40));
        commands.push((String::from_str("=="), 41));
        commands.push((String::from_str("!="), 42));
        commands.push((String::from_str("%"), 43));
        commands.push((String::from_str("."), 44));
        commands.push((String::from_str("class"), 45));
        commands.push((String::from_str("return"), 46));
        commands.push((String::from_str("execute"), 47));
        let r = ByteCode { commands, brackets_opened: 0, functions: HashMap::new() };
        assert(r@.commands =~= command_table());
        assert(r@.functions =~= Map::<i32, Seq<char>>::empty());
        r
    }

    /// The byte of a command.
    pub fn command(&self, name: &str) -> (r: Option<u8>)
        ensures
            r == command_in(self@.commands, name@, 0),
    {
        let key = String::from_str(name);
        let mut i: usize = 0;
        while i < self.commands.len()
            invariant
                i <= self.commands.len(),
                key@ == name@,
                command_in(self@.commands, name@, i as int) == command_in(self@.commands, name@, 0),
            decreases self.commands.len() - i,
        {
            if self.commands[i].0 == key {
                return Some(self.commands[i].1);
            }
            i = i + 1;
        }
        None
    }

    /// The table that names each opcode byte, as the engine takes it: the
    /// command table turned round. Where two commands share a byte, the one
    /// listed later names it.
    pub fn opcode_names(&self) -> (names: HashMap<u8, String>)
        ensures
            forall|b: u8|
                match #[trigger] name_of_byte(self@.commands, b, self@.commands.len() as int) {
                    Some(name) => names@.contains_key(b) && names@[b]@ == name,
                    None => !names@.contains_key(b),
                },
    {
        let mut names: HashMap<u8, String> = HashMap::new();
        let mut k: usize = 0;
        while k < self.commands.len()
            invariant
                k <= self.commands.len(),
                forall|b: u8|
                    match #[trigger] name_of_byte(self@.commands, b, k as int) {
                        Some(name) => names@.contains_key(b) && names@[b]@ == name,
                        None => !names@.contains_key(b),
                    },
            decreases self.commands.len() - k,
        {
            let ghost before = names@;
            let byte = self.commands[k].1;
            let _ = names.insert(byte, self.commands[k].0.clone());
            assert(self@.commands[k as int].1 == byte);
            assert forall|b: u8|
                match #[trigger] name_of_byte(self@.commands, b, k + 1) {
                    Some(name) => names@.contains_key(b) && names@[b]@ == name,
                    None => !names@.contains_key(b),
                } by {
                if b != byte {
                    assert(name_of_byte(self@.commands, b, k + 1) == name_of_byte(
                        self@.commands,
                        b,
                        k as int,
                    ));
                    assert(names@.contains_key(b) == before.contains_key(b));
                }
            }
            k = k + 1;
        }
        names
    }

    /// Appends the code of the parameters of a function.
    fn encode_parameters(&self, parameters: &Vec<Node>, output: &mut Vec<u8>) -> (r: Result<
        (),
        EncodeError,
    >)
        ensures
            match encode_parameters(
                self@.commands,
                nodes_view(parameters@),
                0,
                old(output)@,
            ) {
                Ok(code) => r is Ok && final(output)@ == code,
                Err(e) => r == Err::<(), EncodeError>(e),
            },
    {
        let mut i: usize = 0;
        while i < parameters.len()
            invariant
                i <= parameters.len(),
                encode_parameters(self@.commands, nodes_view(parameters@), i as int, output@)
                    == encode_parameters(
                    self@.commands,
                    nodes_view(parameters@),
                    0,
                    old(output)@,
                ),
            decreases parameters.len() - i,
        {
            let parameter = &parameters[i];
            proof {
                lemma_node_children(*parameter);
                assert(nodes_view(parameters@)[i as int] == parameter@);
            }
            if !is_text(&parameter.token.value, ":") {
                return Err(EncodeError::BadParameter);
            }
            let (arg, arg_type) = match (self.command("arg"), self.command("arg_type")) {
                (Some(arg), Some(arg_type)) => (arg, arg_type),
                _ => {
                    return Err(EncodeError::MissingCommand);
                },
            };
            if parameter.children.len() < 2 {
                return Err(EncodeError::MissingChild);
            }
            proof {
                lemma_node_children(parameter.children@[0]);
                lemma_node_children(parameter.children@[1]);
                assert(parameter@.children[0] == parameter.children@[0]@);
                assert(parameter@.children[1] == parameter.children@[1]@);
            }
            let ghost before = output@;
            push_instruction(output, arg, &parameter.children[0].token.value);
            push_instruction(output, arg_type, &parameter.children[1].token.value);
            assert(output@ =~= before + instruction(arg, parameter@.children[0].token.value)
                + instruction(arg_type, parameter@.children[1].token.value));
            i = i + 1;
        }
        Ok(())
    }

    /// Makes the code of a call: the arguments, then `call` with their count.
    fn encode_call(&mut self, arguments: &Vec<Node>, code: Vec<u8>) -> (r: Result<
        Vec<u8>,
        EncodeError,
    >)
        ensures
            encoded_as(
                old(self)@,
                final(self)@,
                r,
                encode_call(old(self)@, nodes_view(arguments@), code@),
            ),
        decreases arguments, arguments@.len() + 1,
    {
        let mut output = code;
        let mut i: usize = 0;
        while i < arguments.len()
            invariant
                i <= arguments.len(),
                self@.commands == old(self)@.commands,
                encode_arguments(self@, nodes_view(arguments@), i as int, output@)
                    == encode_arguments(old(self)@, nodes_view(arguments@), 0, code@),
            decreases arguments.len() - i,
        {
            assert(nodes_view(arguments@)[i as int] == arguments@[i as int]@);
            let ghost before = output@;
            let mut argument = match self.encode_node(&arguments[i]) {
                Ok(argument) => argument,
                Err(e) => {
                    return Err(e);
                },
            };
            let ghost made = argument@;
            output.append(&mut argument);
            output.push(0);
            assert(output@ =~= before + made + seq![0u8]);
            i = i + 1;
        }
        let call = match self.command("call") {
            Some(call) => call,
            None => {
                return Err(EncodeError::MissingCommand);
            },
        };
        let ghost listed = output@;
        output.push(call);
        output.push((arguments.len() % 256) as u8);
        output.push(0);
        assert(output@ =~= listed + seq![call, count_byte(arguments@.len()), 0u8]);
        Ok(output)
    }

    /// Makes the code of an operator node.
    fn encode_operator(&mut self, node: &Node) -> (r: Result<Vec<u8>, EncodeError>)
        ensures
            encoded_as(old(self)@, final(self)@, r, encode_operator(old(self)@, node@)),
        decreases node, 0nat,
    {
        proof {
            lemma_node_children(*node);
        }
        let sign = self.command(node.token.value.as_str());
        if node.children.len() < 1 {
            return Err(EncodeError::MissingChild);
        }
        assert(node@.children[0] == node.children@[0]@);
        let mut output = match self.encode_node(&node.children[0]) {
            Ok(code) => code,
            Err(e) => {
                return Err(e);
            },
        };
        let ghost left = output@;
        if is_text(&node.token.value, "!") {
            match sign {
                None => Err(EncodeError::MissingCommand),
                Some(not) => {
                    output.push(not);
                    output.push(0);
                    assert(output@ =~= left + seq![not, 0u8]);
                    Ok(output)
                },
            }
        } else if node.children.len() < 2 {
            Err(EncodeError::MissingChild)
        } else if is_text(&node.token.value, ".") {
            assert(node@.children[1] == node.children@[1]@);
            match sign {
                None => Err(EncodeError::MissingCommand),
                Some(point) => {
                    let member = &node.children[1];
                    proof {
                        lemma_node_children(*member);
                    }
                    push_instruction(&mut output, point, &member.token.value);
                    if member.invoke {
                        self.encode_call(&member.children, output)
                    } else {
                        Ok(output)
                    }
                },
            }
        } else {
            assert(node@.children[1] == node.children@[1]@);
            let mut right = match self.encode_node(&node.children[1]) {
                Ok(code) => code,
                Err(e) => {
                    return Err(e);
                },
            };
            let ghost made = right@;
            match sign {
                None => Err(EncodeError::MissingCommand),
                Some(operator) => {
                    output.append(&mut right);
                    output.push(operator);
                    output.push(0);
                    assert(output@ =~= left + made + seq![operator, 0u8]);
                    Ok(output)
                },
            }
        }
    }

    /// Makes the code of a keyword node.
    fn encode_keyword(&mut self, node: &Node) -> (r: Result<Vec<u8>, EncodeError>)
        ensures
            encoded_as(old(self)@, final(self)@, r, encode_keyword(old(self)@, node@)),
        decreases node, 0nat,
    {
        proof {
            lemma_node_children(*node);
            lemma_keyword_list(node.token.value@);
        }
        let word = &node.token.value;
        if !Keywords::new().contains(word) {
            let mut output: Vec<u8> = Vec::new();
            output.push(0);
            assert(output@ =~= seq![0u8]);
            return Ok(output);
        }
        if node.children.len() < 1 {
            return Err(EncodeError::MissingChild);
        }
        let child = &node.children[0];
        proof {
            lemma_node_children(*child);
            assert(node@.children[0] == child@);
        }
        if is_text(word, "let") {
            let mut output = match self.encode_node(child) {
                Ok(code) => code,
                Err(e) => {
                    return Err(e);
                },
            };
            match self.command("set_get") {
                None => Err(EncodeError::MissingCommand),
                Some(set_get) => {
                    if output.len() > 0 {
                        output.set(0, set_get);
                    }
                    Ok(output)
                },
            }
        } else if is_text(word, "function") {
            let fun_start = match self.command("fun_start") {
                Some(fun_start) => fun_start,
                None => {
                    return Err(EncodeError::MissingCommand);
                },
            };
            if self.brackets_opened == i32::MAX {
                return Err(EncodeError::TooDeep);
            }
            let mut output: Vec<u8> = Vec::new();
            push_instruction(&mut output, fun_start, &child.token.value);
            assert(output@ =~= instruction(fun_start, child@.token.value));
            match self.encode_parameters(&child.children, &mut output) {
                Ok(()) => {},
                Err(e) => {
                    return Err(e);
                },
            }
            let ghost before = self@.functions;
            let _ = self.functions.insert(self.brackets_opened + 1, child.token.value.clone());
            assert(self@.functions =~= before.insert(
                (self.brackets_opened + 1) as i32,
                child@.token.value,
            ));
            Ok(output)
        } else if is_text(word, "if") {
            let mut output = match self.encode_node(child) {
                Ok(code) => code,
                Err(e) => {
                    return Err(e);
                },
            };
            match self.command("if") {
                None => Err(EncodeError::MissingCommand),
                Some(branch) => {
                    let ghost code = output@;
                    output.push(branch);
                    output.push(0);
                    assert(output@ =~= code + seq![branch, 0u8]);
                    Ok(output)
                },
            }
        } else if is_text(word, "while") {
            let condition = match self.command("condition") {
                Some(condition) => condition,
                None => {
                    return Err(EncodeError::MissingCommand);
                },
            };
            let mut code = match self.encode_node(child) {
                Ok(code) => code,
                Err(e) => {
                    return Err(e);
                },
            };
            match self.command("while") {
                None => Err(EncodeError::MissingCommand),
                Some(branch) => {
                    let ghost guard = code@;
                    let mut output: Vec<u8> = Vec::new();
                    output.push(condition);
                    output.push(0);
                    output.append(&mut code);
                    output.push(branch);
                    output.push(0);
                    assert(output@ =~= seq![condition, 0u8] + guard + seq![branch, 0u8]);
                    Ok(output)
                },
            }
        } else if is_text(word, "return") {
            let mut output = match self.encode_node(child) {
                Ok(code) => code,
                Err(e) => {
                    return Err(e);
                },
            };
            match self.command("return") {
                None => Err(EncodeError::MissingCommand),
                Some(back) => {
                    let ghost code = output@;
                    output.push(0);
                    output.push(back);
                    output.push(0);
                    assert(output@ =~= code + seq![0u8, back, 0u8]);
                    Ok(output)
                },
            }
        } else {
            match self.command(word.as_str()) {
                None => Err(EncodeError::MissingCommand),
                Some(opcode) => {
                    let mut output: Vec<u8> = Vec::new();
                    push_instruction(&mut output, opcode, &child.token.value);
                    assert(output@ =~= instruction(opcode, child@.token.value));
                    Ok(output)
                },
            }
        }
    }

    /// Makes the code of a closing bracket.
    fn encode_bracket_close(&mut self) -> (r: Result<Vec<u8>, EncodeError>)
        ensures
            encoded_as(old(self)@, final(self)@, r, encode_bracket_close(old(self)@)),
    {
        let name = match self.functions.get(&self.brackets_opened) {
            Some(name) => Some(name.clone()),
            None => None,
        };
        match name {
            Some(name) => {
                let fun_end = match self.command("fun_end") {
                    Some(fun_end) => fun_end,
                    None => {
                        return Err(EncodeError::MissingCommand);
                    },
                };
                if self.brackets_opened < i32::MIN + 2 {
                    return Err(EncodeError::TooDeep);
                }
                let mut output: Vec<u8> = Vec::new();
                push_instruction(&mut output, fun_end, &name);
                assert(output@ =~= instruction(fun_end, name@));
                let ghost before = self@.functions;
                let _ = self.functions.remove(&self.brackets_opened);
                assert(self@.functions =~= before.remove(self.brackets_opened));
                self.brackets_opened = self.brackets_opened - 2;
                Ok(output)
            },
            None => {
                let close = match self.command("close") {
                    Some(close) => close,
                    None => {
                        return Err(EncodeError::MissingCommand);
                    },
                };
                if self.brackets_opened == i32::MIN {
                    return Err(EncodeError::TooDeep);
                }
                let mut output: Vec<u8> = Vec::new();
                output.push(close);
                output.push(0);
                assert(output@ =~= seq![close, 0u8]);
                self.brackets_opened = self.brackets_opened - 1;
                Ok(output)
            },
        }
    }

    /// Makes the code of a tree.
    fn encode_node(&mut self, node: &Node) -> (r: Result<Vec<u8>, EncodeError>)
        ensures
            encoded_as(old(self)@, final(self)@, r, encode(old(self)@, node@)),
        decreases node, 1nat,
    {
        proof {
            lemma_node_children(*node);
        }
        match node.token.token_type {
            TokenType::Identifier => {
                let get = match self.command("get") {
                    Some(get) => get,
                    None => {
                        return Err(EncodeError::MissingCommand);
                    },
                };
                let mut output: Vec<u8> = Vec::new();
                push_instruction(&mut output, get, &node.token.value);
                assert(output@ =~= instruction(get, node@.token.value));
                if node.invoke {
                    self.encode_call(&node.children, output)
                } else {
                    Ok(output)
                }
            },
            TokenType::NumberLiteral => {
                match self.command("push_num") {
                    None => Err(EncodeError::MissingCommand),
                    Some(push) => {
                        let mut output: Vec<u8> = Vec::new();
                        push_instruction(&mut output, push, &node.token.value);
                        assert(output@ =~= instruction(push, node@.token.value));
                        Ok(output)
                    },
                }
            },
            TokenType::StringLiteral => {
                match self.command("push_str") {
                    None => Err(EncodeError::MissingCommand),
                    Some(push) => {
                        let mut output: Vec<u8> = Vec::new();
                        push_instruction(&mut output, push, &node.token.value);
                        assert(output@ =~= instruction(push, node@.token.value));
                        Ok(output)
                    },
                }
            },
            TokenType::BooleanLiteral => {
                match self.command("push_bool") {
                    None => Err(EncodeError::MissingCommand),
                    Some(push) => {
                        let flag: u8 = if is_text(&node.token.value, "true") {
                            49
                        } else {
                            48
                        };
                        let mut output: Vec<u8> = Vec::new();
                        output.push(push);
                        output.push(flag);
                        output.push(0);
                        assert(output@ =~= seq![push, flag, 0u8]);
                        Ok(output)
                    },
                }
            },
            TokenType::Operator => self.encode_operator(node),
            TokenType::Keyword => self.encode_keyword(node),
            TokenType::BracketOpen => {
                if self.brackets_opened == i32::MAX {
                    return Err(EncodeError::TooDeep);
                }
                self.brackets_opened = self.brackets_opened + 1;
                let mut output: Vec<u8> = Vec::new();
                output.push(0);
                assert(output@ =~= seq![0u8]);
                Ok(output)
            },
            TokenType::BracketClose => self.encode_bracket_close(),
            _ => {
                let mut output: Vec<u8> = Vec::new();
                output.push(0);
                assert(output@ =~= seq![0u8]);
                Ok(output)
            },
        }
    }

    /// Makes the code of a tree. After an error the encoder is as it was.
    pub fn generate_bytecode(&mut self, node: Node) -> (r: Result<Vec<u8>, EncodeError>)
        ensures
            generated_as(old(self)@, final(self)@, r, encode(old(self)@, node@)),
            final(self)@.commands == old(self)@.commands,
    {
        let brackets_opened = self.brackets_opened;
        let functions = self.functions.clone();
        let r = self.encode_node(&node);
        if r.is_err() {
            self.brackets_opened = brackets_opened;
            self.functions = functions;
            assert(self@ =~= old(self)@);
        }
        r
    }
}

/// Strings the code of the statements of a text together.
fn compile_statements(code: String, bytecode: &mut ByteCode) -> (r: Result<Vec<u8>, CompileError>)
    ensures
        final(bytecode)@.commands == old(bytecode)@.commands,
        match compile_spec(old(bytecode)@, code@) {
            Ok((state, tape)) => r is Ok && r->Ok_0@ == tape && final(bytecode)@ == state,
            Err(e) => r == Err::<Vec<u8>, CompileError>(e),
        },
{
    let tokens = tokenize(code);
    let parser = Parser::new();
    let mut compiled_code: Vec<u8> = Vec::new();
    let mut tokens_to_parse: Vec<Token> = Vec::new();
    let ghost all = tokens_view(tokens@);
    let mut i: usize = 0;
    assert(tokens_view(tokens_to_parse@) =~= Seq::<TokenView>::empty());
    while i < tokens.len()
        invariant
            i <= tokens.len(),
            all == tokens_view(tokens@),
            all == tokenize_spec(code@),
            parser@ == rank_table(),
            bytecode@.commands == old(bytecode)@.commands,
            compile_tokens(
                bytecode@,
                all,
                i as int,
                tokens_view(tokens_to_parse@),
                compiled_code@,
            ) == compile_spec(old(bytecode)@, code@),
        decreases tokens.len() - i,
    {
        let token = tokens[i].clone();
        assert(token@ == all[i as int]);
        let ended = match token.token_type {
            TokenType::End => true,
            _ => false,
        };
        if ended {
            if tokens_to_parse.len() > 0 {
                let mut statement: Vec<Token> = Vec::new();
                std::mem::swap(&mut statement, &mut tokens_to_parse);
                assert(tokens_view(tokens_to_parse@) =~= Seq::<TokenView>::empty());
                let node = match parser.parse_tokens(statement) {
                    Ok(node) => node,
                    Err(e) => {
                        return Err(CompileError::Parse(e));
                    },
                };
                let mut more = match bytecode.generate_bytecode(node) {
                    Ok(more) => more,
                    Err(e) => {
                        return Err(CompileError::Encode(e));
                    },
                };
                compiled_code.append(&mut more);
            }
        } else {
            proof {
                crate::lexer::lemma_tokens_view_push(tokens_to_parse@, token);
            }
            tokens_to_parse.push(token);
        }
        i = i + 1;
    }
    Ok(compiled_code)
}

/// Makes the tape of a source text: the text is cut into tokens, the tokens
/// between two `End` tokens are built into a tree, and the code of the trees
/// is strung together. After an error the encoder is as it was.
pub fn compile(code: String, bytecode: &mut ByteCode) -> (r: Result<Vec<u8>, CompileError>)
    ensures
        match compile_spec(old(bytecode)@, code@) {
            Ok((state, tape)) => r is Ok && r->Ok_0@ == tape && final(bytecode)@ == state,
            Err(e) => r == Err::<Vec<u8>, CompileError>(e) && final(bytecode)@ == old(bytecode)@,
        },
        final(bytecode)@.commands == old(bytecode)@.commands,
{
    let brackets_opened = bytecode.brackets_opened;
    let functions = bytecode.functions.clone();
    let r = compile_statements(code, bytecode);
    if r.is_err() {
        bytecode.brackets_opened = brackets_opened;
        bytecode.functions = functions;
        assert(bytecode@ =~= old(bytecode)@);
    }
    r
}

} // verus!
