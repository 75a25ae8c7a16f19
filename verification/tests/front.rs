use yapko::bytecode::{compile, ByteCode, CompileError, EncodeError};
use yapko::lexer::{
    classify_char, classify_text, generate_token_from_string, token_of_word, tokenize,
    tokenize_classified, Classified, Keywords, Token, TokenType,
};
use yapko::parser::{Node, ParseError, Parser};

fn kinds_and_texts(tokens: &[Token]) -> Vec<(TokenType, &str)> {
    tokens.iter().map(|t| (t.token_type, t.value.as_str())).collect()
}

fn token(token_type: TokenType, value: &str) -> Token {
    Token { token_type, value: String::from(value) }
}

fn word(value: &str) -> Token {
    generate_token_from_string(String::from(value))
}

fn operator(value: &str) -> Token {
    token(TokenType::Operator, value)
}

fn leaf(t: Token) -> Node {
    Node { token: t, children: Vec::new(), invoke: false }
}

/// A tree written out: the token's text, `!` if invoked, the children.
fn show(node: &Node) -> String {
    let mut text = node.token.value.clone();
    if node.invoke {
        text.push('!');
    }
    if !node.children.is_empty() {
        let children: Vec<String> = node.children.iter().map(show).collect();
        text.push('[');
        text.push_str(&children.join(" "));
        text.push(']');
    }
    text
}

fn parse(source: &str) -> Result<String, ParseError> {
    let mut tokens = tokenize(format!("{}\n", source));
    tokens.pop();
    Parser::new().parse_tokens(tokens).map(|tree| show(&tree))
}

fn instruction(opcode: u8, text: &str) -> Vec<u8> {
    let mut code = vec![opcode];
    code.extend_from_slice(text.as_bytes());
    code.push(0);
    code
}

#[test]
fn keywords_are_listed() {
    let keywords = Keywords::new();
    assert_eq!(keywords.list, vec!["let", "function", "return", "if", "while", "class", "execute"]);
    assert!(keywords.contains(&String::from("while")));
    assert!(!keywords.contains(&String::from("for")));
}

#[test]
fn words_are_classified() {
    let kind = |text: &str| word(text).token_type;
    assert_eq!(kind("while"), TokenType::Keyword);
    assert_eq!(kind("true"), TokenType::BooleanLiteral);
    assert_eq!(kind("false"), TokenType::BooleanLiteral);
    assert_eq!(kind("xor"), TokenType::Operator);
    assert_eq!(kind("and"), TokenType::Operator);
    assert_eq!(kind("abc"), TokenType::Identifier);
    assert_eq!(kind("a1"), TokenType::Identifier);
    assert_eq!(kind("12"), TokenType::NumberLiteral);
    assert_eq!(kind("1.5"), TokenType::NumberLiteral);
    assert_eq!(kind("."), TokenType::NumberLiteral);
    assert_eq!(kind("\u{661}\u{662}"), TokenType::NumberLiteral);
    assert_eq!(kind("\u{e9}t\u{e9}"), TokenType::Identifier);
    assert_eq!(kind(""), TokenType::NONE);
    assert_eq!(kind("_x"), TokenType::NONE);
    assert_eq!(kind("1a"), TokenType::NONE);
    assert_eq!(word("abc").value, "abc");
    assert_eq!(word("_x").value, "");
}

#[test]
fn a_statement_is_cut_into_tokens() {
    let tokens = tokenize(String::from("let x = 5\n"));
    assert_eq!(
        kinds_and_texts(&tokens),
        vec![
            (TokenType::Keyword, "let"),
            (TokenType::Identifier, "x"),
            (TokenType::Operator, "="),
            (TokenType::NumberLiteral, "5"),
            (TokenType::End, "\n"),
        ]
    );
}

#[test]
fn symbols_end_the_word_before_them() {
    let tokens = tokenize(String::from("\nf(a+b);"));
    assert_eq!(
        kinds_and_texts(&tokens),
        vec![
            (TokenType::End, "\n"),
            (TokenType::Identifier, "f"),
            (TokenType::ParenOpen, "("),
            (TokenType::Identifier, "a"),
            (TokenType::Operator, "+"),
            (TokenType::Identifier, "b"),
            (TokenType::ParenClose, ")"),
            (TokenType::End, ";"),
        ]
    );
}

#[test]
fn tokens_come_out_in_the_order_of_the_text() {
    assert_eq!(
        kinds_and_texts(&tokenize(String::from("x=1\n"))),
        vec![
            (TokenType::Identifier, "x"),
            (TokenType::Operator, "="),
            (TokenType::NumberLiteral, "1"),
            (TokenType::End, "\n"),
        ]
    );
    assert_eq!(
        kinds_and_texts(&tokenize(String::from("x = 1\n"))),
        kinds_and_texts(&tokenize(String::from("x=1\n")))
    );
    assert_eq!(
        kinds_and_texts(&tokenize(String::from("a;"))),
        vec![(TokenType::Identifier, "a"), (TokenType::End, ";")]
    );
    assert_eq!(
        kinds_and_texts(&tokenize(String::from("a b;"))),
        vec![(TokenType::Identifier, "a"), (TokenType::Identifier, "b"), (TokenType::End, ";")]
    );
    assert_eq!(
        kinds_and_texts(&tokenize(String::from("printLine(\"B\")\n"))),
        vec![
            (TokenType::Identifier, "printLine"),
            (TokenType::ParenOpen, "("),
            (TokenType::StringLiteral, "B"),
            (TokenType::ParenClose, ")"),
            (TokenType::End, "\n"),
        ]
    );
    // The word goes before both tokens that an opening bracket makes.
    assert_eq!(
        kinds_and_texts(&tokenize(String::from("while x{"))),
        vec![
            (TokenType::Keyword, "while"),
            (TokenType::Identifier, "x"),
            (TokenType::End, "\n"),
            (TokenType::BracketOpen, "{"),
        ]
    );
    // A quotation mark ends a word too.
    assert_eq!(
        kinds_and_texts(&tokenize(String::from("a\"b\"c "))),
        vec![
            (TokenType::Identifier, "a"),
            (TokenType::StringLiteral, "b"),
            (TokenType::Identifier, "c"),
        ]
    );
    assert_eq!(
        kinds_and_texts(&tokenize(String::from("a.b.1.5 "))),
        vec![
            (TokenType::Identifier, "a"),
            (TokenType::Operator, "."),
            (TokenType::Identifier, "b"),
            (TokenType::Operator, "."),
            (TokenType::NumberLiteral, "1.5"),
        ]
    );
}

fn plain(c: char) -> Classified {
    Classified { character: c, whitespace: false, numeric: false, alphabetic: false }
}

fn letter(c: char) -> Classified {
    Classified { character: c, whitespace: false, numeric: false, alphabetic: true }
}

fn digit(c: char) -> Classified {
    Classified { character: c, whitespace: false, numeric: true, alphabetic: false }
}

fn blank(c: char) -> Classified {
    Classified { character: c, whitespace: true, numeric: false, alphabetic: false }
}

#[test]
fn the_tokenizer_goes_by_the_classes_it_is_given() {
    let chars = vec![letter('x'), plain('='), digit('1'), blank('\n')];
    assert_eq!(
        kinds_and_texts(&tokenize_classified(&chars)),
        vec![
            (TokenType::Identifier, "x"),
            (TokenType::Operator, "="),
            (TokenType::NumberLiteral, "1"),
            (TokenType::End, "\n"),
        ]
    );
    // Under other classes the same characters make other tokens: `x` as a
    // digit and `_` as whitespace.
    let chars = vec![digit('x'), digit('1'), blank('_'), plain('a'), letter('b'), blank('_')];
    assert_eq!(
        kinds_and_texts(&tokenize_classified(&chars)),
        vec![(TokenType::NumberLiteral, "x1")]
    );
    // A point behind a number belongs to it, behind anything else it is an
    // operator.
    let chars = vec![digit('1'), plain('.'), digit('5'), plain(';'), letter('a'), plain('.'), plain(';')];
    assert_eq!(
        kinds_and_texts(&tokenize_classified(&chars)),
        vec![
            (TokenType::NumberLiteral, "1.5"),
            (TokenType::End, ";"),
            (TokenType::Identifier, "a"),
            (TokenType::Operator, "."),
            (TokenType::End, ";"),
        ]
    );
    assert!(tokenize_classified(&Vec::new()).is_empty());
}

#[test]
fn a_word_is_classified_by_the_classes_it_is_given() {
    let kind = |word: &[Classified]| token_of_word(&word.to_vec()).token_type;
    assert_eq!(kind(&[letter('i'), letter('f')]), TokenType::Keyword);
    assert_eq!(kind(&[letter('i'), plain('f')]), TokenType::Keyword);
    assert_eq!(kind(&[plain('i'), letter('f')]), TokenType::NONE);
    assert_eq!(kind(&[letter('o'), letter('r')]), TokenType::Operator);
    assert_eq!(kind(&[letter('t'), letter('r'), letter('u'), letter('e')]), TokenType::BooleanLiteral);
    assert_eq!(kind(&[letter('a'), digit('1')]), TokenType::Identifier);
    assert_eq!(kind(&[digit('1'), letter('a')]), TokenType::NONE);
    assert_eq!(kind(&[digit('1'), plain('.'), digit('2')]), TokenType::NumberLiteral);
    assert_eq!(kind(&[plain('.')]), TokenType::NumberLiteral);
    assert_eq!(kind(&[]), TokenType::NONE);
    let token = token_of_word(&vec![letter('a'), digit('1')]);
    assert_eq!(token.value, "a1");
    assert_eq!(token_of_word(&vec![plain('a')]).value, "");
    // The classes of `std`.
    assert_eq!(classify_char('a'), letter('a'));
    assert_eq!(classify_char('7'), digit('7'));
    assert_eq!(classify_char(' '), blank(' '));
    assert_eq!(classify_char('='), plain('='));
    assert_eq!(classify_text(&String::from("a 7")), vec![letter('a'), blank(' '), digit('7')]);
}

#[test]
fn an_opening_bracket_ends_the_statement_first() {
    let tokens = tokenize(String::from("if x {\n}\n"));
    assert_eq!(
        kinds_and_texts(&tokens),
        vec![
            (TokenType::Keyword, "if"),
            (TokenType::Identifier, "x"),
            (TokenType::End, "\n"),
            (TokenType::BracketOpen, "{"),
            (TokenType::End, "\n"),
            (TokenType::BracketClose, "}"),
            (TokenType::End, "\n"),
        ]
    );
}

#[test]
fn string_literals_keep_their_text() {
    let tokens = tokenize(String::from("\nprint(\"a b; {c}\")\n"));
    assert_eq!(
        kinds_and_texts(&tokens),
        vec![
            (TokenType::End, "\n"),
            (TokenType::Identifier, "print"),
            (TokenType::ParenOpen, "("),
            (TokenType::StringLiteral, "a b; {c}"),
            (TokenType::ParenClose, ")"),
            (TokenType::End, "\n"),
        ]
    );
    // A literal that is never closed makes no token.
    assert_eq!(
        kinds_and_texts(&tokenize(String::from("\nx \"open\n"))),
        vec![(TokenType::End, "\n"), (TokenType::Identifier, "x")]
    );
}

#[test]
fn a_point_belongs_to_a_number_or_is_an_operator() {
    assert_eq!(
        kinds_and_texts(&tokenize(String::from("\n1.5 a.b\n"))),
        vec![
            (TokenType::End, "\n"),
            (TokenType::NumberLiteral, "1.5"),
            (TokenType::Identifier, "a"),
            (TokenType::Operator, "."),
            (TokenType::Identifier, "b"),
            (TokenType::End, "\n"),
        ]
    );
}

#[test]
fn whitespace_of_any_kind_ends_a_word() {
    assert_eq!(
        kinds_and_texts(&tokenize(String::from("a\tb\u{a0}c\u{2003}d \n"))),
        vec![
            (TokenType::Identifier, "a"),
            (TokenType::Identifier, "b"),
            (TokenType::Identifier, "c"),
            (TokenType::Identifier, "d"),
            (TokenType::End, "\n"),
        ]
    );
}

#[test]
fn a_word_open_at_the_end_is_dropped() {
    assert_eq!(kinds_and_texts(&tokenize(String::from("let x"))), vec![(TokenType::Keyword, "let")]);
    assert!(tokenize(String::new()).is_empty());
}

#[test]
fn operators_take_their_operands_by_rank() {
    assert_eq!(parse("a + b * c").unwrap(), "+[a *[b c]]");
    assert_eq!(parse("a * b + c").unwrap(), "+[*[a b] c]");
    assert_eq!(parse("x = a + 1").unwrap(), "=[x +[a 1]]");
    assert_eq!(parse("a - b - c").unwrap(), "-[-[a b] c]");
    assert_eq!(parse("i + 1 < 3").unwrap(), "+[i <[1 3]]");
    assert_eq!(parse("a and b or c").unwrap(), "and[a or[b c]]");
    assert_eq!(parse("a . b + c").unwrap(), "+[.[a b] c]");
    assert_eq!(parse("! a").unwrap(), "![a]");
    assert_eq!(parse("a and ! b").unwrap(), "and[a ![b]]");
}

#[test]
fn parentheses_group_or_invoke() {
    assert_eq!(parse("(a + b) * c").unwrap(), "*[+[a b] c]");
    assert_eq!(parse("f(x)").unwrap(), "f![x]");
    assert_eq!(parse("f()").unwrap(), "f!");
    assert_eq!(parse("f(a + b)").unwrap(), "f![+[a b]]");
    assert_eq!(parse("f(g(x))").unwrap(), "f![g![x]]");
    assert_eq!(parse("a . f(1)").unwrap(), ".[a f![1]]");
    assert_eq!(parse("1 + (2)").unwrap(), "+[1 2]");
}

#[test]
fn keywords_take_the_node_behind_them() {
    assert_eq!(parse("let x = 1").unwrap(), "let[=[x 1]]");
    assert_eq!(parse("while i < 3").unwrap(), "while[<[i 3]]");
    assert_eq!(parse("function f(a: Int)").unwrap(), "function[f![:[a Int]]]");
    assert_eq!(parse("return x").unwrap(), "return[x]");
    assert_eq!(parse("class Point").unwrap(), "class[Point]");
}

#[test]
fn only_the_first_node_left_is_the_tree() {
    assert_eq!(parse("a b c").unwrap(), "a");
}

#[test]
fn runs_of_tokens_without_a_tree_are_errors() {
    let parser = Parser::new();
    assert_eq!(parser.parse_tokens(Vec::new()).err(), Some(ParseError::Empty));
    assert_eq!(parser.parse_tokens(vec![operator("+")]).err(), Some(ParseError::MissingOperand));
    assert_eq!(parse("+ a"), Err(ParseError::MissingOperand));
    assert_eq!(parse("a +"), Err(ParseError::MissingOperand));
    assert_eq!(parse("!"), Err(ParseError::MissingOperand));
    assert_eq!(parse("let"), Err(ParseError::MissingOperand));
    assert_eq!(parse("f(+)"), Err(ParseError::MissingOperand));
    assert_eq!(parse("()"), Err(ParseError::Empty));
    assert_eq!(
        parser.parse_tokens(vec![word("a"), operator("%"), word("b")]).err(),
        Some(ParseError::UnknownOperator)
    );
}

#[test]
fn operator_ranks_are_looked_up() {
    let parser = Parser::new();
    assert_eq!(parser.rank(&String::from("=")), Some(0));
    assert_eq!(parser.rank(&String::from("*")), Some(3));
    assert_eq!(parser.rank(&String::from("!")), Some(9));
    assert_eq!(parser.rank(&String::from(".")), Some(16));
    assert_eq!(parser.rank(&String::from("%")), None);
}

#[test]
fn nodes_clone_deeply() {
    let tokens = vec![word("a"), operator("+"), word("b")];
    let tree = Parser::new().parse_tokens(tokens).unwrap();
    let mut copy = tree.clone();
    copy.children[0].token.value = String::from("z");
    assert_eq!(show(&tree), "+[a b]");
    assert_eq!(show(&copy), "+[z b]");
}

#[test]
fn the_command_table_gives_each_command_its_byte() {
    let bytecode = ByteCode::new();
    assert_eq!(bytecode.commands.len(), 39);
    assert_eq!(bytecode.brackets_opened, 0);
    assert!(bytecode.functions.is_empty());
    assert_eq!(bytecode.command(";"), Some(0));
    assert_eq!(bytecode.command("get"), Some(1));
    assert_eq!(bytecode.command("="), Some(11));
    assert_eq!(bytecode.command("call"), Some(21));
    assert_eq!(bytecode.command("scope_new"), Some(24));
    assert_eq!(bytecode.command("scope_end"), Some(25));
    assert_eq!(bytecode.command("execute"), Some(47));
    assert_eq!(bytecode.command("jump"), None);
    let names = bytecode.opcode_names();
    assert_eq!(names.len(), 39);
    assert_eq!(names[&24], "scope_new");
    assert_eq!(names[&43], "%");
    assert!(!names.contains_key(&12));
}

#[test]
fn a_later_command_names_a_shared_byte() {
    let mut bytecode = ByteCode::new();
    bytecode.commands.push((String::from("fetch"), 1));
    let names = bytecode.opcode_names();
    assert_eq!(names.len(), 39);
    assert_eq!(names[&1], "fetch");
    assert_eq!(bytecode.command("fetch"), Some(1));
}

#[test]
fn literals_and_names_are_encoded() {
    let mut bytecode = ByteCode::new();
    assert_eq!(bytecode.generate_bytecode(leaf(word("x"))), Ok(instruction(1, "x")));
    assert_eq!(bytecode.generate_bytecode(leaf(word("12"))), Ok(instruction(5, "12")));
    assert_eq!(
        bytecode.generate_bytecode(leaf(token(TokenType::StringLiteral, "hi"))),
        Ok(instruction(6, "hi"))
    );
    assert_eq!(bytecode.generate_bytecode(leaf(word("true"))), Ok(vec![28, b'1', 0]));
    assert_eq!(bytecode.generate_bytecode(leaf(word("false"))), Ok(vec![28, b'0', 0]));
    assert_eq!(bytecode.generate_bytecode(leaf(token(TokenType::End, "\n"))), Ok(vec![0]));
    assert_eq!(bytecode.generate_bytecode(leaf(token(TokenType::ParenOpen, "("))), Ok(vec![0]));
    // A character beyond eight bits is cut to its low byte.
    assert_eq!(
        bytecode.generate_bytecode(leaf(token(TokenType::StringLiteral, "\u{e9}\u{141}"))),
        Ok(vec![6, 0xe9, 0x41, 0])
    );
}

#[test]
fn statements_are_encoded() {
    let code = |source: &str| {
        let mut bytecode = ByteCode::new();
        compile(format!("\n{}\n", source), &mut bytecode)
    };
    let mut expected = instruction(2, "x");
    expected.extend(instruction(5, "5"));
    expected.extend([11, 0]);
    assert_eq!(code("let x = 5"), Ok(expected));

    let mut expected = instruction(1, "f");
    expected.extend(instruction(1, "a"));
    expected.extend([0, 21, 1, 0]);
    assert_eq!(code("f(a)"), Ok(expected));

    let mut expected = instruction(1, "f");
    expected.extend([21, 0, 0]);
    assert_eq!(code("f()"), Ok(expected));

    let mut expected = instruction(1, "a");
    expected.extend(instruction(44, "m"));
    expected.extend(instruction(5, "1"));
    expected.extend([0, 21, 1, 0]);
    assert_eq!(code("a.m(1)"), Ok(expected));

    let mut expected = instruction(1, "a");
    expected.extend(instruction(44, "x"));
    assert_eq!(code("a.x"), Ok(expected));

    let mut expected = vec![28, b'1', 0];
    expected.extend([32, 0]);
    assert_eq!(code("!true"), Ok(expected));

    let mut expected = vec![35, 0];
    expected.extend(instruction(1, "i"));
    expected.extend(instruction(5, "3"));
    expected.extend([37, 0, 34, 0]);
    assert_eq!(code("while i < 3"), Ok(expected));

    let mut expected = instruction(1, "c");
    expected.extend([33, 0]);
    assert_eq!(code("if c"), Ok(expected));

    let mut expected = instruction(1, "x");
    expected.extend([0, 46, 0]);
    assert_eq!(code("return x"), Ok(expected));

    assert_eq!(code("class Point"), Ok(instruction(45, "Point")));
    assert_eq!(code("execute file"), Ok(instruction(47, "file")));
}

#[test]
fn brackets_close_functions_and_blocks() {
    let mut bytecode = ByteCode::new();
    let tape = compile(String::from("function f(a: Int) {\n}\nif c {\n}\n"), &mut bytecode).unwrap();
    let mut expected = instruction(22, "f");
    expected.extend(instruction(26, "a"));
    expected.extend(instruction(27, "Int"));
    expected.push(0);
    expected.extend(instruction(23, "f"));
    expected.extend(instruction(1, "c"));
    expected.extend([33, 0, 0, 36, 0]);
    assert_eq!(tape, expected);
    // The close of a function's body lowers the count by two, that of a
    // block by one: 1, -1, 0, -1.
    assert_eq!(bytecode.brackets_opened, -1);
    assert!(bytecode.functions.is_empty());
}

#[test]
fn trees_that_lack_a_part_are_errors() {
    let mut bytecode = ByteCode::new();
    assert_eq!(bytecode.generate_bytecode(leaf(operator("+"))), Err(EncodeError::MissingChild));
    assert_eq!(bytecode.generate_bytecode(leaf(word("let"))), Err(EncodeError::MissingChild));
    let mut one = leaf(operator("+"));
    one.children.push(leaf(word("a")));
    assert_eq!(bytecode.generate_bytecode(one), Err(EncodeError::MissingChild));
    let mut unknown = leaf(operator("%%"));
    unknown.children.push(leaf(word("a")));
    unknown.children.push(leaf(word("b")));
    assert_eq!(bytecode.generate_bytecode(unknown), Err(EncodeError::MissingCommand));
    // function f(a): the parameter is no colon
    let mut name = leaf(word("f"));
    name.children.push(leaf(word("a")));
    let mut function = leaf(word("function"));
    function.children.push(name);
    assert_eq!(bytecode.generate_bytecode(function), Err(EncodeError::BadParameter));
    bytecode.commands.clear();
    assert_eq!(bytecode.generate_bytecode(leaf(word("x"))), Err(EncodeError::MissingCommand));
    bytecode.brackets_opened = i32::MAX;
    assert_eq!(
        bytecode.generate_bytecode(leaf(token(TokenType::BracketOpen, "{"))),
        Err(EncodeError::TooDeep)
    );
}

#[test]
fn a_word_marked_as_keyword_that_is_none_makes_padding() {
    let mut bytecode = ByteCode::new();
    assert_eq!(bytecode.generate_bytecode(leaf(token(TokenType::Keyword, "until"))), Ok(vec![0]));
}

#[test]
fn compile_reports_where_it_failed() {
    let mut bytecode = ByteCode::new();
    assert_eq!(
        compile(String::from("\nx = \n"), &mut bytecode),
        Err(CompileError::Parse(ParseError::MissingOperand))
    );
    let mut bytecode = ByteCode::new();
    assert_eq!(
        compile(String::from("function f(a) {\n"), &mut bytecode),
        Err(CompileError::Encode(EncodeError::BadParameter))
    );
    // Tokens behind the last end of a statement make no code.
    let mut bytecode = ByteCode::new();
    assert_eq!(compile(String::from("let x = 1"), &mut bytecode), Ok(Vec::new()));
}

#[test]
fn a_failed_compile_leaves_the_encoder_as_it_was() {
    let mut bytecode = ByteCode::new();
    // Two brackets open and a function is noted before the statement that
    // makes no tree.
    let result = compile(String::from("{\nfunction f() {\nx = \n"), &mut bytecode);
    assert_eq!(result, Err(CompileError::Parse(ParseError::MissingOperand)));
    assert_eq!(bytecode.brackets_opened, 0);
    assert!(bytecode.functions.is_empty());
    assert_eq!(bytecode.commands.len(), 39);
    // The same text without the broken statement leaves its marks.
    assert!(compile(String::from("{\nfunction f() {\n"), &mut bytecode).is_ok());
    assert_eq!(bytecode.brackets_opened, 2);
    assert_eq!(bytecode.functions.get(&2).map(|name| name.as_str()), Some("f"));
}

#[test]
fn a_failed_encoding_leaves_the_encoder_as_it_was() {
    let mut bytecode = ByteCode::new();
    // f({, %%): the bracket is counted before the unknown operator fails.
    let mut call = leaf(word("f"));
    call.invoke = true;
    call.children.push(leaf(token(TokenType::BracketOpen, "{")));
    let mut unknown = leaf(operator("%%"));
    unknown.children.push(leaf(word("a")));
    unknown.children.push(leaf(word("b")));
    call.children.push(unknown);
    assert_eq!(bytecode.generate_bytecode(call), Err(EncodeError::MissingCommand));
    assert_eq!(bytecode.brackets_opened, 0);
}

#[test]
fn a_tree_is_written_out_with_its_depth() {
    let tokens = vec![word("x"), operator("="), word("a"), operator("+"), word("1")];
    let tree = Parser::new().parse_tokens(tokens).unwrap();
    assert_eq!(tree.print(0), "=\n x\n +\n  a\n  1\n");
    assert_eq!(tree.print(2), "  =\n   x\n   +\n    a\n    1\n");
    assert_eq!(tree.print(-1), "=\nx\n+\n a\n 1\n");
    assert_eq!(tree.print(-3), "=\nx\n+\na\n1\n");
    assert_eq!(leaf(word("x")).print(1), " x\n");
}

#[test]
fn every_name_is_listed_once() {
    let bytecode = ByteCode::new();
    for (i, first) in bytecode.commands.iter().enumerate() {
        for second in &bytecode.commands[i + 1..] {
            assert_ne!(first.0, second.0);
            assert_ne!(first.1, second.1);
        }
    }
    let keywords = Keywords::new();
    for (i, first) in keywords.list.iter().enumerate() {
        assert!(!keywords.list[i + 1..].contains(first));
    }
}
