//! The tokenizer: it turns source text into a flat sequence of tokens.
//!
//! The text is read character by character, and the tokens come out in the
//! order of the text. Symbols are tokens of their own; what stands between
//! them gathers in a word, which becomes a token when whitespace or a symbol
//! ends it, before the tokens of that symbol. A word still open at the end of
//! the text is dropped, and so is a string literal that is never closed.
//!
//! Which characters are whitespace, numeric or alphabetic is for `std` to
//! say. The tokenizer proper works on characters that come with these
//! answers, so that all it does is stated over given values.

use crate::text::is_text;
use crate::text::{
    char_is_alphabetic, char_is_numeric, char_is_whitespace, is_alphabetic, is_numeric,
    is_whitespace, string_chars, string_from_chars,
};
use vstd::prelude::*;

verus! {

/// The kind of a token.
#[derive(Clone, Copy, Debug, PartialEq, Eq, Structural)]
pub enum TokenType {
    Identifier,
    NumberLiteral,
    StringLiteral,
    BooleanLiteral,
    Operator,
    ParenOpen,
    ParenClose,
    BracketOpen,
    BracketClose,
    End,
    Keyword,
    NONE,
}

/// A token: its kind and its text.
#[derive(Debug)]
pub struct Token {
    pub token_type: TokenType,
    pub value: String,
}

/// The mathematical content of a [`Token`].
#[verifier::ext_equal]
pub struct TokenView {
    pub token_type: TokenType,
    pub value: Seq<char>,
}

impl View for Token {
    type V = TokenView;

    open spec fn view(&self) -> TokenView {
        TokenView { token_type: self.token_type, value: self.value@ }
    }
}

impl Clone for Token {
    /// A copy with the same content.
    fn clone(&self) -> (r: Self)
        ensures
            r@ == self@,
    {
        Token { token_type: self.token_type, value: self.value.clone() }
    }
}

/// The content of a run of tokens.
pub open spec fn tokens_view(tokens: Seq<Token>) -> Seq<TokenView> {
    Seq::new(tokens.len(), |i: int| tokens[i]@)
}

/// Whether a word is one of the keywords of the language.
pub open spec fn is_keyword(word: Seq<char>) -> bool {
    word == "let"@ || word == "function"@ || word == "return"@ || word == "if"@ || word
        == "while"@ || word == "class"@ || word == "execute"@
}

/// The keywords of the language, in the order in which they are listed.
pub open spec fn keyword_list() -> Seq<Seq<char>> {
    seq!["let"@, "function"@, "return"@, "if"@, "while"@, "class"@, "execute"@]
}

/// The content of a list of words.
pub open spec fn words_view(words: Seq<String>) -> Seq<Seq<char>> {
    Seq::new(words.len(), |i: int| words[i]@)
}

/// The keywords of the language.
#[derive(Debug)]
pub struct Keywords {
    pub list: Vec<String>,
}

impl View for Keywords {
    type V = Seq<Seq<char>>;

    open spec fn view(&self) -> Seq<Seq<char>> {
        words_view(self.list@)
    }
}

impl Keywords {
    /// The list of the keywords: `let`, `function`, `return`, `if`, `while`,
    /// `class`, `execute`.
    pub fn new() -> (r: Keywords)
        ensures
            r@ == keyword_list(),
            r@.no_duplicates(),
    {
        proof {
            lemma_keywords_distinct();
        }
        let mut list: Vec<String> = Vec::new();
        list.push(String::from_str("let"));
        list.push(String::from_str("function"));
        list.push(String::from_str("return"));
        list.push(String::from_str("if"));
        list.push(String::from_str("while"));
        list.push(String::from_str("class"));
        list.push(String::from_str("execute"));
        let r = Keywords { list };
        assert(r@ =~= keyword_list());
        r
    }

    /// Whether the list holds the word.
    pub fn contains(&self, word: &String) -> (r: bool)
        ensures
            r == self@.contains(word@),
    {
        let mut i: usize = 0;
        while i < self.list.len()
            invariant
                i <= self.list.len(),
                forall|k: int| 0 <= k < i ==> (#[trigger] self@[k]) != word@,
            decreases self.list.len() - i,
        {
            if self.list[i] == *word {
                assert(self@[i as int] == word@);
                return true;
            }
            i = i + 1;
        }
        false
    }
}

/// The list of keywords holds exactly the keywords.
pub proof fn lemma_keyword_list(word: Seq<char>)
    ensures
        keyword_list().contains(word) == is_keyword(word),
{
    let list = keyword_list();
    if is_keyword(word) {
        if word == "let"@ {
            assert(list[0] == word);
        } else if word == "function"@ {
            assert(list[1] == word);
        } else if word == "return"@ {
            assert(list[2] == word);
        } else if word == "if"@ {
            assert(list[3] == word);
        } else if word == "while"@ {
            assert(list[4] == word);
        } else if word == "class"@ {
            assert(list[5] == word);
        } else {
            assert(list[6] == word);
        }
    }
}

/// No keyword is listed twice.
pub proof fn lemma_keywords_distinct()
    ensures
        keyword_list().no_duplicates(),
{
    reveal_strlit("let");
    reveal_strlit("function");
    reveal_strlit("return");
    reveal_strlit("if");
    reveal_strlit("while");
    reveal_strlit("class");
    reveal_strlit("execute");
    assert("let"@.len() == 3);
    assert("function"@.len() == 8);
    assert("return"@.len() == 6);
    assert("if"@.len() == 2);
    assert("while"@.len() == 5 && "while"@[0] == 'w');
    assert("class"@.len() == 5 && "class"@[0] == 'c');
    assert("execute"@.len() == 7);
    let list = keyword_list();
    assert(list[0] == "let"@ && list[1] == "function"@ && list[2] == "return"@ && list[3]
        == "if"@ && list[4] == "while"@ && list[5] == "class"@ && list[6] == "execute"@);
}

/// A character with its classes: whether it is whitespace, numeric,
/// alphabetic.
#[derive(Clone, Copy, Debug, PartialEq, Eq, Structural)]
pub struct Classified {
    pub character: char,
    pub whitespace: bool,
    pub numeric: bool,
    pub alphabetic: bool,
}

/// A character with the classes that `std` gives it.
pub open spec fn classified(c: char) -> Classified {
    Classified {
        character: c,
        whitespace: char_is_whitespace(c),
        numeric: char_is_numeric(c),
        alphabetic: char_is_alphabetic(c),
    }
}

/// The characters of a text with the classes that `std` gives them.
pub open spec fn classified_text(text: Seq<char>) -> Seq<Classified> {
    Seq::new(text.len(), |i: int| classified(text[i]))
}

/// The text of a run of characters.
pub open spec fn word_text(word: Seq<Classified>) -> Seq<char> {
    Seq::new(word.len(), |i: int| word[i].character)
}

/// Whether every character of a word is numeric.
pub open spec fn all_numeric(word: Seq<Classified>) -> bool {
    forall|i: int| 0 <= i < word.len() ==> (#[trigger] word[i]).numeric
}

/// Whether every character of a word is numeric or a point.
pub open spec fn all_numeric_or_point(word: Seq<Classified>) -> bool {
    forall|i: int| 0 <= i < word.len() ==> (#[trigger] word[i]).numeric || word[i].character == '.'
}

/// The token that a word makes. A word of numeric characters and points is a
/// number. A word that begins with a letter is a keyword, a boolean, one of
/// the operators `and`, `or`, `xor`, or else an identifier. Every other
/// word, the empty one too, makes no token: the result has the kind `NONE`
/// and no text.
pub open spec fn classify(word: Seq<Classified>) -> TokenView {
    let text = word_text(word);
    if word.len() > 0 && all_numeric_or_point(word) {
        TokenView { token_type: TokenType::NumberLiteral, value: text }
    } else if word.len() > 0 && word[0].alphabetic {
        if is_keyword(text) {
            TokenView { token_type: TokenType::Keyword, value: text }
        } else if text == "true"@ || text == "false"@ {
            TokenView { token_type: TokenType::BooleanLiteral, value: text }
        } else if text == "and"@ || text == "or"@ || text == "xor"@ {
            TokenView { token_type: TokenType::Operator, value: text }
        } else {
            TokenView { token_type: TokenType::Identifier, value: text }
        }
    } else {
        TokenView { token_type: TokenType::NONE, value: Seq::empty() }
    }
}

/// Finds the classes of a character.
pub fn classify_char(c: char) -> (r: Classified)
    ensures
        r == classified(c),
{
    Classified {
        character: c,
        whitespace: is_whitespace(c),
        numeric: is_numeric(c),
        alphabetic: is_alphabetic(c),
    }
}

/// Finds the classes of the characters of a text.
pub fn classify_text(text: &String) -> (r: Vec<Classified>)
    ensures
        r@ == classified_text(text@),
{
    let chars = string_chars(text);
    let mut out: Vec<Classified> = Vec::new();
    let mut i: usize = 0;
    while i < chars.len()
        invariant
            i <= chars.len(),
            chars@ == text@,
            out@.len() == i,
            forall|k: int| 0 <= k < i ==> out@[k] == classified(text@[k]),
        decreases chars.len() - i,
    {
        out.push(classify_char(chars[i]));
        i = i + 1;
    }
    assert(out@ =~= classified_text(text@));
    out
}

/// Whether every character of a word is numeric or, if `points` is set,
/// a point.
fn check_all_numeric(word: &Vec<Classified>, points: bool) -> (r: bool)
    ensures
        points ==> r == all_numeric_or_point(word@),
        !points ==> r == all_numeric(word@),
{
    let mut i: usize = 0;
    while i < word.len()
        invariant
            i <= word.len(),
            forall|k: int|
                0 <= k < i ==> (#[trigger] word@[k]).numeric || (points && word@[k].character
                    == '.'),
        decreases word.len() - i,
    {
        let c = word[i];
        if !(c.numeric || (points && c.character == '.')) {
            assert(!word@[i as int].numeric);
            return false;
        }
        i = i + 1;
    }
    true
}

/// Builds the text of a run of characters.
fn word_string(word: &Vec<Classified>) -> (text: String)
    ensures
        text@ == word_text(word@),
{
    let mut text = String::new();
    let mut i: usize = 0;
    while i < word.len()
        invariant
            i <= word.len(),
            text@ == word_text(word@.take(i as int)),
        decreases word.len() - i,
    {
        crate::text::push_char(&mut text, word[i].character);
        i = i + 1;
        assert(text@ =~= word_text(word@.take(i as int)));
    }
    assert(word@.take(word.len() as int) =~= word@);
    text
}

/// Makes the token of a word whose characters come with their classes.
pub fn token_of_word(word: &Vec<Classified>) -> (token: Token)
    ensures
        token@ == classify(word@),
{
    if word.len() > 0 {
        if check_all_numeric(word, true) {
            return Token { token_type: TokenType::NumberLiteral, value: word_string(word) };
        } else if word[0].alphabetic {
            let text = word_string(word);
            let keywords = Keywords::new();
            proof {
                lemma_keyword_list(text@);
            }
            if keywords.contains(&text) {
                return Token { token_type: TokenType::Keyword, value: text };
            } else if is_text(&text, "true") || is_text(&text, "false") {
                return Token { token_type: TokenType::BooleanLiteral, value: text };
            } else if is_text(&text, "and") || is_text(&text, "or") || is_text(&text, "xor") {
                return Token { token_type: TokenType::Operator, value: text };
            } else {
                return Token { token_type: TokenType::Identifier, value: text };
            }
        }
    }
    Token { token_type: TokenType::NONE, value: String::new() }
}

/// Makes the token of a word, with the classes that `std` gives its
/// characters.
pub fn generate_token_from_string(str: String) -> (token: Token)
    ensures
        token@ == classify(classified_text(str@)),
{
    let word = classify_text(&str);
    token_of_word(&word)
}

/// What the tokenizer carries from character to character.
#[verifier::ext_equal]
pub struct LexState {
    /// The tokens made so far, in the order of the text.
    pub output: Seq<TokenView>,
    /// The word being gathered.
    pub current: Seq<Classified>,
    /// The text of the string literal being read.
    pub string: Seq<char>,
    /// Whether a string literal is open.
    pub in_string: bool,
}

/// The state before the first character.
pub open spec fn lex_start() -> LexState {
    LexState {
        output: Seq::empty(),
        current: Seq::empty(),
        string: Seq::empty(),
        in_string: false,
    }
}

/// The kind of the token that a symbol makes by itself.
pub open spec fn symbol_kind(c: char) -> Option<TokenType> {
    if c == '+' || c == '-' || c == '*' || c == '/' || c == '=' || c == ':' || c == '!' || c
        == '>' || c == '<' {
        Some(TokenType::Operator)
    } else if c == '\n' || c == ';' {
        Some(TokenType::End)
    } else if c == '(' {
        Some(TokenType::ParenOpen)
    } else if c == ')' {
        Some(TokenType::ParenClose)
    } else if c == '}' {
        Some(TokenType::BracketClose)
    } else {
        None
    }
}

/// A token of one character.
pub open spec fn symbol_token(kind: TokenType, c: char) -> TokenView {
    TokenView { token_type: kind, value: seq![c] }
}

/// Whether a point after this word is an operator and not part of a number.
pub open spec fn point_is_operator(current: Seq<Classified>) -> bool {
    current.len() == 0 || !all_numeric(current)
}

/// The tokens that a character makes by itself behind the word `current`, or
/// `None` for a character that is no symbol there. An opening bracket ends
/// the statement before it stands for itself; a quotation mark makes no
/// token but opens a string literal; a point behind a number belongs to the
/// number and is no symbol.
pub open spec fn symbol_tokens(c: char, current: Seq<Classified>) -> Option<Seq<TokenView>> {
    if symbol_kind(c) is Some {
        Some(seq![symbol_token(symbol_kind(c)->0, c)])
    } else if c == '.' {
        if point_is_operator(current) {
            Some(seq![symbol_token(TokenType::Operator, c)])
        } else {
            None
        }
    } else if c == '{' {
        Some(seq![symbol_token(TokenType::End, '\n'), symbol_token(TokenType::BracketOpen, c)])
    } else if c == '"' {
        Some(Seq::empty())
    } else {
        None
    }
}

/// The tokens that a word makes when it ends: its token, or none where it
/// makes none.
pub open spec fn word_tokens(current: Seq<Classified>) -> Seq<TokenView> {
    if classify(current).token_type == TokenType::NONE {
        Seq::empty()
    } else {
        seq![classify(current)]
    }
}

/// The state after one more character. Inside a string literal every
/// character but the closing quotation mark is text. Outside, a symbol ends
/// the word: the token of the word comes first, then the tokens that the
/// symbol made. Whitespace ends the word too. Every other character joins
/// the word.
pub open spec fn lex_step(state: LexState, c: Classified) -> LexState {
    if state.in_string {
        if c.character == '"' {
            LexState {
                output: state.output.push(
                    TokenView { token_type: TokenType::StringLiteral, value: state.string },
                ),
                current: Seq::empty(),
                in_string: false,
                ..state
            }
        } else {
            LexState { string: state.string.push(c.character), ..state }
        }
    } else {
        match symbol_tokens(c.character, state.current) {
            Some(made) => LexState {
                output: state.output + word_tokens(state.current) + made,
                current: Seq::empty(),
                string: if c.character == '"' {
                    Seq::empty()
                } else {
                    state.string
                },
                in_string: c.character == '"',
            },
            None => if c.whitespace {
                LexState {
                    output: state.output + word_tokens(state.current),
                    current: Seq::empty(),
                    ..state
                }
            } else {
                LexState { current: state.current.push(c), ..state }
            },
        }
    }
}

/// The state after the first `n` characters.
pub open spec fn lex_run(chars: Seq<Classified>, n: int) -> LexState
    decreases n,
{
    if n <= 0 {
        lex_start()
    } else {
        lex_step(lex_run(chars, n - 1), chars[n - 1])
    }
}

/// The tokens of a run of characters that come with their classes.
pub open spec fn tokens_of(chars: Seq<Classified>) -> Seq<TokenView> {
    lex_run(chars, chars.len() as int).output
}

/// The tokens of a text, under the classes that `std` gives its characters.
pub open spec fn tokenize_spec(text: Seq<char>) -> Seq<TokenView> {
    tokens_of(classified_text(text))
}

/// Makes a token of one character.
fn symbol(kind: TokenType, c: char) -> (token: Token)
    ensures
        token@ == symbol_token(kind, c),
{
    let mut value = String::new();
    crate::text::push_char(&mut value, c);
    assert(value@ =~= seq![c]);
    Token { token_type: kind, value }
}

/// The kind of the token that a symbol makes by itself.
fn symbol_kind_of(c: char) -> (r: Option<TokenType>)
    ensures
        r == symbol_kind(c),
{
    if c == '+' || c == '-' || c == '*' || c == '/' || c == '=' || c == ':' || c == '!' || c
        == '>' || c == '<' {
        Some(TokenType::Operator)
    } else if c == '\n' || c == ';' {
        Some(TokenType::End)
    } else if c == '(' {
        Some(TokenType::ParenOpen)
    } else if c == ')' {
        Some(TokenType::ParenClose)
    } else if c == '}' {
        Some(TokenType::BracketClose)
    } else {
        None
    }
}

/// The view of a run of tokens follows a push.
pub proof fn lemma_tokens_view_push(tokens: Seq<Token>, token: Token)
    ensures
        tokens_view(tokens.push(token)) == tokens_view(tokens).push(token@),
{
    assert(tokens_view(tokens.push(token)) =~= tokens_view(tokens).push(token@));
}

/// Ends the word: its token, if it makes one, goes to the end of the output.
fn end_word(output: &mut Vec<Token>, current: &mut Vec<Classified>)
    ensures
        final(current)@ == Seq::<Classified>::empty(),
        tokens_view(final(output)@) == tokens_view(old(output)@) + word_tokens(old(current)@),
{
    let token = token_of_word(current);
    match token.token_type {
        TokenType::NONE => {
            assert(tokens_view(output@) =~= tokens_view(old(output)@) + word_tokens(
                old(current)@,
            ));
        },
        _ => {
            proof {
                lemma_tokens_view_push(output@, token);
            }
            output.push(token);
            assert(tokens_view(output@) =~= tokens_view(old(output)@) + word_tokens(
                old(current)@,
            ));
        },
    }
    current.clear();
}

/// Makes the tokens that a character makes by itself behind the word
/// `current`, or `None` for a character that is no symbol there.
fn make_symbol_tokens(c: char, current: &Vec<Classified>) -> (r: Option<Vec<Token>>)
    ensures
        match symbol_tokens(c, current@) {
            Some(made) => r is Some && tokens_view(r->0@) == made,
            None => r is None,
        },
{
    let mut made: Vec<Token> = Vec::new();
    match symbol_kind_of(c) {
        Some(kind) => {
            made.push(symbol(kind, c));
        },
        None => {
            if c == '.' {
                if current.len() == 0 || !check_all_numeric(current, false) {
                    made.push(symbol(TokenType::Operator, c));
                } else {
                    return None;
                }
            } else if c == '{' {
                made.push(symbol(TokenType::End, '\n'));
                made.push(symbol(TokenType::BracketOpen, c));
            } else if c != '"' {
                return None;
            }
        },
    }
    assert(tokens_view(made@) =~= symbol_tokens(c, current@)->0);
    Some(made)
}

/// Turns a run of characters that come with their classes into tokens.
pub fn tokenize_classified(chars: &Vec<Classified>) -> (tokens: Vec<Token>)
    ensures
        tokens_view(tokens@) == tokens_of(chars@),
{
    let mut output: Vec<Token> = Vec::new();
    let mut current: Vec<Classified> = Vec::new();
    let mut string: Vec<char> = Vec::new();
    let mut in_string = false;
    let mut i: usize = 0;
    assert(tokens_view(output@) =~= Seq::<TokenView>::empty());
    while i < chars.len()
        invariant
            i <= chars.len(),
            lex_run(chars@, i as int) == (LexState {
                output: tokens_view(output@),
                current: current@,
                string: string@,
                in_string,
            }),
        decreases chars.len() - i,
    {
        let c = chars[i];
        let ghost before = lex_run(chars@, i as int);
        assert(lex_run(chars@, i + 1) == lex_step(before, c));
        if in_string {
            if c.character == '"' {
                let token = Token {
                    token_type: TokenType::StringLiteral,
                    value: string_from_chars(&string, 0, string.len()),
                };
                assert(string@.subrange(0, string@.len() as int) =~= string@);
                proof {
                    lemma_tokens_view_push(output@, token);
                }
                output.push(token);
                in_string = false;
                current.clear();
            } else {
                string.push(c.character);
            }
        } else {
            match make_symbol_tokens(c.character, &current) {
                Some(made) => {
                    let mut made = made;
                    end_word(&mut output, &mut current);
                    let ghost with_word = output@;
                    let ghost symbols = made@;
                    output.append(&mut made);
                    assert(tokens_view(output@) =~= tokens_view(with_word) + tokens_view(symbols));
                    if c.character == '"' {
                        string.clear();
                        in_string = true;
                    }
                },
                None => {
                    if c.whitespace {
                        end_word(&mut output, &mut current);
                    } else {
                        current.push(c);
                    }
                },
            }
        }
        i = i + 1;
    }
    output
}

/// Turns source text into tokens.
pub fn tokenize(code: String) -> (tokens: Vec<Token>)
    ensures
        tokens_view(tokens@) == tokenize_spec(code@),
{
    let chars = classify_text(&code);
    tokenize_classified(&chars)
}

} // verus!
