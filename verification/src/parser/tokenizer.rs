//! Lexical analysis: a string becomes a sequence of tokens.

use vstd::prelude::*;
use vstd::std_specs::cmp::PartialEqSpecImpl;
use crate::floats::{FloatQuery, FloatTable, SpecQuery, SpecTable, answered, ask_text, ask_value, bits_float_eq, float_eq, outcome, table_extends};
use crate::text::{
    name_char, quoted_name, is_alphanumeric, is_ascii_letter, is_decimal_digit, char_is_ascii_letter,
    char_is_decimal_digit, debug_text, push_char, push_chars,
};

verus! {

/// A lexical token.
///
/// Its `Debug` form shows a number as its bit pattern; [`Token::describe`]
/// gives the text with the number's value, as `f64` prints it.
#[derive(Debug)]
pub enum Token {
    /// A number literal, as the binary64 bit pattern of its value.
    Num(u64),
    /// A variable name.
    Var(String),
    /// `+`
    Plus,
    /// `-`
    Minus,
    /// `*`
    Star,
    /// `/`
    Slash,
    /// `^`
    Caret,
    /// `(`
    LParen,
    /// `)`
    RParen,
    /// The keyword `sin`.
    Sin,
    /// The keyword `cos`.
    Cos,
    /// The keyword `ln`.
    Ln,
}

/// The model of a [`Token`].
pub enum SpecToken {
    Num(u64),
    Var(Seq<char>),
    Plus,
    Minus,
    Star,
    Slash,
    Caret,
    LParen,
    RParen,
    Sin,
    Cos,
    Ln,
}

impl View for Token {
    type V = SpecToken;

    open spec fn view(&self) -> SpecToken {
        match self {
            Token::Num(n) => SpecToken::Num(*n),
            Token::Var(s) => SpecToken::Var(s@),
            Token::Plus => SpecToken::Plus,
            Token::Minus => SpecToken::Minus,
            Token::Star => SpecToken::Star,
            Token::Slash => SpecToken::Slash,
            Token::Caret => SpecToken::Caret,
            Token::LParen => SpecToken::LParen,
            Token::RParen => SpecToken::RParen,
            Token::Sin => SpecToken::Sin,
            Token::Cos => SpecToken::Cos,
            Token::Ln => SpecToken::Ln,
        }
    }
}

impl DeepView for Token {
    type V = SpecToken;

    open spec fn deep_view(&self) -> SpecToken {
        self@
    }
}

impl Token {
    /// A copy of the token.
    pub fn duplicate(&self) -> (r: Token)
        ensures
            r@ == self@,
    {
        match self {
            Token::Num(n) => Token::Num(*n),
            Token::Var(s) => Token::Var(s.clone()),
            Token::Plus => Token::Plus,
            Token::Minus => Token::Minus,
            Token::Star => Token::Star,
            Token::Slash => Token::Slash,
            Token::Caret => Token::Caret,
            Token::LParen => Token::LParen,
            Token::RParen => Token::RParen,
            Token::Sin => Token::Sin,
            Token::Cos => Token::Cos,
            Token::Ln => Token::Ln,
        }
    }
}

impl Clone for Token {
    fn clone(&self) -> (r: Token)
        ensures
            r@ == self@,
    {
        self.duplicate()
    }
}

/// Equality of tokens as `==` on [`Token`] decides it: the same kind, the same
/// name, numbers compared as `f64` compares them.
pub open spec fn equal_tokens(a: SpecToken, b: SpecToken) -> bool {
    match a {
        SpecToken::Num(x) => b matches SpecToken::Num(y) && float_eq(x, y),
        _ => a == b,
    }
}

impl PartialEq for Token {
    fn eq(&self, other: &Token) -> (r: bool) {
        match (self, other) {
            (Token::Num(a), Token::Num(b)) => bits_float_eq(*a, *b),
            (Token::Var(a), Token::Var(b)) => *a == *b,
            (Token::Plus, Token::Plus) => true,
            (Token::Minus, Token::Minus) => true,
            (Token::Star, Token::Star) => true,
            (Token::Slash, Token::Slash) => true,
            (Token::Caret, Token::Caret) => true,
            (Token::LParen, Token::LParen) => true,
            (Token::RParen, Token::RParen) => true,
            (Token::Sin, Token::Sin) => true,
            (Token::Cos, Token::Cos) => true,
            (Token::Ln, Token::Ln) => true,
            _ => false,
        }
    }
}

impl PartialEqSpecImpl for Token {
    open spec fn obeys_eq_spec() -> bool {
        true
    }

    open spec fn eq_spec(&self, other: &Token) -> bool {
        equal_tokens(self@, other@)
    }
}

/// The `Debug` text of a token: the variant's name, with the number's `{:?}`
/// text or the variable's quoted name in brackets.
pub open spec fn token_debug(tok: SpecToken, t: SpecTable) -> Result<Seq<char>, SpecQuery> {
    match tok {
        SpecToken::Num(b) => match ask_text(t, SpecQuery::Debug(b)) {
            Err(q) => Err(q),
            Ok(x) => Ok("Num("@ + x + ")"@),
        },
        SpecToken::Var(s) => Ok("Var("@ + quoted_name(s) + ")"@),
        SpecToken::Plus => Ok("Plus"@),
        SpecToken::Minus => Ok("Minus"@),
        SpecToken::Star => Ok("Star"@),
        SpecToken::Slash => Ok("Slash"@),
        SpecToken::Caret => Ok("Caret"@),
        SpecToken::LParen => Ok("LParen"@),
        SpecToken::RParen => Ok("RParen"@),
        SpecToken::Sin => Ok("Sin"@),
        SpecToken::Cos => Ok("Cos"@),
        SpecToken::Ln => Ok("Ln"@),
    }
}

impl Token {
    /// The token's `Debug` text, such as `Plus`, `Var("x")` or `Num(2.0)`; stops
    /// when `table` lacks the `{:?}` text of a number.
    pub fn describe(&self, table: &FloatTable) -> (r: Result<String, FloatQuery>)
        ensures
            answered(r) == token_debug(self@, table@),
    {
        match self {
            Token::Num(b) => {
                let x = table.text(FloatQuery::Debug(*b))?;
                let mut out = "Num(".to_owned();
                push_chars(&mut out, &x);
                push_chars(&mut out, &")".to_owned());
                Ok(out)
            },
            Token::Var(s) => {
                let q = debug_text(s);
                let mut out = "Var(".to_owned();
                push_chars(&mut out, &q);
                push_chars(&mut out, &")".to_owned());
                Ok(out)
            },
            Token::Plus => Ok("Plus".to_owned()),
            Token::Minus => Ok("Minus".to_owned()),
            Token::Star => Ok("Star".to_owned()),
            Token::Slash => Ok("Slash".to_owned()),
            Token::Caret => Ok("Caret".to_owned()),
            Token::LParen => Ok("LParen".to_owned()),
            Token::RParen => Ok("RParen".to_owned()),
            Token::Sin => Ok("Sin".to_owned()),
            Token::Cos => Ok("Cos".to_owned()),
            Token::Ln => Ok("Ln".to_owned()),
        }
    }
}

/// Whitespace that the tokenizer skips.
pub open spec fn is_blank(c: char) -> bool {
    c == ' ' || c == '\t' || c == '\n' || c == '\r'
}

/// The token that a one-character operator or bracket stands for.
pub open spec fn symbol_token(c: char) -> Option<SpecToken> {
    if c == '+' {
        Some(SpecToken::Plus)
    } else if c == '-' {
        Some(SpecToken::Minus)
    } else if c == '*' {
        Some(SpecToken::Star)
    } else if c == '/' {
        Some(SpecToken::Slash)
    } else if c == '^' {
        Some(SpecToken::Caret)
    } else if c == '(' {
        Some(SpecToken::LParen)
    } else if c == ')' {
        Some(SpecToken::RParen)
    } else {
        None
    }
}

/// A character that a number literal is made of.
pub open spec fn is_number_char(c: char) -> bool {
    is_decimal_digit(c) || c == '.'
}

/// The end of the run of number characters that starts at `i`.
pub open spec fn number_end(s: Seq<char>, i: int) -> int
    decreases s.len() - i,
{
    if 0 <= i < s.len() && is_number_char(s[i]) {
        number_end(s, i + 1)
    } else {
        i
    }
}

/// The end of the run of name characters that starts at `i`.
pub open spec fn name_end(s: Seq<char>, i: int) -> int
    decreases s.len() - i,
{
    if 0 <= i < s.len() && name_char(s[i]) {
        name_end(s, i + 1)
    } else {
        i
    }
}

/// The number of `.` in `s`.
pub open spec fn dot_count(s: Seq<char>) -> nat
    decreases s.len(),
{
    if s.len() == 0 {
        0
    } else {
        dot_count(s.drop_last()) + if s.last() == '.' { 1nat } else { 0nat }
    }
}

/// A run of digits and dots that `str::parse::<f64>` accepts: at most one dot
/// and at least one digit (its grammar is `Digit+ | Digit+ '.' Digit* | Digit* '.' Digit+`).
pub open spec fn is_valid_literal(s: Seq<char>) -> bool {
    dot_count(s) <= 1 && dot_count(s) < s.len()
}

/// The token for a name: a keyword or a variable.
pub open spec fn name_token(name: Seq<char>) -> SpecToken {
    if name == seq!['s', 'i', 'n'] {
        SpecToken::Sin
    } else if name == seq!['c', 'o', 's'] {
        SpecToken::Cos
    } else if name == seq!['l', 'n'] {
        SpecToken::Ln
    } else {
        SpecToken::Var(name)
    }
}

/// `tok` in front of the tokens of a successful result.
pub open spec fn token_then(tok: SpecToken, rest: Result<Result<Seq<SpecToken>, Seq<char>>, SpecQuery>) -> Result<Result<Seq<SpecToken>, Seq<char>>, SpecQuery> {
    match rest {
        Ok(Ok(ts)) => Ok(Ok(seq![tok] + ts)),
        other => other,
    }
}

/// The tokens of `s` from index `i` on: blanks are skipped; an operator or
/// bracket is one token; a run of digits and dots is a number whose value the
/// table gives (`"Invalid number"` if the run is not a literal); a run of name
/// characters (see `name_char`) that starts with an ASCII letter is a keyword or a
/// variable; any other character is the error `"Unexpected character: "` and
/// the character.
pub open spec fn lex_from(s: Seq<char>, i: int, t: SpecTable) -> Result<Result<Seq<SpecToken>, Seq<char>>, SpecQuery>
    decreases s.len() - i,
{
    if i < 0 || i >= s.len() {
        Ok(Ok(seq![]))
    } else {
        let c = s[i];
        if is_blank(c) {
            lex_from(s, i + 1, t)
        } else if symbol_token(c) is Some {
            token_then(symbol_token(c).unwrap(), lex_from(s, i + 1, t))
        } else if is_number_char(c) {
            let j = number_end(s, i + 1);
            let text = s.subrange(i, j);
            if !is_valid_literal(text) {
                Ok(Err("Invalid number"@))
            } else {
                match ask_value(t, SpecQuery::Parse(text)) {
                    Err(q) => Err(q),
                    Ok(bits) => {
                        proof {
                            lemma_number_end_bounds(s, i + 1);
                        }
                        token_then(SpecToken::Num(bits), lex_from(s, j, t))
                    },
                }
            }
        } else if is_ascii_letter(c) {
            let j = name_end(s, i + 1);
            proof {
                lemma_name_end_bounds(s, i + 1);
            }
            token_then(name_token(s.subrange(i, j)), lex_from(s, j, t))
        } else {
            Ok(Err("Unexpected character: "@.push(c)))
        }
    }
}

/// The tokens of the whole string.
pub open spec fn lexed(s: Seq<char>, t: SpecTable) -> Result<Result<Seq<SpecToken>, Seq<char>>, SpecQuery> {
    lex_from(s, 0, t)
}

/// The tokens `prefix` in front of the tokens of a successful result.
pub open spec fn tokens_then(prefix: Seq<SpecToken>, rest: Result<Result<Seq<SpecToken>, Seq<char>>, SpecQuery>) -> Result<Result<Seq<SpecToken>, Seq<char>>, SpecQuery> {
    match rest {
        Ok(Ok(ts)) => Ok(Ok(prefix + ts)),
        other => other,
    }
}

proof fn lemma_tokens_then_push(prefix: Seq<SpecToken>, tok: SpecToken, rest: Result<Result<Seq<SpecToken>, Seq<char>>, SpecQuery>)
    ensures
        tokens_then(prefix, token_then(tok, rest)) == tokens_then(prefix.push(tok), rest),
{
    if let Ok(Ok(ts)) = rest {
        assert(prefix + (seq![tok] + ts) =~= prefix.push(tok) + ts);
    }
}

fn symbol(c: char) -> (r: Option<Token>)
    ensures
        match r {
            Some(t) => symbol_token(c) == Some(t@),
            None => symbol_token(c) is None,
        },
{
    if c == '+' {
        Some(Token::Plus)
    } else if c == '-' {
        Some(Token::Minus)
    } else if c == '*' {
        Some(Token::Star)
    } else if c == '/' {
        Some(Token::Slash)
    } else if c == '^' {
        Some(Token::Caret)
    } else if c == '(' {
        Some(Token::LParen)
    } else if c == ')' {
        Some(Token::RParen)
    } else {
        None
    }
}

fn equals_word(s: &String, w: &str) -> (r: bool)
    ensures
        r == (s@ == w@),
{
    *s == w.to_owned()
}

fn name_to_token(name: String) -> (r: Token)
    ensures
        r@ == name_token(name@),
{
    proof {
        reveal_strlit("sin");
        reveal_strlit("cos");
        reveal_strlit("ln");
        assert("sin"@ =~= seq!['s', 'i', 'n']);
        assert("cos"@ =~= seq!['c', 'o', 's']);
        assert("ln"@ =~= seq!['l', 'n']);
    }
    if equals_word(&name, "sin") {
        Token::Sin
    } else if equals_word(&name, "cos") {
        Token::Cos
    } else if equals_word(&name, "ln") {
        Token::Ln
    } else {
        Token::Var(name)
    }
}

/// Splits `input` into tokens. Stops at the first number literal whose value
/// `table` lacks and returns its query.
///
/// # Errors
/// `"Invalid number"` for a run of digits and dots that is not a literal (such as
/// `1.2.3`), and `"Unexpected character: "` followed by the character for any
/// character that starts no token.
pub fn tokenize(input: &str, table: &FloatTable) -> (r: Result<Result<Vec<Token>, String>, FloatQuery>)
    ensures
        outcome(r) == lexed(input@, table@),
{
    let n = input.unicode_len();
    let mut tokens: Vec<Token> = Vec::new();
    let mut i: usize = 0;
    assert(tokens.deep_view() =~= Seq::<SpecToken>::empty());
    assert(Seq::<SpecToken>::empty() + seq![] =~= Seq::<SpecToken>::empty());
    while i < n
        invariant
            n == input@.len(),
            i <= n,
            lexed(input@, table@) == tokens_then(tokens.deep_view(), lex_from(input@, i as int, table@)),
        decreases n - i,
    {
        let ghost s = input@;
        let ghost before = tokens.deep_view();
        let c = input.get_char(i);
        if c == ' ' || c == '\t' || c == '\n' || c == '\r' {
            i = i + 1;
        } else if let Some(tok) = symbol(c) {
            proof {
                lemma_tokens_then_push(before, tok@, lex_from(s, i + 1, table@));
            }
            tokens.push(tok);
            assert(tokens.deep_view() =~= before.push(tokens@[tokens@.len() - 1]@));
            i = i + 1;
        } else if char_is_decimal_digit(c) || c == '.' {
            let mut text = String::new();
            push_char(&mut text, c);
            let mut dots: usize = if c == '.' { 1 } else { 0 };
            let mut j: usize = i + 1;
            assert(text@ =~= s.subrange(i as int, j as int));
            proof {
                let one = s.subrange(i as int, j as int);
                assert(one.drop_last() =~= Seq::<char>::empty());
                assert(dot_count(Seq::<char>::empty()) == 0);
                assert(one.last() == c);
                assert(dot_count(one) == dot_count(one.drop_last()) + if one.last() == '.' { 1nat } else { 0nat });
            }
            while j < n && (char_is_decimal_digit(input.get_char(j)) || input.get_char(j) == '.')
                invariant
                    n == input@.len(),
                    s == input@,
                    i < j <= n,
                    text@ == s.subrange(i as int, j as int),
                    dots == dot_count(text@),
                    dots <= j - i,
                    number_end(s, j as int) == number_end(s, i + 1),
                decreases n - j,
            {
                let d = input.get_char(j);
                let ghost old_text = text@;
                push_char(&mut text, d);
                assert(text@ =~= s.subrange(i as int, j + 1));
                assert(text@.drop_last() =~= old_text);
                if d == '.' {
                    dots = dots + 1;
                }
                j = j + 1;
            }
            assert(number_end(s, j as int) == j);
            if !(dots <= 1 && dots < j - i) {
                return Ok(Err("Invalid number".to_owned()));
            }
            let bits = match table.value(FloatQuery::Parse(text)) {
                Ok(b) => b,
                Err(q) => return Err(q),
            };
            proof {
                lemma_tokens_then_push(before, SpecToken::Num(bits), lex_from(s, j as int, table@));
            }
            tokens.push(Token::Num(bits));
            assert(tokens.deep_view() =~= before.push(SpecToken::Num(bits)));
            i = j;
        } else if char_is_ascii_letter(c) {
            let mut name = String::new();
            push_char(&mut name, c);
            let mut j: usize = i + 1;
            assert(name@ =~= s.subrange(i as int, j as int));
            while j < n && is_alphanumeric(input.get_char(j))
                invariant
                    n == input@.len(),
                    s == input@,
                    i < j <= n,
                    name@ == s.subrange(i as int, j as int),
                    name_end(s, j as int) == name_end(s, i + 1),
                decreases n - j,
            {
                let d = input.get_char(j);
                push_char(&mut name, d);
                assert(name@ =~= s.subrange(i as int, j + 1));
                j = j + 1;
            }
            assert(name_end(s, j as int) == j);
            let tok = name_to_token(name);
            proof {
                lemma_tokens_then_push(before, tok@, lex_from(s, j as int, table@));
            }
            tokens.push(tok);
            assert(tokens.deep_view() =~= before.push(tokens@[tokens@.len() - 1]@));
            i = j;
        } else {
            let mut message = "Unexpected character: ".to_owned();
            push_char(&mut message, c);
            return Ok(Err(message));
        }
    }
    assert(tokens.deep_view() + seq![] =~= tokens.deep_view());
    Ok(Ok(tokens))
}

/// Tokenizing that gives a result gives the same one under any table that holds
/// every answer of the first; one that stops names a literal the table lacks.
pub proof fn law_lex_table_answers(s: Seq<char>, i: int, t1: SpecTable, t2: SpecTable)
    ensures
        table_extends(t1, t2) && lex_from(s, i, t1) is Ok ==> lex_from(s, i, t2) == lex_from(s, i, t1),
        lex_from(s, i, t1) matches Err(q) ==> !t1.values.contains_key(q),
    decreases s.len() - i,
{
    if 0 <= i < s.len() {
        let c = s[i];
        if is_blank(c) || symbol_token(c) is Some {
            law_lex_table_answers(s, i + 1, t1, t2);
        } else if is_number_char(c) {
            lemma_number_end_bounds(s, i + 1);
            law_lex_table_answers(s, number_end(s, i + 1), t1, t2);
        } else if is_ascii_letter(c) {
            lemma_name_end_bounds(s, i + 1);
            law_lex_table_answers(s, name_end(s, i + 1), t1, t2);
        }
    }
}

/// Tokenizing asks only for the values of literals.
pub proof fn lemma_lex_queries(s: Seq<char>, i: int, t: SpecTable)
    ensures
        lex_from(s, i, t) matches Err(q) ==> q is Parse,
    decreases s.len() - i,
{
    if 0 <= i < s.len() {
        let c = s[i];
        if is_blank(c) || symbol_token(c) is Some {
            lemma_lex_queries(s, i + 1, t);
        } else if is_number_char(c) {
            lemma_number_end_bounds(s, i + 1);
            lemma_lex_queries(s, number_end(s, i + 1), t);
        } else if is_ascii_letter(c) {
            lemma_name_end_bounds(s, i + 1);
            lemma_lex_queries(s, name_end(s, i + 1), t);
        }
    }
}

/// A character at which no number or name run continues: a blank, an
/// operator or a bracket.
pub open spec fn is_delimiter(c: char) -> bool {
    is_blank(c) || symbol_token(c) is Some
}

/// No token runs across the place where `a` meets `b`: one of the two
/// characters that meet there is a delimiter.
pub open spec fn separated(a: Seq<char>, b: Seq<char>) -> bool {
    a.len() == 0 || b.len() == 0 || is_delimiter(a.last()) || is_delimiter(b[0])
}

proof fn lemma_tokens_then_empty(rest: Result<Result<Seq<SpecToken>, Seq<char>>, SpecQuery>)
    ensures
        tokens_then(seq![], rest) == rest,
{
    if let Ok(Ok(ts)) = rest {
        assert(Seq::<SpecToken>::empty() + ts =~= ts);
    }
}

proof fn lemma_tokens_then_token(tok: SpecToken, ta: Seq<SpecToken>, rest: Result<Result<Seq<SpecToken>, Seq<char>>, SpecQuery>)
    ensures
        token_then(tok, tokens_then(ta, rest)) == tokens_then(seq![tok] + ta, rest),
{
    if let Ok(Ok(ts)) = rest {
        assert(seq![tok] + (ta + ts) =~= (seq![tok] + ta) + ts);
    }
}

proof fn lemma_number_end_concat(a: Seq<char>, b: Seq<char>, k: int)
    requires
        0 <= k <= a.len(),
        number_end(a, k) < a.len() || b.len() == 0 || !is_number_char(b[0]),
    ensures
        number_end(a + b, k) == number_end(a, k),
    decreases a.len() - k,
{
    if k < a.len() && is_number_char(a[k]) {
        lemma_number_end_concat(a, b, k + 1);
    }
}

proof fn lemma_name_end_concat(a: Seq<char>, b: Seq<char>, k: int)
    requires
        0 <= k <= a.len(),
        name_end(a, k) < a.len() || b.len() == 0 || !name_char(b[0]),
    ensures
        name_end(a + b, k) == name_end(a, k),
    decreases a.len() - k,
{
    if k < a.len() && name_char(a[k]) {
        lemma_name_end_concat(a, b, k + 1);
    }
}

proof fn lemma_number_end_shift(p: Seq<char>, u: Seq<char>, j: int)
    requires
        0 <= j,
    ensures
        number_end(p + u, p.len() + j) == p.len() + number_end(u, j),
    decreases u.len() - j,
{
    if j < u.len() && is_number_char(u[j]) {
        lemma_number_end_shift(p, u, j + 1);
    }
}

proof fn lemma_name_end_shift(p: Seq<char>, u: Seq<char>, j: int)
    requires
        0 <= j,
    ensures
        name_end(p + u, p.len() + j) == p.len() + name_end(u, j),
    decreases u.len() - j,
{
    if j < u.len() && name_char(u[j]) {
        lemma_name_end_shift(p, u, j + 1);
    }
}

/// The tokens of `p + u` after `p` are the tokens of `u`.
pub proof fn lemma_lex_shift(p: Seq<char>, u: Seq<char>, j: int, t: SpecTable)
    requires
        0 <= j,
    ensures
        lex_from(p + u, p.len() + j, t) == lex_from(u, j, t),
    decreases u.len() - j,
{
    let x = p + u;
    let i = p.len() + j;
    if j < u.len() {
        let c = u[j];
        assert(x[i] == c);
        if is_blank(c) || symbol_token(c) is Some {
            lemma_lex_shift(p, u, j + 1, t);
        } else if is_number_char(c) {
            lemma_number_end_shift(p, u, j + 1);
            lemma_number_end_bounds(u, j + 1);
            let k = number_end(u, j + 1);
            assert(x.subrange(i, p.len() + k) =~= u.subrange(j, k));
            lemma_lex_shift(p, u, k, t);
        } else if is_ascii_letter(c) {
            lemma_name_end_shift(p, u, j + 1);
            lemma_name_end_bounds(u, j + 1);
            let k = name_end(u, j + 1);
            assert(x.subrange(i, p.len() + k) =~= u.subrange(j, k));
            lemma_lex_shift(p, u, k, t);
        }
    }
}

/// The tokens of `a + b`, for `a` and `b` separated, are the tokens of `a`
/// followed by those of `b`.
pub proof fn lemma_lex_concat(a: Seq<char>, b: Seq<char>, i: int, t: SpecTable)
    requires
        0 <= i <= a.len(),
        separated(a, b),
    ensures
        lex_from(a, i, t) matches Ok(Ok(ta)) ==> lex_from(a + b, i, t) == tokens_then(ta, lex_from(b, 0, t)),
    decreases a.len() - i,
{
    let x = a + b;
    if i == a.len() {
        lemma_lex_shift(a, b, 0, t);
        lemma_tokens_then_empty(lex_from(b, 0, t));
    } else {
        let c = a[i];
        assert(x[i] == c);
        if is_blank(c) {
            lemma_lex_concat(a, b, i + 1, t);
        } else if symbol_token(c) is Some {
            lemma_lex_concat(a, b, i + 1, t);
            if let Ok(Ok(ta1)) = lex_from(a, i + 1, t) {
                lemma_tokens_then_token(symbol_token(c).unwrap(), ta1, lex_from(b, 0, t));
            }
        } else if is_number_char(c) {
            lemma_number_end_bounds(a, i + 1);
            let j = number_end(a, i + 1);
            if j == a.len() {
                assert(is_number_char(a.last()));
            }
            lemma_number_end_concat(a, b, i + 1);
            assert(x.subrange(i, j) =~= a.subrange(i, j));
            lemma_lex_concat(a, b, j, t);
            if let Ok(Ok(ta1)) = lex_from(a, j, t) {
                if let Ok(bits) = ask_value(t, SpecQuery::Parse(a.subrange(i, j))) {
                    lemma_tokens_then_token(SpecToken::Num(bits), ta1, lex_from(b, 0, t));
                }
            }
        } else if is_ascii_letter(c) {
            lemma_name_end_bounds(a, i + 1);
            let j = name_end(a, i + 1);
            if j == a.len() {
                lemma_name_end_chars(a, i + 1);
                if j > i + 1 {
                    assert(name_char(a[j - 1]));
                }
                assert(name_char(a.last()));
            }
            lemma_name_end_concat(a, b, i + 1);
            assert(x.subrange(i, j) =~= a.subrange(i, j));
            lemma_lex_concat(a, b, j, t);
            if let Ok(Ok(ta1)) = lex_from(a, j, t) {
                lemma_tokens_then_token(name_token(a.subrange(i, j)), ta1, lex_from(b, 0, t));
            }
        }
    }
}

proof fn lemma_name_end_chars(s: Seq<char>, i: int)
    requires
        0 <= i <= s.len(),
    ensures
        forall|k: int| i <= k < name_end(s, i) ==> name_char(#[trigger] s[k]),
    decreases s.len() - i,
{
    if i < s.len() && name_char(s[i]) {
        lemma_name_end_chars(s, i + 1);
    }
}

proof fn lemma_lex_skips_blanks(x: Seq<char>, k: int, m: int, t: SpecTable)
    requires
        0 <= k <= m <= x.len(),
        forall|i: int| k <= i < m ==> is_blank(#[trigger] x[i]),
    ensures
        lex_from(x, k, t) == lex_from(x, m, t),
    decreases m - k,
{
    if k < m {
        lemma_lex_skips_blanks(x, k + 1, m, t);
    }
}

/// Blanks only separate tokens: between two texts that tokenize, a nonempty
/// run of blanks gives the tokens of the first followed by those of the second.
pub proof fn law_blanks_separate_tokens(s: Seq<char>, w: Seq<char>, u: Seq<char>, t: SpecTable)
    requires
        w.len() > 0,
        forall|i: int| 0 <= i < w.len() ==> is_blank(#[trigger] w[i]),
        lexed(s, t) is Ok && lexed(s, t)->Ok_0 is Ok,
        lexed(u, t) is Ok && lexed(u, t)->Ok_0 is Ok,
    ensures
        lexed(s + w + u, t) == Ok::<Result<Seq<SpecToken>, Seq<char>>, SpecQuery>(
            Ok(lexed(s, t)->Ok_0->Ok_0 + lexed(u, t)->Ok_0->Ok_0),
        ),
{
    let wu = w + u;
    assert(s + w + u =~= s + wu);
    assert(wu[0] == w[0]);
    lemma_lex_concat(s, wu, 0, t);
    assert forall|i: int| 0 <= i < w.len() implies is_blank(#[trigger] wu[i]) by {
        assert(wu[i] == w[i]);
    }
    lemma_lex_skips_blanks(wu, 0, w.len() as int, t);
    lemma_lex_shift(w, u, 0, t);
}

pub proof fn lemma_number_end_bounds(s: Seq<char>, i: int)
    requires
        0 <= i <= s.len(),
    ensures
        i <= number_end(s, i) <= s.len(),
        forall|k: int| i <= k < number_end(s, i) ==> is_number_char(#[trigger] s[k]),
    decreases s.len() - i,
{
    if i < s.len() && is_number_char(s[i]) {
        lemma_number_end_bounds(s, i + 1);
    }
}

pub proof fn lemma_name_end_bounds(s: Seq<char>, i: int)
    requires
        0 <= i <= s.len(),
    ensures
        i <= name_end(s, i) <= s.len(),
    decreases s.len() - i,
{
    if i < s.len() && name_char(s[i]) {
        lemma_name_end_bounds(s, i + 1);
    }
}

} // verus!
