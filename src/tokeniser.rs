//! Tokens of the language and the lexer that produces them.
use vstd::prelude::*;
use crate::types::Type;
use crate::text::{int_text, nat_text, push_text, push_int, text_eq};
use vstd::string::{StrSliceExecFns, StringExecFns};

verus! {

/// A token of the source text.
#[derive(Debug, Clone, PartialEq, Eq)]
pub enum Token {
    // Identifier and literals
    Ident(String),
    Int(i32),
    /// A float literal, held as its value times 1000, truncated.
    Flt(i64),
    Bln(bool),
    Str(String),
    MCId(String),
    // Operators
    Asn,
    Add,
    Rem,
    Mul,
    Div,
    Sur,
    // Comparisons
    Eq,
    NEq,
    LEt,
    REt,
    Lt,
    Gt,
    // Logical operators
    Neg,
    And,
    Or,
    // Arrows
    Arr,
    FArr,
    // Delimiters
    Comma,
    Dot,
    Semicolon,
    Colon,
    LParen,
    RParen,
    LBrace,
    RBrace,
    LBracket,
    RBracket,
    // Keywords
    Let,
    Fn,
    If,
    Else,
    While,
    For,
    IntType,
    FltType,
    BlnType,
    NoneType,
    Return,
}

/// The spelling of a token without a payload.
pub open spec fn symbol_text(t: Token) -> Seq<char> {
    match t {
        Token::Asn => "="@, Token::Add => "+"@, Token::Rem => "-"@, Token::Mul => "*"@, Token::Div => "/"@,
        Token::Sur => "%"@, Token::Eq => "=="@, Token::NEq => "!="@, Token::LEt => "<="@, Token::REt => ">="@,
        Token::Lt => "<"@, Token::Gt => ">"@, Token::Neg => "!"@, Token::And => "&"@, Token::Or => "|"@,
        Token::Arr => "->"@, Token::FArr => "=>"@, Token::Comma => ","@, Token::Dot => "."@,
        Token::Semicolon => ";"@, Token::Colon => ":"@, Token::LParen => "("@, Token::RParen => ")"@,
        Token::LBrace => "{"@, Token::RBrace => "}"@, Token::LBracket => "["@, Token::RBracket => "]"@,
        Token::Let => "let"@, Token::Fn => "fn"@, Token::If => "if"@, Token::Else => "else"@,
        Token::While => "while"@, Token::For => "for"@, Token::IntType => "int"@, Token::FltType => "float"@,
        Token::BlnType => "bool"@, Token::NoneType => "none"@, Token::Return => "return"@,
        _ => ""@,
    }
}

/// A token as source text: literals and names as written, floats in fixed point with three
/// decimals, strings in quotes, MCIDs after `$`.
pub open spec fn token_text(t: Token) -> Seq<char> {
    match t {
        Token::Ident(s) => s@,
        Token::Int(i) => int_text(i as int),
        Token::Flt(m) => (if m < 0 { "-"@ } else { Seq::empty() }) + fixed_point_text(if m < 0 { -(m as int) } else { m as int }),
        Token::Bln(b) => if b { "true"@ } else { "false"@ },
        Token::Str(s) => "\""@ + s@ + "\""@,
        Token::MCId(s) => "$"@ + s@,
        _ => symbol_text(t),
    }
}

/// `n / 1000` and three decimals of thousandths.
pub open spec fn fixed_point_text(n: int) -> Seq<char> {
    nat_text((n / 1000) as nat) + "."@ + nat_text(((n % 1000) / 100) as nat) + nat_text(((n % 100) / 10) as nat)
        + nat_text((n % 10) as nat)
}

/// The type that a type keyword names.
pub open spec fn keyword_type(t: Token) -> Option<Type> {
    match t {
        Token::IntType => Some(Type::Int),
        Token::FltType => Some(Type::Float),
        Token::BlnType => Some(Type::Bool),
        _ => None,
    }
}

impl Token {
    /// The token as source text.
    pub fn text(&self) -> (r: String)
        ensures
            r@ == token_text(*self),
    {
        let mut s = String::new();
        match self {
            Token::Ident(name) => push_text(&mut s, name.as_str()),
            Token::Int(i) => push_int(&mut s, *i as i64),
            Token::Flt(m) => {
                let n: i128 = if *m < 0 {
                    push_text(&mut s, "-");
                    -(*m as i128)
                } else {
                    *m as i128
                };
                push_int(&mut s, (n / 1000) as i64);
                push_text(&mut s, ".");
                push_int(&mut s, ((n % 1000) / 100) as i64);
                push_int(&mut s, ((n % 100) / 10) as i64);
                push_int(&mut s, (n % 10) as i64);
            },
            Token::Bln(b) => push_text(&mut s, if *b { "true" } else { "false" }),
            Token::Str(t) => {
                push_text(&mut s, "\"");
                push_text(&mut s, t.as_str());
                push_text(&mut s, "\"");
            },
            Token::MCId(t) => {
                push_text(&mut s, "$");
                push_text(&mut s, t.as_str());
            },
            _ => push_text(&mut s, self.symbol()),
        }
        assert(s@ =~= token_text(*self));
        s
    }

    fn symbol(&self) -> (r: &'static str)
        ensures
            r@ == symbol_text(*self),
    {
        match self {
            Token::Asn => "=", Token::Add => "+", Token::Rem => "-", Token::Mul => "*", Token::Div => "/",
            Token::Sur => "%", Token::Eq => "==", Token::NEq => "!=", Token::LEt => "<=", Token::REt => ">=",
            Token::Lt => "<", Token::Gt => ">", Token::Neg => "!", Token::And => "&", Token::Or => "|",
            Token::Arr => "->", Token::FArr => "=>", Token::Comma => ",", Token::Dot => ".",
            Token::Semicolon => ";", Token::Colon => ":", Token::LParen => "(", Token::RParen => ")",
            Token::LBrace => "{", Token::RBrace => "}", Token::LBracket => "[", Token::RBracket => "]",
            Token::Let => "let", Token::Fn => "fn", Token::If => "if", Token::Else => "else",
            Token::While => "while", Token::For => "for", Token::IntType => "int", Token::FltType => "float",
            Token::BlnType => "bool", Token::NoneType => "none", Token::Return => "return",
            _ => "",
        }
    }

    /// The type that this token names, if it is a type keyword.
    pub fn to_type(&self) -> (r: Option<Type>)
        ensures
            r == keyword_type(*self),
    {
        match self {
            Token::IntType => Some(Type::Int),
            Token::FltType => Some(Type::Float),
            Token::BlnType => Some(Type::Bool),
            _ => None,
        }
    }
}

/// A token as the lexer's contract speaks of it: names and texts as character sequences, every
/// other token as itself.
pub enum TokView {
    Word(Seq<char>),
    Text(Seq<char>),
    Mc(Seq<char>),
    Other(Token),
}

impl View for Token {
    type V = TokView;

    open spec fn view(&self) -> TokView {
        match self {
            Token::Ident(s) => TokView::Word(s@),
            Token::Str(s) => TokView::Text(s@),
            Token::MCId(s) => TokView::Mc(s@),
            _ => TokView::Other(*self),
        }
    }
}

pub open spec fn toks_view(v: Seq<Token>) -> Seq<TokView> {
    v.map_values(|t: Token| t@)
}

pub open spec fn is_whitespace(c: char) -> bool {
    c == ' ' || c == '\n' || c == '\t' || c == '\r'
}

pub open spec fn is_digit(c: char) -> bool {
    '0' <= c <= '9'
}

pub open spec fn digit_val(c: char) -> nat {
    if c == '1' { 1 } else if c == '2' { 2 } else if c == '3' { 3 } else if c == '4' { 4 } else if c == '5' { 5 }
    else if c == '6' { 6 } else if c == '7' { 7 } else if c == '8' { 8 } else if c == '9' { 9 } else { 0 }
}

pub open spec fn delimiter_token(c: char) -> Option<Token> {
    if c == '.' { Some(Token::Dot) } else if c == ',' { Some(Token::Comma) } else if c == ';' { Some(Token::Semicolon) }
    else if c == ':' { Some(Token::Colon) } else if c == '(' { Some(Token::LParen) } else if c == ')' { Some(Token::RParen) }
    else if c == '{' { Some(Token::LBrace) } else if c == '}' { Some(Token::RBrace) } else if c == '[' { Some(Token::LBracket) }
    else if c == ']' { Some(Token::RBracket) } else { None }
}

/// The two-character operators `-> => == != <= >=`.
pub open spec fn operator2_token(c: char, d: char) -> Option<Token> {
    if c == '-' && d == '>' { Some(Token::Arr) } else if c == '=' && d == '>' { Some(Token::FArr) }
    else if c == '=' && d == '=' { Some(Token::Eq) } else if c == '!' && d == '=' { Some(Token::NEq) }
    else if c == '<' && d == '=' { Some(Token::LEt) } else if c == '>' && d == '=' { Some(Token::REt) } else { None }
}

pub open spec fn operator1_token(c: char) -> Option<Token> {
    if c == '=' { Some(Token::Asn) } else if c == '+' { Some(Token::Add) } else if c == '-' { Some(Token::Rem) }
    else if c == '*' { Some(Token::Mul) } else if c == '/' { Some(Token::Div) } else if c == '%' { Some(Token::Sur) }
    else if c == '<' { Some(Token::Lt) } else if c == '>' { Some(Token::Gt) } else if c == '!' { Some(Token::Neg) }
    else if c == '|' { Some(Token::Or) } else if c == '&' { Some(Token::And) } else { None }
}

/// Characters that continue an MCID.
pub open spec fn is_mcid_char(c: char) -> bool {
    !is_whitespace(c) && delimiter_token(c) is None && operator1_token(c) is None && c != '"' && c != '$'
}

/// Characters that start a word (an identifier or a keyword); after its first character a word
/// also takes digits.
pub open spec fn is_word_char(c: char) -> bool {
    is_mcid_char(c) && !is_digit(c)
}

/// The length of the longest prefix of `s` whose characters satisfy `p`.
pub open spec fn run(s: Seq<char>, p: spec_fn(char) -> bool) -> nat
    decreases s.len(),
{
    if s.len() > 0 && p(s[0]) {
        1 + run(s.skip(1), p)
    } else {
        0
    }
}

/// `k`, bounded by `n`.
pub open spec fn at_most(k: nat, n: nat) -> nat {
    if k <= n { k } else { n }
}

/// The value of a run of decimal digits.
pub open spec fn digits_value(ds: Seq<char>) -> nat
    decreases ds.len(),
{
    if ds.len() == 0 {
        0
    } else {
        digits_value(ds.drop_last()) * 10 + digit_val(ds.last())
    }
}

/// The bound at which the integer part of a float literal is held.
pub open spec fn float_int_cap() -> nat {
    1_000_000_000_000_000
}

/// The first three fraction digits as thousandths.
pub open spec fn thousandths(fd: Seq<char>) -> nat {
    (if fd.len() > 0 { digit_val(fd[0]) * 100 } else { 0 }) + (if fd.len() > 1 { digit_val(fd[1]) * 10 } else { 0 })
        + (if fd.len() > 2 { digit_val(fd[2]) } else { 0 })
}

/// The keyword, boolean literal or identifier that a word is.
pub open spec fn word_token(w: Seq<char>) -> TokView {
    if w == "let"@ { TokView::Other(Token::Let) } else if w == "fn"@ { TokView::Other(Token::Fn) }
    else if w == "if"@ { TokView::Other(Token::If) } else if w == "else"@ { TokView::Other(Token::Else) }
    else if w == "while"@ { TokView::Other(Token::While) } else if w == "for"@ { TokView::Other(Token::For) }
    else if w == "int"@ { TokView::Other(Token::IntType) } else if w == "float"@ { TokView::Other(Token::FltType) }
    else if w == "bool"@ { TokView::Other(Token::BlnType) } else if w == "none"@ { TokView::Other(Token::NoneType) }
    else if w == "return"@ { TokView::Other(Token::Return) } else if w == "true"@ { TokView::Other(Token::Bln(true)) }
    else if w == "false"@ { TokView::Other(Token::Bln(false)) } else { TokView::Word(w) }
}

/// The number at the front of `s` (which starts with a digit): its token, if it has one, and its
/// length. A `.` followed by a digit starts a fraction; an integer beyond `i32` gives no token.
pub open spec fn number_at(s: Seq<char>) -> (Option<TokView>, nat) {
    let k = run(s, |c: char| is_digit(c));
    let int_part = digits_value(s.take(k as int));
    if k + 1 < s.len() && s[k as int] == '.' && is_digit(s[k + 1int]) {
        let fd = s.skip(k + 1int);
        let f = run(fd, |c: char| is_digit(c));
        let capped = if int_part > float_int_cap() { float_int_cap() } else { int_part };
        (Some(TokView::Other(Token::Flt((capped * 1000 + thousandths(fd.take(f as int))) as i64))), k + 1 + f)
    } else if int_part <= i32::MAX {
        (Some(TokView::Other(Token::Int(int_part as i32))), k)
    } else {
        (None, k)
    }
}

/// The tokens of a source text: whitespace separates; delimiters and operators (two-character
/// ones first) stand alone; `"..."` is a string (to the end of the text when unclosed); `$...` an
/// MCID up to the next separator; numbers start with a digit; anything else runs as a word.
pub open spec fn lex(s: Seq<char>) -> Seq<TokView>
    decreases s.len(),
{
    if s.len() == 0 {
        Seq::empty()
    } else {
        let c = s[0];
        if is_whitespace(c) {
            lex(s.skip(1))
        } else if delimiter_token(c) is Some {
            seq![TokView::Other(delimiter_token(c)->Some_0)] + lex(s.skip(1))
        } else if s.len() > 1 && operator2_token(c, s[1]) is Some {
            seq![TokView::Other(operator2_token(c, s[1])->Some_0)] + lex(s.skip(2))
        } else if operator1_token(c) is Some {
            seq![TokView::Other(operator1_token(c)->Some_0)] + lex(s.skip(1))
        } else if c == '"' {
            let body = s.skip(1);
            let k = run(body, |c: char| c != '"');
            if k < body.len() {
                seq![TokView::Text(body.take(k as int))] + lex(body.skip(k + 1int))
            } else {
                seq![TokView::Text(body)]
            }
        } else if c == '$' {
            let body = s.skip(1);
            let k = at_most(run(body, |c: char| is_mcid_char(c)), body.len());
            if k > 0 {
                seq![TokView::Mc(body.take(k as int))] + lex(body.skip(k as int))
            } else {
                lex(body)
            }
        } else if is_digit(c) {
            let (t, n) = number_at(s);
            let k = at_most(n, s.len());
            if k == 0 {
                Seq::empty()
            } else {
                match t {
                    Some(t) => seq![t] + lex(s.skip(k as int)),
                    None => lex(s.skip(k as int)),
                }
            }
        } else {
            let k = at_most(run(s, |c: char| is_mcid_char(c)), s.len());
            if k == 0 {
                Seq::empty()
            } else {
                seq![word_token(s.take(k as int))] + lex(s.skip(k as int))
            }
        }
    }
}

/// What a character run continues over.
pub enum RunKind {
    Digit,
    Mcid,
    NotQuote,
}

pub open spec fn kind_pred(kind: RunKind) -> spec_fn(char) -> bool {
    match kind {
        RunKind::Digit => |c: char| is_digit(c),
        RunKind::Mcid => |c: char| is_mcid_char(c),
        RunKind::NotQuote => |c: char| c != '"',
    }
}

proof fn lemma_run_exact(s: Seq<char>, p: spec_fn(char) -> bool, k: int)
    requires
        0 <= k <= s.len(),
        forall|m: int| 0 <= m < k ==> p(#[trigger] s[m]),
        k == s.len() || !p(s[k]),
    ensures
        run(s, p) == k,
    decreases k,
{
    if k > 0 {
        let t = s.skip(1);
        assert forall|m: int| 0 <= m < k - 1 implies p(#[trigger] t[m]) by {
            assert(t[m] == s[m + 1]);
        }
        if k < s.len() {
            assert(t[k - 1] == s[k]);
        }
        lemma_run_exact(t, p, k - 1);
    }
}

fn is_whitespace_char(c: char) -> (r: bool)
    ensures
        r == is_whitespace(c),
{
    c == ' ' || c == '\n' || c == '\t' || c == '\r'
}

fn is_digit_char(c: char) -> (r: bool)
    ensures
        r == is_digit(c),
{
    '0' <= c && c <= '9'
}

fn digit_value(c: char) -> (r: u64)
    ensures
        r == digit_val(c),
{
    if c == '1' { 1 } else if c == '2' { 2 } else if c == '3' { 3 } else if c == '4' { 4 } else if c == '5' { 5 }
    else if c == '6' { 6 } else if c == '7' { 7 } else if c == '8' { 8 } else if c == '9' { 9 } else { 0 }
}

/// The delimiter token of a character.
fn delimiter(c: char) -> (r: Option<Token>)
    ensures
        r == delimiter_token(c),
{
    if c == '.' { Some(Token::Dot) } else if c == ',' { Some(Token::Comma) } else if c == ';' { Some(Token::Semicolon) }
    else if c == ':' { Some(Token::Colon) } else if c == '(' { Some(Token::LParen) } else if c == ')' { Some(Token::RParen) }
    else if c == '{' { Some(Token::LBrace) } else if c == '}' { Some(Token::RBrace) } else if c == '[' { Some(Token::LBracket) }
    else if c == ']' { Some(Token::RBracket) } else { None }
}

/// The two-character operator that `c` and `d` spell, if any.
fn operator2(c: char, d: char) -> (r: Option<Token>)
    ensures
        r == operator2_token(c, d),
{
    if c == '-' && d == '>' { Some(Token::Arr) } else if c == '=' && d == '>' { Some(Token::FArr) }
    else if c == '=' && d == '=' { Some(Token::Eq) } else if c == '!' && d == '=' { Some(Token::NEq) }
    else if c == '<' && d == '=' { Some(Token::LEt) } else if c == '>' && d == '=' { Some(Token::REt) } else { None }
}

/// The one-character operator of `c`, if any.
fn operator1(c: char) -> (r: Option<Token>)
    ensures
        r == operator1_token(c),
{
    if c == '=' { Some(Token::Asn) } else if c == '+' { Some(Token::Add) } else if c == '-' { Some(Token::Rem) }
    else if c == '*' { Some(Token::Mul) } else if c == '/' { Some(Token::Div) } else if c == '%' { Some(Token::Sur) }
    else if c == '<' { Some(Token::Lt) } else if c == '>' { Some(Token::Gt) } else if c == '!' { Some(Token::Neg) }
    else if c == '|' { Some(Token::Or) } else if c == '&' { Some(Token::And) } else { None }
}

fn continues(c: char, kind: &RunKind) -> (r: bool)
    ensures
        r == (kind_pred(*kind))(c),
{
    match kind {
        RunKind::Digit => is_digit_char(c),
        RunKind::NotQuote => c != '"',
        RunKind::Mcid => !is_whitespace_char(c) && delimiter(c).is_none() && operator1(c).is_none() && c != '"' && c != '$',
    }
}

/// The end of the run of `kind` that starts at `start`.
fn run_end(s: &str, n: usize, start: usize, kind: RunKind) -> (j: usize)
    requires
        n == s@.len(),
        start <= n,
    ensures
        start <= j <= n,
        run(s@.skip(start as int), kind_pred(kind)) == j - start,
{
    let mut j = start;
    while j < n && continues(s.get_char(j), &kind)
        invariant
            n == s@.len(),
            start <= j <= n,
            forall|m: int| start <= m < j ==> (kind_pred(kind))(#[trigger] s@[m]),
        decreases n - j,
    {
        j = j + 1;
    }
    proof {
        let t = s@.skip(start as int);
        assert forall|m: int| 0 <= m < j - start implies (kind_pred(kind))(#[trigger] t[m]) by {
            assert(t[m] == s@[start + m]);
        }
        if j < n {
            assert(t[j - start] == s@[j as int]);
        }
        lemma_run_exact(t, kind_pred(kind), j - start);
    }
    j
}

/// The keyword, boolean literal or identifier that a word is.
fn solve_a_word(w: String) -> (r: Token)
    ensures
        r@ == word_token(w@),
{
    if text_eq(&w, "let") { Token::Let } else if text_eq(&w, "fn") { Token::Fn }
    else if text_eq(&w, "if") { Token::If } else if text_eq(&w, "else") { Token::Else }
    else if text_eq(&w, "while") { Token::While } else if text_eq(&w, "for") { Token::For }
    else if text_eq(&w, "int") { Token::IntType } else if text_eq(&w, "float") { Token::FltType }
    else if text_eq(&w, "bool") { Token::BlnType } else if text_eq(&w, "none") { Token::NoneType }
    else if text_eq(&w, "return") { Token::Return } else if text_eq(&w, "true") { Token::Bln(true) }
    else if text_eq(&w, "false") { Token::Bln(false) } else { Token::Ident(w) }
}

/// The value of the digits `s[from..to]`, held at `float_int_cap()`.
fn capped_digits(s: &str, from: usize, to: usize) -> (r: u64)
    requires
        from <= to <= s@.len(),
        forall|m: int| from <= m < to ==> is_digit(#[trigger] s@[m]),
    ensures
        r as nat == if digits_value(s@.subrange(from as int, to as int)) > float_int_cap() {
            float_int_cap()
        } else {
            digits_value(s@.subrange(from as int, to as int))
        },
{
    let cap: u64 = 1_000_000_000_000_000;
    let mut v: u64 = 0;
    let mut j = from;
    assert(s@.subrange(from as int, from as int) =~= Seq::<char>::empty());
    while j < to
        invariant
            from <= j <= to <= s@.len(),
            cap as nat == float_int_cap(),
            forall|m: int| from <= m < to ==> is_digit(#[trigger] s@[m]),
            v as nat == if digits_value(s@.subrange(from as int, j as int)) > float_int_cap() {
                float_int_cap()
            } else {
                digits_value(s@.subrange(from as int, j as int))
            },
        decreases to - j,
    {
        let c = s.get_char(j);
        let d = digit_value(c);
        let ghost x = digits_value(s@.subrange(from as int, j as int));
        let ghost sub = s@.subrange(from as int, j + 1);
        assert(sub.drop_last() =~= s@.subrange(from as int, j as int));
        assert(sub.last() == c);
        let ghost y = digits_value(sub);
        assert(y == x * 10 + d);
        let ghost v0 = v;
        let w: u64 = v * 10 + d;
        assert(w == v0 * 10 + d);
        assert(cap == float_int_cap());
        v = if w > cap { cap } else { w };
        proof {
            if x <= float_int_cap() {
                assert(v0 == x);
                assert(w == y);
            } else {
                assert(v0 == float_int_cap());
                assert(w > cap) by (nonlinear_arith)
                    requires w == v0 * 10 + d, v0 == cap, cap > 0;
                assert(y > float_int_cap()) by (nonlinear_arith)
                    requires x > float_int_cap(), y == x * 10 + d, d >= 0;
            }
        }
        j = j + 1;
    }
    v
}

proof fn lemma_skip_skip(s: Seq<char>, a: int, b: int)
    requires
        0 <= a,
        0 <= b,
        a + b <= s.len(),
    ensures
        s.skip(a).skip(b) == s.skip(a + b),
{
    assert(s.skip(a).skip(b) =~= s.skip(a + b));
}

/// The characters before `i` were read, none of the earlier cases of the lexer applies at `i`.
pub open spec fn plain_at(s: Seq<char>, i: int) -> bool {
    &&& 0 <= i < s.len()
    &&& !is_whitespace(s[i])
    &&& delimiter_token(s[i]) is None
    &&& !(i + 1 < s.len() && operator2_token(s[i], s[i + 1]) is Some)
    &&& operator1_token(s[i]) is None
}

/// One lexeme read: the tokens so far, then the rest, still give the whole text's tokens.
pub open spec fn lexed(s: Seq<char>, before: Seq<Token>, i: int, after: Seq<Token>, j: int) -> bool {
    toks_view(after) + lex(s.skip(j)) == toks_view(before) + lex(s.skip(i))
}

fn lex_string(s: &str, n: usize, i: usize, tokens: &mut Vec<Token>) -> (j: usize)
    requires
        n == s@.len(),
        plain_at(s@, i as int),
        s@[i as int] == '"',
    ensures
        i < j <= n,
        lexed(s@, old(tokens)@, i as int, final(tokens)@, j as int),
{
    let ghost t = s@.skip(i as int);
    let ghost done = toks_view(tokens@);
    assert(t[0] == s@[i as int]);
    proof {
        if t.len() > 1 {
            assert(t[1] == s@[i + 1]);
        }
    }
    let j = run_end(s, n, i + 1, RunKind::NotQuote);
    let content = s.substring_char(i + 1, j).to_string();
    let ghost body = t.skip(1);
    proof {
        lemma_skip_skip(s@, i as int, 1);
        assert(body.take(j - i - 1) =~= s@.subrange(i + 1, j as int));
    }
    let ghost v = TokView::Text(content@);
    tokens.push(Token::Str(content));
    if j < n {
        proof {
            lemma_skip_skip(s@, i + 1, j - i);
            assert(toks_view(tokens@) =~= done.push(v));
            assert(toks_view(tokens@) + lex(s@.skip(j + 1)) =~= done + lex(t));
        }
        j + 1
    } else {
        proof {
            assert(body.take(j - i - 1) =~= body);
            assert(s@.skip(n as int) =~= Seq::<char>::empty());
            assert(toks_view(tokens@) =~= done.push(v));
            assert(toks_view(tokens@) + lex(s@.skip(n as int)) =~= done + lex(t));
        }
        n
    }
}

fn lex_mcid(s: &str, n: usize, i: usize, tokens: &mut Vec<Token>) -> (j: usize)
    requires
        n == s@.len(),
        plain_at(s@, i as int),
        s@[i as int] == '$',
    ensures
        i < j <= n,
        lexed(s@, old(tokens)@, i as int, final(tokens)@, j as int),
{
    let ghost t = s@.skip(i as int);
    let ghost done = toks_view(tokens@);
    assert(t[0] == s@[i as int]);
    proof {
        if t.len() > 1 {
            assert(t[1] == s@[i + 1]);
        }
    }
    let j = run_end(s, n, i + 1, RunKind::Mcid);
    proof {
        lemma_skip_skip(s@, i as int, 1);
        lemma_skip_skip(s@, i + 1, j - i - 1);
    }
    if j > i + 1 {
        let id = s.substring_char(i + 1, j).to_string();
        let ghost v = TokView::Mc(id@);
        tokens.push(Token::MCId(id));
        proof {
            assert(t.skip(1).take(j - i - 1) =~= s@.subrange(i + 1, j as int));
            assert(toks_view(tokens@) =~= done.push(v));
            assert(toks_view(tokens@) + lex(s@.skip(j as int)) =~= done + lex(t));
        }
    }
    j
}

fn lex_word(s: &str, n: usize, i: usize, tokens: &mut Vec<Token>) -> (j: usize)
    requires
        n == s@.len(),
        plain_at(s@, i as int),
        s@[i as int] != '"',
        s@[i as int] != '$',
        !is_digit(s@[i as int]),
    ensures
        i < j <= n,
        lexed(s@, old(tokens)@, i as int, final(tokens)@, j as int),
{
    let ghost t = s@.skip(i as int);
    let ghost done = toks_view(tokens@);
    assert(t[0] == s@[i as int]);
    proof {
        if t.len() > 1 {
            assert(t[1] == s@[i + 1]);
        }
    }
    let k = run_end(s, n, i, RunKind::Mcid);
    proof {
        assert((kind_pred(RunKind::Mcid))(t[0]));
        assert(k > i);
        lemma_skip_skip(s@, i as int, k - i);
        assert(t.take(k - i) =~= s@.subrange(i as int, k as int));
    }
    let word = s.substring_char(i, k).to_string();
    let tok = solve_a_word(word);
    let ghost tv = tok@;
    tokens.push(tok);
    proof {
        assert(toks_view(tokens@) =~= done.push(tv));
        assert(toks_view(tokens@) + lex(s@.skip(k as int)) =~= done + lex(t));
    }
    k
}

#[verifier::rlimit(50)]
fn lex_number(s: &str, n: usize, i: usize, tokens: &mut Vec<Token>) -> (j: usize)
    requires
        n == s@.len(),
        plain_at(s@, i as int),
        is_digit(s@[i as int]),
    ensures
        i < j <= n,
        lexed(s@, old(tokens)@, i as int, final(tokens)@, j as int),
{
    let ghost t = s@.skip(i as int);
    let ghost done = toks_view(tokens@);
    assert(t[0] == s@[i as int]);
    proof {
        if t.len() > 1 {
            assert(t[1] == s@[i + 1]);
        }
    }
    let k = run_end(s, n, i, RunKind::Digit);
    proof {
        lemma_run_exact_digit_start(t);
        assert forall|m: int| i <= m < k implies is_digit(#[trigger] s@[m]) by {
            assert(s@[m] == t[m - i]);
            lemma_run_prefix(t, kind_pred(RunKind::Digit), m - i);
        }
        assert(t.take(k - i) =~= s@.subrange(i as int, k as int));
    }
    let v = capped_digits(s, i, k);
    let is_float = n - k > 1 && s.get_char(k) == '.' && is_digit_char(s.get_char(k + 1));
    proof {
        if n - k > 1 {
            assert(t[k - i] == s@[k as int]);
            assert(t[k - i + 1] == s@[k + 1]);
        }
    }
    if is_float {
        let f_end = run_end(s, n, k + 1, RunKind::Digit);
        let ghost fd = t.skip(k - i + 1);
        proof {
            lemma_skip_skip(s@, i as int, k - i + 1);
            assert forall|m: int| k + 1 <= m < f_end implies is_digit(#[trigger] s@[m]) by {
                assert(s@[m] == fd[m - k - 1]);
                lemma_run_prefix(fd, kind_pred(RunKind::Digit), m - k - 1);
            }
        }
        let f = f_end - (k + 1);
        let d0 = if f > 0 { digit_value(s.get_char(k + 1)) } else { 0 };
        let d1 = if f > 1 { digit_value(s.get_char(k + 2)) } else { 0 };
        let d2 = if f > 2 { digit_value(s.get_char(k + 3)) } else { 0 };
        proof {
            let ft = fd.take(f as int);
            if f > 0 { assert(ft[0] == s@[k + 1]); }
            if f > 1 { assert(ft[1] == s@[k + 2]); }
            if f > 2 { assert(ft[2] == s@[k + 3]); }
            assert(thousandths(ft) == d0 * 100 + d1 * 10 + d2);
        }
        let milli: u64 = v * 1000 + d0 * 100 + d1 * 10 + d2;
        let ghost tv = TokView::Other(Token::Flt(milli as i64));
        tokens.push(Token::Flt(milli as i64));
        proof {
            lemma_skip_skip(s@, i as int, f_end - i);
            assert(toks_view(tokens@) =~= done.push(tv));
            assert(toks_view(tokens@) + lex(s@.skip(f_end as int)) =~= done + lex(t));
        }
        f_end
    } else {
        proof {
            lemma_skip_skip(s@, i as int, k - i);
        }
        if v <= 2147483647 {
            let ghost tv = TokView::Other(Token::Int(v as i32));
            tokens.push(Token::Int(v as i32));
            proof {
                assert(toks_view(tokens@) =~= done.push(tv));
                assert(toks_view(tokens@) + lex(s@.skip(k as int)) =~= done + lex(t));
            }
        }
        k
    }
}

proof fn lemma_run_exact_digit_start(t: Seq<char>)
    requires
        t.len() > 0,
        is_digit(t[0]),
    ensures
        run(t, kind_pred(RunKind::Digit)) >= 1,
{
}

/// Reads the lexeme at `i`.
fn lex_one(s: &str, n: usize, i: usize, tokens: &mut Vec<Token>) -> (j: usize)
    requires
        n == s@.len(),
        i < n,
    ensures
        i < j <= n,
        lexed(s@, old(tokens)@, i as int, final(tokens)@, j as int),
{
    let ghost t = s@.skip(i as int);
    let ghost done = toks_view(tokens@);
    let c = s.get_char(i);
    assert(t[0] == c);
    assert(t.len() == n - i);
    proof {
        if t.len() > 1 {
            assert(t[1] == s@[i + 1]);
        }
    }
    if is_whitespace_char(c) {
        proof { lemma_skip_skip(s@, i as int, 1); }
        return i + 1;
    }
    if let Some(tok) = delimiter(c) {
        let ghost v = tok@;
        tokens.push(tok);
        proof {
            lemma_skip_skip(s@, i as int, 1);
            assert(toks_view(tokens@) =~= done.push(v));
            assert(toks_view(tokens@) + lex(s@.skip(i + 1)) =~= done + lex(t));
        }
        return i + 1;
    }
    let two = if n - i > 1 { operator2(c, s.get_char(i + 1)) } else { None };
    if let Some(tok) = two {
        let ghost v = tok@;
        tokens.push(tok);
        proof {
            lemma_skip_skip(s@, i as int, 2);
            assert(toks_view(tokens@) =~= done.push(v));
            assert(toks_view(tokens@) + lex(s@.skip(i + 2)) =~= done + lex(t));
        }
        return i + 2;
    }
    if let Some(tok) = operator1(c) {
        let ghost v = tok@;
        tokens.push(tok);
        proof {
            lemma_skip_skip(s@, i as int, 1);
            assert(toks_view(tokens@) =~= done.push(v));
            assert(toks_view(tokens@) + lex(s@.skip(i + 1)) =~= done + lex(t));
        }
        return i + 1;
    }
    if c == '"' {
        lex_string(s, n, i, tokens)
    } else if c == '$' {
        lex_mcid(s, n, i, tokens)
    } else if is_digit_char(c) {
        lex_number(s, n, i, tokens)
    } else {
        lex_word(s, n, i, tokens)
    }
}

/// Splits a source text into tokens.
pub fn tokenize(input: String) -> (r: Vec<Token>)
    ensures
        toks_view(r@) == lex(input@),
{
    let s = input.as_str();
    let n = s.unicode_len();
    let mut tokens: Vec<Token> = Vec::new();
    let mut i: usize = 0;
    assert(s@.skip(0) =~= s@);
    assert(toks_view(tokens@) =~= Seq::<TokView>::empty());
    while i < n
        invariant
            n == s@.len(),
            s@ == input@,
            i <= n,
            toks_view(tokens@) + lex(s@.skip(i as int)) == lex(s@),
        decreases n - i,
    {
        i = lex_one(s, n, i, &mut tokens);
    }
    assert(s@.skip(n as int) =~= Seq::<char>::empty());
    assert(toks_view(tokens@) =~= toks_view(tokens@) + lex(s@.skip(n as int)));
    tokens
}

proof fn lemma_run_prefix(s: Seq<char>, p: spec_fn(char) -> bool, m: int)
    requires
        0 <= m < run(s, p),
    ensures
        p(s[m]),
    decreases m,
{
    if m > 0 {
        lemma_run_prefix(s.skip(1), p, m - 1);
        lemma_run_le(s.skip(1), p);
        assert(s.skip(1)[m - 1] == s[m]);
    }
}

proof fn lemma_run_le(s: Seq<char>, p: spec_fn(char) -> bool)
    ensures
        run(s, p) <= s.len(),
    decreases s.len(),
{
    if s.len() > 0 && p(s[0]) {
        lemma_run_le(s.skip(1), p);
    }
}

} // verus!
