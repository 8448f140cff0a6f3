//! Rendering tokens as text, and the law that lexing the rendering gives the tokens back.
use vstd::prelude::*;
use crate::text::{nat_text, digit_char};
use crate::tokeniser::{
    Token, TokView, lex, run, is_word_char, is_mcid_char, is_digit, digit_val, digits_value, word_token, number_at, delimiter_token,
    operator1_token, operator2_token, is_whitespace, at_most, float_int_cap, thousandths,
};

verus! {

/// The text of a keyword, a boolean literal, an operator or a delimiter.
pub open spec fn fixed_text(t: Token) -> Option<Seq<char>> {
    match t {
        Token::Asn => Some(seq!['=']),
        Token::Add => Some(seq!['+']),
        Token::Rem => Some(seq!['-']),
        Token::Mul => Some(seq!['*']),
        Token::Div => Some(seq!['/']),
        Token::Sur => Some(seq!['%']),
        Token::Eq => Some(seq!['=', '=']),
        Token::NEq => Some(seq!['!', '=']),
        Token::LEt => Some(seq!['<', '=']),
        Token::REt => Some(seq!['>', '=']),
        Token::Lt => Some(seq!['<']),
        Token::Gt => Some(seq!['>']),
        Token::Neg => Some(seq!['!']),
        Token::And => Some(seq!['&']),
        Token::Or => Some(seq!['|']),
        Token::Arr => Some(seq!['-', '>']),
        Token::FArr => Some(seq!['=', '>']),
        Token::Comma => Some(seq![',']),
        Token::Dot => Some(seq!['.']),
        Token::Semicolon => Some(seq![';']),
        Token::Colon => Some(seq![':']),
        Token::LParen => Some(seq!['(']),
        Token::RParen => Some(seq![')']),
        Token::LBrace => Some(seq!['{']),
        Token::RBrace => Some(seq!['}']),
        Token::LBracket => Some(seq!['[']),
        Token::RBracket => Some(seq![']']),
        Token::Let => Some("let"@),
        Token::Fn => Some("fn"@),
        Token::If => Some("if"@),
        Token::Else => Some("else"@),
        Token::While => Some("while"@),
        Token::For => Some("for"@),
        Token::IntType => Some("int"@),
        Token::FltType => Some("float"@),
        Token::BlnType => Some("bool"@),
        Token::NoneType => Some("none"@),
        Token::Return => Some("return"@),
        Token::Bln(true) => Some("true"@),
        Token::Bln(false) => Some("false"@),
        _ => None,
    }
}

/// The three digits of the thousandths of `m`.
pub open spec fn milli_digits(m: nat) -> Seq<char> {
    seq![digit_char((m % 1000) / 100), digit_char((m % 100) / 10), digit_char(m % 10)]
}

/// Tokens with one rendering that lexes back to them: fixed tokens, non-negative integers,
/// non-negative floats up to the lexer's bound, and names that are not keywords, start with a
/// word character and go on with word characters or digits. Strings and MCIDs are left out.
pub open spec fn renderable(t: TokView) -> bool {
    match t {
        TokView::Word(w) => w.len() > 0 && is_word_char(w[0]) && (forall|i: int| 0 <= i < w.len() ==> is_mcid_char(#[trigger] w[i]))
            && word_token(w) == TokView::Word(w),
        TokView::Other(Token::Int(i)) => i >= 0,
        TokView::Other(Token::Flt(m)) => 0 <= m && m / 1000 <= float_int_cap(),
        TokView::Other(t) => fixed_text(t) is Some,
        _ => false,
    }
}

/// The text of a token.
pub open spec fn render_token(t: TokView) -> Seq<char> {
    match t {
        TokView::Word(w) => w,
        TokView::Other(Token::Int(i)) => nat_text(i as nat),
        TokView::Other(Token::Flt(m)) => nat_text((m / 1000) as nat) + seq!['.'] + milli_digits(m as nat),
        TokView::Other(t) => fixed_text(t)->Some_0,
        _ => Seq::empty(),
    }
}

/// Tokens as text, each followed by a space.
pub open spec fn render(ts: Seq<TokView>) -> Seq<char>
    decreases ts.len(),
{
    if ts.len() == 0 {
        Seq::empty()
    } else {
        render_token(ts[0]) + seq![' '] + render(ts.skip(1))
    }
}

proof fn lemma_digit_char(d: nat)
    requires
        d < 10,
    ensures
        is_digit(digit_char(d)),
        digit_val(digit_char(d)) == d,
{
}

proof fn lemma_nat_text_digits(n: nat)
    ensures
        nat_text(n).len() > 0,
        forall|i: int| 0 <= i < nat_text(n).len() ==> is_digit(#[trigger] nat_text(n)[i]),
        digits_value(nat_text(n)) == n,
    decreases n,
{
    lemma_digit_char(n % 10);
    let t = nat_text(n);
    if n >= 10 {
        lemma_nat_text_digits(n / 10);
        assert(t.drop_last() =~= nat_text(n / 10));
        assert(t.last() == digit_char(n % 10));
        assert(forall|i: int| 0 <= i < t.len() - 1 ==> t[i] == nat_text(n / 10)[i]);
        assert(digits_value(t) == digits_value(nat_text(n / 10)) * 10 + digit_val(t.last()));
        assert((n / 10) * 10 + n % 10 == n);
    } else {
        assert(t.drop_last() =~= Seq::<char>::empty());
        assert(t.last() == digit_char(n));
        assert(digits_value(t) == digits_value(t.drop_last()) * 10 + digit_val(t.last()));
    }
}

proof fn lemma_run_exact_at(s: Seq<char>, p: spec_fn(char) -> bool, k: int)
    requires
        0 <= k < s.len(),
        forall|m: int| 0 <= m < k ==> p(#[trigger] s[m]),
        !p(s[k]),
    ensures
        run(s, p) == k,
    decreases k,
{
    if k > 0 {
        let t = s.skip(1);
        assert forall|m: int| 0 <= m < k - 1 implies p(#[trigger] t[m]) by {
            assert(t[m] == s[m + 1]);
        }
        assert(t[k - 1] == s[k]);
        lemma_run_exact_at(t, p, k - 1);
    }
}

proof fn lemma_lex_space(rest: Seq<char>)
    ensures
        lex(seq![' '] + rest) == lex(rest),
{
    let s = seq![' '] + rest;
    assert(s[0] == ' ');
    assert(s.skip(1) =~= rest);
}

/// A run of word characters followed by a space lexes as one word.
proof fn lemma_lex_word(w: Seq<char>, rest: Seq<char>)
    requires
        w.len() > 0,
        is_word_char(w[0]),
        forall|i: int| 0 <= i < w.len() ==> is_mcid_char(#[trigger] w[i]),
    ensures
        lex(w + seq![' '] + rest) == seq![word_token(w)] + lex(rest),
{
    let s = w + seq![' '] + rest;
    assert(s[0] == w[0]);
    assert(is_word_char(w[0]));
    assert forall|m: int| 0 <= m < w.len() implies (|c: char| is_mcid_char(c))(#[trigger] s[m]) by {
        assert(s[m] == w[m]);
    }
    assert(s[w.len() as int] == ' ');
    lemma_run_exact_at(s, |c: char| is_mcid_char(c), w.len() as int);
    assert(s.take(w.len() as int) =~= w);
    assert(s.skip(w.len() as int) =~= seq![' '] + rest);
    lemma_lex_space(rest);
    if s.len() > 1 {
        assert(s[1] == if w.len() > 1 { w[1] } else { ' ' });
    }
    let k = at_most(run(s, |c: char| is_mcid_char(c)), s.len());
    assert(k == w.len());
    assert(lex(s) == seq![word_token(s.take(k as int))] + lex(s.skip(k as int)));
}

/// An integer's digits followed by a space lex as that integer.
proof fn lemma_lex_int(i: i32, rest: Seq<char>)
    requires
        i >= 0,
    ensures
        lex(nat_text(i as nat) + seq![' '] + rest) == seq![TokView::Other(Token::Int(i))] + lex(rest),
{
    let d = nat_text(i as nat);
    lemma_nat_text_digits(i as nat);
    let s = d + seq![' '] + rest;
    assert(s[0] == d[0]);
    assert(is_digit(d[0]));
    assert forall|m: int| 0 <= m < d.len() implies (|c: char| is_digit(c))(#[trigger] s[m]) by {
        assert(s[m] == d[m]);
    }
    assert(s[d.len() as int] == ' ');
    lemma_run_exact_at(s, |c: char| is_digit(c), d.len() as int);
    assert(s.take(d.len() as int) =~= d);
    assert(s.skip(d.len() as int) =~= seq![' '] + rest);
    lemma_lex_space(rest);
    let (t, n) = number_at(s);
    assert(n == d.len());
    assert(t == Some(TokView::Other(Token::Int(i))));
    if s.len() > 1 {
        assert(s[1] == if d.len() > 1 { d[1] } else { ' ' });
    }
    assert(lex(s) == seq![TokView::Other(Token::Int(i))] + lex(s.skip(n as int)));
}

/// A float's rendering followed by a space lexes as that float.
proof fn lemma_lex_flt(m: i64, rest: Seq<char>)
    requires
        0 <= m,
        m / 1000 <= float_int_cap(),
    ensures
        lex(render_token(TokView::Other(Token::Flt(m))) + seq![' '] + rest) == seq![TokView::Other(Token::Flt(m))]
            + lex(rest),
{
    let q = (m / 1000) as nat;
    let d = nat_text(q);
    let f = milli_digits(m as nat);
    lemma_nat_text_digits(q);
    lemma_digit_char(((m as nat) % 1000) / 100);
    lemma_digit_char(((m as nat) % 100) / 10);
    lemma_digit_char((m as nat) % 10);
    let s = d + seq!['.'] + f + seq![' '] + rest;
    assert(render_token(TokView::Other(Token::Flt(m))) + seq![' '] + rest =~= s);
    let k = d.len() as int;
    assert(s[0] == d[0]);
    assert forall|j: int| 0 <= j < k implies (|c: char| is_digit(c))(#[trigger] s[j]) by {
        assert(s[j] == d[j]);
    }
    assert(s[k] == '.');
    lemma_run_exact_at(s, |c: char| is_digit(c), k);
    assert(s.take(k) =~= d);
    let fd = s.skip(k + 1);
    assert(fd =~= f + seq![' '] + rest);
    assert(fd[0] == f[0] && fd[1] == f[1] && fd[2] == f[2] && fd[3] == ' ');
    assert(s[k + 1] == f[0]);
    assert forall|j: int| 0 <= j < 3 implies (|c: char| is_digit(c))(#[trigger] fd[j]) by {}
    lemma_run_exact_at(fd, |c: char| is_digit(c), 3);
    assert(fd.take(3) =~= f);
    assert(thousandths(f) == (m as nat) % 1000) by {
        assert(((m as nat) % 1000) / 100 * 100 + ((m as nat) % 100) / 10 * 10 + (m as nat) % 10 == (m as nat) % 1000)
            by (nonlinear_arith);
    }
    assert(q * 1000 + (m as nat) % 1000 == m) by (nonlinear_arith)
        requires q == m / 1000, m >= 0;
    let (t, n) = number_at(s);
    assert(n == k + 4);
    assert(t == Some(TokView::Other(Token::Flt(m))));
    assert(s.skip(k + 4) =~= seq![' '] + rest);
    lemma_lex_space(rest);
    if s.len() > 1 {
        assert(s[1] == if d.len() > 1 { d[1] } else { '.' });
    }
    assert(lex(s) == seq![TokView::Other(Token::Flt(m))] + lex(s.skip(n as int)));
}

proof fn lemma_reveal_keywords()
    ensures
        "let"@ == seq!['l', 'e', 't'],
        "fn"@ == seq!['f', 'n'],
        "if"@ == seq!['i', 'f'],
        "else"@ == seq!['e', 'l', 's', 'e'],
        "while"@ == seq!['w', 'h', 'i', 'l', 'e'],
        "for"@ == seq!['f', 'o', 'r'],
        "int"@ == seq!['i', 'n', 't'],
        "float"@ == seq!['f', 'l', 'o', 'a', 't'],
        "bool"@ == seq!['b', 'o', 'o', 'l'],
        "none"@ == seq!['n', 'o', 'n', 'e'],
        "return"@ == seq!['r', 'e', 't', 'u', 'r', 'n'],
        "true"@ == seq!['t', 'r', 'u', 'e'],
        "false"@ == seq!['f', 'a', 'l', 's', 'e'],
{
    reveal_strlit("let");
    reveal_strlit("fn");
    reveal_strlit("if");
    reveal_strlit("else");
    reveal_strlit("while");
    reveal_strlit("for");
    reveal_strlit("int");
    reveal_strlit("float");
    reveal_strlit("bool");
    reveal_strlit("none");
    reveal_strlit("return");
    reveal_strlit("true");
    reveal_strlit("false");
    assert("let"@ =~= seq!['l', 'e', 't']);
    assert("fn"@ =~= seq!['f', 'n']);
    assert("if"@ =~= seq!['i', 'f']);
    assert("else"@ =~= seq!['e', 'l', 's', 'e']);
    assert("while"@ =~= seq!['w', 'h', 'i', 'l', 'e']);
    assert("for"@ =~= seq!['f', 'o', 'r']);
    assert("int"@ =~= seq!['i', 'n', 't']);
    assert("float"@ =~= seq!['f', 'l', 'o', 'a', 't']);
    assert("bool"@ =~= seq!['b', 'o', 'o', 'l']);
    assert("none"@ =~= seq!['n', 'o', 'n', 'e']);
    assert("return"@ =~= seq!['r', 'e', 't', 'u', 'r', 'n']);
    assert("true"@ =~= seq!['t', 'r', 'u', 'e']);
    assert("false"@ =~= seq!['f', 'a', 'l', 's', 'e']);
}

proof fn lemma_lex_symbol(t: Token, rest: Seq<char>)
    requires
        fixed_text(t) is Some,
        !(t is Let || t is Fn || t is If || t is Else || t is While || t is For || t is IntType || t is FltType
            || t is BlnType || t is NoneType || t is Return || t is Bln),
    ensures
        lex(fixed_text(t)->Some_0 + seq![' '] + rest) == seq![TokView::Other(t)] + lex(rest),
{
    let text = fixed_text(t)->Some_0;
    let s = text + seq![' '] + rest;
    lemma_lex_space(rest);
    assert(s[0] == text[0]);
    assert(s[1] == if text.len() > 1 { text[1] } else { ' ' });
    assert(s.skip(text.len() as int) =~= seq![' '] + rest);
    assert(text.len() == 1 || text.len() == 2);
    if text.len() == 1 {
        assert(s.skip(1) =~= seq![' '] + rest);
    } else {
        assert(s.skip(2) =~= seq![' '] + rest);
    }
}

proof fn lemma_lex_keyword(t: Token, rest: Seq<char>)
    requires
        t is Let || t is Fn || t is If || t is Else || t is While || t is For || t is IntType || t is FltType
            || t is BlnType || t is NoneType || t is Return || t is Bln,
    ensures
        lex(fixed_text(t)->Some_0 + seq![' '] + rest) == seq![TokView::Other(t)] + lex(rest),
{
    lemma_reveal_keywords();
    let w = fixed_text(t)->Some_0;
    assert forall|i: int| 0 <= i < w.len() implies is_word_char(#[trigger] w[i]) by {}
    assert forall|i: int| 0 <= i < w.len() implies is_mcid_char(#[trigger] w[i]) by {
        assert(is_word_char(w[i]));
    }
    lemma_lex_word(w, rest);
    assert(word_token(w) == TokView::Other(t));
}

/// One token's rendering followed by a space lexes as that token.
proof fn lemma_lex_one(t: TokView, rest: Seq<char>)
    requires
        renderable(t),
    ensures
        lex(render_token(t) + seq![' '] + rest) == seq![t] + lex(rest),
{
    match t {
        TokView::Word(w) => {
            lemma_lex_word(w, rest);
        },
        TokView::Other(Token::Int(i)) => {
            lemma_lex_int(i, rest);
        },
        TokView::Other(Token::Flt(m)) => {
            lemma_lex_flt(m, rest);
        },
        TokView::Other(tok) => {
            if tok is Let || tok is Fn || tok is If || tok is Else || tok is While || tok is For || tok is IntType
                || tok is FltType || tok is BlnType || tok is NoneType || tok is Return || tok is Bln {
                lemma_lex_keyword(tok, rest);
            } else {
                lemma_lex_symbol(tok, rest);
            }
        },
        _ => {},
    }
}

/// Lexing the rendering of tokens gives the tokens back, for tokens that have one rendering
/// (strings and MCIDs, negative numbers, and names that are keywords, start with a digit or
/// hold separators have none).
pub proof fn lemma_lex_render(ts: Seq<TokView>)
    requires
        forall|i: int| 0 <= i < ts.len() ==> renderable(#[trigger] ts[i]),
    ensures
        lex(render(ts)) == ts,
    decreases ts.len(),
{
    if ts.len() == 0 {
        assert(render(ts) =~= Seq::<char>::empty());
        assert(lex(Seq::<char>::empty()) =~= ts);
    } else {
        let rest = ts.skip(1);
        assert forall|i: int| 0 <= i < rest.len() implies renderable(#[trigger] rest[i]) by {
            assert(rest[i] == ts[i + 1]);
        }
        lemma_lex_render(rest);
        lemma_lex_one(ts[0], render(rest));
        assert(seq![ts[0]] + rest =~= ts);
    }
}

} // verus!
