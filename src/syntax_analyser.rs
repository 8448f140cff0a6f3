//! The syntax analyser: a token stream to statements, blocks and formulas.
use vstd::prelude::*;
use crate::arithmetic_operation::Arithmetic;
use crate::ast::{balanced, rpn_spec, AST, Assignment, CodeBlock, FToken, Formula, IfSyntax, SyntaxError, Tuple, VariableDefinement, WhileSyntax};
use crate::comparison_operation::Comparison;
use crate::evaluater::Oper;
use crate::logical_operation::Logical;
use crate::tokeniser::{Token, keyword_type};

verus! {

/// Tokens that may stand in a formula: literals, names, operators and parentheses.
pub open spec fn is_formula_token(t: Token) -> bool {
    t is Int || t is Flt || t is Bln || t is Str || t is Ident || t is Add || t is Rem || t is Mul || t is Div || t is Sur
        || t is And || t is Or || t is Neg || t is Gt || t is Lt || t is LEt || t is REt || t is Eq || t is NEq
        || t is LParen || t is RParen
}

/// A name at `k` that starts a call `name(` or a macro call `name!(`.
pub open spec fn call_at(ts: Seq<Token>, k: int) -> bool {
    &&& ts[k] is Ident
    &&& k + 1 < ts.len()
    &&& (ts[k + 1] is LParen || (ts[k + 1] is Neg && k + 2 < ts.len() && ts[k + 2] is LParen))
}

/// Where a formula read from position `p`, with `d` parentheses open, stops when it holds no
/// call: at the end of the tokens, at the first token outside the formula set, or at the first
/// `)` that closes nothing.
pub open spec fn formula_end(ts: Seq<Token>, p: int, d: nat) -> int
    decreases ts.len() - p,
{
    if p < 0 || p >= ts.len() {
        p
    } else if ts[p] is RParen {
        if d == 0 {
            p
        } else {
            formula_end(ts, p + 1, (d - 1) as nat)
        }
    } else if ts[p] is LParen {
        formula_end(ts, p + 1, d + 1)
    } else if is_formula_token(ts[p]) {
        formula_end(ts, p + 1, d)
    } else {
        p
    }
}

proof fn lemma_formula_end_bounds(ts: Seq<Token>, p: int, d: nat)
    requires
        0 <= p <= ts.len(),
    ensures
        p <= formula_end(ts, p, d) <= ts.len(),
    decreases ts.len() - p,
{
    if p < ts.len() {
        if ts[p] is RParen {
            if d > 0 {
                lemma_formula_end_bounds(ts, p + 1, (d - 1) as nat);
            }
        } else if ts[p] is LParen {
            lemma_formula_end_bounds(ts, p + 1, d + 1);
        } else if is_formula_token(ts[p]) {
            lemma_formula_end_bounds(ts, p + 1, d);
        }
    }
}

/// No call starts at a position in `a..b`.
pub open spec fn call_free(ts: Seq<Token>, a: int, b: int) -> bool {
    forall|k: int| a <= k < b ==> !#[trigger] call_at(ts, k)
}

/// `fts` are the tokens of the formula at `q`, converted one by one.
pub open spec fn converted(ts: Seq<Token>, q: int, fts: Seq<FToken>) -> bool {
    &&& fts.len() == formula_end(ts, q, 0) - q
    &&& forall|k: int| 0 <= k < fts.len() ==> converts(ts[q + k], #[trigger] fts[k])
}

/// The formula at `q` holds no call, is not empty, and its parentheses balance.
pub open spec fn plain_formula_at(ts: Seq<Token>, q: int) -> bool {
    &&& 0 <= q <= ts.len()
    &&& call_free(ts, q, formula_end(ts, q, 0))
    &&& formula_end(ts, q, 0) > q
    &&& forall|fts: Seq<FToken>| #[trigger] converted(ts, q, fts) ==> balanced(fts)
}

/// Where the initialiser of a `let` at `p` starts.
pub open spec fn init_start(ts: Seq<Token>, p: int) -> int {
    if ts[p + 2] is Colon { p + 5 } else { p + 3 }
}

/// `let NAME : TYPE`, `let NAME : TYPE = FORMULA` or `let NAME = FORMULA` at `p`, the formula
/// plain.
pub open spec fn let_form_at(ts: Seq<Token>, p: int) -> bool {
    &&& 0 <= p && p + 2 < ts.len()
    &&& ts[p] is Let && ts[p + 1] is Ident
    &&& (ts[p + 2] is Colon && p + 3 < ts.len() && keyword_type(ts[p + 3]) is Some
            && (p + 4 < ts.len() && ts[p + 4] is Asn ==> plain_formula_at(ts, p + 5)))
        || (ts[p + 2] is Asn && plain_formula_at(ts, p + 3))
}

/// `NAME = FORMULA ;` at `p`, the formula plain.
pub open spec fn assignment_form_at(ts: Seq<Token>, p: int) -> bool {
    &&& 0 <= p && p + 1 < ts.len()
    &&& ts[p] is Ident && ts[p + 1] is Asn
    &&& plain_formula_at(ts, p + 2)
    &&& formula_end(ts, p + 2, 0) < ts.len() && ts[formula_end(ts, p + 2, 0)] is Semicolon
}

/// Past an optional `;` at `q`.
pub open spec fn semi(ts: Seq<Token>, q: int) -> int {
    if 0 <= q < ts.len() && ts[q] is Semicolon { q + 1 } else { q }
}

/// Where a `let` at `p` ends, before an optional `;`.
pub open spec fn let_body_end(ts: Seq<Token>, p: int) -> int {
    if ts[p + 2] is Colon {
        if p + 4 < ts.len() && ts[p + 4] is Asn { formula_end(ts, p + 5, 0) } else { p + 4 }
    } else {
        formula_end(ts, p + 3, 0)
    }
}

/// Where the statements from `p` up to and including the closing `}` end, for call-free source
/// that parses: blocks, `if` and `while` with a plain condition, `let`, assignments and plain
/// formula statements; `None` otherwise.
pub open spec fn stmts_end(ts: Seq<Token>, p: int) -> Option<int>
    decreases ts.len() - p,
{
    if p < 0 || p >= ts.len() {
        None
    } else if ts[p] is RBrace {
        Some(p + 1)
    } else {
        let t = ts[p];
        let e = formula_end(ts, p + 1, 0);
        let after: Option<int> = if t is LBrace {
            stmts_end(ts, p + 1)
        } else if t is If || t is While {
            if plain_formula_at(ts, p + 1) && e < ts.len() && ts[e] is LBrace && p < e + 1 <= ts.len() {
                stmts_end(ts, e + 1)
            } else {
                None
            }
        } else if t is Let {
            if let_form_at(ts, p) { Some(semi(ts, let_body_end(ts, p))) } else { None }
        } else if t is Ident && p + 1 < ts.len() && ts[p + 1] is Asn {
            if assignment_form_at(ts, p) { Some(formula_end(ts, p + 2, 0) + 1) } else { None }
        } else if t is Int || t is Bln || t is Flt || t is Ident {
            if plain_formula_at(ts, p) { Some(semi(ts, formula_end(ts, p, 0))) } else { None }
        } else {
            None
        };
        match after {
            Some(q) => if p < q <= ts.len() { stmts_end(ts, q) } else { None },
            None => None,
        }
    }
}

/// An `if` or `while` at `p`: a plain condition, then a block that parses.
pub open spec fn cond_block_at(ts: Seq<Token>, p: int) -> bool {
    let e = formula_end(ts, p + 1, 0);
    &&& 0 <= p && p + 1 <= ts.len()
    &&& plain_formula_at(ts, p + 1) && e < ts.len() && ts[e] is LBrace
    &&& stmts_end(ts, e + 1) is Some
}

/// The operator that a token spells.
pub open spec fn operator_spec(t: Token) -> Option<Oper> {
    match t {
        Token::Add => Some(Oper::Arithmetic(Arithmetic::Add)),
        Token::Rem => Some(Oper::Arithmetic(Arithmetic::Rem)),
        Token::Mul => Some(Oper::Arithmetic(Arithmetic::Mul)),
        Token::Div => Some(Oper::Arithmetic(Arithmetic::Div)),
        Token::Sur => Some(Oper::Arithmetic(Arithmetic::Sur)),
        Token::And => Some(Oper::Logical(Logical::And)),
        Token::Or => Some(Oper::Logical(Logical::Or)),
        Token::Neg => Some(Oper::Logical(Logical::Not)),
        Token::Gt => Some(Oper::Comparison(Comparison::Gt)),
        Token::Lt => Some(Oper::Comparison(Comparison::Lt)),
        Token::LEt => Some(Oper::Comparison(Comparison::Le)),
        Token::REt => Some(Oper::Comparison(Comparison::Ge)),
        Token::Eq => Some(Oper::Comparison(Comparison::Eq)),
        Token::NEq => Some(Oper::Comparison(Comparison::Neq)),
        _ => None,
    }
}

/// The formula token that a token becomes outside of calls: literals as themselves, a name as a
/// cell reference, operators and parentheses as themselves.
pub open spec fn converts(t: Token, f: FToken) -> bool {
    match (t, f) {
        (Token::Int(i), FToken::Int(j)) => i == j,
        (Token::Flt(a), FToken::Flt(b)) => a == b,
        (Token::Bln(a), FToken::Bln(b)) => a == b,
        (Token::Str(a), FToken::Str(b)) => a@ == b@,
        (Token::Ident(a), FToken::Scr(b)) => a@ == b@,
        (Token::LParen, FToken::LParen) => true,
        (Token::RParen, FToken::RParen) => true,
        (_, FToken::Oper(o)) => operator_spec(t) == Some(o),
        _ => false,
    }
}

/// Reads a token stream front to back.
pub struct SyntaxAnalyser {
    pub tokens: Vec<Token>,
    pub pos: usize,
}

impl SyntaxAnalyser {
    pub open spec fn wf(&self) -> bool {
        self.pos <= self.tokens@.len()
    }

    /// `new` read the same tokens as `old`, from the same place or further on.
    pub open spec fn advanced(old: SyntaxAnalyser, new: SyntaxAnalyser) -> bool {
        &&& new.tokens@ == old.tokens@
        &&& old.pos <= new.pos <= new.tokens@.len()
    }

    pub open spec fn at(&self, i: int) -> Token {
        self.tokens@[i]
    }

    /// An analyser at the start of the tokens.
    pub fn new(tokens: Vec<Token>) -> (r: Self)
        ensures
            r.tokens@ == tokens@,
            r.pos == 0,
            r.wf(),
    {
        SyntaxAnalyser { tokens, pos: 0 }
    }

    fn peek_at(&self, gap: usize) -> (r: Option<&Token>)
        requires
            self.wf(),
        ensures
            self.pos + gap < self.tokens@.len() ==> r == Some(&self.tokens@[self.pos + gap]),
            self.pos + gap >= self.tokens@.len() ==> r is None,
    {
        if gap < self.tokens.len() - self.pos {
            Some(&self.tokens[self.pos + gap])
        } else {
            None
        }
    }

    fn skip(&mut self)
        requires
            old(self).wf(),
            old(self).pos < old(self).tokens@.len(),
        ensures
            final(self).tokens@ == old(self).tokens@,
            final(self).pos == old(self).pos + 1,
    {
        if self.pos < self.tokens.len() {
            self.pos = self.pos + 1;
        }
    }

    /// Consumes the next token.
    fn consume(&mut self) -> (r: Option<Token>)
        requires
            old(self).wf(),
        ensures
            SyntaxAnalyser::advanced(*old(self), *final(self)),
            old(self).pos < old(self).tokens@.len() ==> r is Some && final(self).pos == old(self).pos + 1,
            old(self).pos >= old(self).tokens@.len() ==> r is None && final(self).pos == old(self).pos,
    {
        if self.pos < self.tokens.len() {
            let t = self.tokens[self.pos].clone();
            self.pos = self.pos + 1;
            Some(t)
        } else {
            None
        }
    }

    /// Consumes the next token, which must exist.
    fn expect(&mut self) -> (r: Result<Token, SyntaxError>)
        requires
            old(self).wf(),
        ensures
            SyntaxAnalyser::advanced(*old(self), *final(self)),
            r is Ok <==> old(self).pos < old(self).tokens@.len(),
            r is Ok ==> final(self).pos == old(self).pos + 1,
            r is Err ==> r->Err_0 is TokenEndsUnexpectedly,
    {
        match self.consume() {
            Some(t) => Ok(t),
            None => Err(SyntaxError::TokenEndsUnexpectedly),
        }
    }

    fn skip_semicolon(&mut self)
        requires
            old(self).wf(),
        ensures
            SyntaxAnalyser::advanced(*old(self), *final(self)),
            final(self).pos == semi(old(self).tokens@, old(self).pos as int),
    {
        if let Some(Token::Semicolon) = self.peek_at(0) {
            self.skip();
        }
    }

    /// `( formula (, formula)* )`.
    pub fn get_tuple(&mut self) -> (r: Result<Tuple, SyntaxError>)
        requires
            old(self).wf(),
        ensures
            SyntaxAnalyser::advanced(*old(self), *final(self)),
            r is Ok ==> final(self).pos > old(self).pos && old(self).at(old(self).pos as int) is LParen
                && final(self).at(final(self).pos - 1) is RParen,
        decreases old(self).tokens@.len() - old(self).pos, 0nat,
    {
        match self.peek_at(0) {
            Some(Token::LParen) => self.skip(),
            Some(_) => {
                self.skip();
                return Err(SyntaxError::ExpectedAToken("(".to_string()));
            },
            None => return Err(SyntaxError::TokenEndsUnexpectedly),
        }
        let mut formulas: Vec<Formula> = Vec::new();
        let ghost start = self.pos;
        loop
            invariant
                self.wf(),
                self.tokens@ == old(self).tokens@,
                old(self).pos < start <= self.pos,
                old(self).at(old(self).pos as int) is LParen,
            ensures
                self.wf(),
                self.tokens@ == old(self).tokens@,
                old(self).pos < self.pos,
                self.at(self.pos - 1) is RParen,
            decreases self.tokens@.len() - self.pos,
        {
            let f = match self.get_formula() {
                Ok(f) => f,
                Err(e) => return Err(e),
            };
            formulas.push(Formula { formula_tokens: f });
            match self.peek_at(0) {
                Some(Token::RParen) => {
                    self.skip();
                    break;
                },
                Some(Token::Comma) => {
                    self.skip();
                },
                Some(_) => return Err(SyntaxError::InvalidFormAs("tuple".to_string())),
                None => return Err(SyntaxError::TokenEndsUnexpectedly),
            }
        }
        Ok(Tuple { inside: formulas })
    }

    fn operator_of(t: &Token) -> (r: Option<Oper>)
        ensures
            r == operator_spec(*t),
            r is None <==> !(t is Add || t is Rem || t is Mul || t is Div || t is Sur || t is And || t is Or || t is Neg
                || t is Gt || t is Lt || t is LEt || t is REt || t is Eq || t is NEq),
    {
        match t {
            Token::Add => Some(Oper::Arithmetic(Arithmetic::Add)),
            Token::Rem => Some(Oper::Arithmetic(Arithmetic::Rem)),
            Token::Mul => Some(Oper::Arithmetic(Arithmetic::Mul)),
            Token::Div => Some(Oper::Arithmetic(Arithmetic::Div)),
            Token::Sur => Some(Oper::Arithmetic(Arithmetic::Sur)),
            Token::And => Some(Oper::Logical(Logical::And)),
            Token::Or => Some(Oper::Logical(Logical::Or)),
            Token::Neg => Some(Oper::Logical(Logical::Not)),
            Token::Gt => Some(Oper::Comparison(Comparison::Gt)),
            Token::Lt => Some(Oper::Comparison(Comparison::Lt)),
            Token::LEt => Some(Oper::Comparison(Comparison::Le)),
            Token::REt => Some(Oper::Comparison(Comparison::Ge)),
            Token::Eq => Some(Oper::Comparison(Comparison::Eq)),
            Token::NEq => Some(Oper::Comparison(Comparison::Neq)),
            _ => None,
        }
    }

    /// The longest run of formula tokens from here; a `)` that closes nothing ends the run.
    pub fn get_formula(&mut self) -> (r: Result<Vec<FToken>, SyntaxError>)
        requires
            old(self).wf(),
        ensures
            SyntaxAnalyser::advanced(*old(self), *final(self)),
            r is Ok ==> final(self).pos == final(self).tokens@.len() || !is_formula_token(final(self).at(final(self).pos as int))
                || final(self).at(final(self).pos as int) is RParen,
            r is Ok && old(self).pos < old(self).tokens@.len() && is_formula_token(old(self).at(old(self).pos as int))
                && !(old(self).at(old(self).pos as int) is RParen) ==> final(self).pos > old(self).pos,
            call_free(old(self).tokens@, old(self).pos as int, formula_end(old(self).tokens@, old(self).pos as int, 0))
                ==> r is Ok && final(self).pos == formula_end(old(self).tokens@, old(self).pos as int, 0),
            r is Err ==> exists|k: int| old(self).pos <= k < formula_end(old(self).tokens@, old(self).pos as int, 0)
                && #[trigger] call_at(old(self).tokens@, k),
            r is Ok && call_free(old(self).tokens@, old(self).pos as int, final(self).pos as int)
                ==> final(self).pos == formula_end(old(self).tokens@, old(self).pos as int, 0),
            r is Ok && (forall|k: int| old(self).pos <= k < final(self).pos ==> !#[trigger] call_at(old(self).tokens@, k))
                ==> r->Ok_0@.len() == final(self).pos - old(self).pos
                && forall|k: int| 0 <= k < r->Ok_0@.len() ==> converts(old(self).at(old(self).pos + k), #[trigger] r->Ok_0@[k]),
        decreases old(self).tokens@.len() - old(self).pos, 1nat,
    {
        let mut queue: Vec<FToken> = Vec::new();
        let mut depth: usize = 0;
        let ghost ts = old(self).tokens@;
        let ghost e = formula_end(ts, old(self).pos as int, 0);
        proof {
            lemma_formula_end_bounds(ts, old(self).pos as int, 0);
        }
        loop
            invariant
                ts == old(self).tokens@,
                e == formula_end(ts, old(self).pos as int, 0),
                call_free(ts, old(self).pos as int, self.pos as int) ==> formula_end(ts, self.pos as int, depth as nat) == e,
                !call_free(ts, old(self).pos as int, self.pos as int) ==> exists|k: int| old(self).pos <= k < e
                    && #[trigger] call_at(ts, k),
                self.wf(),
                self.tokens@ == old(self).tokens@,
                old(self).pos <= self.pos,
                depth <= self.pos - old(self).pos,
                self.pos == old(self).pos ==> depth == 0,
                (forall|k: int| old(self).pos <= k < self.pos ==> !#[trigger] call_at(old(self).tokens@, k))
                    ==> queue@.len() == self.pos - old(self).pos
                    && forall|k: int| 0 <= k < queue@.len() ==> converts(old(self).at(old(self).pos + k), #[trigger] queue@[k]),
            ensures
                call_free(ts, old(self).pos as int, self.pos as int) ==> formula_end(ts, self.pos as int, depth as nat) == e,
                !call_free(ts, old(self).pos as int, self.pos as int) ==> exists|k: int| old(self).pos <= k < e
                    && #[trigger] call_at(ts, k),
                formula_end(ts, self.pos as int, depth as nat) == self.pos,
                (forall|k: int| old(self).pos <= k < self.pos ==> !#[trigger] call_at(old(self).tokens@, k))
                    ==> queue@.len() == self.pos - old(self).pos
                    && forall|k: int| 0 <= k < queue@.len() ==> converts(old(self).at(old(self).pos + k), #[trigger] queue@[k]),
                self.wf(),
                self.tokens@ == old(self).tokens@,
                old(self).pos <= self.pos,
                self.pos == self.tokens@.len() || !is_formula_token(self.at(self.pos as int)) || self.at(self.pos as int) is RParen,
                old(self).pos < old(self).tokens@.len() && is_formula_token(old(self).at(old(self).pos as int))
                    && !(old(self).at(old(self).pos as int) is RParen) ==> self.pos > old(self).pos,
            decreases self.tokens@.len() - self.pos,
        {
            let ghost k0 = self.pos as int;
            let ghost d0 = depth as nat;
            let ghost plain = true;
            proof {
                lemma_formula_end_bounds(ts, k0, d0);
            }
            let found = match self.peek_at(0) {
                Some(Token::Int(i)) => {
                    let v = *i;
                    self.skip();
                    FToken::Int(v)
                },
                Some(Token::Flt(f)) => {
                    let v = *f;
                    self.skip();
                    FToken::Flt(v)
                },
                Some(Token::Bln(b)) => {
                    let v = *b;
                    self.skip();
                    FToken::Bln(v)
                },
                Some(Token::Str(text)) => {
                    let v = text.clone();
                    self.skip();
                    FToken::Str(v)
                },
                Some(Token::Ident(name)) => {
                    let name = name.clone();
                    self.skip();
                    let is_macro = match (self.peek_at(0), self.peek_at(1)) {
                        (Some(Token::Neg), Some(Token::LParen)) => true,
                        _ => false,
                    };
                    let is_call = match self.peek_at(0) {
                        Some(Token::LParen) => true,
                        _ => false,
                    };
                    proof {
                        plain = !(is_macro || is_call);
                        if is_macro || is_call {
                            assert(call_at(old(self).tokens@, k0));
                            assert(old(self).pos <= k0 < old(self).tokens@.len());
                            if call_free(ts, old(self).pos as int, k0) {
                                assert(formula_end(ts, k0, d0) == formula_end(ts, k0 + 1, d0));
                                lemma_formula_end_bounds(ts, k0 + 1, d0);
                                assert(k0 < e);
                            }
                        } else {
                            assert(!call_at(ts, k0));
                        }
                    }
                    if is_macro {
                        self.skip();
                        match self.get_tuple() {
                            Ok(t) => FToken::Mcr(name, t),
                            Err(e) => return Err(e),
                        }
                    } else if is_call {
                        match self.get_tuple() {
                            Ok(t) => FToken::Fnc(name, t),
                            Err(e) => return Err(e),
                        }
                    } else {
                        FToken::Scr(name)
                    }
                },
                Some(Token::LParen) => {
                    self.skip();
                    depth = depth + 1;
                    FToken::LParen
                },
                Some(Token::RParen) => {
                    if depth == 0 {
                        break;
                    }
                    self.skip();
                    depth = depth - 1;
                    FToken::RParen
                },
                Some(t) => match SyntaxAnalyser::operator_of(t) {
                    Some(o) => {
                        self.skip();
                        FToken::Oper(o)
                    },
                    None => break,
                },
                None => break,
            };
            let ghost before = queue@;
            queue.push(found);
            proof {
                if plain {
                    assert(self.pos == k0 + 1);
                    assert(!call_at(ts, k0));
                    if call_free(ts, old(self).pos as int, k0) {
                        assert(call_free(ts, old(self).pos as int, self.pos as int));
                    } else {
                        assert(!call_free(ts, old(self).pos as int, self.pos as int));
                    }
                    assert(converts(old(self).at(k0), found));
                    if forall|k: int| old(self).pos <= k < self.pos ==> !#[trigger] call_at(old(self).tokens@, k) {
                        assert(forall|k: int| old(self).pos <= k < k0 ==> !#[trigger] call_at(old(self).tokens@, k));
                        assert forall|k: int| 0 <= k < queue@.len() implies converts(old(self).at(old(self).pos + k), #[trigger] queue@[k]) by {
                            if k < before.len() {
                                assert(queue@[k] == before[k]);
                            }
                        }
                    }
                } else {
                    assert(call_at(old(self).tokens@, k0));
                    assert(k0 < self.pos);
                    assert(!call_free(ts, old(self).pos as int, self.pos as int));
                }
            }
        }
        Ok(queue)
    }

    /// A formula standing as a statement, with an optional `;` after it.
    fn formula_statement(&mut self) -> (r: Result<AST, SyntaxError>)
        requires
            old(self).wf(),
            old(self).pos < old(self).tokens@.len(),
            is_formula_token(old(self).at(old(self).pos as int)),
            !(old(self).at(old(self).pos as int) is RParen),
        ensures
            SyntaxAnalyser::advanced(*old(self), *final(self)),
            r is Ok ==> final(self).pos > old(self).pos,
            plain_formula_at(old(self).tokens@, old(self).pos as int) ==> r is Ok
                && final(self).pos == semi(old(self).tokens@, formula_end(old(self).tokens@, old(self).pos as int, 0)),
        decreases old(self).tokens@.len() - old(self).pos, 2nat,
    {
        let f = match self.get_formula() {
            Ok(f) => f,
            Err(e) => return Err(e),
        };
        proof {
            if plain_formula_at(old(self).tokens@, old(self).pos as int) {
                assert(converted(old(self).tokens@, old(self).pos as int, f@));
            }
        }
        let rpn = match (Formula { formula_tokens: f }).to_rpn() {
            Ok(r) => r,
            Err(e) => return Err(e),
        };
        self.skip_semicolon();
        Ok(AST::Formula(rpn))
    }

    /// `let <identifier> (: <type>)? (= <formula>)?`, with an optional `;` after it.
    pub fn get_let(&mut self) -> (r: Result<VariableDefinement, SyntaxError>)
        requires
            old(self).wf(),
        ensures
            SyntaxAnalyser::advanced(*old(self), *final(self)),
            r is Ok ==> final(self).pos > old(self).pos + 2 && old(self).at(old(self).pos as int) is Let
                && old(self).at(old(self).pos + 1) is Ident
                && r->Ok_0.identifier@ == old(self).at(old(self).pos + 1)->Ident_0@,
            r is Ok && old(self).at(old(self).pos + 2) is Colon ==> final(self).pos > old(self).pos + 3
                && r->Ok_0.datatype == keyword_type(old(self).at(old(self).pos + 3))
                && r->Ok_0.datatype is Some,
            r is Ok && !(old(self).at(old(self).pos + 2) is Colon) ==> old(self).at(old(self).pos + 2) is Asn
                && r->Ok_0.datatype is None && r->Ok_0.initialise is Some,
            r is Ok && r->Ok_0.initialise is Some ==> r->Ok_0.initialise->Some_0.lhs@ == r->Ok_0.identifier@,
            old(self).pos + 1 < old(self).tokens@.len() && old(self).at(old(self).pos as int) is Let
                && !(old(self).at(old(self).pos + 1) is Ident) ==> r is Err && r->Err_0 is ExpectedAToken,
            let_form_at(old(self).tokens@, old(self).pos as int) ==> r is Ok
                && final(self).pos == semi(old(self).tokens@, let_body_end(old(self).tokens@, old(self).pos as int)),
            r is Ok && r->Ok_0.initialise is Some && let_form_at(old(self).tokens@, old(self).pos as int)
                ==> exists|fts: Seq<FToken>| #[trigger] converted(old(self).tokens@, init_start(old(self).tokens@, old(self).pos as int), fts)
                    && r->Ok_0.initialise->Some_0.rhs.formula_tokens@ == rpn_spec(fts),
        decreases old(self).tokens@.len() - old(self).pos, 2nat,
    {
        match self.peek_at(0) {
            Some(Token::Let) => self.skip(),
            Some(_) => {
                self.skip();
                return Err(SyntaxError::ExpectedAToken("let keyword".to_string()));
            },
            None => return Err(SyntaxError::TokenEndsUnexpectedly),
        }
        let identifier = match self.peek_at(0) {
            Some(Token::Ident(s)) => {
                let id = s.clone();
                self.skip();
                id
            },
            Some(_) => return Err(SyntaxError::ExpectedAToken("identifier".to_string())),
            None => return Err(SyntaxError::TokenEndsUnexpectedly),
        };
        let datatype;
        let initialise;
        let is_colon = match self.peek_at(0) {
            Some(Token::Colon) => true,
            _ => false,
        };
        let is_asn = match self.peek_at(0) {
            Some(Token::Asn) => true,
            _ => false,
        };
        if is_colon {
            self.skip();
            datatype = match self.peek_at(0) {
                Some(t) => match t.to_type() {
                    Some(ty) => {
                        self.skip();
                        Some(ty)
                    },
                    None => return Err(SyntaxError::ExpectedAToken("data type".to_string())),
                },
                None => return Err(SyntaxError::TokenEndsUnexpectedly),
            };
            initialise = match self.peek_at(0) {
                Some(Token::Asn) => {
                    self.skip();
                    let ghost q = self.pos as int;
                    let f = match self.get_formula() {
                        Ok(f) => f,
                        Err(e) => return Err(e),
                    };
                    proof {
                        if let_form_at(old(self).tokens@, old(self).pos as int) {
                            assert(q == init_start(old(self).tokens@, old(self).pos as int));
                            assert(converted(old(self).tokens@, q, f@));
                        }
                    }
                    match (Formula { formula_tokens: f }).to_rpn() {
                        Ok(rhs) => Some(Assignment { lhs: identifier.clone(), rhs }),
                        Err(e) => return Err(e),
                    }
                },
                _ => None,
            };
        } else if is_asn {
            self.skip();
            let ghost q = self.pos as int;
            let f = match self.get_formula() {
                Ok(f) => f,
                Err(e) => return Err(e),
            };
            proof {
                if let_form_at(old(self).tokens@, old(self).pos as int) {
                    assert(q == init_start(old(self).tokens@, old(self).pos as int));
                    assert(converted(old(self).tokens@, q, f@));
                }
            }
            let rhs = match (Formula { formula_tokens: f }).to_rpn() {
                Ok(rhs) => rhs,
                Err(e) => return Err(e),
            };
            datatype = None;
            initialise = Some(Assignment { lhs: identifier.clone(), rhs });
        } else {
            return match self.peek_at(0) {
                Some(_) => Err(SyntaxError::InvalidFormAs("let statement".to_string())),
                None => Err(SyntaxError::TokenEndsUnexpectedly),
            };
        }
        self.skip_semicolon();
        Ok(VariableDefinement { identifier, datatype, initialise })
    }

    /// `if <formula> <block>`.
    pub fn get_if(&mut self) -> (r: Result<IfSyntax, SyntaxError>)
        requires
            old(self).wf(),
        ensures
            SyntaxAnalyser::advanced(*old(self), *final(self)),
            r is Ok ==> final(self).pos > old(self).pos && old(self).at(old(self).pos as int) is If
                && final(self).at(final(self).pos - 1) is RBrace,
            cond_block_at(old(self).tokens@, old(self).pos as int) && old(self).at(old(self).pos as int) is If
                ==> r is Ok && final(self).pos == stmts_end(old(self).tokens@, formula_end(old(self).tokens@, old(self).pos + 1, 0) + 1)->Some_0,
        decreases old(self).tokens@.len() - old(self).pos, 2nat,
    {
        match self.peek_at(0) {
            Some(Token::If) => self.skip(),
            Some(_) => {
                self.skip();
                return Err(SyntaxError::ExpectedAToken("if keyword".to_string()));
            },
            None => return Err(SyntaxError::TokenEndsUnexpectedly),
        }
        let f = match self.get_formula() {
            Ok(f) => f,
            Err(e) => return Err(e),
        };
        proof {
            if cond_block_at(old(self).tokens@, old(self).pos as int) {
                assert(converted(old(self).tokens@, old(self).pos + 1, f@));
            }
        }
        let condition = match (Formula { formula_tokens: f }).to_rpn() {
            Ok(c) => c,
            Err(e) => return Err(e),
        };
        let block = match self.get_block() {
            Ok(b) => b,
            Err(e) => return Err(e),
        };
        Ok(IfSyntax { condition, block })
    }

    /// `while <formula> <block>`.
    pub fn get_while(&mut self) -> (r: Result<WhileSyntax, SyntaxError>)
        requires
            old(self).wf(),
        ensures
            SyntaxAnalyser::advanced(*old(self), *final(self)),
            r is Ok ==> final(self).pos > old(self).pos && old(self).at(old(self).pos as int) is While
                && final(self).at(final(self).pos - 1) is RBrace,
            cond_block_at(old(self).tokens@, old(self).pos as int) && old(self).at(old(self).pos as int) is While
                ==> r is Ok && final(self).pos == stmts_end(old(self).tokens@, formula_end(old(self).tokens@, old(self).pos + 1, 0) + 1)->Some_0,
        decreases old(self).tokens@.len() - old(self).pos, 2nat,
    {
        match self.peek_at(0) {
            Some(Token::While) => self.skip(),
            Some(_) => {
                self.skip();
                return Err(SyntaxError::ExpectedAToken("while keyword".to_string()));
            },
            None => return Err(SyntaxError::TokenEndsUnexpectedly),
        }
        let f = match self.get_formula() {
            Ok(f) => f,
            Err(e) => return Err(e),
        };
        proof {
            if cond_block_at(old(self).tokens@, old(self).pos as int) {
                assert(converted(old(self).tokens@, old(self).pos + 1, f@));
            }
        }
        let condition = match (Formula { formula_tokens: f }).to_rpn() {
            Ok(c) => c,
            Err(e) => return Err(e),
        };
        let block = match self.get_block() {
            Ok(b) => b,
            Err(e) => return Err(e),
        };
        Ok(WhileSyntax { condition, block })
    }

    /// `<identifier> = <formula> ;`.
    pub fn get_assignment(&mut self) -> (r: Result<Assignment, SyntaxError>)
        requires
            old(self).wf(),
        ensures
            SyntaxAnalyser::advanced(*old(self), *final(self)),
            r is Ok ==> final(self).pos >= old(self).pos + 3 && old(self).at(old(self).pos as int) is Ident
                && old(self).at(old(self).pos + 1) is Asn && final(self).at(final(self).pos - 1) is Semicolon
                && r->Ok_0.lhs@ == old(self).at(old(self).pos as int)->Ident_0@,
            assignment_form_at(old(self).tokens@, old(self).pos as int) ==> r is Ok
                && final(self).pos == formula_end(old(self).tokens@, old(self).pos + 2, 0) + 1
                && exists|fts: Seq<FToken>| #[trigger] converted(old(self).tokens@, old(self).pos + 2, fts)
                    && r->Ok_0.rhs.formula_tokens@ == rpn_spec(fts),
        decreases old(self).tokens@.len() - old(self).pos, 2nat,
    {
        let lhs = match (self.peek_at(0), self.peek_at(1)) {
            (Some(Token::Ident(s)), Some(Token::Asn)) => s.clone(),
            _ => return Err(SyntaxError::InvalidFormAs("assignment".to_string())),
        };
        self.skip();
        self.skip();
        let ghost q = self.pos as int;
        let f = match self.get_formula() {
            Ok(f) => f,
            Err(e) => return Err(e),
        };
        proof {
            if assignment_form_at(old(self).tokens@, old(self).pos as int) {
                assert(converted(old(self).tokens@, q, f@));
            }
        }
        let rhs = match (Formula { formula_tokens: f }).to_rpn() {
            Ok(r) => r,
            Err(e) => return Err(e),
        };
        match self.peek_at(0) {
            Some(Token::Semicolon) => self.skip(),
            _ => return Err(SyntaxError::ExpectedAToken("semicolon".to_string())),
        }
        Ok(Assignment { lhs, rhs })
    }

    /// `{ statement* }`.
    pub fn get_block(&mut self) -> (r: Result<CodeBlock, SyntaxError>)
        requires
            old(self).wf(),
        ensures
            SyntaxAnalyser::advanced(*old(self), *final(self)),
            r is Ok ==> final(self).pos > old(self).pos && old(self).at(old(self).pos as int) is LBrace
                && final(self).at(final(self).pos - 1) is RBrace,
            old(self).pos < old(self).tokens@.len() && old(self).at(old(self).pos as int) is LBrace
                && stmts_end(old(self).tokens@, old(self).pos + 1) is Some
                ==> r is Ok && final(self).pos == stmts_end(old(self).tokens@, old(self).pos + 1)->Some_0,
        decreases old(self).tokens@.len() - old(self).pos, 3nat,
    {
        match self.peek_at(0) {
            Some(Token::LBrace) => self.skip(),
            Some(_) => {
                self.skip();
                return Err(SyntaxError::ExpectedAToken("{".to_string()));
            },
            None => return Err(SyntaxError::TokenEndsUnexpectedly),
        }
        let mut insides: Vec<AST> = Vec::new();
        let ghost ts = old(self).tokens@;
        let ghost hyp = stmts_end(ts, old(self).pos + 1) is Some;
        let ghost goal = stmts_end(ts, old(self).pos + 1)->Some_0;
        loop
            invariant_except_break
                hyp ==> stmts_end(ts, self.pos as int) == Some(goal),
            invariant
                self.wf(),
                self.tokens@ == old(self).tokens@,
                ts == old(self).tokens@,
                hyp == (stmts_end(ts, old(self).pos + 1) is Some),
                goal == stmts_end(ts, old(self).pos + 1)->Some_0,
                old(self).pos < self.pos,
                old(self).at(old(self).pos as int) is LBrace,
            ensures
                self.wf(),
                self.tokens@ == old(self).tokens@,
                old(self).pos < self.pos,
                self.at(self.pos - 1) is RBrace,
                hyp ==> self.pos == goal,
            decreases self.tokens@.len() - self.pos,
        {
            let ghost p0 = self.pos as int;
            proof {
                if hyp {
                    assert(stmts_end(ts, p0) is Some);
                    if p0 < ts.len() && ts[p0] is Ident && p0 + 1 < ts.len() && ts[p0 + 1] is Asn {
                        assert(assignment_form_at(ts, p0));
                    }
                }
            }
            let is_assignment = match (self.peek_at(0), self.peek_at(1)) {
                (Some(Token::Ident(_)), Some(Token::Asn)) => true,
                _ => false,
            };
            let found = match self.peek_at(0) {
                None => return Err(SyntaxError::UnbalancedBraces),
                Some(Token::If) => match self.get_if() {
                    Ok(i) => AST::IfSyntax(i),
                    Err(e) => return Err(e),
                },
                Some(Token::While) => match self.get_while() {
                    Ok(w) => AST::WhileSyntax(w),
                    Err(e) => return Err(e),
                },
                Some(Token::Let) => match self.get_let() {
                    Ok(l) => AST::LetStatement(l),
                    Err(e) => return Err(e),
                },
                Some(Token::LBrace) => match self.get_block() {
                    Ok(b) => AST::CodeBlock(b),
                    Err(e) => return Err(e),
                },
                Some(Token::RBrace) => {
                    self.skip();
                    break;
                },
                Some(Token::Int(_)) | Some(Token::Bln(_)) | Some(Token::Flt(_)) => match self.formula_statement() {
                    Ok(a) => a,
                    Err(e) => return Err(e),
                },
                Some(Token::Ident(_)) => if is_assignment {
                    match self.get_assignment() {
                        Ok(a) => AST::Assignment(a),
                        Err(e) => return Err(e),
                    }
                } else {
                    match self.formula_statement() {
                        Ok(a) => a,
                        Err(e) => return Err(e),
                    }
                },
                Some(t) => return Err(SyntaxError::ALineMustntStartWith(t.clone())),
            };
            insides.push(found);
        }
        Ok(CodeBlock { inside: insides })
    }
}

} // verus!
