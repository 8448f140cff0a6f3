//! Score cells: naming, scratch factories and random ids.
use vstd::prelude::*;
use rand::Rng;
use crate::text::{join, texts, push_char, push_text, push_joined, copy_texts, int_to_text, int_text};
use crate::types::{Type, TEMP_ID_LEN, FLOAT_MAGNIFICATION, magnify, unmagnify, saturate_i32, wrap_i32, clamp_i32, trunc_div};
use crate::command_ast::{CmdView, CommandAST, FormulaConstructer, target_of, scale_cmds, frees_of, cmds_view};
use crate::compiler::{CompileError, ErrView, lowered};
use crate::serialiser::IToken;

verus! {

/// A named integer cell of the runtime, declared under a scope path and with a type.
#[derive(Debug)]
pub struct Scoreboard {
    pub name: String,
    pub scope: Vec<String>,
    pub datatype: Type,
}

/// What a score cell is: its name, its scope path and its type.
pub struct ScoreboardView {
    pub name: Seq<char>,
    pub scope: Seq<Seq<char>>,
    pub datatype: Type,
}

impl View for Scoreboard {
    type V = ScoreboardView;

    open spec fn view(&self) -> ScoreboardView {
        ScoreboardView { name: self.name@, scope: texts(self.scope@), datatype: self.datatype }
    }
}

/// The player name of a cell: `#<scope joined by '.'>.<name>`, or `#<name>` without scope.
pub open spec fn mcname(b: ScoreboardView) -> Seq<char> {
    seq!['#'] + join(b.scope, seq!['.']) + (if b.scope.len() > 0 {
        seq!['.']
    } else {
        Seq::empty()
    }) + b.name
}

/// `s` is `len` lowercase ASCII letters.
pub open spec fn is_lower_id(s: Seq<char>, len: nat) -> bool {
    &&& s.len() == len
    &&& forall|i: int| 0 <= i < len ==> 'a' <= #[trigger] s[i] <= 'z'
}

/// A scratch cell: `prefix` followed by a random id of `len` letters, under scope `scope`.
pub open spec fn is_scratch(b: ScoreboardView, prefix: Seq<char>, len: nat, scope: Seq<Seq<char>>, dt: Type) -> bool {
    &&& b.name.len() == prefix.len() + len
    &&& b.name.take(prefix.len() as int) == prefix
    &&& is_lower_id(b.name.skip(prefix.len() as int), len)
    &&& b.scope == scope
    &&& b.datatype == dt
}

/// A fresh `CALC_TYPE_ADJUSTED_` scratch cell, of any type.
pub open spec fn is_adjust_temp(b: ScoreboardView) -> bool {
    is_scratch(b, "CALC_TYPE_ADJUSTED_"@, TEMP_ID_LEN as nat, temp_scope(), b.datatype)
}

/// The scope path of formula scratch cells.
pub open spec fn temp_scope() -> Seq<Seq<char>> {
    seq!["TEMP"@]
}

/// The scope path of constant cells.
pub open spec fn const_scope() -> Seq<Seq<char>> {
    seq!["CONST"@]
}

/// The constant cell that holds `n`.
pub open spec fn const_board(n: int) -> ScoreboardView {
    ScoreboardView { name: int_text(n), scope: const_scope(), datatype: Type::Int }
}

impl Clone for Scoreboard {
    fn clone(&self) -> (r: Self)
        ensures
            r@ == self@,
    {
        Scoreboard { name: self.name.clone(), scope: copy_texts(&self.scope), datatype: self.datatype }
    }
}

impl Scoreboard {
    /// The player name of this cell.
    pub fn get_mcname(&self) -> (r: String)
        ensures
            r@ == mcname(self@),
    {
        let mut s = String::new();
        push_char(&mut s, '#');
        push_joined(&mut s, &self.scope, ".");
        proof {
            reveal_strlit(".");
            assert(".".view() == seq!['.']);
        }
        if self.scope.len() > 0 {
            push_char(&mut s, '.');
        }
        push_text(&mut s, self.name.as_str());
        assert(s@ =~= mcname(self@));
        s
    }
}

/// Relies on rand's `Rng::random_range` over `'a'..='z'`: a character of that range.
#[verifier::external_body]
fn random_lowercase() -> (c: char)
    ensures
        'a' <= c <= 'z',
{
    rand::rng().random_range('a'..='z')
}

/// A random id of `length` lowercase letters.
pub fn generate_random_id(length: u32) -> (r: String)
    ensures
        is_lower_id(r@, length as nat),
{
    let mut s = String::new();
    let mut i: u32 = 0;
    while i < length
        invariant
            i <= length,
            is_lower_id(s@, i as nat),
        decreases length - i,
    {
        let c = random_lowercase();
        push_char(&mut s, c);
        i = i + 1;
    }
    s
}

/// A fresh scratch cell named `prefix` and a random id of `len` letters, under `scope`.
pub fn scratch_board(prefix: &str, len: u32, scope: &Vec<String>, datatype: Type) -> (r: Scoreboard)
    ensures
        is_scratch(r@, prefix@, len as nat, texts(scope@), datatype),
{
    let mut name = String::new();
    push_text(&mut name, prefix);
    let id = generate_random_id(len);
    push_text(&mut name, id.as_str());
    assert(name@.take(prefix@.len() as int) =~= prefix@);
    assert(name@.skip(prefix@.len() as int) =~= id@);
    Scoreboard { name, scope: copy_texts(scope), datatype }
}

/// The path `["TEMP"]`.
pub fn temp_path() -> (r: Vec<String>)
    ensures
        texts(r@) == temp_scope(),
{
    let mut v: Vec<String> = Vec::new();
    v.push("TEMP".to_string());
    assert(texts(v@) =~= temp_scope());
    v
}

/// The path `["CONST"]`.
pub fn const_path() -> (r: Vec<String>)
    ensures
        texts(r@) == const_scope(),
{
    let mut v: Vec<String> = Vec::new();
    v.push("CONST".to_string());
    assert(texts(v@) =~= const_scope());
    v
}

/// The constant cell that holds `constant`.
pub fn get_const(constant: i32) -> (r: Scoreboard)
    ensures
        r@ == const_board(constant as int),
{
    Scoreboard { name: int_to_text(constant), scope: const_path(), datatype: Type::Int }
}

/// A fresh `CALC_TYPE_ADJUSTED_` scratch cell of the given type.
pub fn get_type_adjusted_temp(datatype: Type) -> (r: Scoreboard)
    ensures
        is_scratch(r@, "CALC_TYPE_ADJUSTED_"@, TEMP_ID_LEN as nat, temp_scope(), datatype),
{
    scratch_board("CALC_TYPE_ADJUSTED_", TEMP_ID_LEN, &temp_path(), datatype)
}

/// A fresh `CALC_TEMP_` scratch cell of the given type.
pub fn get_calc_temp(datatype: Type) -> (r: Scoreboard)
    ensures
        is_scratch(r@, "CALC_TEMP_"@, TEMP_ID_LEN as nat, temp_scope(), datatype),
{
    scratch_board("CALC_TEMP_", TEMP_ID_LEN, &temp_path(), datatype)
}

/// A fresh `CALC_RESULT_` scratch cell of the given type.
pub fn get_calc_result_temp(datatype: Type) -> (r: Scoreboard)
    ensures
        is_scratch(r@, "CALC_RESULT_"@, TEMP_ID_LEN as nat, temp_scope(), datatype),
{
    scratch_board("CALC_RESULT_", TEMP_ID_LEN, &temp_path(), datatype)
}

/// The value that a literal stores into a cell of type `lhs`: floats in fixed point,
/// booleans as 1 and 0; `None` where the literal does not fit the type.
pub open spec fn literal_value(lhs: Type, rhs: IToken) -> Option<int> {
    match rhs {
        IToken::Int(i) => match lhs {
            Type::Int => Some(i as int),
            Type::Float => Some(wrap_i32(i as int * 1000)),
            _ => None,
        },
        IToken::Flt(m) => match lhs {
            Type::Int => Some(clamp_i32(trunc_div(m as int, 1000))),
            Type::Float => Some(clamp_i32(m as int)),
            _ => None,
        },
        IToken::Bln(b) => match lhs {
            Type::Bool => Some(if b { 1int } else { 0int }),
            _ => None,
        },
        _ => None,
    }
}

/// A value of type `rhs` can be copied into a cell of type `lhs`.
pub open spec fn compatible(lhs: Type, rhs: Type) -> bool {
    ||| (lhs == Type::Int || lhs == Type::Float) && (rhs == Type::Int || rhs == Type::Float)
    ||| lhs == Type::Bool && rhs == Type::Bool
}

/// The commands that copy `rhs` into the cell `lhs`.
pub open spec fn assign_spec(lhs: ScoreboardView, rhs: IToken) -> Result<Seq<CmdView>, ErrView> {
    let l = target_of(lhs);
    match rhs {
        IToken::Int(_) | IToken::Flt(_) | IToken::Bln(_) => match literal_value(lhs.datatype, rhs) {
            Some(v) => Ok(seq![CmdView::AssignNum { left: l, value: v as i32 }]),
            None => Err(ErrView::InvalidRHS(rhs@)),
        },
        IToken::Scr(s) => {
            let copy = CmdView::AssignScore { left: l, right: target_of(s@) };
            if !compatible(lhs.datatype, s@.datatype) {
                Err(ErrView::InvalidRHS(rhs@))
            } else if lhs.datatype == Type::Int && s@.datatype == Type::Float {
                Ok(seq![copy] + scale_cmds(lhs, "/="@) + frees_of(seq![const_board(1000)]))
            } else if lhs.datatype == Type::Float && s@.datatype == Type::Int {
                Ok(seq![copy] + scale_cmds(lhs, "*="@) + frees_of(seq![const_board(1000)]))
            } else {
                Ok(seq![copy])
            }
        },
        _ => Err(ErrView::TheTokenIsntValue(rhs@)),
    }
}

impl Scoreboard {
    /// The commands that copy the value `right` into this cell, converting between
    /// integers and fixed-point floats.
    pub fn assign(&self, right: &IToken) -> (r: Result<Vec<CommandAST>, CompileError>)
        ensures
            lowered(r) == assign_spec(self@, *right),
    {
        let mut f = FormulaConstructer::new();
        match right {
            IToken::Int(i) => match self.datatype {
                Type::Int => Ok(f.assign_num(self, *i).build()),
                Type::Float => Ok(f.assign_num(self, magnify(*i)).build()),
                _ => Err(CompileError::InvalidRHS(right.without_arguments())),
            },
            IToken::Flt(m) => match self.datatype {
                Type::Int => {
                    let v = saturate_i32(unmagnify(*m));
                    Ok(f.assign_num(self, v).build())
                },
                Type::Float => Ok(f.assign_num(self, saturate_i32(*m)).build()),
                _ => Err(CompileError::InvalidRHS(right.without_arguments())),
            },
            IToken::Bln(b) => match self.datatype {
                Type::Bool => Ok(f.assign_num(self, if *b { 1 } else { 0 }).build()),
                _ => Err(CompileError::InvalidRHS(right.without_arguments())),
            },
            IToken::Scr(s) => match (self.datatype, s.datatype) {
                (Type::Int, Type::Int) | (Type::Float, Type::Float) | (Type::Bool, Type::Bool) => Ok(
                    f.assign_score(self, s).build(),
                ),
                (Type::Int, Type::Float) => Ok(f.assign_score(self, s).intify(self).build()),
                (Type::Float, Type::Int) => Ok(f.assign_score(self, s).fltify(self).build()),
                _ => Err(CompileError::InvalidRHS(right.without_arguments())),
            },
            _ => Err(CompileError::TheTokenIsntValue(right.without_arguments())),
        }
    }

    /// A reset of this cell.
    pub fn free(&self) -> (r: Vec<CommandAST>)
        ensures
            cmds_view(r@) == seq![CmdView::Free { target: target_of(self@) }],
    {
        let mut f = FormulaConstructer::new();
        f.free(self).build()
    }
}

} // verus!
