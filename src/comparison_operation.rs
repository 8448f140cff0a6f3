//! Comparison operators and their lowering.
use vstd::prelude::*;
use crate::command_ast::{CmdView, CommandAST, FormulaConstructer, target_of, scale_cmds, frees_of, cmds_view, boolify_cmd};
use crate::compiler::{CompileError, ErrView, lowered};
use crate::evaluater::Oper;
use crate::scoreboard::{Scoreboard, ScoreboardView, const_board, get_type_adjusted_temp, is_adjust_temp};
use crate::serialiser::IToken;
use crate::types::{Type, magnify, saturate_i32, wrap_i32, clamp_i32};

verus! {

/// The comparison operators `> >= < <= == !=`.
#[derive(Debug, Clone, Copy, PartialEq, Eq, Structural)]
pub enum Comparison {
    Gt,
    Ge,
    Lt,
    Le,
    Eq,
    Neq,
}

impl Comparison {
    pub open spec fn text(&self) -> Seq<char> {
        match self {
            Comparison::Gt => ">"@,
            Comparison::Ge => ">="@,
            Comparison::Lt => "<"@,
            Comparison::Le => "<="@,
            Comparison::Eq => "=="@,
            Comparison::Neq => "!="@,
        }
    }

    /// Comparisons bind loosest.
    pub fn get_priority(&self) -> (r: u32)
        ensures
            r == 0,
    {
        0
    }

    /// The operator's spelling.
    pub fn to_str(&self) -> (r: &'static str)
        ensures
            r@ == self.text(),
    {
        match self {
            Comparison::Gt => ">",
            Comparison::Ge => ">=",
            Comparison::Lt => "<",
            Comparison::Le => "<=",
            Comparison::Eq => "==",
            Comparison::Neq => "!=",
        }
    }
}

/// Comparisons give `Bool` on operands of one type, or of integer and float.
pub open spec fn cmp_type(left: Type, right: Type) -> Option<Type> {
    if left == right || (left == Type::Int && right == Type::Float) || (left == Type::Float && right == Type::Int) {
        Some(Type::Bool)
    } else {
        None
    }
}

/// `left <op> right` on two cells, as 1 or 0 in `left`; `ta` widens an integer side to fixed point.
pub open spec fn cmp_score_spec(op: Comparison, l: ScoreboardView, r: ScoreboardView, ta: ScoreboardView) -> Result<Seq<CmdView>, ErrView> {
    let lt = target_of(l);
    let rt = target_of(r);
    let tt = target_of(ta);
    let c1000 = frees_of(seq![const_board(1000)]);
    if l.datatype == r.datatype && (l.datatype == Type::Int || l.datatype == Type::Float || l.datatype == Type::Bool) {
        Ok(seq![boolify_cmd(lt, false, op.text(), rt)])
    } else if l.datatype == Type::Float && r.datatype == Type::Int {
        Ok(seq![CmdView::AssignScore { left: tt, right: rt }] + scale_cmds(ta, "*="@)
            + seq![boolify_cmd(lt, false, op.text(), tt), CmdView::Free { target: tt }] + c1000)
    } else if l.datatype == Type::Int && r.datatype == Type::Float {
        Ok(seq![CmdView::AssignScore { left: tt, right: lt }] + scale_cmds(ta, "*="@)
            + seq![boolify_cmd(tt, false, op.text(), rt), CmdView::AssignScore { left: lt, right: tt }, CmdView::Free { target: tt }]
            + c1000)
    } else {
        Err(ErrView::UndefinedOperation(l.datatype, Oper::Comparison(op), r.datatype))
    }
}

/// Sets the constant cell of `k`, then stores into `contain_to` whether `contain_to <cmp> k`.
pub open spec fn const_compare_cmds(contain_to: ScoreboardView, cmp: Seq<char>, k: int) -> Seq<CmdView> {
    seq![
        CmdView::AssignNum { left: target_of(const_board(k)), value: k as i32 },
        boolify_cmd(target_of(contain_to), false, cmp, target_of(const_board(k))),
    ]
}

/// `left <op> i` for an integer literal.
pub open spec fn cmp_int_spec(op: Comparison, l: ScoreboardView, i: i32) -> Result<Seq<CmdView>, ErrView> {
    if l.datatype == Type::Int {
        Ok(const_compare_cmds(l, op.text(), i as int) + frees_of(seq![const_board(i as int)]))
    } else if l.datatype == Type::Float {
        let k = wrap_i32(i as int * 1000);
        Ok(const_compare_cmds(l, op.text(), k) + frees_of(seq![const_board(k)]))
    } else {
        Err(ErrView::UndefinedOperation(l.datatype, Oper::Comparison(op), Type::Int))
    }
}

/// `left <op> f` for a float literal held as `m = trunc(f * 1000)`.
pub open spec fn cmp_flt_spec(op: Comparison, l: ScoreboardView, m: i64, ta: ScoreboardView) -> Result<Seq<CmdView>, ErrView> {
    let k = clamp_i32(m as int);
    let lt = target_of(l);
    let tt = target_of(ta);
    if l.datatype == Type::Int {
        Ok(seq![CmdView::AssignScore { left: tt, right: lt }] + scale_cmds(ta, "*="@) + const_compare_cmds(ta, op.text(), k)
            + seq![CmdView::AssignScore { left: lt, right: tt }, CmdView::Free { target: tt }]
            + frees_of(seq![const_board(1000), const_board(k)]))
    } else if l.datatype == Type::Float {
        Ok(const_compare_cmds(l, op.text(), k) + frees_of(seq![const_board(k)]))
    } else {
        Err(ErrView::UndefinedOperation(l.datatype, Oper::Comparison(op), Type::Float))
    }
}

/// `left == b` and `left != b` for a boolean literal, as comparisons against 0.
pub open spec fn cmp_bool_spec(op: Comparison, l: ScoreboardView, b: bool) -> Result<Seq<CmdView>, ErrView> {
    if l.datatype != Type::Bool {
        Err(ErrView::UndefinedOperation(l.datatype, Oper::Comparison(op), Type::Bool))
    } else {
        match op {
            Comparison::Eq => Ok(const_compare_cmds(l, if b { "!="@ } else { "=="@ }, 0) + frees_of(seq![const_board(0)])),
            Comparison::Neq => Ok(const_compare_cmds(l, if b { "=="@ } else { "!="@ }, 0) + frees_of(seq![const_board(0)])),
            _ => Err(ErrView::UndefinedOperation(l.datatype, Oper::Comparison(op), Type::Bool)),
        }
    }
}

/// `left <op> right`, stored as 1 or 0 into `left`.
pub open spec fn cmp_spec(op: Comparison, l: ScoreboardView, right: IToken, ta: ScoreboardView) -> Result<Seq<CmdView>, ErrView> {
    match right {
        IToken::Scr(s) => cmp_score_spec(op, l, s@, ta),
        IToken::Int(i) => cmp_int_spec(op, l, i),
        IToken::Flt(m) => cmp_flt_spec(op, l, m, ta),
        IToken::Bln(b) => cmp_bool_spec(op, l, b),
        _ => Err(ErrView::TheTokenIsntValue(right@)),
    }
}

impl Comparison {
    fn cmp_string(&self) -> (r: String)
        ensures
            r@ == self.text(),
    {
        self.to_str().to_string()
    }

    /// `Bool` where the operands can be compared.
    pub fn get_type(&self, left: &Type, right: &Type) -> (r: Option<Type>)
        ensures
            r == cmp_type(*left, *right),
    {
        if *left == *right {
            return Some(Type::Bool);
        }
        match (left, right) {
            (Type::Int, Type::Float) => Some(Type::Bool),
            (Type::Float, Type::Int) => Some(Type::Bool),
            _ => None,
        }
    }

    /// The commands for `left <self> right`, the 0/1 result stored into `left`.
    pub fn calc(&self, left: &Scoreboard, right: &IToken) -> (r: Result<Vec<CommandAST>, CompileError>)
        ensures
            exists|ta: ScoreboardView| is_adjust_temp(ta) && lowered(r) == #[trigger] cmp_spec(*self, left@, *right, ta),
    {
        let adjust = get_type_adjusted_temp(Type::Float);
        let r = self.calc_via(left, right, &adjust);
        assert(is_adjust_temp(adjust@));
        r
    }

    /// The commands for `left <self> right`, with `adjust` as the scratch cell of type conversions.
    pub fn calc_via(&self, left: &Scoreboard, right: &IToken, adjust: &Scoreboard) -> (r: Result<Vec<CommandAST>, CompileError>)
        ensures
            lowered(r) == cmp_spec(*self, left@, *right, adjust@),
    {
        match right {
            IToken::Scr(s) => self.compare_score(left, s, adjust),
            IToken::Int(i) => self.compare_int(left, *i),
            IToken::Flt(f) => self.compare_float(left, *f, adjust),
            IToken::Bln(b) => self.compare_bool(left, *b),
            _ => Err(CompileError::TheTokenIsntValue(right.without_arguments())),
        }
    }

    fn compare_score(&self, left: &Scoreboard, right: &Scoreboard, adjust: &Scoreboard) -> (r: Result<Vec<CommandAST>, CompileError>)
        ensures
            lowered(r) == cmp_score_spec(*self, left@, right@, adjust@),
    {
        let mut f = FormulaConstructer::new();
        let ghost spec = cmp_score_spec(*self, left@, right@, adjust@);
        match (left.datatype, right.datatype) {
            (Type::Int, Type::Int) | (Type::Float, Type::Float) | (Type::Bool, Type::Bool) => {
                let v = f.boolify_score_comparison(left, self.cmp_string(), right).build();
                assert(cmds_view(v@) =~= spec->Ok_0);
                Ok(v)
            },
            (Type::Float, Type::Int) => {
                let v = f.assign_score(adjust, right).fltify(adjust).boolify_score_comparison(left, self.cmp_string(), adjust)
                    .free(adjust).build();
                assert(cmds_view(v@) =~= spec->Ok_0);
                Ok(v)
            },
            (Type::Int, Type::Float) => {
                let v = f.assign_score(adjust, left).fltify(adjust).boolify_score_comparison(adjust, self.cmp_string(), right)
                    .assign_score(left, adjust).free(adjust).build();
                assert(cmds_view(v@) =~= spec->Ok_0);
                Ok(v)
            },
            _ => Err(CompileError::UndefinedOperation(left.datatype, Oper::Comparison(*self), right.datatype)),
        }
    }

    fn compare_int(&self, left: &Scoreboard, right: i32) -> (r: Result<Vec<CommandAST>, CompileError>)
        ensures
            lowered(r) == cmp_int_spec(*self, left@, right),
    {
        let mut f = FormulaConstructer::new();
        let ghost spec = cmp_int_spec(*self, left@, right);
        match left.datatype {
            Type::Int => {
                let v = f.boolify_num_comparison(left, self.cmp_string(), right).build();
                assert(cmds_view(v@) =~= spec->Ok_0);
                Ok(v)
            },
            Type::Float => {
                let v = f.boolify_num_comparison(left, self.cmp_string(), magnify(right)).build();
                assert(cmds_view(v@) =~= spec->Ok_0);
                Ok(v)
            },
            _ => Err(CompileError::UndefinedOperation(left.datatype, Oper::Comparison(*self), Type::Int)),
        }
    }

    fn compare_float(&self, left: &Scoreboard, right: i64, adjust: &Scoreboard) -> (r: Result<Vec<CommandAST>, CompileError>)
        ensures
            lowered(r) == cmp_flt_spec(*self, left@, right, adjust@),
    {
        let mut f = FormulaConstructer::new();
        let ghost spec = cmp_flt_spec(*self, left@, right, adjust@);
        let scaled = saturate_i32(right);
        match left.datatype {
            Type::Int => {
                let v = f.assign_score(adjust, left).fltify(adjust).boolify_num_comparison(adjust, self.cmp_string(), scaled)
                    .assign_score(left, adjust).free(adjust).build();
                assert(cmds_view(v@) =~= spec->Ok_0);
                Ok(v)
            },
            Type::Float => {
                let v = f.boolify_num_comparison(left, self.cmp_string(), scaled).build();
                assert(cmds_view(v@) =~= spec->Ok_0);
                Ok(v)
            },
            _ => Err(CompileError::UndefinedOperation(left.datatype, Oper::Comparison(*self), Type::Float)),
        }
    }

    fn compare_bool(&self, left: &Scoreboard, right: bool) -> (r: Result<Vec<CommandAST>, CompileError>)
        ensures
            lowered(r) == cmp_bool_spec(*self, left@, right),
    {
        let mut f = FormulaConstructer::new();
        let ghost spec = cmp_bool_spec(*self, left@, right);
        let undefined = CompileError::UndefinedOperation(left.datatype, Oper::Comparison(*self), Type::Bool);
        match left.datatype {
            Type::Bool => match self {
                Comparison::Eq => {
                    let cmp = if right { Comparison::Neq.cmp_string() } else { Comparison::Eq.cmp_string() };
                    let v = f.boolify_num_comparison(left, cmp, 0).build();
                    assert(cmds_view(v@) =~= spec->Ok_0);
                    Ok(v)
                },
                Comparison::Neq => {
                    let cmp = if right { Comparison::Eq.cmp_string() } else { Comparison::Neq.cmp_string() };
                    let v = f.boolify_num_comparison(left, cmp, 0).build();
                    assert(cmds_view(v@) =~= spec->Ok_0);
                    Ok(v)
                },
                _ => Err(undefined),
            },
            _ => Err(undefined),
        }
    }
}

} // verus!
