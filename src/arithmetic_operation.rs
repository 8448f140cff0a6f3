//! Arithmetic operators and their lowering.
use vstd::prelude::*;
use crate::command_ast::{CmdView, CommandAST, FormulaConstructer, target_of, scale_cmds, frees_of, cmds_view};
use crate::compiler::{CompileError, ErrView, lowered};
use crate::evaluater::Oper;
use crate::scoreboard::{Scoreboard, ScoreboardView, const_board, get_type_adjusted_temp, is_adjust_temp};
use crate::serialiser::IToken;
use crate::types::{Type, FLOAT_MAGNIFICATION, magnify, unmagnify, saturate_i32, wrap_i32, clamp_i32, trunc_div};

verus! {

/// The arithmetic operators `+ - * / %`.
#[derive(Debug, Clone, Copy, PartialEq, Eq, Structural)]
pub enum Arithmetic {
    Add,
    Rem,
    Mul,
    Div,
    Sur,
}

impl Arithmetic {
    pub open spec fn priority(&self) -> u32 {
        match self {
            Arithmetic::Mul | Arithmetic::Div | Arithmetic::Sur => 3,
            Arithmetic::Add | Arithmetic::Rem => 2,
        }
    }

    pub open spec fn text(&self) -> Seq<char> {
        match self {
            Arithmetic::Add => "+"@,
            Arithmetic::Rem => "-"@,
            Arithmetic::Mul => "*"@,
            Arithmetic::Div => "/"@,
            Arithmetic::Sur => "%"@,
        }
    }

    /// The operator with `=` appended, as the runtime spells the in-place operation.
    pub open spec fn op_eq(&self) -> Seq<char> {
        match self {
            Arithmetic::Add => "+="@,
            Arithmetic::Rem => "-="@,
            Arithmetic::Mul => "*="@,
            Arithmetic::Div => "/="@,
            Arithmetic::Sur => "%="@,
        }
    }

    /// `* / %` bind tighter than `+ -`.
    pub fn get_priority(&self) -> (r: u32)
        ensures
            r == self.priority(),
    {
        match self {
            Arithmetic::Mul | Arithmetic::Div | Arithmetic::Sur => 3,
            Arithmetic::Add | Arithmetic::Rem => 2,
        }
    }

    /// The operator's spelling.
    pub fn to_str(&self) -> (r: &'static str)
        ensures
            r@ == self.text(),
    {
        match self {
            Arithmetic::Add => "+",
            Arithmetic::Rem => "-",
            Arithmetic::Mul => "*",
            Arithmetic::Div => "/",
            Arithmetic::Sur => "%",
        }
    }

    fn oper_eq(&self) -> (r: String)
        ensures
            r@ == self.op_eq(),
    {
        match self {
            Arithmetic::Add => "+=".to_string(),
            Arithmetic::Rem => "-=".to_string(),
            Arithmetic::Mul => "*=".to_string(),
            Arithmetic::Div => "/=".to_string(),
            Arithmetic::Sur => "%=".to_string(),
        }
    }
}

/// The result type of `left <op> right`: `+ - * /` keep the left type unless a side is
/// boolean; `%` is defined on integers alone.
pub open spec fn arith_type(op: Arithmetic, left: Type, right: Type) -> Option<Type> {
    match op {
        Arithmetic::Sur => if left == Type::Int && right == Type::Int { Some(Type::Int) } else { None },
        _ => if left == Type::Bool || right == Type::Bool { None } else { Some(left) },
    }
}

/// `left <op> right` on two cells; `ta` is the scratch cell for the type conversion.
pub open spec fn arith_score_spec(op: Arithmetic, l: ScoreboardView, r: ScoreboardView, ta: ScoreboardView) -> Result<Seq<CmdView>, ErrView> {
    let lt = target_of(l);
    let rt = target_of(r);
    let tt = target_of(ta);
    let c1000 = frees_of(seq![const_board(1000)]);
    if l.datatype == Type::Int && r.datatype == Type::Int {
        Ok(seq![CmdView::Calc { left: lt, op: op.op_eq(), right: rt }])
    } else if l.datatype == Type::Int && r.datatype == Type::Float {
        Ok(seq![CmdView::AssignScore { left: tt, right: rt }] + scale_cmds(ta, "/="@)
            + seq![CmdView::Calc { left: lt, op: op.op_eq(), right: tt }, CmdView::Free { target: tt }] + c1000)
    } else if l.datatype == Type::Float && r.datatype == Type::Int {
        Ok(seq![CmdView::AssignScore { left: tt, right: rt }] + scale_cmds(ta, "*="@)
            + seq![CmdView::Calc { left: lt, op: op.op_eq(), right: tt }, CmdView::Free { target: tt }] + c1000)
    } else if l.datatype == Type::Float && r.datatype == Type::Float {
        match op {
            Arithmetic::Sur => Err(ErrView::UndefinedOperation(l.datatype, Oper::Arithmetic(op), r.datatype)),
            Arithmetic::Mul => Ok(seq![CmdView::Calc { left: lt, op: "*="@, right: rt }] + scale_cmds(l, "/="@) + c1000),
            Arithmetic::Div => Ok(scale_cmds(l, "*="@) + seq![CmdView::Calc { left: lt, op: "/="@, right: rt }] + c1000),
            _ => Ok(seq![CmdView::Calc { left: lt, op: op.op_eq(), right: rt }]),
        }
    } else {
        Err(ErrView::UndefinedOperation(l.datatype, Oper::Arithmetic(op), r.datatype))
    }
}

/// Sets the constant cell of `k`, then `target <op> <that constant>`.
pub open spec fn const_op_cmds(target: ScoreboardView, op: Seq<char>, k: int) -> Seq<CmdView> {
    seq![
        CmdView::AssignNum { left: target_of(const_board(k)), value: k as i32 },
        CmdView::Calc { left: target_of(target), op, right: target_of(const_board(k)) },
    ]
}

/// `left <op> i` for an integer literal.
pub open spec fn arith_int_spec(op: Arithmetic, l: ScoreboardView, i: i32) -> Result<Seq<CmdView>, ErrView> {
    let lt = target_of(l);
    if l.datatype != Type::Int && l.datatype != Type::Float {
        Err(ErrView::UndefinedOperation(l.datatype, Oper::Arithmetic(op), Type::Int))
    } else {
        let scaled = if l.datatype == Type::Int { i as int } else { wrap_i32(i as int * 1000) };
        match op {
            Arithmetic::Add => Ok(seq![CmdView::AddRem { left: lt, add_rem: "add"@, amount: scaled as i32 }]),
            Arithmetic::Rem => Ok(seq![CmdView::AddRem { left: lt, add_rem: "remove"@, amount: scaled as i32 }]),
            _ => Ok(const_op_cmds(l, op.op_eq(), i as int) + frees_of(seq![const_board(i as int)])),
        }
    }
}

/// `left <op> f` for a float literal held as `m = trunc(f * 1000)`; `ta` is the scratch cell
/// that widens an integer left side.
pub open spec fn arith_flt_spec(op: Arithmetic, l: ScoreboardView, m: i64, ta: ScoreboardView) -> Result<Seq<CmdView>, ErrView> {
    let lt = target_of(l);
    let tt = target_of(ta);
    let k = clamp_i32(m as int);
    let c = const_board(1000);
    let ck = const_board(k);
    if l.datatype != Type::Int && l.datatype != Type::Float {
        Err(ErrView::UndefinedOperation(l.datatype, Oper::Arithmetic(op), Type::Float))
    } else {
        match op {
            Arithmetic::Add | Arithmetic::Rem => {
                let amount = if l.datatype == Type::Float { k } else { clamp_i32(trunc_div(m as int, 1000)) };
                let word = if op == Arithmetic::Add { "add"@ } else { "remove"@ };
                Ok(seq![CmdView::AddRem { left: lt, add_rem: word, amount: amount as i32 }])
            },
            Arithmetic::Sur => Err(ErrView::UndefinedOperation(l.datatype, Oper::Arithmetic(op), Type::Float)),
            Arithmetic::Mul => if l.datatype == Type::Int {
                Ok(seq![CmdView::AssignScore { left: tt, right: lt }] + scale_cmds(ta, "*="@)
                    + const_op_cmds(ta, "*="@, k) + scale_cmds(ta, "/="@) + scale_cmds(ta, "/="@)
                    + seq![CmdView::AssignScore { left: lt, right: tt }, CmdView::Free { target: tt }]
                    + frees_of(seq![c, ck, c, c]))
            } else {
                Ok(const_op_cmds(l, "*="@, k) + scale_cmds(l, "/="@) + frees_of(seq![ck, c]))
            },
            Arithmetic::Div => if l.datatype == Type::Int {
                Ok(seq![CmdView::AssignScore { left: tt, right: lt }] + scale_cmds(ta, "*="@)
                    + scale_cmds(ta, "*="@) + const_op_cmds(ta, "/="@, k) + scale_cmds(ta, "/="@)
                    + seq![CmdView::AssignScore { left: lt, right: tt }, CmdView::Free { target: tt }]
                    + frees_of(seq![c, c, ck, c]))
            } else {
                Ok(scale_cmds(l, "*="@) + const_op_cmds(l, "/="@, k) + frees_of(seq![c, ck]))
            },
        }
    }
}

/// `left <op> right`, stored back into `left`.
pub open spec fn arith_spec(op: Arithmetic, l: ScoreboardView, right: IToken, ta: ScoreboardView) -> Result<Seq<CmdView>, ErrView> {
    match right {
        IToken::Scr(s) => arith_score_spec(op, l, s@, ta),
        IToken::Int(i) => arith_int_spec(op, l, i),
        IToken::Flt(m) => arith_flt_spec(op, l, m, ta),
        IToken::Bln(_) => Err(ErrView::UndefinedOperation(l.datatype, Oper::Arithmetic(op), Type::Bool)),
        _ => Err(ErrView::TheTokenIsntValue(right@)),
    }
}

impl Arithmetic {
    /// The result type of `left <self> right`, if the operation is defined.
    pub fn get_type(&self, left: &Type, right: &Type) -> (r: Option<Type>)
        ensures
            r == arith_type(*self, *left, *right),
    {
        match self {
            Arithmetic::Add | Arithmetic::Rem | Arithmetic::Mul | Arithmetic::Div => match (left, right) {
                (Type::Bool, _) | (_, Type::Bool) => None,
                _ => Some(*left),
            },
            Arithmetic::Sur => match (left, right) {
                (Type::Int, Type::Int) => Some(Type::Int),
                _ => None,
            },
        }
    }

    /// The commands for `left <self> right`, the result stored back into `left`.
    pub fn calc(&self, left: &Scoreboard, right: &IToken) -> (r: Result<Vec<CommandAST>, CompileError>)
        ensures
            exists|ta: ScoreboardView| is_adjust_temp(ta) && lowered(r) == #[trigger] arith_spec(*self, left@, *right, ta),
    {
        let dt = match right {
            IToken::Flt(_) => Type::Float,
            _ => Type::Int,
        };
        let adjust = get_type_adjusted_temp(dt);
        let r = self.calc_via(left, right, &adjust);
        assert(is_adjust_temp(adjust@));
        r
    }

    /// The commands for `left <self> right`, with `adjust` as the scratch cell of type conversions.
    pub fn calc_via(&self, left: &Scoreboard, right: &IToken, adjust: &Scoreboard) -> (r: Result<Vec<CommandAST>, CompileError>)
        ensures
            lowered(r) == arith_spec(*self, left@, *right, adjust@),
    {
        match right {
            IToken::Scr(s) => self.calc_score(left, s, adjust),
            IToken::Int(i) => self.calc_int(left, *i),
            IToken::Flt(f) => self.calc_float(left, *f, adjust),
            IToken::Bln(_) => Err(CompileError::UndefinedOperation(left.datatype, Oper::Arithmetic(*self), Type::Bool)),
            _ => Err(CompileError::TheTokenIsntValue(right.without_arguments())),
        }
    }

    fn calc_score(&self, left: &Scoreboard, right: &Scoreboard, adjust: &Scoreboard) -> (r: Result<Vec<CommandAST>, CompileError>)
        ensures
            lowered(r) == arith_score_spec(*self, left@, right@, adjust@),
    {
        let mut f = FormulaConstructer::new();
        let undefined = CompileError::UndefinedOperation(left.datatype, Oper::Arithmetic(*self), right.datatype);
        let ghost spec = arith_score_spec(*self, left@, right@, adjust@);
        match (left.datatype, right.datatype) {
            (Type::Int, Type::Int) => {
                let v = f.calc_score(left, self.oper_eq(), right).build();
                assert(cmds_view(v@) =~= spec->Ok_0);
                Ok(v)
            },
            (Type::Int, Type::Float) => {
                let v = f.assign_score(adjust, right).intify(adjust).calc_score(left, self.oper_eq(), adjust).free(adjust).build();
                assert(cmds_view(v@) =~= spec->Ok_0);
                Ok(v)
            },
            (Type::Float, Type::Int) => {
                let v = f.assign_score(adjust, right).fltify(adjust).calc_score(left, self.oper_eq(), adjust).free(adjust).build();
                assert(cmds_view(v@) =~= spec->Ok_0);
                Ok(v)
            },
            (Type::Float, Type::Float) => match self {
                Arithmetic::Sur => Err(undefined),
                Arithmetic::Mul => {
                    let v = f.calc_score(left, self.oper_eq(), right).intify(left).build();
                    assert(cmds_view(v@) =~= spec->Ok_0);
                    Ok(v)
                },
                Arithmetic::Div => {
                    let v = f.fltify(left).calc_score(left, self.oper_eq(), right).build();
                    assert(cmds_view(v@) =~= spec->Ok_0);
                    Ok(v)
                },
                Arithmetic::Add | Arithmetic::Rem => {
                    let v = f.calc_score(left, self.oper_eq(), right).build();
                    assert(cmds_view(v@) =~= spec->Ok_0);
                    Ok(v)
                },
            },
            _ => Err(undefined),
        }
    }

    fn calc_int(&self, left: &Scoreboard, right: i32) -> (r: Result<Vec<CommandAST>, CompileError>)
        ensures
            lowered(r) == arith_int_spec(*self, left@, right),
    {
        let mut f = FormulaConstructer::new();
        let scaled = match left.datatype {
            Type::Int => right,
            Type::Float => magnify(right),
            _ => {
                return Err(CompileError::UndefinedOperation(left.datatype, Oper::Arithmetic(*self), Type::Int));
            },
        };
        match self {
            Arithmetic::Add => Ok(f.add_rem_num(left, "add".to_string(), scaled).build()),
            Arithmetic::Rem => Ok(f.add_rem_num(left, "remove".to_string(), scaled).build()),
            _ => Ok(f.calc_num(left, self.oper_eq(), right).build()),
        }
    }

    fn calc_float(&self, left: &Scoreboard, right: i64, adjust: &Scoreboard) -> (r: Result<Vec<CommandAST>, CompileError>)
        ensures
            lowered(r) == arith_flt_spec(*self, left@, right, adjust@),
    {
        let mut f = FormulaConstructer::new();
        let undefined = CompileError::UndefinedOperation(left.datatype, Oper::Arithmetic(*self), Type::Float);
        if !matches!(left.datatype, Type::Int | Type::Float) {
            return Err(undefined);
        }
        let k = saturate_i32(right);
        let ghost spec = arith_flt_spec(*self, left@, right, adjust@);
        match self {
            Arithmetic::Add | Arithmetic::Rem => {
                let word = match self {
                    Arithmetic::Add => "add".to_string(),
                    _ => "remove".to_string(),
                };
                let amount = match left.datatype {
                    Type::Float => k,
                    _ => saturate_i32(unmagnify(right)),
                };
                let v = f.add_rem_num(left, word, amount).build();
                assert(cmds_view(v@) =~= spec->Ok_0);
                Ok(v)
            },
            Arithmetic::Sur => Err(undefined),
            Arithmetic::Mul => match left.datatype {
                Type::Int => {
                    let v = f.assign_score(adjust, left).fltify(adjust).calc_num(adjust, "*=".to_string(), k)
                        .intify(adjust).intify(adjust).assign_score(left, adjust).free(adjust).build();
                    assert(cmds_view(v@) =~= spec->Ok_0);
                    Ok(v)
                },
                _ => {
                    let v = f.calc_num(left, "*=".to_string(), k).intify(left).build();
                    assert(cmds_view(v@) =~= spec->Ok_0);
                    Ok(v)
                },
            },
            Arithmetic::Div => match left.datatype {
                Type::Int => {
                    let v = f.assign_score(adjust, left).fltify(adjust).fltify(adjust).calc_num(adjust, "/=".to_string(), k)
                        .intify(adjust).assign_score(left, adjust).free(adjust).build();
                    assert(cmds_view(v@) =~= spec->Ok_0);
                    Ok(v)
                },
                _ => {
                    let v = f.fltify(left).calc_num(left, "/=".to_string(), k).build();
                    assert(cmds_view(v@) =~= spec->Ok_0);
                    Ok(v)
                },
            },
        }
    }
}

} // verus!
