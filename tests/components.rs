use mcpp_core::ast::{FToken, Formula, SyntaxError, VariableDefinement};
use mcpp_core::arithmetic_operation::Arithmetic;
use mcpp_core::command_ast::{
    BoolifyCondition, CommandAST, ConditionAST, ComparisonAST, ExecuteConstructer, FormulaConstructer,
    ScoreTarget, Serialise,
};
use mcpp_core::comparison_operation::Comparison;
use mcpp_core::compiler::{CompileError, Compiler};
use mcpp_core::evaluater::Oper;
use mcpp_core::logical_operation::Logical;
use mcpp_core::scoreboard::{generate_random_id, get_calc_result_temp, get_calc_temp, get_type_adjusted_temp, Scoreboard};
use mcpp_core::serialiser::{c_ast_to_string, solve_native, CalcReserv, IToken};
use mcpp_core::syntax_analyser::SyntaxAnalyser;
use mcpp_core::text::int_to_text;
use mcpp_core::tokeniser::{tokenize, Token};
use mcpp_core::types::Type;

fn board(name: &str, scope: &[&str], datatype: Type) -> Scoreboard {
    Scoreboard { name: name.to_string(), scope: scope.iter().map(|s| s.to_string()).collect(), datatype }
}

fn texts(cmds: &[CommandAST]) -> Vec<String> {
    cmds.iter().map(|c| c.serialise()).collect()
}

#[test]
fn test() {
    let token = vec![
        Token::LBrace, Token::If, Token::Ident("a".to_string()), Token::Gt, Token::Int(10), Token::LBrace,
        Token::Let,
    ];
    let mut analyser = SyntaxAnalyser::new(token);
    assert!(analyser.get_block().is_err());
}

#[test]
fn tokeniser_tokenizer_test() {
    let tokens = tokenize("fn main -> int {let a = 1.14 + 5.14; return 810;}".to_string());
    println!("{:?}", tokens);
    assert_eq!(
        tokens,
        vec![
            Token::Fn, Token::Ident("main".to_string()), Token::Arr, Token::IntType, Token::LBrace, Token::Let,
            Token::Ident("a".to_string()), Token::Asn, Token::Flt(1140), Token::Add, Token::Flt(5140),
            Token::Semicolon, Token::Return, Token::Int(810), Token::Semicolon, Token::RBrace,
        ]
    );
    let older = tokenize("fn main -> int {let a = 1.14 + 5.14; return 810}".to_string());
    println!("{:?}", older);
    assert_eq!(older.len(), 15);
}

#[test]
fn lexing_rendered_tokens_gives_them_back() {
    let tokens = vec![
        Token::Let, Token::Ident("a".to_string()), Token::Colon, Token::FltType, Token::Asn, Token::Flt(1500),
        Token::Add, Token::Int(2), Token::Semicolon, Token::If, Token::Ident("a".to_string()), Token::REt,
        Token::Int(3), Token::NEq, Token::Bln(true), Token::LBrace, Token::RBrace, Token::While, Token::FArr,
    ];
    let rendered = "let a : float = 1.500 + 2 ; if a >= 3 != true { } while =>";
    assert_eq!(tokenize(rendered.to_string()), tokens);
}

#[test]
fn lexer_edge_cases() {
    assert_eq!(tokenize("".to_string()), vec![]);
    assert_eq!(tokenize("3.".to_string()), vec![Token::Int(3), Token::Dot]);
    assert_eq!(tokenize("a1".to_string()), vec![Token::Ident("a1".to_string())]);
    assert_eq!(tokenize("1a".to_string()), vec![Token::Int(1), Token::Ident("a".to_string())]);
    assert_eq!(tokenize("x2+y".to_string()), vec![Token::Ident("x2".to_string()), Token::Add, Token::Ident("y".to_string())]);
    assert_eq!(tokenize("\"hi there\"x".to_string()), vec![Token::Str("hi there".to_string()), Token::Ident("x".to_string())]);
    assert_eq!(tokenize("$stone ;".to_string()), vec![Token::MCId("stone".to_string()), Token::Semicolon]);
    assert_eq!(
        tokenize("$minecraft:stone".to_string()),
        vec![Token::MCId("minecraft".to_string()), Token::Colon, Token::Ident("stone".to_string())]
    );
    assert_eq!(tokenize("99999999999".to_string()), vec![]);
    assert_eq!(tokenize("0.0015".to_string()), vec![Token::Flt(1)]);
    assert_eq!(tokenize("\"open".to_string()), vec![Token::Str("open".to_string())]);
}

#[test]
fn boolify_expands_to_four_lines() {
    let target = board("x", &["S"], Type::Bool);
    let right = board("y", &[], Type::Int);
    let mut f = FormulaConstructer::new();
    let cmds = f.boolify_score_comparison(&target, "==".to_string(), &right).build();
    assert_eq!(cmds.len(), 1);
    let text = cmds[0].serialise();
    let ls: Vec<&str> = text.lines().collect();
    assert_eq!(ls.len(), 4);
    let temp = ls[0].trim_start_matches("scoreboard players set ").split(' ').next().unwrap();
    assert!(temp.starts_with("#TEMP.CALC_TEMP_") && temp.len() == "#TEMP.CALC_TEMP_".len() + 16);
    assert_eq!(ls[0], format!("scoreboard players set {} MCPP.var 0", temp));
    assert_eq!(
        ls[1],
        format!("execute if score #S.x MCPP.var = #y MCPP.var run scoreboard players set {} MCPP.var 1", temp)
    );
    assert_eq!(ls[2], format!("scoreboard players operation #S.x MCPP.var = {} MCPP.var", temp));
    assert_eq!(ls[3], format!("scoreboard players reset {} MCPP.var", temp));
}

#[test]
fn to_be_normalises_into_zero_or_one() {
    let store = board("flag", &["S"], Type::Bool);
    let reserv = CalcReserv { tokens: vec![IToken::Int(5)] };
    let cmds = reserv.to_be(&store).unwrap();
    let ts = texts(&cmds);
    let n = ts.len();
    assert_eq!(n, 6);
    let value = ts[0].trim_start_matches("scoreboard players set ").split(' ').next().unwrap().to_string();
    assert!(value.starts_with("#TEMP.TO_BE_"));
    assert_eq!(ts[0], format!("scoreboard players set {} MCPP.var 5", value));
    assert_eq!(ts[1], "scoreboard players set #CONST.0 MCPP.var 0");
    assert!(ts[2].contains(&format!("execute unless score {} MCPP.var = #CONST.0 MCPP.var run ", value)));
    assert_eq!(ts[3], format!("scoreboard players operation #S.flag MCPP.var = {} MCPP.var", value));
    assert_eq!(ts[4], format!("scoreboard players reset {} MCPP.var", value));
    assert_eq!(ts[5], "scoreboard players reset #CONST.0 MCPP.var");
}

#[test]
fn guess_type_agrees_with_lowering() {
    let bad = CalcReserv { tokens: vec![IToken::Int(1), IToken::Bln(true), IToken::Oper(Oper::Arithmetic(Arithmetic::Add))] };
    assert!(matches!(bad.guess_type(), Err(CompileError::UndefinedOperation(..))));
    assert!(bad.serialise(&board("r", &[], Type::Int)).is_err());
    let cmp = CalcReserv {
        tokens: vec![IToken::Int(1), IToken::Flt(2000), IToken::Oper(Oper::Comparison(Comparison::Lt))],
    };
    assert!(matches!(cmp.guess_type(), Ok(Type::Bool)));
    assert!(cmp.serialise(&board("r", &[], Type::Bool)).is_ok());
    assert!(matches!(cmp.serialise(&board("r", &[], Type::Int)), Err(CompileError::InvalidRHS(_))));
    let or = CalcReserv { tokens: vec![IToken::Bln(true), IToken::Bln(false), IToken::Oper(Oper::Logical(Logical::Or))] };
    assert!(matches!(or.guess_type(), Ok(Type::Bool)));
    let not = CalcReserv { tokens: vec![IToken::Bln(true), IToken::Bln(false), IToken::Oper(Oper::Logical(Logical::Not))] };
    assert!(matches!(not.guess_type(), Err(CompileError::UndefinedOperation(..))));
}

#[test]
fn formula_errors_by_kind() {
    let short = CalcReserv { tokens: vec![IToken::Int(1), IToken::Oper(Oper::Arithmetic(Arithmetic::Add))] };
    assert!(matches!(short.guess_type(), Err(CompileError::InvalidFormulaStructure(_))));
    let paren = CalcReserv { tokens: vec![IToken::LParen, IToken::Int(1)] };
    assert!(matches!(paren.guess_type(), Err(CompileError::UnbalancedParentheses)));
    let two = CalcReserv { tokens: vec![IToken::Int(1), IToken::Int(2)] };
    assert!(matches!(two.guess_type(), Err(CompileError::UnbalancedParentheses)));
    let text = CalcReserv { tokens: vec![IToken::Str("s".to_string())] };
    assert!(matches!(text.guess_type(), Err(CompileError::UnsupportedLiteralType(_))));
    let target = board("x", &[], Type::Bool);
    assert!(matches!(target.assign(&IToken::Int(1)), Err(CompileError::InvalidRHS(_))));
    assert!(matches!(target.assign(&IToken::LParen), Err(CompileError::TheTokenIsntValue(_))));
    let mut compiler = Compiler::new("MCPP");
    let untyped = VariableDefinement { identifier: "a".to_string(), datatype: None, initialise: None };
    assert!(matches!(untyped.serialise(&mut compiler), Err(CompileError::TheTypeOfAIndentifierWontBeConfirmed(_))));
}

#[test]
fn shunting_yard_balance() {
    assert!(matches!(Formula { formula_tokens: vec![] }.to_rpn(), Err(SyntaxError::EmptyFormula)));
    let open = Formula { formula_tokens: vec![FToken::LParen, FToken::Int(1)] };
    assert!(matches!(open.to_rpn(), Err(SyntaxError::UnbalancedParentheses)));
    let close = Formula { formula_tokens: vec![FToken::Int(1), FToken::RParen] };
    assert!(matches!(close.to_rpn(), Err(SyntaxError::UnbalancedParentheses)));
    let add = FToken::Oper(Oper::Arithmetic(Arithmetic::Add));
    let mul = FToken::Oper(Oper::Arithmetic(Arithmetic::Mul));
    let ok = Formula {
        formula_tokens: vec![FToken::LParen, FToken::Int(1), add, FToken::Int(2), FToken::RParen, mul, FToken::Int(3)],
    };
    let rpn = ok.to_rpn().unwrap().formula_tokens;
    assert_eq!(rpn.len(), 5);
    assert!(matches!(rpn[0], FToken::Int(1)));
    assert!(matches!(rpn[1], FToken::Int(2)));
    assert!(matches!(rpn[2], FToken::Oper(Oper::Arithmetic(Arithmetic::Add))));
    assert!(matches!(rpn[3], FToken::Int(3)));
    assert!(matches!(rpn[4], FToken::Oper(Oper::Arithmetic(Arithmetic::Mul))));
}

#[test]
fn equal_priority_chains_to_the_right() {
    let sub = || FToken::Oper(Oper::Arithmetic(Arithmetic::Rem));
    let f = Formula { formula_tokens: vec![FToken::Int(8), sub(), FToken::Int(3), sub(), FToken::Int(2)] };
    let rpn = f.to_rpn().unwrap().formula_tokens;
    assert!(matches!(rpn[0], FToken::Int(8)));
    assert!(matches!(rpn[1], FToken::Int(3)));
    assert!(matches!(rpn[2], FToken::Int(2)));
    assert!(matches!(rpn[3], FToken::Oper(_)));
    assert!(matches!(rpn[4], FToken::Oper(_)));
}

#[test]
fn block_restores_variables() {
    let mut compiler = Compiler::new("MCPP");
    let tokens = tokenize("{ let a: int = 1; { let b: int = a; } let c: bool = a > 0; }".to_string());
    let block = SyntaxAnalyser::new(tokens).get_block().unwrap();
    assert_eq!(compiler.variables.len(), 0);
    let f = block.mcfunctionate(&mut compiler).unwrap();
    assert_eq!(compiler.variables.len(), 0);
    assert!(compiler.scope.is_empty());
    assert_eq!(compiler.compiled.len(), 1);
    assert!(f.inside.ends_with(&format!("scoreboard players reset #{}.a MCPP.var", f.name)));
}

#[test]
fn literal_assignment_round_trip() {
    let fl = board("x", &[], Type::Float);
    assert_eq!(texts(&fl.assign(&IToken::Int(2)).unwrap()), vec!["scoreboard players set #x MCPP.var 2000"]);
    assert_eq!(texts(&fl.assign(&IToken::Flt(1234)).unwrap()), vec!["scoreboard players set #x MCPP.var 1234"]);
    let int = board("n", &["A", "B"], Type::Int);
    assert_eq!(texts(&int.assign(&IToken::Flt(2750)).unwrap()), vec!["scoreboard players set #A.B.n MCPP.var 2"]);
    assert_eq!(texts(&int.assign(&IToken::Int(-7)).unwrap()), vec!["scoreboard players set #A.B.n MCPP.var -7"]);
    let b = board("b", &[], Type::Bool);
    assert_eq!(texts(&b.assign(&IToken::Bln(true)).unwrap()), vec!["scoreboard players set #b MCPP.var 1"]);
    let from_float = int.assign(&IToken::Scr(board("f", &[], Type::Float))).unwrap();
    assert_eq!(
        texts(&from_float),
        vec![
            "scoreboard players operation #A.B.n MCPP.var = #f MCPP.var",
            "scoreboard players set #CONST.1000 MCPP.var 1000",
            "scoreboard players operation #A.B.n MCPP.var /= #CONST.1000 MCPP.var",
            "scoreboard players reset #CONST.1000 MCPP.var",
        ]
    );
}

#[test]
fn arithmetic_lowering_cases() {
    let l = board("l", &[], Type::Float);
    let ta = board("t", &["TEMP"], Type::Int);
    let r = board("r", &[], Type::Int);
    let v = Arithmetic::Add.calc_via(&l, &IToken::Scr(r.clone()), &ta).unwrap();
    assert_eq!(
        texts(&v),
        vec![
            "scoreboard players operation #TEMP.t MCPP.var = #r MCPP.var",
            "scoreboard players set #CONST.1000 MCPP.var 1000",
            "scoreboard players operation #TEMP.t MCPP.var *= #CONST.1000 MCPP.var",
            "scoreboard players operation #l MCPP.var += #TEMP.t MCPP.var",
            "scoreboard players reset #TEMP.t MCPP.var",
            "scoreboard players reset #CONST.1000 MCPP.var",
        ]
    );
    assert_eq!(texts(&Arithmetic::Rem.calc_via(&l, &IToken::Int(3), &ta).unwrap()), vec!["scoreboard players remove #l MCPP.var 3000"]);
    assert_eq!(texts(&Arithmetic::Add.calc_via(&r, &IToken::Flt(2500), &ta).unwrap()), vec!["scoreboard players add #r MCPP.var 2"]);
    assert!(matches!(Arithmetic::Sur.calc_via(&l, &IToken::Scr(l.clone()), &ta), Err(CompileError::UndefinedOperation(..))));
    assert!(matches!(Arithmetic::Mul.calc_via(&l, &IToken::Bln(true), &ta), Err(CompileError::UndefinedOperation(..))));
    let div = Arithmetic::Div.calc_via(&l, &IToken::Scr(l.clone()), &ta).unwrap();
    assert_eq!(texts(&div)[1], "scoreboard players operation #l MCPP.var *= #CONST.1000 MCPP.var");
    assert_eq!(texts(&div)[2], "scoreboard players operation #l MCPP.var /= #l MCPP.var");
    assert_eq!(Arithmetic::Mul.get_type(&Type::Float, &Type::Int), Some(Type::Float));
    assert_eq!(Arithmetic::Sur.get_type(&Type::Int, &Type::Float), None);
}

#[test]
fn comparison_and_logical_lowering() {
    let b = board("b", &[], Type::Bool);
    let eq_true = Comparison::Eq.calc_via(&b, &IToken::Bln(true), &b).unwrap();
    assert_eq!(texts(&eq_true)[0], "scoreboard players set #CONST.0 MCPP.var 0");
    assert!(texts(&eq_true)[1].contains("execute unless score #b MCPP.var = #CONST.0 MCPP.var run "));
    assert!(matches!(Comparison::Gt.calc_via(&b, &IToken::Bln(true), &b), Err(CompileError::UndefinedOperation(..))));
    let or = Logical::Or.calc(&b, &IToken::Scr(b.clone())).unwrap();
    let ts = texts(&or);
    assert_eq!(ts[0], "scoreboard players operation #b MCPP.var += #b MCPP.var");
    assert!(ts[2].contains("execute unless score #b MCPP.var = #CONST.0 MCPP.var run "));
    assert!(Logical::And.calc(&b, &IToken::Bln(true)).unwrap().is_empty());
    assert_eq!(texts(&Logical::Or.calc(&b, &IToken::Bln(true)).unwrap()), vec!["scoreboard players set #b MCPP.var 1"]);
    assert!(matches!(Logical::And.calc(&b, &IToken::Int(1)), Err(CompileError::UndefinedOperation(..))));
    assert_eq!(Comparison::Eq.get_type(&Type::Int, &Type::Float), Some(Type::Bool));
    assert_eq!(Logical::And.get_type(&Type::Bool, &Type::Int), None);
    assert_eq!(Oper::Logical(Logical::And).get_priority(), 1);
    assert_eq!(Oper::Arithmetic(Arithmetic::Mul).get_priority(), 3);
    assert_eq!(Oper::Comparison(Comparison::Le).to_str(), "<=");
}

#[test]
fn execute_chain_rewrites_not_equal() {
    let a = board("a", &["S"], Type::Int);
    let z = board("0", &["CONST"], Type::Int);
    let chain = ExecuteConstructer::new().compare(&a, &Comparison::Neq, &z).build();
    assert_eq!(chain, "execute unless score #S.a MCPP.var = #CONST.0 MCPP.var run ");
    let ge = ExecuteConstructer::new().compare(&a, &Comparison::Ge, &z).compare(&a, &Comparison::Eq, &z).build();
    assert_eq!(ge, "execute if score #S.a MCPP.var >= #CONST.0 MCPP.var if score #S.a MCPP.var = #CONST.0 MCPP.var run ");
    let unless = ConditionAST::Comparison(ComparisonAST {
        is_unless: true,
        left: ScoreTarget::of(&a),
        comparison: "<".to_string(),
        right: ScoreTarget::of(&z),
    });
    assert_eq!(unless.serialise(), "unless score #S.a MCPP.var < #CONST.0 MCPP.var");
}

#[test]
fn builder_frees_constants_once_per_build() {
    let t = board("t", &[], Type::Int);
    let mut f = FormulaConstructer::new();
    f.intify(&t).validate_bool(&t).free(&t);
    let first = texts(&f.build());
    let second = texts(&f.build());
    assert_eq!(first.len(), 7);
    assert_eq!(second.len(), 7);
    for i in [0usize, 1, 2, 4, 5, 6] {
        assert_eq!(first[i], second[i]);
    }
    assert_eq!(first[5], "scoreboard players reset #CONST.1000 MCPP.var");
    assert_eq!(first[6], "scoreboard players reset #CONST.0 MCPP.var");
    assert_eq!(first[4], "scoreboard players reset #t MCPP.var");
    let native = CommandAST::Native("say hi".to_string());
    assert_eq!(c_ast_to_string(&vec![native, CommandAST::Native("tp @s ~ ~ ~".to_string())]), "say hi\ntp @s ~ ~ ~");
    let b = BoolifyCondition { contain_to: ScoreTarget::of(&t), execute: ExecuteConstructer::new() };
    assert_eq!(b.serialise().lines().count(), 4);
}

#[test]
fn scratch_cells_and_ids() {
    let id = generate_random_id(16);
    assert_eq!(id.len(), 16);
    assert!(id.chars().all(|c| c.is_ascii_lowercase()));
    assert_ne!(generate_random_id(32), generate_random_id(32));
    let t = get_type_adjusted_temp(Type::Float);
    assert!(t.name.starts_with("CALC_TYPE_ADJUSTED_") && t.name.len() == 19 + 16);
    assert_eq!(t.scope, vec!["TEMP".to_string()]);
    assert_eq!(t.datatype, Type::Float);
    assert!(get_calc_temp(Type::Bool).get_mcname().starts_with("#TEMP.CALC_TEMP_"));
    assert!(get_calc_result_temp(Type::Int).name.starts_with("CALC_RESULT_"));
    assert_eq!(board("n", &[], Type::Int).get_mcname(), "#n");
    assert_eq!(board("n", &["A", "B"], Type::Int).free().len(), 1);
    assert_eq!(int_to_text(-2147483648), "-2147483648");
    assert_eq!(int_to_text(0), "0");
}

#[test]
fn native_macro_takes_one_string() {
    let ok = tokenize("native!(\"say hi\")".to_string());
    assert_eq!(ok.len(), 5);
    let mut analyser = SyntaxAnalyser::new(ok);
    let formula = analyser.get_formula().unwrap();
    assert_eq!(formula.len(), 1);
    match formula.into_iter().next().unwrap() {
        FToken::Mcr(name, args) => {
            assert_eq!(name, "native");
            assert_eq!(args.inside.len(), 1);
            assert_eq!(solve_native(&args).unwrap().serialise(), "say hi");
            let none = mcpp_core::ast::Tuple { inside: vec![] };
            assert!(matches!(solve_native(&none), Err(SyntaxError::ArgumentCountMismatch)));
        },
        _ => panic!("expected a macro call"),
    }
}

#[test]
fn evaluate_returns_block_text() {
    let text = Compiler::new("MCPP").evaluate("{ let a: int = 1; }".to_string()).unwrap();
    assert!(text.starts_with("scoreboard players set #"));
    assert!(text.ends_with(".a MCPP.var"));
}
