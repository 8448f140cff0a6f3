use mcpp_core::compile;
use mcpp_core::compiler::CompileError;
use mcpp_core::serialiser::MCFunction;
use mcpp_core::arithmetic_operation::Arithmetic;
use mcpp_core::evaluater::Oper;
use mcpp_core::tokeniser::Token;
use mcpp_core::types::Type;

fn lines(f: &MCFunction) -> Vec<String> {
    f.inside.lines().map(|l| l.to_string()).collect()
}

fn is_scratch_player(p: &str, prefix: &str, len: usize) -> bool {
    match p.strip_prefix(prefix) {
        Some(id) => id.len() == len && id.chars().all(|c| c.is_ascii_lowercase()),
        None => false,
    }
}

fn player_of_set(line: &str) -> String {
    line.trim_start_matches("scoreboard players set ").split(' ').next().unwrap().to_string()
}

#[test]
fn let_with_precedence() {
    let fs = compile("{ let a: int = 2 + 3 * 4; }").unwrap();
    assert_eq!(fs.len(), 2);
    let (block, root) = (&fs[0], &fs[1]);
    assert!(root.path.is_empty());
    assert_eq!(block.path, vec![root.name.clone()]);
    assert_eq!(root.inside, format!("function MCPP/{}/{}", root.name, block.name));
    let a = format!("#{}.{}.a", root.name, block.name);
    let ls = lines(block);
    assert_eq!(ls.len(), 10);
    let r1 = player_of_set(&ls[0]);
    assert!(is_scratch_player(&r1, "#TEMP.CALC_RESULT_", 16));
    assert_eq!(ls[0], format!("scoreboard players set {} MCPP.var 3", r1));
    assert_eq!(ls[1], "scoreboard players set #CONST.4 MCPP.var 4");
    assert_eq!(ls[2], format!("scoreboard players operation {} MCPP.var *= #CONST.4 MCPP.var", r1));
    assert_eq!(ls[3], "scoreboard players reset #CONST.4 MCPP.var");
    let r2 = player_of_set(&ls[4]);
    assert!(is_scratch_player(&r2, "#TEMP.CALC_RESULT_", 16));
    assert_eq!(ls[4], format!("scoreboard players set {} MCPP.var 2", r2));
    assert_eq!(ls[5], format!("scoreboard players operation {} MCPP.var += {} MCPP.var", r2, r1));
    assert_eq!(ls[6], format!("scoreboard players operation {} MCPP.var = {} MCPP.var", a, r2));
    assert_eq!(ls[7], format!("scoreboard players reset {} MCPP.var", r1));
    assert_eq!(ls[8], format!("scoreboard players reset {} MCPP.var", r2));
    assert_eq!(ls[9], format!("scoreboard players reset {} MCPP.var", a));
}

#[test]
fn float_multiplication_rescales() {
    let fs = compile("{ let a: float = 1.5; let b: float = a * 2.0; }").unwrap();
    let (block, root) = (&fs[0], &fs[1]);
    let a = format!("#{}.{}.a", root.name, block.name);
    let b = format!("#{}.{}.b", root.name, block.name);
    let ls = lines(block);
    assert_eq!(ls.len(), 12);
    assert_eq!(ls[0], format!("scoreboard players set {} MCPP.var 1500", a));
    let rc = ls[1].trim_start_matches("scoreboard players operation ").split(' ').next().unwrap().to_string();
    assert!(is_scratch_player(&rc, "#TEMP.CALC_RESULT_", 16));
    assert_eq!(ls[1], format!("scoreboard players operation {} MCPP.var = {} MCPP.var", rc, a));
    assert_eq!(ls[2], "scoreboard players set #CONST.2000 MCPP.var 2000");
    assert_eq!(ls[3], format!("scoreboard players operation {} MCPP.var *= #CONST.2000 MCPP.var", rc));
    assert_eq!(ls[4], "scoreboard players set #CONST.1000 MCPP.var 1000");
    assert_eq!(ls[5], format!("scoreboard players operation {} MCPP.var /= #CONST.1000 MCPP.var", rc));
    assert_eq!(ls[6], "scoreboard players reset #CONST.2000 MCPP.var");
    assert_eq!(ls[7], "scoreboard players reset #CONST.1000 MCPP.var");
    assert_eq!(ls[8], format!("scoreboard players operation {} MCPP.var = {} MCPP.var", b, rc));
    assert_eq!(ls[9], format!("scoreboard players reset {} MCPP.var", rc));
    assert_eq!(ls[10], format!("scoreboard players reset {} MCPP.var", b));
    assert_eq!(ls[11], format!("scoreboard players reset {} MCPP.var", a));
}

#[test]
fn if_dispatches_on_condition_cell() {
    let fs = compile("{ let a: int = 5; if a > 3 { a = 0; } }").unwrap();
    assert_eq!(fs.len(), 3);
    let (iff, block, root) = (&fs[0], &fs[1], &fs[2]);
    let scope = format!("{}.{}", root.name, block.name);
    let a = format!("#{}.a", scope);
    assert_eq!(iff.path, vec![root.name.clone(), block.name.clone()]);
    assert_eq!(iff.inside, format!("scoreboard players set {} MCPP.var 0", a));
    let ls = lines(block);
    assert_eq!(ls[0], format!("scoreboard players set {} MCPP.var 5", a));
    assert_eq!(ls[ls.len() - 1], format!("scoreboard players reset {} MCPP.var", a));
    let call_suffix = format!(" MCPP.var = #CONST.0 MCPP.var run function MCPP/{}/{}/{}", root.name, block.name, iff.name);
    let call = ls.iter().find(|l| l.ends_with(&call_suffix)).expect("call line");
    let flag = call.trim_start_matches("execute unless score ").split(' ').next().unwrap();
    assert!(is_scratch_player(flag, "#TEMP.IF_CONDITION_", 32));
    let at = ls.iter().position(|l| l == call).unwrap();
    assert_eq!(ls[at - 1], "scoreboard players set #CONST.0 MCPP.var 0");
    assert!(ls[..at].iter().any(|l| l.contains(&format!("if score ")) && l.contains(" > #CONST.3 MCPP.var run ")));
    assert_eq!(ls[at + 1], format!("scoreboard players reset {} MCPP.var", flag));
    assert_eq!(ls[at + 2], "scoreboard players reset #CONST.0 MCPP.var");
}

#[test]
fn while_calls_itself_again() {
    let fs = compile("{ let i: int = 0; while i < 10 { i = i + 1; } }").unwrap();
    assert_eq!(fs.len(), 3);
    let w = &fs[0];
    let self_call = format!("run function MCPP/{}/{}", w.path.join("/"), w.name);
    let post: Vec<&str> = w.postprocess.lines().collect();
    let again = post.iter().find(|l| l.ends_with(&self_call)).expect("self call");
    assert!(again.starts_with("execute unless score #TEMP.WHILE_CONDITION_"));
    assert!(post.iter().any(|l| l.contains(" < #CONST.10 MCPP.var run ")));
    assert!(w.callment_prefix.starts_with("execute unless score #"));
    assert!(w.callment_prefix.ends_with(" run "));
    assert!(w.inside.contains("scoreboard players add #TEMP.CALC_RESULT_"));
}

#[test]
fn boolean_literal_shortcut() {
    let fs = compile("{ let b: bool = true & false; }").unwrap();
    let (block, root) = (&fs[0], &fs[1]);
    let b = format!("#{}.{}.b", root.name, block.name);
    let ls = lines(block);
    assert_eq!(ls.len(), 5);
    let rc = player_of_set(&ls[0]);
    assert!(is_scratch_player(&rc, "#TEMP.CALC_RESULT_", 16));
    assert_eq!(ls[0], format!("scoreboard players set {} MCPP.var 1", rc));
    assert_eq!(ls[1], format!("scoreboard players set {} MCPP.var 0", rc));
    assert_eq!(ls[2], format!("scoreboard players operation {} MCPP.var = {} MCPP.var", b, rc));
    assert_eq!(ls[3], format!("scoreboard players reset {} MCPP.var", rc));
    assert_eq!(ls[4], format!("scoreboard players reset {} MCPP.var", b));
}

#[test]
fn undeclared_identifier_is_reported() {
    match compile("{ let a: int = x; }") {
        Err(CompileError::UndefinedIdentifierReferenced(name)) => assert_eq!(name, "x"),
        other => panic!("unexpected result: {:?}", other.map(|v| v.len())),
    }
}

#[test]
fn syntax_errors_are_wrapped() {
    assert!(matches!(compile("let = 5"), Err(CompileError::ASyntaxErrorOccured(_))));
    assert!(matches!(compile("fn f"), Err(CompileError::ASyntaxErrorOccured(_))));
    assert!(matches!(compile("{ let a: int = 1; "), Err(CompileError::ASyntaxErrorOccured(_))));
}

#[test]
fn undefined_operation_is_reported() {
    assert!(matches!(compile("let a: int = 1 % 2.0;"), Err(CompileError::UndefinedOperation(..))));
    assert!(matches!(compile("let a: int = 1 + true;"), Err(CompileError::UndefinedOperation(..))));
}

#[test]
fn unbalanced_parentheses_are_reported() {
    assert!(compile("let a: int = (1 + 2;").is_err());
    assert!(compile("let a: int = (1 + 2) * 3;").is_ok());
}

#[test]
fn native_macro_emits_its_line() {
    let fs = compile("native!(\"say hi\");").unwrap();
    assert_eq!(fs[0].inside, "say hi");
}

#[test]
fn names_may_hold_digits() {
    let fs = compile("{ let x1: int = 1; x1 = x1 + 2; }").unwrap();
    assert!(fs[0].inside.contains(".x1 MCPP.var"));
}

#[test]
fn empty_source_gives_root_only() {
    let fs = compile("").unwrap();
    assert_eq!(fs.len(), 1);
    assert_eq!(fs[0].inside, "");
    assert_eq!(fs[0].name.len(), 32);
}

#[test]
fn error_messages_are_readable() {
    let undefined = compile("{ let a: int = x; }").err().unwrap();
    assert_eq!(undefined.message(), "A identifer, x was referenced but undefined.");
    let syntax = compile("fn f").err().unwrap();
    assert_eq!(syntax.message(), "A line mustn't starts with a token, fn.");
    let op = CompileError::UndefinedOperation(Type::Int, Oper::Arithmetic(Arithmetic::Sur), Type::Float);
    assert_eq!(op.message(), "An unsupported calcation occured, Int % Float");
    assert_eq!(CompileError::UnbalancedParentheses.message(), "The number of opening and closing parentheses does not match.");
}

#[test]
fn tokens_render_as_source_text() {
    assert_eq!(Token::Flt(1500).text(), "1.500");
    assert_eq!(Token::Flt(-25).text(), "-0.025");
    assert_eq!(Token::Int(-3).text(), "-3");
    assert_eq!(Token::Str("a b".to_string()).text(), "\"a b\"");
    assert_eq!(Token::MCId("stone".to_string()).text(), "$stone");
    assert_eq!(Token::REt.text(), ">=");
    assert_eq!(Token::FltType.text(), "float");
}
