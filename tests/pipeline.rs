use minicc::codegen::{gen, gen_lval, gen_program};
use minicc::driver::{compile_source, CompileError};
use minicc::machine::{Instr, Machine, FRAME_SIZE, SLOTS};
use minicc::parse::{add, assign, consume, mul, program, stmt, term, ParseError};
use minicc::token::{strtonum, tokenize, Node, Token, TokenizeError};

const BASE: u64 = 0x7fff_0000;

fn slot(c: char) -> usize {
    ('z' as usize) - (c as usize)
}

/// Compiles and runs `src`; gives the return register and the frame.
fn run(src: &str) -> (u64, Vec<u64>) {
    let code = compile_source(src).expect("compiles");
    let mut m = Machine::new(BASE);
    assert!(m.execute(&code), "runs without fault");
    assert!(m.stack.is_empty());
    (m.rax, m.frame)
}

#[test]
fn scenario_precedence() {
    assert_eq!(run("1+2*3;").0, 7);
}

#[test]
fn scenario_parenthesized_sum() {
    assert_eq!(run("(1+2)*3;").0, 9);
}

#[test]
fn scenario_variable_kept_between_statements() {
    let (r, frame) = run("a=3;a+2;");
    assert_eq!(r, 5);
    assert_eq!(frame[slot('a')], 3);
}

#[test]
fn scenario_chained_assignment() {
    let (r, frame) = run("a=b=5;a-b;");
    assert_eq!(r, 0);
    assert_eq!(frame[slot('a')], 5);
    assert_eq!(frame[slot('b')], 5);
}

#[test]
fn scenario_division() {
    assert_eq!(run("6/3;").0, 2);
}

#[test]
fn scenario_missing_operand() {
    assert_eq!(compile_source("1+;").unwrap_err(), CompileError::Parse(ParseError::UnexpectedToken(2)));
}

#[test]
fn scenario_unclosed_paren() {
    assert_eq!(compile_source("(1+2;").unwrap_err(), CompileError::Parse(ParseError::UnclosedParen(4)));
}

#[test]
fn product_binds_tighter_on_the_left() {
    assert_eq!(run("2*3+4;").0, 10);
    assert_eq!(run("2*3+4;").0, run("(2*3)+4;").0);
    assert_eq!(run("1+2*3;").0, run("1+(2*3);").0);
}

#[test]
fn subtraction_and_division_group_left() {
    assert_eq!(run("8-3-2;").0, 3);
    assert_eq!(run("12/2/3;").0, 2);
    assert_eq!(run("8-(3-2);").0, 7);
}

#[test]
fn parentheses_keep_the_value() {
    assert_eq!(run("((((4))));").0, 4);
    assert_eq!(run("a=2;(a+1)*(a+(1));").0, 9);
}

#[test]
fn assignment_has_the_assigned_value() {
    let (r, frame) = run("z=4*5;");
    assert_eq!(r, 20);
    assert_eq!(frame[slot('z')], 20);
}

#[test]
fn chained_assignment_stores_the_value_not_the_old_one() {
    let (r, frame) = run("b=9;a=b=2;a;");
    assert_eq!(r, 2);
    assert_eq!(frame[slot('b')], 2);
}

#[test]
fn result_is_the_last_statement() {
    assert_eq!(run("1;2;3;").0, 3);
}

#[test]
fn assignment_leaves_other_letters() {
    let (r, frame) = run("a=1;b=2;z=3;a=7;b;");
    assert_eq!(r, 2);
    assert_eq!(frame[slot('a')], 7);
    assert_eq!(frame[slot('b')], 2);
    assert_eq!(frame[slot('z')], 3);
    for c in 'c'..='y' {
        assert_eq!(frame[slot(c)], 0);
    }
}

#[test]
fn arithmetic_wraps_in_64_bits() {
    assert_eq!(run("0-1;").0, u64::MAX);
    assert_eq!(run("4294967296*4294967296;").0, 0);
}

#[test]
fn division_by_zero_faults() {
    let code = compile_source("1/0;").unwrap();
    let mut m = Machine::new(BASE);
    assert!(!m.execute(&code));
}

#[test]
fn tokenize_all_kinds() {
    let t = tokenize(" 12 +\tab=(3)-4*5/6;\n").unwrap();
    assert_eq!(
        t,
        vec![
            Token::Num(12),
            Token::Plus,
            Token::Ident('a'),
            Token::Ident('b'),
            Token::Assign,
            Token::Lparen,
            Token::Num(3),
            Token::Rparen,
            Token::Minus,
            Token::Num(4),
            Token::Asterisk,
            Token::Num(5),
            Token::Slash,
            Token::Num(6),
            Token::Semicolon,
            Token::EOF,
        ]
    );
}

#[test]
fn tokenize_empty_input() {
    assert_eq!(tokenize("").unwrap(), vec![Token::EOF]);
    assert_eq!(tokenize("  \n").unwrap(), vec![Token::EOF]);
}

#[test]
fn tokenize_rejects_unknown_byte() {
    assert_eq!(tokenize("1 # 2").unwrap_err(), TokenizeError::Unexpected { pos: 2 });
    assert_eq!(tokenize("A;").unwrap_err(), TokenizeError::Unexpected { pos: 0 });
    assert_eq!(compile_source("1%2;").unwrap_err(), CompileError::Tokenize(TokenizeError::Unexpected { pos: 1 }));
}

#[test]
fn tokenize_largest_number() {
    assert_eq!(tokenize("9223372036854775807").unwrap(), vec![Token::Num(i64::MAX), Token::EOF]);
    assert_eq!(tokenize("1+9223372036854775808").unwrap_err(), TokenizeError::Overflow { pos: 2 });
}

#[test]
fn strtonum_reads_a_run() {
    let s = "0123+4".as_bytes();
    let mut pos: usize = 0;
    assert_eq!(strtonum(s, &mut pos), Some(123));
    assert_eq!(pos, 4);
    let big = "99999999999999999999".as_bytes();
    let mut p: usize = 0;
    assert_eq!(strtonum(big, &mut p), None);
    assert_eq!(p, 0);
}

#[test]
fn consume_only_on_match() {
    let mut tokens = vec![Token::Plus, Token::EOF];
    let mut pos: usize = 0;
    assert!(!consume(&mut tokens, Token::Minus, &mut pos));
    assert_eq!(pos, 0);
    assert!(consume(&mut tokens, Token::Plus, &mut pos));
    assert_eq!(pos, 1);
}

#[test]
fn consume_matches_numbers_and_identifiers_by_kind() {
    let mut tokens = vec![Token::Num(5), Token::Ident('a'), Token::EOF];
    let mut pos: usize = 0;
    assert!(!consume(&mut tokens, Token::Ident('a'), &mut pos));
    assert_eq!(pos, 0);
    assert!(consume(&mut tokens, Token::Num(7), &mut pos));
    assert_eq!(pos, 1);
    assert!(consume(&mut tokens, Token::Ident('z'), &mut pos));
    assert_eq!(pos, 2);
}

#[test]
fn program_stops_on_eof() {
    let mut tokens = vec![Token::EOF];
    let mut pos: usize = 0;
    assert!(program(&mut tokens, &mut pos).unwrap().is_empty());
    assert_eq!(pos, 0);
    let mut tokens = tokenize("a=1;b;").unwrap();
    let mut pos: usize = 0;
    assert_eq!(program(&mut tokens, &mut pos).unwrap().len(), 2);
    assert_eq!(tokens[pos], Token::EOF);
}

#[test]
fn term_reads_number_variable_and_group() {
    let mut tokens = tokenize("7").unwrap();
    let mut pos: usize = 0;
    let n = term(&mut tokens, &mut pos).unwrap();
    assert_eq!(n.token, Token::Num(7));
    assert!(n.lhs.is_none() && n.rhs.is_none());
    assert_eq!(pos, 1);

    let mut tokens = tokenize("(x)").unwrap();
    let mut pos: usize = 0;
    let n = term(&mut tokens, &mut pos).unwrap();
    assert_eq!(n.token, Token::Ident('x'));
    assert_eq!(pos, 3);

    let mut tokens = tokenize("+").unwrap();
    let mut pos: usize = 0;
    assert_eq!(term(&mut tokens, &mut pos).unwrap_err(), ParseError::UnexpectedToken(0));
}

#[test]
fn mul_and_add_build_left_leaning_trees() {
    let mut tokens = tokenize("1*2/3").unwrap();
    let mut pos: usize = 0;
    let n = mul(&mut tokens, &mut pos).unwrap();
    assert_eq!(n.token, Token::Slash);
    assert_eq!(n.lhs.as_ref().unwrap().token, Token::Asterisk);
    assert_eq!(n.rhs.as_ref().unwrap().token, Token::Num(3));
    assert_eq!(pos, 5);

    let mut tokens = tokenize("1-2*3").unwrap();
    let mut pos: usize = 0;
    let n = add(&mut tokens, &mut pos).unwrap();
    assert_eq!(n.token, Token::Minus);
    assert_eq!(n.lhs.as_ref().unwrap().token, Token::Num(1));
    assert_eq!(n.rhs.as_ref().unwrap().token, Token::Asterisk);
}

#[test]
fn assign_builds_right_leaning_tree() {
    let mut tokens = tokenize("a=b=1").unwrap();
    let mut pos: usize = 0;
    let n = assign(&mut tokens, &mut pos).unwrap();
    assert_eq!(n.token, Token::Assign);
    assert_eq!(n.lhs.as_ref().unwrap().token, Token::Ident('a'));
    let inner = n.rhs.as_ref().unwrap();
    assert_eq!(inner.token, Token::Assign);
    assert_eq!(inner.lhs.as_ref().unwrap().token, Token::Ident('b'));
    assert_eq!(inner.rhs.as_ref().unwrap().token, Token::Num(1));
}

#[test]
fn assign_rejects_non_variable_target() {
    let mut tokens = tokenize("1=2;").unwrap();
    let mut pos: usize = 0;
    assert_eq!(assign(&mut tokens, &mut pos).unwrap_err(), ParseError::InvalidAssignTarget(1));
    assert_eq!(compile_source("(a)+1=2;").unwrap_err(), CompileError::Parse(ParseError::InvalidAssignTarget(5)));
}

#[test]
fn stmt_needs_semicolon() {
    let mut tokens = tokenize("1 2").unwrap();
    let mut pos: usize = 0;
    assert_eq!(stmt(&mut tokens, &mut pos).unwrap_err(), ParseError::MissingSemicolon(1));
}

#[test]
fn program_reads_every_statement() {
    let mut tokens = tokenize("a=1; a+2; 3;").unwrap();
    let mut pos: usize = 0;
    let code = program(&mut tokens, &mut pos).unwrap();
    assert_eq!(code.len(), 3);
    assert_eq!(code[0].token, Token::Assign);
    assert_eq!(code[1].token, Token::Plus);
    assert_eq!(code[2].token, Token::Num(3));

    let mut tokens = tokenize("").unwrap();
    let mut pos: usize = 0;
    assert!(program(&mut tokens, &mut pos).unwrap().is_empty());
}

#[test]
fn node_constructors() {
    let n = Node::new(Token::Plus, Node::new_node_num(1), Node::new_node_ident('q'));
    assert_eq!(n.token, Token::Plus);
    assert_eq!(n.lhs.as_ref().unwrap().token, Token::Num(1));
    assert_eq!(n.rhs.as_ref().unwrap().token, Token::Ident('q'));
    let leaf = Node::new_node_num(5);
    assert!(leaf.lhs.is_none() && leaf.rhs.is_none());
}

#[test]
fn gen_lval_offsets() {
    let mut code = Vec::new();
    gen_lval(&Node::new_node_ident('z'), &mut code);
    assert_eq!(code, vec![Instr::MovRaxRbp, Instr::SubRaxImm(8), Instr::PushRax]);
    let mut code = Vec::new();
    gen_lval(&Node::new_node_ident('a'), &mut code);
    assert_eq!(code[1], Instr::SubRaxImm(FRAME_SIZE));
    assert_eq!(FRAME_SIZE, 8 * SLOTS as u64);
}

#[test]
fn gen_postorder() {
    let mut code = Vec::new();
    gen(&Node::new(Token::Slash, Node::new_node_num(6), Node::new_node_num(3)), &mut code);
    assert_eq!(
        code,
        vec![
            Instr::PushImm(6),
            Instr::PushImm(3),
            Instr::PopRdi,
            Instr::PopRax,
            Instr::ZeroRdx,
            Instr::DivRdi,
            Instr::PushRax,
        ]
    );
}

#[test]
fn gen_program_pops_each_statement() {
    let nodes = vec![Node::new_node_num(1), Node::new_node_num(2)];
    let code = gen_program(&nodes);
    assert_eq!(code, vec![Instr::PushImm(1), Instr::PopRax, Instr::PushImm(2), Instr::PopRax]);
}

#[test]
fn machine_faults_outside_the_frame() {
    let mut m = Machine::new(BASE);
    assert!(m.exec(Instr::MovRaxRbp));
    assert!(!m.exec(Instr::LoadRax));
    let mut m = Machine::new(BASE);
    assert!(!m.exec(Instr::PopRax));
}
