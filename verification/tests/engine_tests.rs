use regex_vm::engine::codegen::get_code;
use regex_vm::engine::codegen::Generator;
use regex_vm::engine::do_matching;
use regex_vm::engine::evaluator::eval;
use regex_vm::engine::evaluator::EvalError;
use regex_vm::engine::instruction::Instruction;
use regex_vm::engine::parser::parse;
use regex_vm::engine::parser::ParseError;
use regex_vm::engine::MatchError;
use regex_vm::helper::safe_add;

#[test]
fn test_gen_plus() {
    let mut generator = Generator::default();
    let _ = generator.gen_code(&regex_vm::engine::parser::AST::Plus(Box::new(
        regex_vm::engine::parser::AST::Char('a'),
    )));
    assert_eq!(
        generator.insts,
        vec![
            Instruction::Char('a'),
            Instruction::Split(0, 2),
            Instruction::Match
        ]
    )
}

#[test]
fn test_gen_star() {
    let mut generator = Generator::default();
    let _ = generator.gen_code(&regex_vm::engine::parser::AST::Star(Box::new(
        regex_vm::engine::parser::AST::Char('a'),
    )));
    assert_eq!(
        generator.insts,
        vec![
            Instruction::Split(1, 3),
            Instruction::Char('a'),
            Instruction::Jump(0),
            Instruction::Match
        ]
    )
}

#[test]
fn test_gen_question() {
    let mut generator = Generator::default();
    let _ = generator.gen_code(&regex_vm::engine::parser::AST::Question(Box::new(
        regex_vm::engine::parser::AST::Char('a'),
    )));
    assert_eq!(
        generator.insts,
        vec![
            Instruction::Split(1, 2),
            Instruction::Char('a'),
            Instruction::Match
        ]
    )
}

#[test]
fn test_do_matching() {
    assert!(do_matching("+a", "aaa").is_err());
    assert!(do_matching("a+", "a").unwrap());
}

#[test]
fn literal_pattern_matches_exactly_equal_input() {
    assert_eq!(do_matching("abc", "abc"), Ok(true));
    assert_eq!(do_matching("abc", "abd"), Ok(false));
    assert_eq!(do_matching("abc", "ab"), Ok(false));
    assert_eq!(do_matching("abc", ""), Ok(false));
}

#[test]
fn literal_pattern_matches_longer_input_as_prefix() {
    assert_eq!(do_matching("ab", "abc"), Ok(true));
}

#[test]
fn star_accepts_empty_input() {
    assert_eq!(do_matching("a*", ""), Ok(true));
    assert_eq!(do_matching("a*", "aaa"), Ok(true));
    assert_eq!(do_matching("a*", "b"), Ok(true));
}

#[test]
fn plus_rejects_empty_input() {
    assert_eq!(do_matching("a+", ""), Ok(false));
    assert_eq!(do_matching("a+", "aaa"), Ok(true));
    assert_eq!(do_matching("a+", "b"), Ok(false));
}

#[test]
fn greedy_split_explores_first_address_first() {
    // The second address leads to an invalid jump: only first-address-first
    // exploration reaches the accept without tripping over it.
    let insts = vec![
        Instruction::Split(1, 2),
        Instruction::Match,
        Instruction::Jump(99),
    ];
    let line: Vec<char> = Vec::new();
    assert_eq!(eval(&insts, &line), Ok(true));
}

#[test]
fn plus_consumes_all_repetitions() {
    assert_eq!(do_matching("a+", "aaa"), Ok(true));
    let insts = vec![
        Instruction::Char('a'),
        Instruction::Split(0, 2),
        Instruction::Match,
    ];
    let line: Vec<char> = "aaa".chars().collect();
    assert_eq!(eval(&insts, &line), Ok(true));
}

#[test]
fn empty_pattern_is_rejected() {
    assert!(matches!(parse(""), Err(ParseError::Empty)));
    assert!(matches!(
        do_matching("", "aaa"),
        Err(MatchError::Parse(ParseError::Empty))
    ));
}

#[test]
fn leading_operator_is_a_syntax_error() {
    assert!(matches!(parse("+a"), Err(ParseError::Syntax)));
    assert!(matches!(
        do_matching("+a", "aaa"),
        Err(MatchError::Parse(ParseError::Syntax))
    ));
}

#[test]
fn malformed_alternations_are_syntax_errors() {
    assert!(matches!(parse("|a"), Err(ParseError::Syntax)));
    assert!(matches!(parse("a|"), Err(ParseError::Syntax)));
    assert!(matches!(parse("a||b"), Err(ParseError::Syntax)));
    assert!(matches!(parse("a|+b"), Err(ParseError::Syntax)));
    assert!(matches!(parse("a+*"), Err(ParseError::Syntax)));
}

#[test]
fn well_formed_patterns_parse() {
    assert!(parse("a").is_ok());
    assert!(parse("ab+c?d*").is_ok());
    assert!(parse("a+|b*|cd").is_ok());
}

#[test]
fn alternation_and_question_match() {
    assert_eq!(do_matching("a|b", "b"), Ok(true));
    assert_eq!(do_matching("a|b", "a"), Ok(true));
    assert_eq!(do_matching("a|b", "c"), Ok(false));
    assert_eq!(do_matching("ab?c", "ac"), Ok(true));
    assert_eq!(do_matching("ab?c", "abc"), Ok(true));
    assert_eq!(do_matching("ab?c", "abbc"), Ok(false));
}

#[test]
fn matching_is_idempotent() {
    let cases = [("a+|b", "aa"), ("a*", ""), ("", "x"), ("+a", "x")];
    for (pattern, input) in cases {
        let first = do_matching(pattern, input);
        let second = do_matching(pattern, input);
        assert_eq!(first, second);
    }
}

#[test]
fn char_test_past_end_of_input_fails_the_branch() {
    let insts = vec![Instruction::Char('a'), Instruction::Match];
    let empty: Vec<char> = Vec::new();
    assert_eq!(eval(&insts, &empty), Ok(false));
    let shorter: Vec<char> = "a".chars().collect();
    let insts2 = vec![
        Instruction::Char('a'),
        Instruction::Char('a'),
        Instruction::Match,
    ];
    assert_eq!(eval(&insts2, &shorter), Ok(false));
}

#[test]
fn invalid_program_counter_is_an_error() {
    let empty_prog: Vec<Instruction> = Vec::new();
    let empty: Vec<char> = Vec::new();
    assert_eq!(eval(&empty_prog, &empty), Err(EvalError::InvalidPC));
    let insts = vec![Instruction::Jump(5)];
    assert_eq!(eval(&insts, &empty), Err(EvalError::InvalidPC));
}

#[test]
fn generated_code_for_alternation() {
    let ast = parse("a|b").unwrap();
    let code = get_code(&ast).unwrap();
    assert_eq!(
        code,
        vec![
            Instruction::Split(1, 3),
            Instruction::Char('a'),
            Instruction::Jump(4),
            Instruction::Char('b'),
            Instruction::Match
        ]
    );
}

#[test]
fn safe_add_stores_sum_or_reports_overflow() {
    let mut x: usize = 1;
    assert!(safe_add(&mut x, &2, ()).is_ok());
    assert_eq!(x, 3);
    let mut y: usize = usize::MAX;
    assert!(safe_add(&mut y, &1, ()).is_err());
    assert_eq!(y, usize::MAX);
}
