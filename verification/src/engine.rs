pub mod codegen;
pub mod evaluator;
pub mod instruction;
pub mod parser;

use vstd::prelude::*;

use crate::engine::codegen::code_len;
use crate::engine::codegen::codes_len;
use crate::engine::codegen::gen_specs;
use crate::engine::codegen::gen_spec;
use crate::engine::codegen::get_code;
use crate::engine::codegen::lemma_gen_len;
use crate::engine::codegen::lemma_generated_progressive;
use crate::engine::codegen::ranks_of;
use crate::engine::codegen::CodeGenError;
use crate::engine::evaluator::closed;
use crate::engine::evaluator::eval;
use crate::engine::evaluator::lemma_closed_no_error;
use crate::engine::evaluator::progressive;
use crate::engine::evaluator::vm_eval;
use crate::engine::evaluator::EvalError;
use crate::engine::instruction::Instruction;
use crate::engine::parser::ast_ok;
use crate::engine::parser::atom_ok;
use crate::engine::parser::atoms_ok;
use crate::engine::parser::bar_char;
use crate::engine::parser::cat_pats;
use crate::engine::parser::char_ok_at;
use crate::engine::parser::lit_char;
use crate::engine::parser::op_char;
use crate::engine::parser::parse;
use crate::engine::parser::pat_valid;
use crate::engine::parser::pattern_of;
use crate::engine::parser::str_to_chars;
use crate::engine::parser::ParseError;
use crate::engine::parser::AST;

verus! {

broadcast use vstd::seq::group_seq_axioms;

/// A failure of any stage of the pipeline, surfaced unchanged to the caller.
#[derive(Clone, Copy, Debug, PartialEq, Eq)]
pub enum MatchError {
    Parse(ParseError),
    CodeGen(CodeGenError),
    Eval(EvalError),
}

/// Parses the pattern, generates its program, and runs the program against
/// the input, anchored at the input's first element. A failed stage
/// short-circuits; an ordinary non-match is `Ok(false)`, never an error, and
/// evaluation of a generated program cannot fail.
/// What a finished match attempt may look like for a pattern that parsed to
/// `ast`: the generator's counter overflow is the one code-generation
/// failure, and an ordinary result is exactly what the machine yields on the
/// generated program.
pub open spec fn match_outcome_ok(ast: AST, line: Seq<char>, r: Result<bool, MatchError>) -> bool {
    &&& (code_len(ast) + 1 > usize::MAX ==> r == Err::<bool, MatchError>(
        MatchError::CodeGen(CodeGenError::PCOverFlow),
    ))
    &&& (code_len(ast) + 1 <= usize::MAX ==> r is Ok)
    &&& (r matches Ok(bv) ==> exists|fuel: nat|
        vm_eval(gen_spec(ast, 0) + seq![Instruction::Match], line, 0, 0, fuel) == Some(
            Ok::<bool, EvalError>(bv),
        ))
}

/// The whole contract of a match attempt: each parse failure on exactly the
/// inputs the grammar rejects, and otherwise the machine's verdict on the
/// program generated from a tree that reads back as the pattern.
pub open spec fn matching_spec(expr: Seq<char>, line: Seq<char>, r: Result<bool, MatchError>) -> bool {
    &&& (expr.len() == 0 ==> r == Err::<bool, MatchError>(MatchError::Parse(ParseError::Empty)))
    &&& (expr.len() > 0 && !pat_valid(expr) ==> r == Err::<bool, MatchError>(
        MatchError::Parse(ParseError::Syntax),
    ))
    &&& (pat_valid(expr) ==> exists|ast: AST|
        (#[trigger] pattern_of(ast)) == expr && ast_ok(ast) && match_outcome_ok(ast, line, r))
}

pub fn do_matching(expr: &str, line: &str) -> (r: Result<bool, MatchError>)
    ensures
        matching_spec(expr@, line@, r),
{
    let ast = match parse(expr) {
        Ok(a) => a,
        Err(e) => {
            return Err(MatchError::Parse(e));
        }
    };
    let code = match get_code(&ast) {
        Ok(c) => c,
        Err(e) => {
            proof {
                assert(code_len(ast) + 1 > usize::MAX);
            }
            return Err(MatchError::CodeGen(e));
        }
    };
    let n_code = code.len();
    let chars = str_to_chars(line);
    let n_line = chars.len();
    proof {
        lemma_gen_len(ast, 0);
        assert(code_len(ast) + 1 == n_code);
        lemma_generated_progressive(ast);
        assert(progressive(code@, ranks_of(ast, 0) + seq![0nat]));
        assert(closed(code@));
    }
    let b = match eval(code.as_slice(), chars.as_slice()) {
        Ok(b) => b,
        Err(e) => {
            proof {
                let fuel = choose|fuel: nat|
                    vm_eval(code@, chars@, 0, 0, fuel) == Some(Err::<bool, EvalError>(e));
                lemma_closed_no_error(code@, chars@, 0, 0, fuel);
                assert(false);
            }
            return Err(MatchError::Eval(e));
        }
    };
    Ok(b)
}

/// Matching carries no hidden state: any two results that the matching
/// contract admits for the same pattern and the same input are equal, so two
/// invocations on equal arguments agree.
pub proof fn lemma_matching_deterministic(
    expr: Seq<char>,
    line: Seq<char>,
    r1: Result<bool, MatchError>,
    r2: Result<bool, MatchError>,
)
    requires
        matching_spec(expr, line, r1),
        matching_spec(expr, line, r2),
    ensures
        r1 == r2,
{
    if expr.len() == 0 {
    } else if !pat_valid(expr) {
    } else {
        let ast1 = choose|ast: AST|
            (#[trigger] pattern_of(ast)) == expr && ast_ok(ast) && match_outcome_ok(ast, line, r1);
        let ast2 = choose|ast: AST|
            (#[trigger] pattern_of(ast)) == expr && ast_ok(ast) && match_outcome_ok(ast, line, r2);
        crate::engine::codegen::lemma_pattern_determines_code(ast1, ast2, 0);
        let code = gen_spec(ast1, 0) + seq![Instruction::Match];
        assert(gen_spec(ast2, 0) + seq![Instruction::Match] == code);
        if code_len(ast1) + 1 > usize::MAX {
        } else {
            let bv1 = r1->Ok_0;
            let bv2 = r2->Ok_0;
            let fuel1 = choose|fuel: nat|
                vm_eval(code, line, 0, 0, fuel) == Some(Ok::<bool, EvalError>(bv1));
            let fuel2 = choose|fuel: nat|
                vm_eval(code, line, 0, 0, fuel) == Some(Ok::<bool, EvalError>(bv2));
            crate::engine::evaluator::lemma_vm_eval_deterministic(code, line, 0, 0, fuel1, fuel2);
        }
    }
}

/// A zero-or-more pattern accepts the empty input: whatever result the
/// matching contract admits for the pattern of one literal under a star, run
/// against the empty input, is a success.
pub proof fn lemma_star_matches_empty(c: char, r: Result<bool, MatchError>)
    requires
        lit_char(c),
        matching_spec(seq![c, '*'], Seq::empty(), r),
    ensures
        r == Ok::<bool, MatchError>(true),
{
    let expr = seq![c, '*'];
    let empty = Seq::<char>::empty();
    assert(pat_valid(expr)) by {
        assert forall|j: int| 0 <= j < 2 implies char_ok_at(expr, j) by {
            if j == 0 {
                assert(!op_char(expr[0]) && !bar_char(expr[0]));
            } else {
                assert(expr[1] == '*' && lit_char(expr[0]));
            }
        }
    }
    let ast = choose|ast: AST|
        (#[trigger] pattern_of(ast)) == expr && ast_ok(ast) && match_outcome_ok(ast, empty, r);
    let star = AST::Star(Box::new(AST::Char(c)));
    assert(gen_spec(ast, 0) == gen_spec(star, 0) && code_len(ast) == 3) by {
        lemma_single_atom(ast, expr);
        crate::engine::codegen::lemma_atom_pat(single_atom_of(ast));
        assert(single_atom_of(ast) == star);
        assert(code_len(AST::Char(c)) == 1);
        assert(code_len(star) == 3);
        let v = ast->Concat_0;
        assert(v@ =~= seq![star]);
        assert(codes_len(v@) == code_len(v@[0]) + codes_len(v@.drop_first()));
        assert(v@.drop_first() =~= Seq::<AST>::empty());
        assert(codes_len(Seq::<AST>::empty()) == 0);
    }
    let code = gen_spec(ast, 0) + seq![Instruction::Match];
    assert(code =~= seq![
        Instruction::Split(1, 3),
        Instruction::Char(c),
        Instruction::Jump(0),
        Instruction::Match,
    ]) by {
        assert(code_len(AST::Char(c)) == 1);
        assert(gen_spec(AST::Char(c), 1) == seq![Instruction::Char(c)]);
    }
    assert(r is Ok);
    let bv = r->Ok_0;
    let fuel = choose|fuel: nat|
        vm_eval(code, empty, 0, 0, fuel) == Some(Ok::<bool, EvalError>(bv));
    assert(vm_eval(code, empty, 1, 0, 2) == Some(Ok::<bool, EvalError>(false)));
    assert(vm_eval(code, empty, 3, 0, 2) == Some(Ok::<bool, EvalError>(true)));
    assert(vm_eval(code, empty, 0, 0, 3) == Some(Ok::<bool, EvalError>(true)));
    crate::engine::evaluator::lemma_vm_eval_deterministic(code, empty, 0, 0, fuel, 3);
}

/// A one-or-more pattern rejects the empty input: its body is a single
/// literal, which cannot match anything there.
pub proof fn lemma_plus_rejects_empty(c: char, r: Result<bool, MatchError>)
    requires
        lit_char(c),
        matching_spec(seq![c, '+'], Seq::empty(), r),
    ensures
        r == Ok::<bool, MatchError>(false),
{
    let expr = seq![c, '+'];
    let empty = Seq::<char>::empty();
    assert(pat_valid(expr)) by {
        assert forall|j: int| 0 <= j < 2 implies char_ok_at(expr, j) by {
            if j == 0 {
                assert(!op_char(expr[0]) && !bar_char(expr[0]));
            } else {
                assert(expr[1] == '+' && lit_char(expr[0]));
            }
        }
    }
    let ast = choose|ast: AST|
        (#[trigger] pattern_of(ast)) == expr && ast_ok(ast) && match_outcome_ok(ast, empty, r);
    let plus = AST::Plus(Box::new(AST::Char(c)));
    assert(gen_spec(ast, 0) == gen_spec(plus, 0) && code_len(ast) == 2) by {
        lemma_single_atom(ast, expr);
        crate::engine::codegen::lemma_atom_pat(single_atom_of(ast));
        assert(single_atom_of(ast) == plus);
        assert(code_len(AST::Char(c)) == 1);
        assert(code_len(plus) == 2);
        let v = ast->Concat_0;
        assert(v@ =~= seq![plus]);
        assert(codes_len(v@) == code_len(v@[0]) + codes_len(v@.drop_first()));
        assert(v@.drop_first() =~= Seq::<AST>::empty());
        assert(codes_len(Seq::<AST>::empty()) == 0);
    }
    let code = gen_spec(ast, 0) + seq![Instruction::Match];
    assert(code =~= seq![
        Instruction::Char(c),
        Instruction::Split(0, 2),
        Instruction::Match,
    ]) by {
        assert(code_len(AST::Char(c)) == 1);
        assert(gen_spec(AST::Char(c), 0) == seq![Instruction::Char(c)]);
    }
    assert(r is Ok);
    let bv = r->Ok_0;
    let fuel = choose|fuel: nat|
        vm_eval(code, empty, 0, 0, fuel) == Some(Ok::<bool, EvalError>(bv));
    assert(vm_eval(code, empty, 0, 0, 1) == Some(Ok::<bool, EvalError>(false)));
    crate::engine::evaluator::lemma_vm_eval_deterministic(code, empty, 0, 0, fuel, 1);
}

/// The single atom of a one-atom concatenation.
pub open spec fn single_atom_of(ast: AST) -> AST {
    (ast->Concat_0)@[0]
}

proof fn lemma_single_atom(ast: AST, expr: Seq<char>)
    requires
        ast_ok(ast),
        pattern_of(ast) == expr,
        expr.len() == 2,
        lit_char(expr[0]),
        op_char(expr[1]),
    ensures
        ast matches AST::Concat(v) && v@.len() == 1 && v@[0] == single_atom_of(ast)
            && atom_ok(v@[0]) && pattern_of(v@[0]) == expr && gen_spec(ast, 0) == gen_spec(
            v@[0],
            0,
        ) && code_len(ast) == codes_len(v@),
{
    match ast {
        AST::Concat(v) => {
            assert(atoms_ok(v@) && v@.len() > 0);
            let a0 = v@[0];
            let rest = v@.drop_first();
            assert(atom_ok(a0) && atoms_ok(rest));
            crate::engine::codegen::lemma_atom_pat(a0);
            assert(expr == cat_pats(v@));
            assert(cat_pats(v@) == pattern_of(a0) + cat_pats(rest));
            if pattern_of(a0).len() == 1 {
                assert(cat_pats(rest).len() == 1);
                assert(rest.len() > 0) by {
                    if rest.len() == 0 {
                        assert(cat_pats(rest).len() == 0);
                    }
                }
                crate::engine::codegen::lemma_cat_head(rest);
                assert(cat_pats(rest)[0] == expr[1]);
                assert(lit_char(expr[1]));
                assert(false);
            }
            assert(pattern_of(a0).len() == 2);
            assert(cat_pats(rest).len() == 0);
            assert(rest.len() == 0) by {
                if rest.len() > 0 {
                    crate::engine::codegen::lemma_cat_head(rest);
                }
            }
            assert(v@ =~= seq![a0]);
            assert(pattern_of(a0) =~= expr);
            assert(gen_spec(ast, 0) == gen_specs(v@, 0));
            assert(gen_specs(v@, 0) == gen_spec(a0, 0) + gen_specs(rest, code_len(a0) as int));
            assert(gen_specs(rest, code_len(a0) as int) == Seq::<Instruction>::empty());
            assert(gen_spec(a0, 0) + Seq::<Instruction>::empty() =~= gen_spec(a0, 0));
        }
        AST::Or(l, r) => {
            let bar_pos = pattern_of(*l).len() as int;
            assert(expr == pattern_of(*l).push('|') + pattern_of(*r));
            assert(expr[bar_pos] == '|');
            assert(0 <= bar_pos < expr.len());
            assert(lit_char(expr[0]) && op_char(expr[1]));
            assert(false);
        }
        _ => {
            assert(false);
        }
    }
}

/// A pattern of literal characters alone matches exactly the input that
/// equals it: for inputs no longer than the pattern, whatever result the
/// matching contract admits is success precisely on the input equal to the
/// pattern, character for character. (A longer input that merely begins with
/// the pattern also matches, since matching is not anchored at the end.)
pub proof fn lemma_literal_matching(
    expr: Seq<char>,
    line: Seq<char>,
    r: Result<bool, MatchError>,
)
    requires
        expr.len() > 0,
        forall|j: int| 0 <= j < expr.len() ==> lit_char(#[trigger] expr[j]),
        line.len() <= expr.len(),
        expr.len() + 1 <= usize::MAX,
        matching_spec(expr, line, r),
    ensures
        r == Ok::<bool, MatchError>(line == expr),
{
    assert(pat_valid(expr)) by {
        assert forall|j: int| 0 <= j < expr.len() implies char_ok_at(expr, j) by {
            assert(lit_char(expr[j]));
        }
        assert(lit_char(expr[expr.len() - 1]));
    }
    let ast = choose|ast: AST|
        (#[trigger] pattern_of(ast)) == expr && ast_ok(ast) && match_outcome_ok(ast, line, r);
    crate::engine::codegen::lemma_gen_len(ast, 0);
    assert(gen_spec(ast, 0).len() == expr.len()) by {
        crate::engine::codegen::lemma_lit_ast(ast, expr);
    }
    assert(code_len(ast) + 1 <= usize::MAX);
    assert(r is Ok);
    let bv = r->Ok_0;
    let fuel = choose|fuel: nat|
        vm_eval(gen_spec(ast, 0) + seq![Instruction::Match], line, 0, 0, fuel) == Some(
            Ok::<bool, EvalError>(bv),
        );
    crate::engine::codegen::lemma_literal_match_exact(ast, expr, line, bv, fuel);
}

} // verus!
