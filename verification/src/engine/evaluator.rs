use vstd::prelude::*;

use crate::engine::instruction::Instruction;
use crate::helper::safe_add;

verus! {

broadcast use vstd::seq::group_seq_axioms;

/// An evaluation-fatal failure, distinguished from an ordinary non-match,
/// which is the boolean `false` and never an error.
#[derive(Clone, Copy, Debug, PartialEq, Eq)]
pub enum EvalError {
    PCOverFlow,
    SPOverFlow,
    InvalidPC,
}

/// The step-indexed meaning of the machine: what a run from `(pc, sp)` yields
/// when it takes at most `fuel` steps, and `None` when the budget runs out.
/// A split explores its first address exhaustively before its second.
pub open spec fn vm_eval(
    insts: Seq<Instruction>,
    line: Seq<char>,
    pc: nat,
    sp: nat,
    fuel: nat,
) -> Option<Result<bool, EvalError>>
    decreases fuel,
{
    if fuel == 0 {
        None
    } else if pc >= insts.len() {
        Some(Err(EvalError::InvalidPC))
    } else {
        match insts[pc as int] {
            Instruction::Char(c) => {
                if sp < line.len() && line[sp as int] == c {
                    if pc + 1 > usize::MAX {
                        Some(Err(EvalError::PCOverFlow))
                    } else if sp + 1 > usize::MAX {
                        Some(Err(EvalError::SPOverFlow))
                    } else {
                        vm_eval(insts, line, pc + 1, sp + 1, (fuel - 1) as nat)
                    }
                } else {
                    Some(Ok(false))
                }
            }
            Instruction::Match => Some(Ok(true)),
            Instruction::Jump(a) => vm_eval(insts, line, a as nat, sp, (fuel - 1) as nat),
            Instruction::Split(a1, a2) => match vm_eval(
                insts,
                line,
                a1 as nat,
                sp,
                (fuel - 1) as nat,
            ) {
                Option::None => None,
                Option::Some(Result::Err(e)) => Some(Err(e)),
                Option::Some(Result::Ok(true)) => Some(Ok(true)),
                Option::Some(Result::Ok(false)) => vm_eval(
                    insts,
                    line,
                    a2 as nat,
                    sp,
                    (fuel - 1) as nat,
                ),
            },
        }
    }
}

/// A run that ends within some budget ends the same way within any larger
/// budget.
pub proof fn lemma_vm_eval_mono(
    insts: Seq<Instruction>,
    line: Seq<char>,
    pc: nat,
    sp: nat,
    fuel1: nat,
    fuel2: nat,
)
    requires
        fuel1 <= fuel2,
        vm_eval(insts, line, pc, sp, fuel1) is Some,
    ensures
        vm_eval(insts, line, pc, sp, fuel2) == vm_eval(insts, line, pc, sp, fuel1),
    decreases fuel1,
{
    if fuel1 == 0 {
    } else if pc >= insts.len() {
    } else {
        match insts[pc as int] {
            Instruction::Char(c) => {
                if sp < line.len() && line[sp as int] == c && pc + 1 <= usize::MAX && sp + 1
                    <= usize::MAX {
                    lemma_vm_eval_mono(
                        insts,
                        line,
                        pc + 1,
                        sp + 1,
                        (fuel1 - 1) as nat,
                        (fuel2 - 1) as nat,
                    );
                }
            }
            Instruction::Match => {}
            Instruction::Jump(a) => {
                lemma_vm_eval_mono(insts, line, a as nat, sp, (fuel1 - 1) as nat, (
                fuel2 - 1) as nat);
            }
            Instruction::Split(a1, a2) => {
                lemma_vm_eval_mono(insts, line, a1 as nat, sp, (fuel1 - 1) as nat, (
                fuel2 - 1) as nat);
                if vm_eval(insts, line, a1 as nat, sp, (fuel1 - 1) as nat) == Some(
                    Ok::<bool, EvalError>(false),
                ) {
                    lemma_vm_eval_mono(insts, line, a2 as nat, sp, (fuel1 - 1) as nat, (
                    fuel2 - 1) as nat);
                }
            }
        }
    }
}

/// Two finished runs from the same state agree: the machine is a function of
/// its program, its input and its starting state.
pub proof fn lemma_vm_eval_deterministic(
    insts: Seq<Instruction>,
    line: Seq<char>,
    pc: nat,
    sp: nat,
    fuel1: nat,
    fuel2: nat,
)
    requires
        vm_eval(insts, line, pc, sp, fuel1) is Some,
        vm_eval(insts, line, pc, sp, fuel2) is Some,
    ensures
        vm_eval(insts, line, pc, sp, fuel1) == vm_eval(insts, line, pc, sp, fuel2),
{
    if fuel1 <= fuel2 {
        lemma_vm_eval_mono(insts, line, pc, sp, fuel1, fuel2);
    } else {
        lemma_vm_eval_mono(insts, line, pc, sp, fuel2, fuel1);
    }
}

/// A character test at or past the end of the input fails its branch: the
/// result is an ordinary non-match, never an error and never a read out of
/// bounds.
pub proof fn lemma_char_past_end(
    insts: Seq<Instruction>,
    line: Seq<char>,
    pc: nat,
    sp: nat,
    fuel: nat,
)
    requires
        pc < insts.len(),
        insts[pc as int] matches Instruction::Char(_),
        sp >= line.len(),
        fuel > 0,
    ensures
        vm_eval(insts, line, pc, sp, fuel) == Some(Ok::<bool, EvalError>(false)),
{
}

/// Every embedded address refers to a valid index of the program, and no
/// character test sits last: a run started inside such a program never leaves
/// it.
pub open spec fn closed(insts: Seq<Instruction>) -> bool {
    forall|i: int|
        0 <= i < insts.len() ==> match #[trigger] insts[i] {
            Instruction::Char(_) => i + 1 < insts.len(),
            Instruction::Jump(a) => a < insts.len(),
            Instruction::Split(a1, a2) => a1 < insts.len() && a2 < insts.len(),
            Instruction::Match => true,
        }
}

/// A run inside a closed program never ends in an evaluation error: every
/// failure mode of the machine signals a malformed program, and a closed
/// program has none.
pub proof fn lemma_closed_no_error(
    insts: Seq<Instruction>,
    line: Seq<char>,
    pc: nat,
    sp: nat,
    fuel: nat,
)
    requires
        closed(insts),
        insts.len() <= usize::MAX,
        line.len() <= usize::MAX,
        pc < insts.len(),
        sp <= line.len(),
    ensures
        !(vm_eval(insts, line, pc, sp, fuel) matches Some(Err(_))),
    decreases fuel,
{
    if fuel > 0 {
        match insts[pc as int] {
            Instruction::Char(c) => {
                if sp < line.len() && line[sp as int] == c {
                    lemma_closed_no_error(insts, line, pc + 1, sp + 1, (fuel - 1) as nat);
                }
            }
            Instruction::Match => {}
            Instruction::Jump(a) => {
                lemma_closed_no_error(insts, line, a as nat, sp, (fuel - 1) as nat);
            }
            Instruction::Split(a1, a2) => {
                lemma_closed_no_error(insts, line, a1 as nat, sp, (fuel - 1) as nat);
                lemma_closed_no_error(insts, line, a2 as nat, sp, (fuel - 1) as nat);
            }
        }
    }
}

/// A rank for every address, made one higher so that addresses outside the
/// program can sit at the bottom.
pub open spec fn rank_at(rank: Seq<nat>, pc: nat, n: nat) -> nat {
    if pc < n {
        rank[pc as int] + 1
    } else {
        0
    }
}

/// A witness that the program cannot transfer control forever without
/// consuming input: every jump or split target inside the program has a
/// strictly smaller rank than its source.
pub open spec fn progressive(insts: Seq<Instruction>, rank: Seq<nat>) -> bool {
    &&& rank.len() == insts.len()
    &&& forall|i: int|
        0 <= i < insts.len() ==> match #[trigger] insts[i] {
            Instruction::Jump(a) => a < insts.len() ==> rank[a as int] < rank[i],
            Instruction::Split(a1, a2) => (a1 < insts.len() ==> rank[a1 as int] < rank[i]) && (a2
                < insts.len() ==> rank[a2 as int] < rank[i]),
            _ => true,
        }
}

/// How much input is left to consume.
pub open spec fn rem(line: Seq<char>, sp: nat) -> nat {
    if sp <= line.len() {
        (line.len() - sp) as nat
    } else {
        0
    }
}

/// One depth-first exploration from `(pc, sp)`: loops over the straight-line
/// instructions and recurses at each split, first address first. Returns
/// exactly what the step-indexed meaning yields for a large enough budget.
#[verifier::loop_isolation(false)]
pub fn eval_depth(
    insts: &[Instruction],
    line: &[char],
    pc: usize,
    sp: usize,
    Ghost(rank): Ghost<Seq<nat>>,
) -> (r: Result<bool, EvalError>)
    requires
        progressive(insts@, rank),
    ensures
        exists|fuel: nat| vm_eval(insts@, line@, pc as nat, sp as nat, fuel) == Some(r),
    decreases rem(line@, sp as nat), rank_at(rank, pc as nat, insts@.len()),
{
    let ghost n = insts@.len();
    let mut cur_pc = pc;
    let mut cur_sp = sp;
    loop
        invariant
            rem(line@, cur_sp as nat) < rem(line@, sp as nat) || (rem(line@, cur_sp as nat) == rem(
                line@,
                sp as nat,
            ) && rank_at(rank, cur_pc as nat, n) <= rank_at(rank, pc as nat, n)),
            forall|f: nat|
                (#[trigger] vm_eval(insts@, line@, cur_pc as nat, cur_sp as nat, f)) is Some
                    ==> exists|f2: nat|
                    vm_eval(insts@, line@, pc as nat, sp as nat, f2) == vm_eval(
                        insts@,
                        line@,
                        cur_pc as nat,
                        cur_sp as nat,
                        f,
                    ),
        decreases rem(line@, cur_sp as nat), rank_at(rank, cur_pc as nat, n),
    {
        if cur_pc >= insts.len() {
            proof {
                assert(vm_eval(insts@, line@, cur_pc as nat, cur_sp as nat, 1) == Some(
                    Err::<bool, EvalError>(EvalError::InvalidPC),
                ));
            }
            return Err(EvalError::InvalidPC);
        }
        let next_inst = insts[cur_pc];
        match next_inst {
            Instruction::Char(c) => {
                let mut advance = false;
                if cur_sp < line.len() {
                    if line[cur_sp] == c {
                        advance = true;
                    }
                }
                if advance {
                    let ghost pc0 = cur_pc as nat;
                    let ghost sp0 = cur_sp as nat;
                    safe_add(&mut cur_pc, &1, EvalError::PCOverFlow)?;
                    safe_add(&mut cur_sp, &1, EvalError::SPOverFlow)?;
                    proof {
                        assert forall|f: nat|
                            (#[trigger] vm_eval(
                                insts@,
                                line@,
                                cur_pc as nat,
                                cur_sp as nat,
                                f,
                            )) is Some implies exists|f2: nat|
                            vm_eval(insts@, line@, pc as nat, sp as nat, f2) == vm_eval(
                                insts@,
                                line@,
                                cur_pc as nat,
                                cur_sp as nat,
                                f,
                            ) by {
                            assert(vm_eval(insts@, line@, pc0, sp0, f + 1) == vm_eval(
                                insts@,
                                line@,
                                cur_pc as nat,
                                cur_sp as nat,
                                f,
                            ));
                        }
                    }
                } else {
                    proof {
                        assert(vm_eval(insts@, line@, cur_pc as nat, cur_sp as nat, 1) == Some(
                            Ok::<bool, EvalError>(false),
                        ));
                    }
                    return Ok(false);
                }
            }
            Instruction::Match => {
                proof {
                    assert(vm_eval(insts@, line@, cur_pc as nat, cur_sp as nat, 1) == Some(
                        Ok::<bool, EvalError>(true),
                    ));
                }
                return Ok(true);
            }
            Instruction::Jump(addr) => {
                let ghost pc0 = cur_pc as nat;
                cur_pc = addr;
                proof {
                    assert forall|f: nat|
                        (#[trigger] vm_eval(
                            insts@,
                            line@,
                            cur_pc as nat,
                            cur_sp as nat,
                            f,
                        )) is Some implies exists|f2: nat|
                        vm_eval(insts@, line@, pc as nat, sp as nat, f2) == vm_eval(
                            insts@,
                            line@,
                            cur_pc as nat,
                            cur_sp as nat,
                            f,
                        ) by {
                        assert(vm_eval(insts@, line@, pc0, cur_sp as nat, f + 1) == vm_eval(
                            insts@,
                            line@,
                            cur_pc as nat,
                            cur_sp as nat,
                            f,
                        ));
                    }
                }
            }
            Instruction::Split(addr1, addr2) => {
                proof {
                    assert(rank_at(rank, addr1 as nat, n) < rank_at(rank, cur_pc as nat, n));
                    assert(rank_at(rank, addr2 as nat, n) < rank_at(rank, cur_pc as nat, n));
                }
                let r1 = match eval_depth(insts, line, addr1, cur_sp, Ghost(rank)) {
                    Ok(b) => b,
                    Err(e) => {
                        proof {
                            let f1 = choose|f1: nat|
                                vm_eval(insts@, line@, addr1 as nat, cur_sp as nat, f1) == Some(
                                    Err::<bool, EvalError>(e),
                                );
                            assert(vm_eval(insts@, line@, cur_pc as nat, cur_sp as nat, f1 + 1)
                                == Some(Err::<bool, EvalError>(e)));
                        }
                        return Err(e);
                    }
                };
                if r1 {
                    proof {
                        let f1 = choose|f1: nat|
                            vm_eval(insts@, line@, addr1 as nat, cur_sp as nat, f1) == Some(
                                Ok::<bool, EvalError>(true),
                            );
                        assert(vm_eval(insts@, line@, cur_pc as nat, cur_sp as nat, f1 + 1) == Some(
                            Ok::<bool, EvalError>(true),
                        ));
                    }
                    return Ok(true);
                }
                let r2 = match eval_depth(insts, line, addr2, cur_sp, Ghost(rank)) {
                    Ok(b) => b,
                    Err(e) => {
                        proof {
                            let f1 = choose|f1: nat|
                                vm_eval(insts@, line@, addr1 as nat, cur_sp as nat, f1) == Some(
                                    Ok::<bool, EvalError>(false),
                                );
                            let f2 = choose|f2: nat|
                                vm_eval(insts@, line@, addr2 as nat, cur_sp as nat, f2) == Some(
                                    Err::<bool, EvalError>(e),
                                );
                            let f3 = if f1 <= f2 {
                                f2
                            } else {
                                f1
                            };
                            lemma_vm_eval_mono(
                                insts@,
                                line@,
                                addr1 as nat,
                                cur_sp as nat,
                                f1,
                                f3,
                            );
                            lemma_vm_eval_mono(
                                insts@,
                                line@,
                                addr2 as nat,
                                cur_sp as nat,
                                f2,
                                f3,
                            );
                            assert(vm_eval(insts@, line@, cur_pc as nat, cur_sp as nat, f3 + 1)
                                == Some(Err::<bool, EvalError>(e)));
                        }
                        return Err(e);
                    }
                };
                proof {
                    let f1 = choose|f1: nat|
                        vm_eval(insts@, line@, addr1 as nat, cur_sp as nat, f1) == Some(
                            Ok::<bool, EvalError>(false),
                        );
                    let f2 = choose|f2: nat|
                        vm_eval(insts@, line@, addr2 as nat, cur_sp as nat, f2) == Some(
                            Ok::<bool, EvalError>(r2),
                        );
                    let f3 = if f1 <= f2 {
                        f2
                    } else {
                        f1
                    };
                    lemma_vm_eval_mono(insts@, line@, addr1 as nat, cur_sp as nat, f1, f3);
                    lemma_vm_eval_mono(insts@, line@, addr2 as nat, cur_sp as nat, f2, f3);
                    assert(vm_eval(insts@, line@, cur_pc as nat, cur_sp as nat, f3 + 1) == Some(
                        Ok::<bool, EvalError>(r2),
                    ));
                }
                if r2 {
                    return Ok(true);
                } else {
                    return Ok(false);
                }
            }
        }
    }
}

/// Executes the program against the input from `(pc = 0, sp = 0)`. The caller
/// supplies a program that cannot transfer control in a cycle without
/// consuming input — every generated program is such — since exploration of
/// any other program need not come back at all.
pub fn eval(insts: &[Instruction], line: &[char]) -> (r: Result<bool, EvalError>)
    requires
        exists|rank: Seq<nat>| progressive(insts@, rank),
    ensures
        exists|fuel: nat| vm_eval(insts@, line@, 0, 0, fuel) == Some(r),
{
    let ghost rank = choose|rank: Seq<nat>| progressive(insts@, rank);
    eval_depth(insts, line, 0, 0, Ghost(rank))
}

} // verus!
