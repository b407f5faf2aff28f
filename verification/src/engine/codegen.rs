use vstd::prelude::*;
use vstd::pervasive::VecAdditionalExecFns;

use crate::engine::instruction::Instruction;
use crate::engine::parser::AST;
use crate::engine::parser::ast_ok;
use crate::engine::parser::atom_ok;
use crate::engine::parser::atoms_ok;
use crate::engine::parser::cat_pats;
use crate::engine::parser::bar_char;
use crate::engine::parser::lit_char;
use crate::engine::parser::op_char;
use crate::engine::parser::pattern_of;
use crate::engine::evaluator::vm_eval;
use crate::engine::evaluator::EvalError;
use crate::helper::safe_add;

verus! {

broadcast use vstd::seq::group_seq_axioms;

/// Why code generation failed. The patch failures are internal-consistency
/// violations and cannot occur for input a correct parser produced; counter
/// overflow is the one reachable kind.
#[derive(Clone, Copy, Debug, PartialEq, Eq)]
pub enum CodeGenError {
    PCOverFlow,
    FailOr,
    FailPlus,
    FailStar,
    FailQuestion,
}

/// The number of instructions the generator emits for a tree.
pub open spec fn code_len(a: AST) -> nat
    decreases a,
{
    match a {
        AST::Char(_) => 1,
        AST::Plus(e) => code_len(*e) + 1,
        AST::Star(e) => code_len(*e) + 2,
        AST::Question(e) => code_len(*e) + 1,
        AST::Or(l, r) => code_len(*l) + code_len(*r) + 2,
        AST::Concat(v) => codes_len(v@),
    }
}

/// The number of instructions emitted for a list of trees in order.
pub open spec fn codes_len(l: Seq<AST>) -> nat
    decreases l,
{
    if l.len() == 0 {
        0
    } else {
        code_len(l[0]) + codes_len(l.drop_first())
    }
}

/// The exact instruction sequence the generator emits for a tree whose first
/// instruction will sit at address `b`.
pub open spec fn gen_spec(a: AST, b: int) -> Seq<Instruction>
    decreases a,
{
    match a {
        AST::Char(c) => seq![Instruction::Char(c)],
        AST::Plus(e) => gen_spec(*e, b).push(
            Instruction::Split(b as usize, (b + code_len(*e) + 1) as usize),
        ),
        AST::Star(e) => seq![
            Instruction::Split((b + 1) as usize, (b + code_len(*e) + 2) as usize),
        ] + gen_spec(*e, b + 1) + seq![Instruction::Jump(b as usize)],
        AST::Question(e) => seq![
            Instruction::Split((b + 1) as usize, (b + code_len(*e) + 1) as usize),
        ] + gen_spec(*e, b + 1),
        AST::Or(l, r) => seq![
            Instruction::Split((b + 1) as usize, (b + code_len(*l) + 2) as usize),
        ] + gen_spec(*l, b + 1)
            + seq![Instruction::Jump((b + code_len(*l) + code_len(*r) + 2) as usize)]
            + gen_spec(*r, b + code_len(*l) + 2),
        AST::Concat(v) => gen_specs(v@, b),
    }
}

/// The instruction sequences of a list of trees, laid out one after another.
pub open spec fn gen_specs(l: Seq<AST>, b: int) -> Seq<Instruction>
    decreases l,
{
    if l.len() == 0 {
        Seq::empty()
    } else {
        gen_spec(l[0], b) + gen_specs(l.drop_first(), b + code_len(l[0]))
    }
}

/// A structural size measure used to order the mutually recursive emitters.
pub open spec fn ast_size(a: AST) -> nat
    decreases a,
{
    match a {
        AST::Char(_) => 1,
        AST::Plus(e) => ast_size(*e) + 1,
        AST::Star(e) => ast_size(*e) + 1,
        AST::Question(e) => ast_size(*e) + 1,
        AST::Or(l, r) => ast_size(*l) + ast_size(*r) + 1,
        AST::Concat(v) => seq_sizes(v@) + 1,
    }
}

/// The summed sizes of a list of trees.
pub open spec fn seq_sizes(l: Seq<AST>) -> nat
    decreases l,
{
    if l.len() == 0 {
        0
    } else {
        ast_size(l[0]) + seq_sizes(l.drop_first())
    }
}

proof fn lemma_ast_size_pos(a: AST)
    ensures
        ast_size(a) >= 1,
{
}

proof fn lemma_seq_sizes_bound(l: Seq<AST>, i: int)
    requires
        0 <= i < l.len(),
    ensures
        ast_size(l[i]) <= seq_sizes(l),
    decreases l,
{
    if i == 0 {
    } else {
        lemma_seq_sizes_bound(l.drop_first(), i - 1);
        assert(l.drop_first()[i - 1] == l[i]);
    }
}

/// The two length functions agree with the emitted sequences.
pub proof fn lemma_gen_len(a: AST, b: int)
    ensures
        gen_spec(a, b).len() == code_len(a),
    decreases a,
{
    match a {
        AST::Char(_) => {}
        AST::Plus(e) => lemma_gen_len(*e, b),
        AST::Star(e) => lemma_gen_len(*e, b + 1),
        AST::Question(e) => lemma_gen_len(*e, b + 1),
        AST::Or(l, r) => {
            lemma_gen_len(*l, b + 1);
            lemma_gen_len(*r, b + code_len(*l) + 2);
        }
        AST::Concat(v) => lemma_gens_len(v@, b),
    }
}

pub proof fn lemma_gens_len(l: Seq<AST>, b: int)
    ensures
        gen_specs(l, b).len() == codes_len(l),
    decreases l,
{
    if l.len() > 0 {
        lemma_gen_len(l[0], b);
        lemma_gens_len(l.drop_first(), b + code_len(l[0]));
    }
}

proof fn lemma_codes_len_take(l: Seq<AST>, i: int)
    requires
        0 <= i < l.len(),
    ensures
        codes_len(l.take(i + 1)) == codes_len(l.take(i)) + code_len(l[i]),
        codes_len(l.take(i)) + code_len(l[i]) <= codes_len(l),
    decreases l,
{
    if i == 0 {
        assert(l.take(1) =~= seq![l[0]]);
        assert(l.take(1).drop_first() =~= Seq::<AST>::empty());
        assert(l.take(0) =~= Seq::<AST>::empty());
        assert(l.take(1).len() == 1 && l.take(1)[0] == l[0]);
        assert(codes_len(l.take(1)) == code_len(l.take(1)[0]) + codes_len(l.take(1).drop_first()));
        assert(codes_len(Seq::<AST>::empty()) == 0);
    } else {
        lemma_codes_len_take(l.drop_first(), i - 1);
        assert(l.take(i + 1).drop_first() =~= l.drop_first().take(i));
        assert(l.take(i).drop_first() =~= l.drop_first().take(i - 1));
        assert(l.take(i + 1)[0] == l[0]);
        assert(l.take(i)[0] == l[0]);
        assert(l.drop_first()[i - 1] == l[i]);
    }
}

proof fn lemma_gen_specs_take(l: Seq<AST>, b: int, i: int)
    requires
        0 <= i < l.len(),
    ensures
        gen_specs(l.take(i + 1), b) == gen_specs(l.take(i), b) + gen_spec(
            l[i],
            b + codes_len(l.take(i)),
        ),
    decreases l,
{
    if i == 0 {
        assert(l.take(0) =~= Seq::<AST>::empty());
        assert(l.take(1) =~= seq![l[0]]);
        assert(l.take(1).drop_first() =~= Seq::<AST>::empty());
        assert(l.take(1).len() == 1 && l.take(1)[0] == l[0]);
        assert(gen_specs(l.take(1), b) == gen_spec(l.take(1)[0], b) + gen_specs(
            l.take(1).drop_first(),
            b + code_len(l.take(1)[0]),
        ));
        assert(gen_specs(Seq::<AST>::empty(), b + code_len(l[0])) == Seq::<Instruction>::empty());
        assert(gen_spec(l[0], b) + Seq::<Instruction>::empty() =~= gen_spec(l[0], b));
        assert(gen_specs(l.take(0), b) + gen_spec(l[0], b) =~= gen_spec(l[0], b));
    } else {
        lemma_gen_specs_take(l.drop_first(), b + code_len(l[0]), i - 1);
        lemma_codes_len_take(l.drop_first(), i - 1);
        assert(l.take(i + 1).drop_first() =~= l.drop_first().take(i));
        assert(l.take(i).drop_first() =~= l.drop_first().take(i - 1));
        assert(l.take(i + 1)[0] == l[0]);
        assert(l.take(i)[0] == l[0]);
        assert(l.drop_first()[i - 1] == l[i]);
        assert(gen_specs(l.take(i + 1), b) == gen_spec(l[0], b) + gen_specs(
            l.drop_first().take(i),
            b + code_len(l[0]),
        ));
        assert(gen_specs(l.take(i), b) == gen_spec(l[0], b) + gen_specs(
            l.drop_first().take(i - 1),
            b + code_len(l[0]),
        ));
        assert(codes_len(l.take(i)) == code_len(l[0]) + codes_len(l.drop_first().take(i - 1)));
        assert(gen_spec(l[0], b) + (gen_specs(l.drop_first().take(i - 1), b + code_len(l[0]))
            + gen_spec(l[i], b + code_len(l[0]) + codes_len(l.drop_first().take(i - 1)))) =~= (
        gen_spec(l[0], b) + gen_specs(l.drop_first().take(i - 1), b + code_len(l[0]))) + gen_spec(
            l[i],
            b + codes_len(l.take(i)),
        ));
    }
}

/// The generation state: the address the next instruction will occupy, and
/// the instructions emitted so far.
pub struct Generator {
    pub pc: usize,
    pub insts: Vec<Instruction>,
}

impl Default for Generator {
    fn default() -> (g: Generator)
        ensures
            g.pc == 0,
            g.insts@ == Seq::<Instruction>::empty(),
    {
        Generator { pc: 0, insts: Vec::new() }
    }
}

impl Generator {
    /// The counter always names the address just past the emitted code.
    pub open spec fn wf(self) -> bool {
        self.pc == self.insts@.len()
    }

    /// Advances the program counter by one through the arithmetic guard.
    pub fn inc_pc(&mut self) -> (r: Result<(), CodeGenError>)
        ensures
            old(self).pc + 1 <= usize::MAX ==> r is Ok,
            r is Ok ==> final(self).pc == old(self).pc + 1 && final(self).insts == old(self).insts,
            r is Err ==> r == Err::<(), CodeGenError>(CodeGenError::PCOverFlow) && *final(self)
                == *old(self),
    {
        safe_add(&mut self.pc, &1, CodeGenError::PCOverFlow)
    }

    /// Emits the single character-test instruction.
    pub fn gen_char(&mut self, c: char) -> (r: Result<(), CodeGenError>)
        requires
            old(self).wf(),
        ensures
            old(self).pc + 1 <= usize::MAX ==> r is Ok,
            r is Ok ==> final(self).wf() && final(self).pc == old(self).pc + 1 && final(self).insts@ == old(self).insts@ + gen_spec(AST::Char(c), old(self).pc as int),
            r is Err ==> r == Err::<(), CodeGenError>(CodeGenError::PCOverFlow),
    {
        self.insts.push(Instruction::Char(c));
        self.inc_pc()?;
        assert(self.insts@ =~= old(self).insts@ + gen_spec(AST::Char(c), old(self).pc as int));
        Ok(())
    }

    /// Emits code for one-or-more repetition: the body, then a split that
    /// loops back to it or falls through.
    pub fn gen_plus(&mut self, e: &AST) -> (r: Result<(), CodeGenError>)
        requires
            old(self).wf(),
        ensures
            old(self).pc + code_len(*e) + 1 <= usize::MAX ==> r is Ok,
            r is Ok ==> final(self).wf() && final(self).pc == old(self).pc + code_len(*e) + 1
                && final(self).insts@ == old(self).insts@ + gen_spec(*e, old(self).pc as int).push(
                Instruction::Split(old(self).pc, (old(self).pc + code_len(*e) + 1) as usize),
            ),
            r is Err ==> r == Err::<(), CodeGenError>(CodeGenError::PCOverFlow),
        decreases ast_size(*e), 2int,
    {
        let l1 = self.pc;
        self.gen_expr(e)?;
        proof {
            lemma_gen_len(*e, l1 as int);
        }
        let l2 = self.pc;
        self.insts.push(Instruction::Split(l1, 0));
        self.inc_pc()?;
        let pc_now = self.pc;
        match self.insts[l2] {
            Instruction::Split(a1, _) => {
                self.insts.set(l2, Instruction::Split(a1, pc_now));
                assert(self.insts@ =~= old(self).insts@ + gen_spec(*e, old(self).pc as int).push(
                    Instruction::Split(old(self).pc, (old(self).pc + code_len(*e) + 1) as usize),
                ));
                Ok(())
            }
            _ => Err(CodeGenError::FailPlus),
        }
    }

    /// Emits code for zero-or-more repetition: a split over the body, the
    /// body, and a jump back to the split.
    pub fn gen_star(&mut self, e: &AST) -> (r: Result<(), CodeGenError>)
        requires
            old(self).wf(),
        ensures
            old(self).pc + code_len(*e) + 2 <= usize::MAX ==> r is Ok,
            r is Ok ==> final(self).wf() && final(self).pc == old(self).pc + code_len(*e) + 2
                && final(self).insts@ == old(self).insts@ + (seq![
                Instruction::Split(
                    (old(self).pc + 1) as usize,
                    (old(self).pc + code_len(*e) + 2) as usize,
                ),
            ] + gen_spec(*e, old(self).pc + 1) + seq![Instruction::Jump(old(self).pc)]),
            r is Err ==> r == Err::<(), CodeGenError>(CodeGenError::PCOverFlow),
        decreases ast_size(*e), 2int,
    {
        let l1 = self.pc;
        self.insts.push(Instruction::Split(0, 0));
        self.inc_pc()?;
        let pc1 = self.pc;
        match self.insts[l1] {
            Instruction::Split(_, a2) => {
                self.insts.set(l1, Instruction::Split(pc1, a2));
            }
            _ => {
                return Err(CodeGenError::FailStar);
            }
        }
        self.gen_expr(e)?;
        proof {
            lemma_gen_len(*e, l1 + 1);
        }
        self.insts.push(Instruction::Jump(l1));
        self.inc_pc()?;
        let pc2 = self.pc;
        match self.insts[l1] {
            Instruction::Split(a1, _) => {
                self.insts.set(l1, Instruction::Split(a1, pc2));
                assert(self.insts@ =~= old(self).insts@ + (seq![
                    Instruction::Split(
                        (old(self).pc + 1) as usize,
                        (old(self).pc + code_len(*e) + 2) as usize,
                    ),
                ] + gen_spec(*e, old(self).pc + 1) + seq![Instruction::Jump(old(self).pc)]));
                Ok(())
            }
            _ => Err(CodeGenError::FailStar),
        }
    }

    /// Emits code for zero-or-one occurrence: a split over the body, then the
    /// body.
    pub fn gen_question(&mut self, e: &AST) -> (r: Result<(), CodeGenError>)
        requires
            old(self).wf(),
        ensures
            old(self).pc + code_len(*e) + 1 <= usize::MAX ==> r is Ok,
            r is Ok ==> final(self).wf() && final(self).pc == old(self).pc + code_len(*e) + 1
                && final(self).insts@ == old(self).insts@ + (seq![
                Instruction::Split(
                    (old(self).pc + 1) as usize,
                    (old(self).pc + code_len(*e) + 1) as usize,
                ),
            ] + gen_spec(*e, old(self).pc + 1)),
            r is Err ==> r == Err::<(), CodeGenError>(CodeGenError::PCOverFlow),
        decreases ast_size(*e), 2int,
    {
        let split_addr = self.pc;
        self.insts.push(Instruction::Split(0, 0));
        self.inc_pc()?;
        let pc1 = self.pc;
        match self.insts[split_addr] {
            Instruction::Split(_, a2) => {
                self.insts.set(split_addr, Instruction::Split(pc1, a2));
            }
            _ => {
                return Err(CodeGenError::FailQuestion);
            }
        }
        self.gen_expr(e)?;
        proof {
            lemma_gen_len(*e, split_addr + 1);
        }
        let pc2 = self.pc;
        match self.insts[split_addr] {
            Instruction::Split(a1, _) => {
                self.insts.set(split_addr, Instruction::Split(a1, pc2));
                assert(self.insts@ =~= old(self).insts@ + (seq![
                    Instruction::Split(
                        (old(self).pc + 1) as usize,
                        (old(self).pc + code_len(*e) + 1) as usize,
                    ),
                ] + gen_spec(*e, old(self).pc + 1)));
                Ok(())
            }
            _ => Err(CodeGenError::FailQuestion),
        }
    }

    /// Emits code for alternation: a split over the two branches, the first
    /// branch, a jump past the second, then the second branch.
    pub fn gen_or(&mut self, e1: &AST, e2: &AST) -> (r: Result<(), CodeGenError>)
        requires
            old(self).wf(),
        ensures
            old(self).pc + code_len(*e1) + code_len(*e2) + 2 <= usize::MAX ==> r is Ok,
            r is Ok ==> final(self).wf() && final(self).pc == old(self).pc + code_len(*e1)
                + code_len(*e2) + 2 && final(self).insts@ == old(self).insts@ + (seq![
                Instruction::Split(
                    (old(self).pc + 1) as usize,
                    (old(self).pc + code_len(*e1) + 2) as usize,
                ),
            ] + gen_spec(*e1, old(self).pc + 1) + seq![
                Instruction::Jump((old(self).pc + code_len(*e1) + code_len(*e2) + 2) as usize),
            ] + gen_spec(*e2, old(self).pc + code_len(*e1) + 2)),
            r is Err ==> r == Err::<(), CodeGenError>(CodeGenError::PCOverFlow),
        decreases ast_size(*e1) + ast_size(*e2), 2int,
    {
        proof {
            lemma_ast_size_pos(*e1);
            lemma_ast_size_pos(*e2);
        }
        let split_addr = self.pc;
        self.inc_pc()?;
        let pc1 = self.pc;
        self.insts.push(Instruction::Split(pc1, 0));
        self.gen_expr(e1)?;
        proof {
            lemma_gen_len(*e1, split_addr + 1);
        }
        let jmp_addr = self.pc;
        self.insts.push(Instruction::Jump(0));
        self.inc_pc()?;
        let pc2 = self.pc;
        match self.insts[split_addr] {
            Instruction::Split(a1, _) => {
                self.insts.set(split_addr, Instruction::Split(a1, pc2));
            }
            _ => {
                return Err(CodeGenError::FailOr);
            }
        }
        self.gen_expr(e2)?;
        proof {
            lemma_gen_len(*e2, split_addr + code_len(*e1) + 2);
        }
        let pc3 = self.pc;
        match self.insts[jmp_addr] {
            Instruction::Jump(_) => {
                self.insts.set(jmp_addr, Instruction::Jump(pc3));
                assert(self.insts@ =~= old(self).insts@ + (seq![
                    Instruction::Split(
                        (old(self).pc + 1) as usize,
                        (old(self).pc + code_len(*e1) + 2) as usize,
                    ),
                ] + gen_spec(*e1, old(self).pc + 1) + seq![
                    Instruction::Jump(
                        (old(self).pc + code_len(*e1) + code_len(*e2) + 2) as usize,
                    ),
                ] + gen_spec(*e2, old(self).pc + code_len(*e1) + 2)));
                Ok(())
            }
            _ => Err(CodeGenError::FailOr),
        }
    }

    /// Emits each element's code in order, with no additional instructions.
    #[verifier::loop_isolation(false)]
    pub fn gen_seq(&mut self, v: &Vec<AST>) -> (r: Result<(), CodeGenError>)
        requires
            old(self).wf(),
        ensures
            old(self).pc + codes_len(v@) <= usize::MAX ==> r is Ok,
            r is Ok ==> final(self).wf() && final(self).pc == old(self).pc + codes_len(v@) && final(self).insts@ == old(self).insts@ + gen_specs(v@, old(self).pc as int),
            r is Err ==> r == Err::<(), CodeGenError>(CodeGenError::PCOverFlow),
        decreases seq_sizes(v@), 2int,
    {
        let mut i: usize = 0;
        while i < v.len()
            invariant
                i <= v@.len(),
                self.wf(),
                self.pc == old(self).pc + codes_len(v@.take(i as int)),
                self.insts@ == old(self).insts@ + gen_specs(v@.take(i as int), old(self).pc as int),
            decreases v@.len() - i,
        {
            proof {
                lemma_seq_sizes_bound(v@, i as int);
                lemma_codes_len_take(v@, i as int);
            }
            let ghost pre = *self;
            match self.gen_expr(&v[i]) {
                Ok(()) => {}
                Err(err) => {
                    proof {
                        lemma_codes_len_take(v@, i as int);
                    }
                    return Err(err);
                }
            }
            proof {
                lemma_gen_specs_take(v@, old(self).pc as int, i as int);
                assert(self.insts@ =~= old(self).insts@ + gen_specs(
                    v@.take(i + 1),
                    old(self).pc as int,
                ));
            }
            i = i + 1;
        }
        proof {
            assert(v@.take(v@.len() as int) =~= v@);
        }
        Ok(())
    }

    /// Dispatches on the tree's root construct.
    pub fn gen_expr(&mut self, ast: &AST) -> (r: Result<(), CodeGenError>)
        requires
            old(self).wf(),
        ensures
            old(self).pc + code_len(*ast) <= usize::MAX ==> r is Ok,
            r is Ok ==> final(self).wf() && final(self).pc == old(self).pc + code_len(*ast)
                && final(self).insts@ == old(self).insts@ + gen_spec(*ast, old(self).pc as int),
            r is Err ==> r == Err::<(), CodeGenError>(CodeGenError::PCOverFlow),
        decreases ast_size(*ast), 1int,
    {
        match ast {
            AST::Char(c) => self.gen_char(*c)?,
            AST::Plus(e) => self.gen_plus(e)?,
            AST::Star(e) => self.gen_star(e)?,
            AST::Question(e) => self.gen_question(e)?,
            AST::Or(e1, e2) => self.gen_or(e1, e2)?,
            AST::Concat(v) => self.gen_seq(v)?,
        }
        Ok(())
    }

    /// Emits the root expression's code followed by the terminal match
    /// instruction.
    pub fn gen_code(&mut self, ast: &AST) -> (r: Result<(), CodeGenError>)
        requires
            old(self).wf(),
        ensures
            old(self).pc + code_len(*ast) + 1 <= usize::MAX ==> r is Ok,
            r is Ok ==> final(self).wf() && final(self).pc == old(self).pc + code_len(*ast) + 1
                && final(self).insts@ == old(self).insts@ + gen_spec(*ast, old(self).pc as int)
                + seq![Instruction::Match],
            r is Err ==> r == Err::<(), CodeGenError>(CodeGenError::PCOverFlow),
    {
        self.gen_expr(ast)?;
        self.inc_pc()?;
        self.insts.push(Instruction::Match);
        assert(self.insts@ =~= old(self).insts@ + gen_spec(*ast, old(self).pc as int) + seq![
            Instruction::Match,
        ]);
        Ok(())
    }
}

/// The rank of a block's first instruction; an empty block's entry is its
/// exit.
pub open spec fn entry_rank(rs: Seq<nat>, exit: nat) -> nat {
    if rs.len() == 0 {
        exit
    } else {
        rs[0]
    }
}

/// Ranks under which a generated block makes progress: every control transfer
/// inside the block descends, and a transfer to the address just past the
/// block descends below `exit`.
pub open spec fn ranks_of(a: AST, exit: nat) -> Seq<nat>
    decreases a,
{
    match a {
        AST::Char(_) => seq![0nat],
        AST::Plus(_) => seq![0nat, exit + 1],
        AST::Star(_) => seq![exit + 1, 0nat, exit + 2],
        AST::Question(_) => seq![exit + 1, 0nat],
        AST::Or(l, r) => {
            let r1 = ranks_of(*l, exit + 1);
            let r2 = ranks_of(*r, exit);
            let m = if entry_rank(r1, exit + 1) >= entry_rank(r2, exit) {
                entry_rank(r1, exit + 1)
            } else {
                entry_rank(r2, exit)
            };
            seq![m + 1] + r1 + seq![exit + 1] + r2
        }
        AST::Concat(v) => ranks_of_list(v@, exit),
    }
}

/// Ranks for a sequence of blocks: each block's exit is the next block's
/// entry.
pub open spec fn ranks_of_list(l: Seq<AST>, exit: nat) -> Seq<nat>
    decreases l,
{
    if l.len() == 0 {
        Seq::empty()
    } else {
        let rest = ranks_of_list(l.drop_first(), exit);
        ranks_of(l[0], entry_rank(rest, exit)) + rest
    }
}

/// A control transfer from position `i` of the block to absolute address `t`
/// stays within the block or lands just past it, descending in rank either
/// way.
pub open spec fn tgt_ok(
    code: Seq<Instruction>,
    base: int,
    rank: Seq<nat>,
    exit: nat,
    i: int,
    t: int,
) -> bool {
    &&& base <= t <= base + code.len()
    &&& (t - base < code.len() ==> rank[t - base] < rank[i])
    &&& (t == base + code.len() ==> exit < rank[i])
}

/// The block starting at absolute address `base` makes progress under `rank`.
pub open spec fn block_ranked(code: Seq<Instruction>, base: int, rank: Seq<nat>, exit: nat) -> bool {
    &&& rank.len() == code.len()
    &&& forall|i: int|
        0 <= i < code.len() ==> match #[trigger] code[i] {
            Instruction::Jump(a) => tgt_ok(code, base, rank, exit, i, a as int),
            Instruction::Split(a1, a2) => tgt_ok(code, base, rank, exit, i, a1 as int) && tgt_ok(
                code,
                base,
                rank,
                exit,
                i,
                a2 as int,
            ),
            _ => true,
        }
}

proof fn lemma_code_len_pos(a: AST)
    requires
        atom_ok(a) || ast_ok(a),
    ensures
        code_len(a) >= 1,
    decreases a,
{
    match a {
        AST::Concat(v) => {
            assert(atoms_ok(v@));
            assert(atom_ok(v@[0]));
            lemma_code_len_pos(v@[0]);
            assert(codes_len(v@) == code_len(v@[0]) + codes_len(v@.drop_first()));
        }
        _ => {}
    }
}

/// A generated block makes progress under its constructed ranks: the heart of
/// the termination argument for evaluation of generated programs.
proof fn lemma_block_ranked(a: AST, b: int, exit: nat)
    requires
        atom_ok(a) || ast_ok(a),
        0 <= b,
        b + code_len(a) <= usize::MAX,
    ensures
        ranks_of(a, exit).len() == code_len(a),
        gen_spec(a, b).len() == code_len(a),
        block_ranked(gen_spec(a, b), b, ranks_of(a, exit), exit),
    decreases a,
{
    lemma_gen_len(a, b);
    let code = gen_spec(a, b);
    let rank = ranks_of(a, exit);
    match a {
        AST::Char(_) => {
            assert(block_ranked(code, b, rank, exit));
        }
        AST::Plus(e) => {
            let d = (*e)->Char_0;
            assert(*e == AST::Char(d));
            assert(code_len(*e) == 1);
            assert(gen_spec(*e, b) == seq![Instruction::Char(d)]);
            assert(code =~= seq![
                Instruction::Char(d),
                Instruction::Split(b as usize, (b + 2) as usize),
            ]);
            assert(rank =~= seq![0nat, exit + 1]);
            assert(tgt_ok(code, b, rank, exit, 1, b));
            assert(tgt_ok(code, b, rank, exit, 1, b + 2));
            assert(block_ranked(code, b, rank, exit));
        }
        AST::Star(e) => {
            let d = (*e)->Char_0;
            assert(*e == AST::Char(d));
            assert(code_len(*e) == 1);
            assert(gen_spec(*e, b + 1) == seq![Instruction::Char(d)]);
            assert(code =~= seq![
                Instruction::Split((b + 1) as usize, (b + 3) as usize),
                Instruction::Char(d),
                Instruction::Jump(b as usize),
            ]);
            assert(rank =~= seq![exit + 1, 0nat, exit + 2]);
            assert(tgt_ok(code, b, rank, exit, 0, b + 1));
            assert(tgt_ok(code, b, rank, exit, 0, b + 3));
            assert(tgt_ok(code, b, rank, exit, 2, b));
            assert(block_ranked(code, b, rank, exit));
        }
        AST::Question(e) => {
            let d = (*e)->Char_0;
            assert(*e == AST::Char(d));
            assert(code_len(*e) == 1);
            assert(gen_spec(*e, b + 1) == seq![Instruction::Char(d)]);
            assert(code =~= seq![
                Instruction::Split((b + 1) as usize, (b + 2) as usize),
                Instruction::Char(d),
            ]);
            assert(rank =~= seq![exit + 1, 0nat]);
            assert(tgt_ok(code, b, rank, exit, 0, b + 1));
            assert(tgt_ok(code, b, rank, exit, 0, b + 2));
            assert(block_ranked(code, b, rank, exit));
        }
        AST::Concat(v) => {
            lemma_blocks_ranked(v@, b, exit);
        }
        AST::Or(l, r) => {
            let l1n = code_len(*l) as int;
            let l2n = code_len(*r) as int;
            let c1 = gen_spec(*l, b + 1);
            let c2 = gen_spec(*r, b + l1n + 2);
            let r1 = ranks_of(*l, exit + 1);
            let r2 = ranks_of(*r, exit);
            let m = if entry_rank(r1, exit + 1) >= entry_rank(r2, exit) {
                entry_rank(r1, exit + 1)
            } else {
                entry_rank(r2, exit)
            };
            lemma_code_len_pos(*l);
            lemma_code_len_pos(*r);
            lemma_block_ranked(*l, b + 1, exit + 1);
            lemma_block_ranked(*r, b + l1n + 2, exit);
            assert(code =~= seq![
                Instruction::Split((b + 1) as usize, (b + l1n + 2) as usize),
            ] + c1 + seq![Instruction::Jump((b + l1n + l2n + 2) as usize)] + c2);
            assert(rank =~= seq![(m + 1) as nat] + r1 + seq![exit + 1] + r2);
            let total = l1n + l2n + 2;
            assert(code.len() == total);
            assert(rank.len() == total);
            assert(rank[0] == m + 1);
            assert(forall|k: int| 1 <= k <= l1n ==> rank[k] == r1[k - 1]);
            assert(rank[l1n + 1] == exit + 1);
            assert(forall|k: int| l1n + 2 <= k < total ==> rank[k] == r2[k - l1n - 2]);
            assert(code[0] == Instruction::Split((b + 1) as usize, (b + l1n + 2) as usize));
            assert(forall|k: int| 1 <= k <= l1n ==> code[k] == c1[k - 1]);
            assert(code[l1n + 1] == Instruction::Jump((b + l1n + l2n + 2) as usize));
            assert(forall|k: int| l1n + 2 <= k < total ==> code[k] == c2[k - l1n - 2]);
            assert(rank[1] == r1[0] && r1[0] == entry_rank(r1, exit + 1));
            assert(rank[l1n + 2] == r2[0] && r2[0] == entry_rank(r2, exit));
            assert(tgt_ok(code, b, rank, exit, 0, b + 1));
            assert(tgt_ok(code, b, rank, exit, 0, b + l1n + 2));
            assert(tgt_ok(code, b, rank, exit, l1n + 1, b + l1n + l2n + 2));
            assert forall|i: int| 0 <= i < code.len() implies match #[trigger] code[i] {
                Instruction::Jump(a2) => tgt_ok(code, b, rank, exit, i, a2 as int),
                Instruction::Split(a1, a2) => tgt_ok(code, b, rank, exit, i, a1 as int) && tgt_ok(
                    code,
                    b,
                    rank,
                    exit,
                    i,
                    a2 as int,
                ),
                _ => true,
            } by {
                if 1 <= i <= l1n {
                    assert(code[i] == c1[i - 1]);
                    assert(block_ranked(c1, b + 1, r1, exit + 1));
                    match c1[i - 1] {
                        Instruction::Jump(a2) => {
                            assert(tgt_ok(c1, b + 1, r1, exit + 1, i - 1, a2 as int));
                            lemma_tgt_lift_left(code, b, rank, exit, c1, r1, 1, i, a2 as int, l1n);
                        }
                        Instruction::Split(a1, a2) => {
                            assert(tgt_ok(c1, b + 1, r1, exit + 1, i - 1, a1 as int));
                            assert(tgt_ok(c1, b + 1, r1, exit + 1, i - 1, a2 as int));
                            lemma_tgt_lift_left(code, b, rank, exit, c1, r1, 1, i, a1 as int, l1n);
                            lemma_tgt_lift_left(code, b, rank, exit, c1, r1, 1, i, a2 as int, l1n);
                        }
                        _ => {}
                    }
                } else if l1n + 2 <= i < total {
                    assert(code[i] == c2[i - l1n - 2]);
                    assert(block_ranked(c2, b + l1n + 2, r2, exit));
                    match c2[i - l1n - 2] {
                        Instruction::Jump(a2) => {
                            assert(tgt_ok(c2, b + l1n + 2, r2, exit, i - l1n - 2, a2 as int));
                            lemma_tgt_lift_right(code, b, rank, exit, c2, r2, l1n + 2, i, a2 as int);
                        }
                        Instruction::Split(a1, a2) => {
                            assert(tgt_ok(c2, b + l1n + 2, r2, exit, i - l1n - 2, a1 as int));
                            assert(tgt_ok(c2, b + l1n + 2, r2, exit, i - l1n - 2, a2 as int));
                            lemma_tgt_lift_right(code, b, rank, exit, c2, r2, l1n + 2, i, a1 as int);
                            lemma_tgt_lift_right(code, b, rank, exit, c2, r2, l1n + 2, i, a2 as int);
                        }
                        _ => {}
                    }
                }
            }
            assert(block_ranked(code, b, rank, exit));
        }
    }
}

/// Lifts a target fact of an inner block into the whole block, where the
/// inner block's exit address is still inside the whole block and carries the
/// inner exit rank.
proof fn lemma_tgt_lift_left(
    code: Seq<Instruction>,
    b: int,
    rank: Seq<nat>,
    exit: nat,
    inner: Seq<Instruction>,
    irank: Seq<nat>,
    off: int,
    i: int,
    t: int,
    l1n: int,
)
    requires
        rank.len() == code.len(),
        irank.len() == inner.len(),
        inner.len() == l1n,
        off == 1,
        off <= i < off + l1n,
        off + l1n < code.len(),
        tgt_ok(inner, b + off, irank, rank[off + l1n], i - off, t),
        forall|k: int| off <= k < off + l1n ==> rank[k] == irank[k - off],
    ensures
        tgt_ok(code, b, rank, exit, i, t),
{
    assert(b + off <= t <= b + off + l1n);
    if t - b - off < l1n {
        assert(rank[t - b] == irank[t - b - off]);
        assert(irank[t - b - off] < irank[i - off]);
    } else {
        assert(t == b + off + l1n);
        assert(rank[t - b] == rank[off + l1n]);
        assert(rank[off + l1n] < irank[i - off]);
    }
    assert(rank[i] == irank[i - off]);
}

/// Lifts a target fact of the final inner block into the whole block, whose
/// end the inner block shares.
proof fn lemma_tgt_lift_right(
    code: Seq<Instruction>,
    b: int,
    rank: Seq<nat>,
    exit: nat,
    inner: Seq<Instruction>,
    irank: Seq<nat>,
    off: int,
    i: int,
    t: int,
)
    requires
        rank.len() == code.len(),
        irank.len() == inner.len(),
        off + inner.len() == code.len(),
        off <= i < code.len(),
        0 <= off,
        tgt_ok(inner, b + off, irank, exit, i - off, t),
        forall|k: int| off <= k < code.len() ==> rank[k] == irank[k - off],
    ensures
        tgt_ok(code, b, rank, exit, i, t),
{
    assert(rank[i] == irank[i - off]);
    if t - b - off < inner.len() {
        assert(rank[t - b] == irank[t - b - off]);
    }
}

/// Ranks compose across a laid-out list of blocks.
proof fn lemma_blocks_ranked(l: Seq<AST>, b: int, exit: nat)
    requires
        atoms_ok(l),
        0 <= b,
        b + codes_len(l) <= usize::MAX,
    ensures
        ranks_of_list(l, exit).len() == codes_len(l),
        gen_specs(l, b).len() == codes_len(l),
        block_ranked(gen_specs(l, b), b, ranks_of_list(l, exit), exit),
    decreases l,
{
    lemma_gens_len(l, b);
    if l.len() == 0 {
        assert(block_ranked(gen_specs(l, b), b, ranks_of_list(l, exit), exit));
    } else {
        let rest = l.drop_first();
        let rr = ranks_of_list(rest, exit);
        let e0 = entry_rank(rr, exit);
        let len0 = code_len(l[0]) as int;
        let c0 = gen_spec(l[0], b);
        let r0 = ranks_of(l[0], e0);
        let crest = gen_specs(rest, b + len0);
        assert(atom_ok(l[0]) && atoms_ok(rest));
        lemma_block_ranked(l[0], b, e0);
        lemma_blocks_ranked(rest, b + len0, exit);
        let code = gen_specs(l, b);
        let rank = ranks_of_list(l, exit);
        assert(code == c0 + crest);
        assert(rank == r0 + rr);
        let total = codes_len(l) as int;
        assert(total == len0 + codes_len(rest));
        assert(forall|k: int| 0 <= k < len0 ==> code[k] == c0[k] && rank[k] == r0[k]);
        assert(forall|k: int|
            len0 <= k < total ==> code[k] == crest[k - len0] && rank[k] == rr[k - len0]);
        if rest.len() > 0 {
            lemma_code_len_pos(rest[0]);
            assert(codes_len(rest) == code_len(rest[0]) + codes_len(rest.drop_first()));
            assert(rr.len() > 0);
            assert(rank[len0] == rr[0] && rr[0] == e0);
        } else {
            assert(total == len0);
            assert(e0 == exit);
        }
        assert forall|i: int| 0 <= i < code.len() implies match #[trigger] code[i] {
            Instruction::Jump(a2) => tgt_ok(code, b, rank, exit, i, a2 as int),
            Instruction::Split(a1, a2) => tgt_ok(code, b, rank, exit, i, a1 as int) && tgt_ok(
                code,
                b,
                rank,
                exit,
                i,
                a2 as int,
            ),
            _ => true,
        } by {
            if i < len0 {
                assert(code[i] == c0[i]);
                assert(block_ranked(c0, b, r0, e0));
                match c0[i] {
                    Instruction::Jump(a2) => {
                        assert(tgt_ok(c0, b, r0, e0, i, a2 as int));
                        lemma_tgt_lift_head(code, b, rank, exit, c0, r0, e0, i, a2 as int, total);
                    }
                    Instruction::Split(a1, a2) => {
                        assert(tgt_ok(c0, b, r0, e0, i, a1 as int));
                        assert(tgt_ok(c0, b, r0, e0, i, a2 as int));
                        lemma_tgt_lift_head(code, b, rank, exit, c0, r0, e0, i, a1 as int, total);
                        lemma_tgt_lift_head(code, b, rank, exit, c0, r0, e0, i, a2 as int, total);
                    }
                    _ => {}
                }
            } else {
                assert(code[i] == crest[i - len0]);
                assert(block_ranked(crest, b + len0, rr, exit));
                match crest[i - len0] {
                    Instruction::Jump(a2) => {
                        assert(tgt_ok(crest, b + len0, rr, exit, i - len0, a2 as int));
                        lemma_tgt_lift_right(code, b, rank, exit, crest, rr, len0, i, a2 as int);
                    }
                    Instruction::Split(a1, a2) => {
                        assert(tgt_ok(crest, b + len0, rr, exit, i - len0, a1 as int));
                        assert(tgt_ok(crest, b + len0, rr, exit, i - len0, a2 as int));
                        lemma_tgt_lift_right(code, b, rank, exit, crest, rr, len0, i, a1 as int);
                        lemma_tgt_lift_right(code, b, rank, exit, crest, rr, len0, i, a2 as int);
                    }
                    _ => {}
                }
            }
        }
        assert(block_ranked(code, b, rank, exit));
    }
}

/// Lifts a target fact of the first block in a row: the block's exit address
/// is either inside the whole row (where the next block starts, at the exit
/// rank) or the row's own end.
proof fn lemma_tgt_lift_head(
    code: Seq<Instruction>,
    b: int,
    rank: Seq<nat>,
    exit: nat,
    inner: Seq<Instruction>,
    irank: Seq<nat>,
    e0: nat,
    i: int,
    t: int,
    total: int,
)
    requires
        rank.len() == code.len(),
        code.len() == total,
        irank.len() == inner.len(),
        inner.len() <= total,
        0 <= i < inner.len(),
        tgt_ok(inner, b, irank, e0, i, t),
        forall|k: int| 0 <= k < inner.len() ==> rank[k] == irank[k],
        inner.len() < total ==> rank[inner.len() as int] == e0,
        inner.len() == total ==> e0 == exit,
    ensures
        tgt_ok(code, b, rank, exit, i, t),
{
    assert(rank[i] == irank[i]);
    if t - b < inner.len() {
        assert(rank[t - b] == irank[t - b]);
    } else {
        assert(t == b + inner.len());
        if inner.len() < total {
            assert(rank[t - b] == e0);
        }
    }
}

/// The whole generated program, match instruction included, admits a rank
/// under which every control transfer descends: evaluation cannot loop
/// without consuming input.
pub proof fn lemma_generated_progressive(a: AST)
    requires
        ast_ok(a),
        code_len(a) + 1 <= usize::MAX,
    ensures
        ranks_of(a, 0).len() == code_len(a),
        crate::engine::evaluator::progressive(
            gen_spec(a, 0) + seq![Instruction::Match],
            ranks_of(a, 0) + seq![0nat],
        ),
        crate::engine::evaluator::closed(gen_spec(a, 0) + seq![Instruction::Match]),
{
    lemma_block_ranked(a, 0, 0);
    let g = gen_spec(a, 0);
    let gr = ranks_of(a, 0);
    let code = g + seq![Instruction::Match];
    let rank = gr + seq![0nat];
    let gl = g.len() as int;
    assert(forall|k: int| 0 <= k < gl ==> code[k] == g[k] && rank[k] == gr[k]);
    assert(code[gl] == Instruction::Match && rank[gl] == 0);
    assert forall|i: int| 0 <= i < code.len() implies match #[trigger] code[i] {
        Instruction::Jump(a2) => a2 < code.len() ==> rank[a2 as int] < rank[i],
        Instruction::Split(a1, a2) => (a1 < code.len() ==> rank[a1 as int] < rank[i]) && (a2
            < code.len() ==> rank[a2 as int] < rank[i]),
        _ => true,
    } by {
        if i < gl {
            assert(code[i] == g[i]);
            assert(block_ranked(g, 0, gr, 0));
            match g[i] {
                Instruction::Jump(a2) => {
                    assert(tgt_ok(g, 0, gr, 0, i, a2 as int));
                    lemma_tgt_top(code, rank, g, gr, i, a2 as int);
                }
                Instruction::Split(a1, a2) => {
                    assert(tgt_ok(g, 0, gr, 0, i, a1 as int));
                    assert(tgt_ok(g, 0, gr, 0, i, a2 as int));
                    lemma_tgt_top(code, rank, g, gr, i, a1 as int);
                    lemma_tgt_top(code, rank, g, gr, i, a2 as int);
                }
                _ => {}
            }
        }
    }
    assert forall|i: int| 0 <= i < code.len() implies match #[trigger] code[i] {
        Instruction::Char(_) => i + 1 < code.len(),
        Instruction::Jump(a2) => a2 < code.len(),
        Instruction::Split(a1, a2) => a1 < code.len() && a2 < code.len(),
        Instruction::Match => true,
    } by {
        if i < gl {
            assert(code[i] == g[i]);
            assert(block_ranked(g, 0, gr, 0));
            match g[i] {
                Instruction::Jump(a2) => {
                    assert(tgt_ok(g, 0, gr, 0, i, a2 as int));
                }
                Instruction::Split(a1, a2) => {
                    assert(tgt_ok(g, 0, gr, 0, i, a1 as int));
                    assert(tgt_ok(g, 0, gr, 0, i, a2 as int));
                }
                _ => {}
            }
        }
    }
}

proof fn lemma_tgt_top(
    code: Seq<Instruction>,
    rank: Seq<nat>,
    g: Seq<Instruction>,
    gr: Seq<nat>,
    i: int,
    t: int,
)
    requires
        rank.len() == code.len(),
        gr.len() == g.len(),
        code.len() == g.len() + 1,
        0 <= i < g.len(),
        tgt_ok(g, 0, gr, 0, i, t),
        forall|k: int| 0 <= k < g.len() ==> rank[k] == gr[k],
        rank[g.len() as int] == 0,
    ensures
        0 <= t < code.len(),
        rank[t] < rank[i],
{
    assert(rank[i] == gr[i]);
    if t < g.len() {
        assert(rank[t] == gr[t]);
    } else {
        assert(t == g.len());
        assert(rank[t] == 0);
        assert(0 < gr[i]);
    }
}

/// Generates the whole program for a tree: its code and the trailing match.
pub fn get_code(ast: &AST) -> (r: Result<Vec<Instruction>, CodeGenError>)
    ensures
        code_len(*ast) + 1 <= usize::MAX ==> r is Ok,
        r matches Ok(code) ==> code@ == gen_spec(*ast, 0) + seq![Instruction::Match],
        r is Err ==> r == Err::<Vec<Instruction>, CodeGenError>(CodeGenError::PCOverFlow),
{
    let mut generator = Generator::default();
    match generator.gen_code(ast) {
        Ok(()) => {
            assert(generator.insts@ =~= gen_spec(*ast, 0) + seq![Instruction::Match]);
            Ok(generator.insts)
        }
        Err(err) => Err(err),
    }
}

/// What running a program of bare character tests from position `j` decides:
/// the rest of the pattern is read off against the input, character for
/// character.
pub open spec fn lit_run(p: Seq<char>, line: Seq<char>, j: int) -> bool
    decreases p.len() - j,
{
    if j >= p.len() {
        true
    } else if j < line.len() && line[j] == p[j] {
        lit_run(p, line, j + 1)
    } else {
        false
    }
}

pub proof fn lemma_lit_ast(ast: AST, expr: Seq<char>)
    requires
        ast_ok(ast),
        pattern_of(ast) == expr,
        forall|j: int| 0 <= j < expr.len() ==> lit_char(#[trigger] expr[j]),
    ensures
        gen_spec(ast, 0).len() == expr.len(),
        forall|i: int|
            0 <= i < expr.len() ==> gen_spec(ast, 0)[i] == Instruction::Char(#[trigger] expr[i]),
{
    match ast {
        AST::Concat(v) => {
            lemma_lit_atoms(v@, expr, 0);
        }
        AST::Or(l, r) => {
            let bar_pos = pattern_of(*l).len() as int;
            assert(expr[bar_pos] == '|') by {
                assert(pattern_of(ast) == pattern_of(*l).push('|') + pattern_of(*r));
                assert((pattern_of(*l).push('|') + pattern_of(*r))[bar_pos] == '|');
            }
            assert(!lit_char('|'));
            assert(false);
        }
        _ => {
            assert(false);
        }
    }
}

proof fn lemma_lit_atoms(l: Seq<AST>, p: Seq<char>, b: int)
    requires
        atoms_ok(l),
        cat_pats(l) == p,
        forall|j: int| 0 <= j < p.len() ==> lit_char(#[trigger] p[j]),
    ensures
        gen_specs(l, b).len() == p.len(),
        forall|i: int|
            0 <= i < p.len() ==> gen_specs(l, b)[i] == Instruction::Char(#[trigger] p[i]),
    decreases l,
{
    if l.len() == 0 {
        assert(p.len() == 0);
    } else {
        let a0 = l[0];
        let rest = l.drop_first();
        assert(atom_ok(a0) && atoms_ok(rest));
        assert(p == pattern_of(a0) + cat_pats(rest));
        match a0 {
            AST::Char(d) => {
                assert(pattern_of(a0) == seq![d]);
                assert(p.len() >= 1 && p[0] == d);
                assert(cat_pats(rest) =~= p.skip(1));
                assert(forall|j: int|
                    0 <= j < p.skip(1).len() ==> lit_char(#[trigger] p.skip(1)[j]));
                lemma_lit_atoms(rest, p.skip(1), b + 1);
                assert(code_len(a0) == 1);
                assert(gen_spec(a0, b) == seq![Instruction::Char(d)]);
                assert(gen_specs(l, b) == seq![Instruction::Char(d)] + gen_specs(rest, b + 1));
                assert forall|i: int| 0 <= i < p.len() implies gen_specs(l, b)[i]
                    == Instruction::Char(#[trigger] p[i]) by {
                    if i > 0 {
                        assert(gen_specs(l, b)[i] == gen_specs(rest, b + 1)[i - 1]);
                        assert(p.skip(1)[i - 1] == p[i]);
                    }
                }
            }
            AST::Plus(e) => {
                let d = (*e)->Char_0;
                assert(*e == AST::Char(d));
                assert(pattern_of(a0) == pattern_of(*e).push('+'));
                assert(pattern_of(*e) == seq![d]);
                assert(p[1] == '+');
                assert(false);
            }
            AST::Star(e) => {
                let d = (*e)->Char_0;
                assert(*e == AST::Char(d));
                assert(pattern_of(a0) == pattern_of(*e).push('*'));
                assert(pattern_of(*e) == seq![d]);
                assert(p[1] == '*');
                assert(false);
            }
            AST::Question(e) => {
                let d = (*e)->Char_0;
                assert(*e == AST::Char(d));
                assert(pattern_of(a0) == pattern_of(*e).push('?'));
                assert(pattern_of(*e) == seq![d]);
                assert(p[1] == '?');
                assert(false);
            }
            _ => {
                assert(false);
            }
        }
    }
}

proof fn lemma_vm_literal(
    code: Seq<Instruction>,
    p: Seq<char>,
    line: Seq<char>,
    j: nat,
    fuel: nat,
)
    requires
        code.len() == p.len() + 1,
        forall|i: int| 0 <= i < p.len() ==> code[i] == Instruction::Char(#[trigger] p[i]),
        code[p.len() as int] == Instruction::Match,
        j <= p.len(),
        j <= line.len(),
        p.len() + 1 <= usize::MAX,
        line.len() <= usize::MAX,
        fuel > p.len() - j,
    ensures
        vm_eval(code, line, j, j, fuel) == Some(Ok::<bool, EvalError>(lit_run(p, line, j as int))),
    decreases p.len() - j,
{
    if j == p.len() {
        assert(code[j as int] == Instruction::Match);
    } else {
        assert(code[j as int] == Instruction::Char(p[j as int]));
        if j < line.len() && line[j as int] == p[j as int] {
            lemma_vm_literal(code, p, line, j + 1, (fuel - 1) as nat);
        }
    }
}

proof fn lemma_lit_run_prefix(p: Seq<char>, line: Seq<char>, j: int)
    requires
        0 <= j <= p.len(),
        j <= line.len(),
    ensures
        lit_run(p, line, j) <==> (p.len() <= line.len() && forall|i: int|
            j <= i < p.len() ==> line[i] == #[trigger] p[i]),
    decreases p.len() - j,
{
    if j < p.len() {
        if j < line.len() && line[j] == p[j] {
            lemma_lit_run_prefix(p, line, j + 1);
        }
    }
}

/// A pattern of literal characters alone matches exactly the inputs it spells
/// out: on inputs no longer than the pattern, the generated program accepts
/// exactly the input equal to the pattern, character for character. (A longer
/// input that merely begins with the pattern also matches, since the program
/// is not anchored at the end.)
pub proof fn lemma_literal_match_exact(
    ast: AST,
    expr: Seq<char>,
    line: Seq<char>,
    b: bool,
    fuel: nat,
)
    requires
        ast_ok(ast),
        pattern_of(ast) == expr,
        forall|j: int| 0 <= j < expr.len() ==> lit_char(#[trigger] expr[j]),
        line.len() <= expr.len(),
        expr.len() + 1 <= usize::MAX,
        vm_eval(gen_spec(ast, 0) + seq![Instruction::Match], line, 0, 0, fuel) == Some(
            Ok::<bool, EvalError>(b),
        ),
    ensures
        b <==> line == expr,
{
    lemma_lit_ast(ast, expr);
    let code = gen_spec(ast, 0) + seq![Instruction::Match];
    assert(code.len() == expr.len() + 1);
    assert(code[expr.len() as int] == Instruction::Match);
    assert(forall|i: int| 0 <= i < expr.len() ==> code[i] == Instruction::Char(#[trigger] expr[i]));
    lemma_vm_literal(code, expr, line, 0, expr.len() + 1);
    crate::engine::evaluator::lemma_vm_eval_deterministic(code, line, 0, 0, fuel, expr.len() + 1);
    assert(b == lit_run(expr, line, 0));
    lemma_lit_run_prefix(expr, line, 0);
    if b {
        assert(line.len() == expr.len());
        assert(line =~= expr);
    }
    if line == expr {
        assert(forall|i: int| 0 <= i < expr.len() ==> line[i] == #[trigger] expr[i]);
    }
}

pub proof fn lemma_atom_pat(a: AST)
    requires
        atom_ok(a),
    ensures
        1 <= pattern_of(a).len() <= 2,
        lit_char(pattern_of(a)[0]),
        pattern_of(a).len() == 2 ==> op_char(pattern_of(a)[1]),
        pattern_of(a).len() == 1 ==> a == AST::Char(pattern_of(a)[0]),
        pattern_of(a).len() == 2 && pattern_of(a)[1] == '+' ==> a == AST::Plus(
            Box::new(AST::Char(pattern_of(a)[0])),
        ),
        pattern_of(a).len() == 2 && pattern_of(a)[1] == '*' ==> a == AST::Star(
            Box::new(AST::Char(pattern_of(a)[0])),
        ),
        pattern_of(a).len() == 2 && pattern_of(a)[1] == '?' ==> a == AST::Question(
            Box::new(AST::Char(pattern_of(a)[0])),
        ),
{
    match a {
        AST::Char(c) => {
            assert(pattern_of(a) == seq![c]);
        }
        AST::Plus(e) => {
            let d = (*e)->Char_0;
            assert(*e == AST::Char(d));
            assert(pattern_of(*e) == seq![d]);
            assert(pattern_of(a) == seq![d].push('+'));
            assert(pattern_of(a) =~= seq![d, '+']);
        }
        AST::Star(e) => {
            let d = (*e)->Char_0;
            assert(*e == AST::Char(d));
            assert(pattern_of(*e) == seq![d]);
            assert(pattern_of(a) == seq![d].push('*'));
            assert(pattern_of(a) =~= seq![d, '*']);
        }
        AST::Question(e) => {
            let d = (*e)->Char_0;
            assert(*e == AST::Char(d));
            assert(pattern_of(*e) == seq![d]);
            assert(pattern_of(a) == seq![d].push('?'));
            assert(pattern_of(a) =~= seq![d, '?']);
        }
        _ => {
            assert(false);
        }
    }
}

pub proof fn lemma_cat_head(l: Seq<AST>)
    requires
        atoms_ok(l),
        l.len() > 0,
    ensures
        cat_pats(l).len() >= 1,
        lit_char(cat_pats(l)[0]),
{
    lemma_atom_pat(l[0]);
    assert(cat_pats(l) == pattern_of(l[0]) + cat_pats(l.drop_first()));
    assert(cat_pats(l)[0] == pattern_of(l[0])[0]);
}

proof fn lemma_cat_no_bar(l: Seq<AST>)
    requires
        atoms_ok(l),
    ensures
        forall|i: int| 0 <= i < cat_pats(l).len() ==> !bar_char(#[trigger] cat_pats(l)[i]),
    decreases l,
{
    if l.len() > 0 {
        lemma_atom_pat(l[0]);
        lemma_cat_no_bar(l.drop_first());
        let p0 = pattern_of(l[0]);
        assert(cat_pats(l) == p0 + cat_pats(l.drop_first()));
        assert forall|i: int| 0 <= i < cat_pats(l).len() implies !bar_char(
            #[trigger] cat_pats(l)[i],
        ) by {
            if i < p0.len() {
                assert(cat_pats(l)[i] == p0[i]);
                if i == 1 {
                    assert(op_char(p0[1]));
                }
            } else {
                assert(cat_pats(l)[i] == cat_pats(l.drop_first())[i - p0.len()]);
            }
        }
    }
}

proof fn lemma_atoms_determined(l1: Seq<AST>, l2: Seq<AST>)
    requires
        atoms_ok(l1),
        atoms_ok(l2),
        cat_pats(l1) == cat_pats(l2),
    ensures
        l1 == l2,
    decreases l1,
{
    let p = cat_pats(l1);
    if l1.len() == 0 || l2.len() == 0 {
        if l1.len() > 0 {
            lemma_cat_head(l1);
            assert(p.len() >= 1);
            assert(cat_pats(l2).len() == 0);
            assert(false);
        }
        if l2.len() > 0 {
            lemma_cat_head(l2);
            assert(false);
        }
        assert(l1 =~= l2);
    } else {
        let a1 = l1[0];
        let a2 = l2[0];
        let r1 = l1.drop_first();
        let r2 = l2.drop_first();
        lemma_atom_pat(a1);
        lemma_atom_pat(a2);
        let w1 = pattern_of(a1).len() as int;
        let w2 = pattern_of(a2).len() as int;
        assert(p == pattern_of(a1) + cat_pats(r1));
        assert(p == pattern_of(a2) + cat_pats(r2));
        assert(p[0] == pattern_of(a1)[0] && p[0] == pattern_of(a2)[0]);
        if w1 != w2 {
            if w1 == 1 && w2 == 2 {
                assert(p[1] == pattern_of(a2)[1]);
                assert(op_char(p[1]));
                assert(cat_pats(r1).len() == cat_pats(r2).len() + 1);
                assert(r1.len() > 0) by {
                    if r1.len() == 0 {
                        assert(cat_pats(r1).len() == 0);
                    }
                }
                lemma_cat_head(r1);
                assert(p[1] == cat_pats(r1)[0]);
                assert(lit_char(p[1]));
                assert(false);
            } else {
                assert(w1 == 2 && w2 == 1);
                assert(p[1] == pattern_of(a1)[1]);
                assert(op_char(p[1]));
                assert(cat_pats(r2).len() == cat_pats(r1).len() + 1);
                assert(r2.len() > 0) by {
                    if r2.len() == 0 {
                        assert(cat_pats(r2).len() == 0);
                    }
                }
                lemma_cat_head(r2);
                assert(p[1] == cat_pats(r2)[0]);
                assert(lit_char(p[1]));
                assert(false);
            }
        }
        assert(w1 == w2);
        if w1 == 2 {
            assert(p[1] == pattern_of(a1)[1] && p[1] == pattern_of(a2)[1]);
        }
        assert(a1 == a2);
        assert(cat_pats(r1) =~= cat_pats(r2)) by {
            assert(cat_pats(r1).len() == cat_pats(r2).len());
            assert(forall|i: int|
                0 <= i < cat_pats(r1).len() ==> #[trigger] cat_pats(r1)[i] == p[w1 + i]
                    && cat_pats(r2)[i] == p[w1 + i]);
        }
        lemma_atoms_determined(r1, r2);
        assert(l1.len() == r1.len() + 1 && l2.len() == r2.len() + 1);
        assert forall|i: int| 0 <= i < l1.len() implies l1[i] == l2[i] by {
            if i > 0 {
                assert(l1[i] == r1[i - 1]);
                assert(l2[i] == r2[i - 1]);
            }
        }
        assert(l1 =~= l2);
    }
}

/// The source text of a parser-shaped tree determines the generated program:
/// two trees that read back as the same pattern emit the same instructions.
pub proof fn lemma_pattern_determines_code(a1: AST, a2: AST, b: int)
    requires
        ast_ok(a1),
        ast_ok(a2),
        pattern_of(a1) == pattern_of(a2),
    ensures
        code_len(a1) == code_len(a2),
        gen_spec(a1, b) == gen_spec(a2, b),
    decreases a1,
{
    let p = pattern_of(a1);
    match a1 {
        AST::Concat(v1) => {
            match a2 {
                AST::Concat(v2) => {
                    lemma_atoms_determined(v1@, v2@);
                    assert(code_len(a1) == codes_len(v1@) && code_len(a2) == codes_len(v2@));
                    assert(gen_spec(a1, b) == gen_specs(v1@, b) && gen_spec(a2, b) == gen_specs(
                        v2@,
                        b,
                    ));
                }
                AST::Or(l2, r2) => {
                    let bar_pos = pattern_of(*l2).len() as int;
                    assert(p == pattern_of(*l2).push('|') + pattern_of(*r2));
                    assert(p[bar_pos] == '|');
                    assert(0 <= bar_pos < p.len());
                    lemma_cat_no_bar(v1@);
                    assert(p == cat_pats(v1@));
                    assert(false);
                }
                _ => {
                    assert(false);
                }
            }
        }
        AST::Or(l1, r1) => {
            match a2 {
                AST::Concat(v2) => {
                    let bar_pos = pattern_of(*l1).len() as int;
                    assert(p == pattern_of(*l1).push('|') + pattern_of(*r1));
                    assert(p[bar_pos] == '|');
                    assert(0 <= bar_pos < p.len());
                    lemma_cat_no_bar(v2@);
                    assert(p == cat_pats(v2@));
                    assert(false);
                }
                AST::Or(l2, r2) => {
                    let p1 = pattern_of(*l1);
                    let p2 = pattern_of(*l2);
                    let q1 = pattern_of(*r1);
                    let q2 = pattern_of(*r2);
                    assert(p == p1.push('|') + q1);
                    assert(p == p2.push('|') + q2);
                    let v1 = (*l1)->Concat_0;
                    let v2 = (*l2)->Concat_0;
                    assert(*l1 == AST::Concat(v1) && *l2 == AST::Concat(v2));
                    assert(ast_ok(*l1) && ast_ok(*l2));
                    assert(atoms_ok(v1@) && atoms_ok(v2@));
                    lemma_cat_no_bar(v1@);
                    lemma_cat_no_bar(v2@);
                    assert(p1 == cat_pats(v1@) && p2 == cat_pats(v2@));
                    assert(p1.len() == p2.len()) by {
                        if p1.len() < p2.len() {
                            assert(p[p1.len() as int] == '|');
                            assert(p[p1.len() as int] == p2[p1.len() as int]);
                            assert(false);
                        }
                        if p2.len() < p1.len() {
                            assert(p[p2.len() as int] == '|');
                            assert(p[p2.len() as int] == p1[p2.len() as int]);
                            assert(false);
                        }
                    }
                    assert(p1 =~= p2) by {
                        assert(forall|i: int|
                            0 <= i < p1.len() ==> #[trigger] p1[i] == p[i] && p2[i] == p[i]);
                    }
                    assert((p1.push('|')).len() == p1.len() + 1);
                    assert(p.len() == p1.len() + 1 + q1.len());
                    assert(p.len() == p2.len() + 1 + q2.len());
                    assert(q1 =~= q2) by {
                        assert(q1.len() == q2.len());
                        assert forall|i: int| 0 <= i < q1.len() implies q1[i] == q2[i] by {
                            assert(q1[i] == p[p1.len() + 1 + i]);
                            assert(q2[i] == p[p2.len() + 1 + i]);
                        }
                    }
                    assert(pattern_of(*l1) == pattern_of(*l2));
                    assert(pattern_of(*r1) == pattern_of(*r2));
                    lemma_pattern_determines_code(*l1, *l2, b + 1);
                    lemma_pattern_determines_code(*r1, *r2, b + code_len(*l1) + 2);
                    assert(gen_spec(a1, b) == gen_spec(a2, b));
                }
                _ => {
                    assert(false);
                }
            }
        }
        _ => {
            assert(false);
        }
    }
}

} // verus!
