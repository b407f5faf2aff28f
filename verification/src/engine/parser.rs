use vstd::prelude::*;
use vstd::string::StrSliceExecFns;

verus! {

broadcast use vstd::seq::group_seq_axioms;

/// The parsed structural representation of a regex pattern. Each composite
/// node exclusively owns its children; the tree is acyclic.
#[derive(Debug)]
pub enum AST {
    Char(char),
    Plus(Box<AST>),
    Star(Box<AST>),
    Question(Box<AST>),
    Or(Box<AST>, Box<AST>),
    Concat(Vec<AST>),
}

/// Why a pattern was rejected by the parser.
#[derive(Clone, Copy, Debug, PartialEq, Eq)]
pub enum ParseError {
    /// The pattern was the empty string.
    Empty,
    /// The pattern cannot be reduced to the grammar.
    Syntax,
}

/// A postfix repetition operator.
pub open spec fn op_char(c: char) -> bool {
    c == '+' || c == '*' || c == '?'
}

/// The alternation separator.
pub open spec fn bar_char(c: char) -> bool {
    c == '|'
}

/// A literal character: anything that is not an operator.
pub open spec fn lit_char(c: char) -> bool {
    !op_char(c) && !bar_char(c)
}

/// The local well-formedness condition at position `j` of a pattern: a postfix
/// operator needs a literal immediately before it, and an alternation bar
/// needs some earlier atom and no bar immediately before it.
pub open spec fn char_ok_at(s: Seq<char>, j: int) -> bool {
    &&& (op_char(s[j]) ==> j > 0 && lit_char(s[j - 1]))
    &&& (bar_char(s[j]) ==> j > 0 && !bar_char(s[j - 1]))
}

/// The local condition holds at every position before `i`.
pub open spec fn scan_ok(s: Seq<char>, i: int) -> bool {
    forall|j: int| 0 <= j < i ==> #[trigger] char_ok_at(s, j)
}

/// A pattern string that the grammar accepts: nonempty, locally well formed
/// everywhere, and not ending in a bar.
pub open spec fn pat_valid(s: Seq<char>) -> bool {
    &&& s.len() > 0
    &&& !bar_char(s[s.len() - 1])
    &&& scan_ok(s, s.len() as int)
}

/// The source text that an abstract syntax tree denotes, atom by atom.
pub open spec fn pattern_of(a: AST) -> Seq<char>
    decreases a,
{
    match a {
        AST::Char(c) => seq![c],
        AST::Plus(e) => pattern_of(*e).push('+'),
        AST::Star(e) => pattern_of(*e).push('*'),
        AST::Question(e) => pattern_of(*e).push('?'),
        AST::Or(l, r) => pattern_of(*l).push('|') + pattern_of(*r),
        AST::Concat(v) => cat_pats(v@),
    }
}

/// The concatenated source text of a list of trees.
pub open spec fn cat_pats(l: Seq<AST>) -> Seq<char>
    decreases l,
{
    if l.len() == 0 {
        Seq::empty()
    } else {
        pattern_of(l[0]) + cat_pats(l.drop_first())
    }
}

/// An atom as the parser builds it: a literal character, optionally under
/// exactly one repetition operator.
pub open spec fn atom_ok(a: AST) -> bool {
    match a {
        AST::Char(c) => lit_char(c),
        AST::Plus(e) => (*e matches AST::Char(c) && lit_char(c)),
        AST::Star(e) => (*e matches AST::Char(c) && lit_char(c)),
        AST::Question(e) => (*e matches AST::Char(c) && lit_char(c)),
        _ => false,
    }
}

/// The shape of every tree the parser returns: a nonempty concatenation of
/// atoms, or a right-nested alternation of such concatenations.
pub open spec fn ast_ok(a: AST) -> bool
    decreases a,
{
    match a {
        AST::Concat(v) => v@.len() > 0 && atoms_ok(v@),
        AST::Or(l, r) => (*l matches AST::Concat(_)) && ast_ok(*l) && ast_ok(*r),
        _ => false,
    }
}

/// Every element of the list is an atom.
pub open spec fn atoms_ok(l: Seq<AST>) -> bool
    decreases l,
{
    l.len() == 0 || (atom_ok(l[0]) && atoms_ok(l.drop_first()))
}

/// Every branch is a nonempty list of atoms.
pub open spec fn branches_ok(bs: Seq<Vec<AST>>) -> bool
    decreases bs,
{
    bs.len() == 0 || (bs[0]@.len() > 0 && atoms_ok(bs[0]@) && branches_ok(bs.drop_first()))
}

/// The language of a tree: whether it matches the whole of `s`.
pub open spec fn accepts(a: AST, s: Seq<char>) -> bool
    decreases s.len(), a, 0int,
{
    match a {
        AST::Char(c) => s == seq![c],
        AST::Plus(e) => exists|k: int|
            0 <= k <= s.len() && accepts(*e, s.take(k)) && star_accepts(*e, #[trigger] s.skip(k)),
        AST::Star(e) => star_accepts(*e, s),
        AST::Question(e) => s.len() == 0 || accepts(*e, s),
        AST::Or(l, r) => accepts(*l, s) || accepts(*r, s),
        AST::Concat(v) => list_accepts(v@, s),
    }
}

/// Zero or more adjacent pieces of `s`, each matched by `e`.
pub open spec fn star_accepts(e: AST, s: Seq<char>) -> bool
    decreases s.len(), e, 1int,
{
    s.len() == 0 || exists|k: int|
        1 <= k <= s.len() && accepts(e, s.take(k)) && star_accepts(e, #[trigger] s.skip(k))
}

/// The trees of the list match adjacent pieces of `s`, in order, covering it.
pub open spec fn list_accepts(l: Seq<AST>, s: Seq<char>) -> bool
    decreases s.len(), l, 0int,
{
    if l.len() == 0 {
        s.len() == 0
    } else {
        exists|k: int|
            0 <= k <= s.len() && accepts(l[0], s.take(k)) && list_accepts(
                l.drop_first(),
                #[trigger] s.skip(k),
            )
    }
}

/// Zero-or-more repetition accepts the empty input, whatever its body.
pub proof fn lemma_star_accepts_empty(e: Box<AST>)
    ensures
        accepts(AST::Star(e), Seq::empty()),
{
    assert(star_accepts(*e, Seq::empty()));
}

/// One-or-more repetition accepts the empty input exactly when its body does.
pub proof fn lemma_plus_empty(e: Box<AST>)
    ensures
        accepts(AST::Plus(e), Seq::empty()) <==> accepts(*e, Seq::empty()),
{
    let s = Seq::<char>::empty();
    assert(s.take(0) =~= s);
    assert(s.skip(0) =~= s);
    if accepts(*e, s) {
        assert(star_accepts(*e, s));
        assert(0 <= 0 <= s.len() && accepts(*e, s.take(0)) && star_accepts(*e, s.skip(0)));
        assert(accepts(AST::Plus(e), s));
    }
    if accepts(AST::Plus(e), s) {
        let k = choose|k: int|
            0 <= k <= s.len() && accepts(*e, s.take(k)) && star_accepts(*e, #[trigger] s.skip(k));
        assert(k == 0);
    }
}

/// The source text of a list of alternation branches, each followed by its
/// separating bar.
pub open spec fn join_pats(bs: Seq<Vec<AST>>) -> Seq<char>
    decreases bs,
{
    if bs.len() == 0 {
        Seq::empty()
    } else {
        cat_pats(bs[0]@) + seq!['|'] + join_pats(bs.drop_first())
    }
}

proof fn lemma_cat_pats_push(l: Seq<AST>, a: AST)
    ensures
        cat_pats(l.push(a)) == cat_pats(l) + pattern_of(a),
    decreases l,
{
    if l.len() == 0 {
        assert(l.push(a).drop_first() =~= Seq::<AST>::empty());
        assert(cat_pats(l.push(a)) == pattern_of(a) + cat_pats(Seq::<AST>::empty()));
        assert(pattern_of(a) + Seq::<char>::empty() =~= pattern_of(a));
        assert(cat_pats(l) + pattern_of(a) =~= pattern_of(a));
    } else {
        lemma_cat_pats_push(l.drop_first(), a);
        assert(l.push(a).drop_first() =~= l.drop_first().push(a));
        assert(l.push(a)[0] == l[0]);
        assert((pattern_of(l[0]) + cat_pats(l.drop_first())) + pattern_of(a) =~= pattern_of(l[0])
            + (cat_pats(l.drop_first()) + pattern_of(a)));
    }
}

proof fn lemma_atoms_ok_push(l: Seq<AST>, a: AST)
    requires
        atoms_ok(l),
        atom_ok(a),
    ensures
        atoms_ok(l.push(a)),
        l.push(a).len() == l.len() + 1,
        l.push(a).last() == a,
    decreases l,
{
    if l.len() == 0 {
        assert(l.push(a)[0] == a);
        assert(l.push(a).drop_first() =~= Seq::<AST>::empty());
        assert(atoms_ok(Seq::<AST>::empty()));
        assert(atoms_ok(l.push(a).drop_first()));
    } else {
        lemma_atoms_ok_push(l.drop_first(), a);
        assert(atom_ok(l[0]));
        assert(l.push(a)[0] == l[0]);
        assert(l.push(a).drop_first() =~= l.drop_first().push(a));
        assert(atoms_ok(l.push(a).drop_first()));
    }
}

proof fn lemma_atoms_ok_unsnoc(l: Seq<AST>)
    requires
        l.len() > 0,
        atoms_ok(l),
    ensures
        atoms_ok(l.drop_last()),
        atom_ok(l.last()),
        l.drop_last().len() == l.len() - 1,
        l =~= l.drop_last().push(l.last()),
    decreases l,
{
    if l.len() == 1 {
        assert(l.drop_last() =~= Seq::<AST>::empty());
        assert(l.last() == l[0]);
    } else {
        lemma_atoms_ok_unsnoc(l.drop_first());
        assert(l.drop_first().last() == l.last());
        assert(l.drop_last()[0] == l[0]);
        assert(l.drop_last().drop_first() =~= l.drop_first().drop_last());
        assert(l.drop_last().len() > 0);
    }
}

proof fn lemma_branches_ok_push(bs: Seq<Vec<AST>>, b: Vec<AST>)
    requires
        branches_ok(bs),
        b@.len() > 0,
        atoms_ok(b@),
    ensures
        branches_ok(bs.push(b)),
    decreases bs,
{
    if bs.len() == 0 {
        assert(bs.push(b)[0] == b);
        assert(bs.push(b).drop_first() =~= Seq::<Vec<AST>>::empty());
        assert(branches_ok(Seq::<Vec<AST>>::empty()));
        assert(branches_ok(bs.push(b).drop_first()));
    } else {
        lemma_branches_ok_push(bs.drop_first(), b);
        assert(bs[0]@.len() > 0 && atoms_ok(bs[0]@));
        assert(bs.push(b)[0] == bs[0]);
        assert(bs.push(b).drop_first() =~= bs.drop_first().push(b));
        assert(branches_ok(bs.push(b).drop_first()));
    }
}

proof fn lemma_branches_ok_unsnoc(bs: Seq<Vec<AST>>)
    requires
        bs.len() > 0,
        branches_ok(bs),
    ensures
        branches_ok(bs.drop_last()),
        bs.last()@.len() > 0,
        atoms_ok(bs.last()@),
        bs =~= bs.drop_last().push(bs.last()),
    decreases bs,
{
    if bs.len() == 1 {
        assert(bs.drop_last() =~= Seq::<Vec<AST>>::empty());
        assert(bs.last() == bs[0]);
    } else {
        lemma_branches_ok_unsnoc(bs.drop_first());
        assert(bs.drop_first().last() == bs.last());
        assert(bs.drop_last()[0] == bs[0]);
        assert(bs.drop_last().drop_first() =~= bs.drop_first().drop_last());
        assert(bs.drop_last().len() > 0);
    }
}

proof fn lemma_join_pats_push(bs: Seq<Vec<AST>>, b: Vec<AST>)
    ensures
        join_pats(bs.push(b)) == join_pats(bs) + cat_pats(b@) + seq!['|'],
    decreases bs,
{
    if bs.len() == 0 {
        assert(bs.push(b).drop_first() =~= Seq::<Vec<AST>>::empty());
        assert(bs.push(b)[0] == b);
        assert(join_pats(bs.push(b)) == cat_pats(b@) + seq!['|'] + join_pats(
            Seq::<Vec<AST>>::empty(),
        ));
        assert(cat_pats(b@) + seq!['|'] + Seq::<char>::empty() =~= Seq::<char>::empty() + cat_pats(
            b@,
        ) + seq!['|']);
    } else {
        lemma_join_pats_push(bs.drop_first(), b);
        assert(bs.push(b).drop_first() =~= bs.drop_first().push(b));
        assert(bs.push(b)[0] == bs[0]);
        assert(cat_pats(bs[0]@) + seq!['|'] + (join_pats(bs.drop_first()) + cat_pats(b@)
            + seq!['|']) =~= (cat_pats(bs[0]@) + seq!['|'] + join_pats(bs.drop_first())) + cat_pats(
            b@,
        ) + seq!['|']);
    }
}

proof fn lemma_pat_char(c: char)
    ensures
        pattern_of(AST::Char(c)) == seq![c],
{
}

proof fn lemma_pat_quant(node: AST, d: char, c: char)
    requires
        (node == AST::Plus(Box::new(AST::Char(d))) && c == '+') || (node == AST::Star(
            Box::new(AST::Char(d)),
        ) && c == '*') || (node == AST::Question(Box::new(AST::Char(d))) && c == '?'),
    ensures
        pattern_of(node) == seq![d, c],
{
    lemma_pat_char(d);
    assert(seq![d].push(c) =~= seq![d, c]);
}

/// The characters of a source string, in order.
pub fn str_to_chars(s: &str) -> (v: Vec<char>)
    ensures
        v@ == s@,
{
    let n = s.unicode_len();
    let mut v: Vec<char> = Vec::new();
    let mut i: usize = 0;
    while i < n
        invariant
            n == s@.len(),
            i <= n,
            v@ == s@.take(i as int),
        decreases n - i,
    {
        let c = s.get_char(i);
        v.push(c);
        proof {
            assert(s@.take(i + 1) =~= s@.take(i as int).push(s@[i as int]));
        }
        i = i + 1;
    }
    proof {
        assert(s@.take(n as int) =~= s@);
    }
    v
}

/// Converts a regex source string into a tree, or rejects it: the empty
/// string with the empty-pattern condition, and any other string the grammar
/// cannot produce with the syntax-error condition. On success the tree reads
/// back, atom for atom, as exactly the input.
#[verifier::loop_isolation(false)]
pub fn parse(expr: &str) -> (r: Result<AST, ParseError>)
    ensures
        expr@.len() == 0 ==> r == Err::<AST, ParseError>(ParseError::Empty),
        r is Ok <==> pat_valid(expr@),
        expr@.len() > 0 && !pat_valid(expr@) ==> r == Err::<AST, ParseError>(ParseError::Syntax),
        r matches Ok(ast) ==> pattern_of(ast) == expr@ && ast_ok(ast),
{
    let chars = str_to_chars(expr);
    let n = chars.len();
    let ghost s = expr@;
    if n == 0 {
        return Err(ParseError::Empty);
    }
    let mut branches: Vec<Vec<AST>> = Vec::new();
    let mut cur: Vec<AST> = Vec::new();
    let mut i: usize = 0;
    while i < n
        invariant
            i <= n,
            scan_ok(s, i as int),
            join_pats(branches@) + cat_pats(cur@) == s.take(i as int),
            branches_ok(branches@),
            atoms_ok(cur@),
            i == 0 ==> branches@.len() == 0 && cur@.len() == 0,
            i > 0 ==> (bar_char(s[i - 1]) <==> cur@.len() == 0),
            i > 0 && lit_char(s[i - 1]) ==> cur@.len() > 0 && cur@.last() == AST::Char(s[i - 1]),
            i > 0 && op_char(s[i - 1]) ==> cur@.len() > 0 && !(cur@.last() matches AST::Char(_)),
        decreases n - i,
    {
        let c = chars[i];
        if c == '|' {
            if cur.len() == 0 {
                proof {
                    assert(!char_ok_at(s, i as int));
                    assert(!pat_valid(s));
                }
                return Err(ParseError::Syntax);
            }
            proof {
                lemma_join_pats_push(branches@, cur);
                lemma_branches_ok_push(branches@, cur);
                assert(s.take(i + 1) =~= s.take(i as int).push(s[i as int]));
                assert(join_pats(branches@) + cat_pats(cur@) + seq!['|'] + cat_pats(
                    Seq::<AST>::empty(),
                ) =~= (join_pats(branches@) + cat_pats(cur@)).push('|'));
            }
            branches.push(cur);
            cur = Vec::new();
        } else if c == '+' || c == '*' || c == '?' {
            if cur.len() == 0 {
                proof {
                    assert(!char_ok_at(s, i as int));
                    assert(!pat_valid(s));
                }
                return Err(ParseError::Syntax);
            }
            let ghost cur0 = cur@;
            proof {
                lemma_atoms_ok_unsnoc(cur0);
            }
            let last = match cur.pop() {
                Some(a) => a,
                None => {
                    return Err(ParseError::Syntax);
                }
            };
            match last {
                AST::Char(d) => {
                    let node = if c == '+' {
                        AST::Plus(Box::new(AST::Char(d)))
                    } else if c == '*' {
                        AST::Star(Box::new(AST::Char(d)))
                    } else {
                        AST::Question(Box::new(AST::Char(d)))
                    };
                    proof {
                        assert(lit_char(s[i - 1]) && d == s[i - 1]) by {
                            if op_char(s[i - 1]) {
                                assert(false);
                            }
                            if bar_char(s[i - 1]) {
                                assert(false);
                            }
                        }
                        assert(atom_ok(node));
                        lemma_cat_pats_push(cur@, AST::Char(d));
                        lemma_cat_pats_push(cur@, node);
                        lemma_pat_char(d);
                        lemma_pat_quant(node, d, c);
                        lemma_atoms_ok_push(cur@, node);
                        assert(s.take(i + 1) =~= s.take(i as int).push(s[i as int]));
                        assert(cat_pats(cur0) == cat_pats(cur@) + seq![d]);
                        assert(join_pats(branches@) + (cat_pats(cur@) + seq![d, c]) =~= (join_pats(
                            branches@,
                        ) + (cat_pats(cur@) + seq![d])).push(c));
                    }
                    cur.push(node);
                }
                _ => {
                    proof {
                        assert(!lit_char(s[i - 1]));
                        assert(!char_ok_at(s, i as int));
                        assert(!pat_valid(s));
                    }
                    return Err(ParseError::Syntax);
                }
            }
        } else {
            proof {
                assert(lit_char(c));
                assert(atom_ok(AST::Char(c)));
                lemma_cat_pats_push(cur@, AST::Char(c));
                lemma_pat_char(c);
                lemma_atoms_ok_push(cur@, AST::Char(c));
                assert(s.take(i + 1) =~= s.take(i as int).push(s[i as int]));
                assert(join_pats(branches@) + (cat_pats(cur@) + seq![c]) =~= (join_pats(branches@)
                    + cat_pats(cur@)).push(c));
            }
            cur.push(AST::Char(c));
        }
        i = i + 1;
    }
    if cur.len() == 0 {
        proof {
            assert(bar_char(s[n - 1]));
            assert(!pat_valid(s));
        }
        return Err(ParseError::Syntax);
    }
    proof {
        assert(s.take(n as int) =~= s);
        assert(!bar_char(s[n - 1]));
        assert(pat_valid(s));
        assert(ast_ok(AST::Concat(cur)));
    }
    let mut ast = AST::Concat(cur);
    while branches.len() > 0
        invariant
            join_pats(branches@) + pattern_of(ast) == s,
            ast_ok(ast),
            branches_ok(branches@),
        decreases branches@.len(),
    {
        let ghost bs0 = branches@;
        proof {
            lemma_branches_ok_unsnoc(bs0);
        }
        let b = match branches.pop() {
            Some(b) => b,
            None => {
                return Err(ParseError::Syntax);
            }
        };
        proof {
            lemma_join_pats_push(branches@, b);
            assert(ast_ok(AST::Concat(b)));
        }
        let ghost prev = ast;
        ast = AST::Or(Box::new(AST::Concat(b)), Box::new(ast));
        proof {
            assert(ast matches AST::Or(l, r) && *l == AST::Concat(b) && *r == prev);
            assert(ast_ok(ast));
            assert(pattern_of(AST::Concat(b)) == cat_pats(b@));
            assert(pattern_of(ast) == cat_pats(b@).push('|') + pattern_of(prev)) by {
                reveal_with_fuel(pattern_of, 3);
            }
            assert(cat_pats(b@).push('|') =~= cat_pats(b@) + seq!['|']);
            assert(join_pats(branches@) + (cat_pats(b@) + seq!['|'] + pattern_of(prev)) =~= (
            join_pats(branches@) + cat_pats(b@) + seq!['|']) + pattern_of(prev));
        }
    }
    proof {
        assert(Seq::<char>::empty() + pattern_of(ast) =~= pattern_of(ast));
    }
    Ok(ast)
}

} // verus!
