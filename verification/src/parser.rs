//! The syntax tree and the recursive-descent parser.
//!
//! The parser consults the symbol table while it reads tokens: an
//! identifier becomes the variable's value (substituted at parse time), an
//! argument placeholder, or a function call, depending on what the table
//! holds for it.  Every operator application is folded to a literal as soon
//! as both operands have statically known values.

use vstd::prelude::*;

use std::rc::Rc;

use crate::CalcError;
use crate::context::Context;
use crate::context::SymbolV;
use crate::context::funcs_of;
use crate::context::spec_is_func;
use crate::context::spec_is_var;
use crate::context::with_args;
use crate::context::spec_update_func;
use crate::context::spec_update_var;
use crate::lexer::Operator;
use crate::lexer::Token;
use crate::lexer::TokenV;
use crate::lexer::spec_eval_op;
use crate::num::Num;

verus! {

broadcast use vstd::std_specs::vec::axiom_vec_index_decreases, vstd::std_specs::vec::axiom_vec_decreases_to_view, vstd::seq::axiom_seq_index_decreases;

/// A named function: its arity and its body.  The body is shared with the
/// symbol table, which keeps it alive for every later call.
#[derive(Debug)]
pub struct Function {
    /// The function's name.
    pub name: String,
    /// How many arguments the function takes.
    pub arity: usize,
    /// The body, parsed in a restricted child context.
    pub expr: Rc<Ast>,
}

/// A node of the syntax tree.
#[derive(Debug)]
pub enum Ast {
    /// A literal, or a variable's value substituted at parse time.
    Value(Num),
    /// A function argument, resolved only at call time by its position.
    Argument(usize),
    /// An assignment: evaluate the subtree, bind the name, yield the value.
    Assign(String, Box<Ast>),
    /// A binary operator over two subtrees.
    Op(Operator, Box<Ast>, Box<Ast>),
    /// A call: the callee's body and one subtree per argument.
    Call(Rc<Ast>, Vec<Ast>),
    /// A function definition: evaluating it registers the function.
    FuncDef(Function),
}

/// The mathematical shape of a syntax tree.
pub enum AstV {
    Value(Num),
    Argument(int),
    Assign(Seq<char>, Box<AstV>),
    Op(Operator, Box<AstV>, Box<AstV>),
    Call(Box<AstV>, Seq<AstV>),
    FuncDef(Seq<char>, int, Box<AstV>),
}

/// The shape of a tree.
pub open spec fn ast_view(a: Ast) -> AstV
    decreases a,
    via ast_view_dec
{
    match a {
        Ast::Value(n) => AstV::Value(n),
        Ast::Argument(i) => AstV::Argument(i as int),
        Ast::Assign(name, sub) => AstV::Assign(name@, Box::new(ast_view(*sub))),
        Ast::Op(op, l, r) => AstV::Op(op, Box::new(ast_view(*l)), Box::new(ast_view(*r))),
        Ast::Call(f, args) => AstV::Call(Box::new(ast_view(*f)), ast_view_seq(args@)),
        Ast::FuncDef(f) => AstV::FuncDef(f.name@, f.arity as int, Box::new(ast_view(*f.expr))),
    }
}

/// The shapes of a sequence of trees.
pub open spec fn ast_view_seq(s: Seq<Ast>) -> Seq<AstV>
    decreases s,
{
    if s.len() == 0 {
        Seq::empty()
    } else {
        seq![ast_view(s[0])] + ast_view_seq(s.skip(1))
    }
}

#[via_fn]
proof fn ast_view_dec(a: Ast) {
    broadcast use vstd::std_specs::vec::axiom_vec_decreases_to_view;

    if let Ast::Call(f, args) = a {
        assert(decreases_to!(args => args@));
    }
}

/// Each element's shape is the shape of the element.
pub proof fn lemma_ast_view_seq(s: Seq<Ast>)
    ensures
        ast_view_seq(s).len() == s.len(),
        forall|i: int| 0 <= i < s.len() ==> ast_view_seq(s)[i] == ast_view(#[trigger] s[i]),
    decreases s,
{
    if s.len() > 0 {
        lemma_ast_view_seq(s.skip(1));
        assert forall|i: int| 0 <= i < s.len() implies ast_view_seq(s)[i] == ast_view(
            #[trigger] s[i],
        ) by {
            if i > 0 {
                assert(s.skip(1)[i - 1] == s[i]);
            }
        }
    }
}

impl View for Ast {
    type V = AstV;

    open spec fn view(&self) -> AstV {
        ast_view(*self)
    }
}

impl View for Function {
    type V = AstV;

    /// A definition's shape is the shape of the tree that evaluates it.
    open spec fn view(&self) -> AstV {
        AstV::FuncDef(self.name@, self.arity as int, Box::new(ast_view(*self.expr)))
    }
}

impl Function {
    /// The shape of the function's body.
    pub open spec fn body_view(&self) -> AstV {
        ast_view(*self.expr)
    }
}

/// Relies on `Rc::clone`: the new handle refers to the same value.
#[verifier::external_body]
pub(crate) fn rc_dup(r: &Rc<Ast>) -> (res: Rc<Ast>)
    ensures
        res == *r,
{
    Rc::clone(r)
}

/// The statically known value of a tree: a literal, or an operator whose
/// operands are statically known and whose application yields a value.
pub open spec fn spec_value(a: AstV) -> Option<Num>
    decreases a,
{
    match a {
        AstV::Value(n) => Some(n),
        AstV::Op(op, l, r) => match (spec_value(*l), spec_value(*r)) {
            (Some(x), Some(y)) => spec_eval_op(op, x, y),
            _ => None,
        },
        _ => None,
    }
}

/// Structural equality of tree shapes.
pub open spec fn spec_same(a: AstV, b: AstV) -> bool
    decreases a,
{
    match (a, b) {
        (AstV::Value(x), AstV::Value(y)) => x == y,
        (AstV::Argument(i), AstV::Argument(j)) => i == j,
        (AstV::Assign(n1, s1), AstV::Assign(n2, s2)) => n1 == n2 && spec_same(*s1, *s2),
        (AstV::Op(o1, l1, r1), AstV::Op(o2, l2, r2)) => o1 == o2 && spec_same(*l1, *l2)
            && spec_same(*r1, *r2),
        (AstV::Call(f1, a1), AstV::Call(f2, a2)) => spec_same(*f1, *f2) && spec_same_seq(a1, a2),
        (AstV::FuncDef(n1, r1, b1), AstV::FuncDef(n2, r2, b2)) => n1 == n2 && r1 == r2
            && spec_same(*b1, *b2),
        _ => false,
    }
}

/// Structural equality of sequences of tree shapes.
pub open spec fn spec_same_seq(a: Seq<AstV>, b: Seq<AstV>) -> bool
    decreases a,
{
    if a.len() != b.len() {
        false
    } else if a.len() == 0 {
        true
    } else {
        spec_same(a[0], b[0]) && spec_same_seq(a.skip(1), b.skip(1))
    }
}

impl Ast {
    /// The statically known value of the tree, when the whole tree folds to
    /// a literal without consulting any context.
    pub fn value(&self) -> (r: Option<Num>)
        ensures
            r == spec_value(self@),
        decreases *self,
    {
        match self {
            Ast::Value(n) => Some(*n),
            Ast::Op(op, l, r) => {
                let lv = l.value();
                let rv = r.value();
                match (lv, rv) {
                    (Some(x), Some(y)) => op.eval(x, y),
                    _ => None,
                }
            },
            _ => None,
        }
    }

    /// Structural equality: same node kinds, same names, same values, the
    /// same in every subtree.
    #[verifier::loop_isolation(false)]
    pub fn is_same(&self, other: &Ast) -> (r: bool)
        ensures
            r == spec_same(self@, other@),
        decreases *self,
    {
        match (self, other) {
            (Ast::Value(x), Ast::Value(y)) => x.bits == y.bits,
            (Ast::Argument(i), Ast::Argument(j)) => i == j,
            (Ast::Assign(n1, s1), Ast::Assign(n2, s2)) => str_eq(n1.as_str(), n2.as_str())
                && s1.is_same(s2),
            (Ast::Op(o1, l1, r1), Ast::Op(o2, l2, r2)) => {
                let same_op = *o1 == *o2;
                same_op && l1.is_same(l2) && r1.is_same(r2)
            },
            (Ast::Call(f1, a1), Ast::Call(f2, a2)) => {
                if !f1.is_same(f2) {
                    return false;
                }
                if a1.len() != a2.len() {
                    proof {
                        lemma_ast_view_seq(a1@);
                        lemma_ast_view_seq(a2@);
                        assert(self@ == AstV::Call(
                            Box::new(ast_view(**f1)),
                            ast_view_seq(a1@),
                        ));
                        assert(other@ == AstV::Call(
                            Box::new(ast_view(**f2)),
                            ast_view_seq(a2@),
                        ));
                        assert(ast_view_seq(a1@).len() != ast_view_seq(a2@).len());
                        assert(!spec_same_seq(ast_view_seq(a1@), ast_view_seq(a2@)));
                        assert(!spec_same(self@, other@));
                    }
                    return false;
                }
                proof {
                    lemma_ast_view_seq(a1@);
                    lemma_ast_view_seq(a2@);
                    assert(self@ == AstV::Call(Box::new(ast_view(**f1)), ast_view_seq(a1@)));
                    assert(other@ == AstV::Call(Box::new(ast_view(**f2)), ast_view_seq(a2@)));
                }
                let mut i: usize = 0;
                while i < a1.len()
                    invariant
                        0 <= i <= a1.len(),
                        a1.len() == a2.len(),
                        forall|j: int| 0 <= j < i ==> spec_same(
                            ast_view(#[trigger] a1@[j]),
                            ast_view(a2@[j]),
                        ),
                    decreases a1.len() - i,
                {
                    proof {
                        assert(decreases_to!(*self => *a1));
                    }
                    if !a1[i].is_same(&a2[i]) {
                        proof {
                            assert(ast_view_seq(a1@)[i as int] == ast_view(a1@[i as int]));
                            assert(ast_view_seq(a2@)[i as int] == ast_view(a2@[i as int]));
                            lemma_same_seq_differs(ast_view_seq(a1@), ast_view_seq(a2@), i as int);
                        }
                        return false;
                    }
                    i = i + 1;
                }
                proof {
                    assert forall|j: int| 0 <= j < ast_view_seq(a1@).len() implies spec_same(
                        #[trigger] ast_view_seq(a1@)[j],
                        ast_view_seq(a2@)[j],
                    ) by {
                        assert(ast_view_seq(a1@)[j] == ast_view(a1@[j]));
                        assert(ast_view_seq(a2@)[j] == ast_view(a2@[j]));
                    }
                    lemma_same_seq_all(ast_view_seq(a1@), ast_view_seq(a2@));
                }
                true
            },
            (Ast::FuncDef(g1), Ast::FuncDef(g2)) => str_eq(g1.name.as_str(), g2.name.as_str())
                && g1.arity == g2.arity && g1.expr.is_same(&g2.expr),
            _ => false,
        }
    }
}

/// Two shape sequences of equal length that agree at every position are
/// structurally equal.
proof fn lemma_same_seq_all(a: Seq<AstV>, b: Seq<AstV>)
    requires
        a.len() == b.len(),
        forall|j: int| 0 <= j < a.len() ==> spec_same(#[trigger] a[j], b[j]),
    ensures
        spec_same_seq(a, b),
    decreases a,
{
    if a.len() > 0 {
        assert forall|j: int| 0 <= j < a.skip(1).len() implies spec_same(
            #[trigger] a.skip(1)[j],
            b.skip(1)[j],
        ) by {
            assert(a.skip(1)[j] == a[j + 1]);
            assert(b.skip(1)[j] == b[j + 1]);
        }
        lemma_same_seq_all(a.skip(1), b.skip(1));
    }
}

/// Shape sequences that disagree at some position are not structurally
/// equal.
proof fn lemma_same_seq_differs(a: Seq<AstV>, b: Seq<AstV>, i: int)
    requires
        a.len() == b.len(),
        0 <= i < a.len(),
        !spec_same(a[i], b[i]),
    ensures
        !spec_same_seq(a, b),
    decreases a,
{
    if i > 0 {
        assert(a.skip(1)[i - 1] == a[i]);
        assert(b.skip(1)[i - 1] == b[i]);
        lemma_same_seq_differs(a.skip(1), b.skip(1), i - 1);
    }
}

/// What evaluating a tree does to a symbol table, and what it yields.
///
/// Evaluation is strict and left to right.  An assignment evaluates its
/// subtree, then binds the name, then yields the value.  An operator
/// evaluates both sides before applying.  A call evaluates every argument
/// against the caller's table and argument list, then the callee's body
/// against the fresh argument values.  A definition registers the function
/// and yields nothing.  A failed subtree stops evaluation and yields
/// nothing, but keeps whatever the table already took.
pub open spec fn spec_eval(a: AstV, m: Map<Seq<char>, SymbolV>, args: Seq<Num>) -> (
    Map<Seq<char>, SymbolV>,
    Option<Num>,
)
    decreases a,
{
    match a {
        AstV::Value(n) => (m, Some(n)),
        AstV::Argument(i) => (
            m,
            if 0 <= i < args.len() {
                Some(args[i])
            } else {
                None
            },
        ),
        AstV::Assign(name, sub) => {
            let (m1, v) = spec_eval(*sub, m, args);
            match v {
                Some(n) => (spec_update_var(m1, name, n), Some(n)),
                None => (m1, None),
            }
        },
        AstV::Op(op, l, r) => {
            let (m1, lv) = spec_eval(*l, m, args);
            match lv {
                None => (m1, None),
                Some(x) => {
                    let (m2, rv) = spec_eval(*r, m1, args);
                    match rv {
                        None => (m2, None),
                        Some(y) => (m2, spec_eval_op(op, x, y)),
                    }
                },
            }
        },
        AstV::Call(f, argtrees) => {
            let (m1, vals) = spec_eval_args(argtrees, m, args);
            match vals {
                None => (m1, None),
                Some(vs) => spec_eval(*f, m1, vs),
            }
        },
        AstV::FuncDef(name, arity, body) => (spec_update_func(m, name, arity, *body), None),
    }
}

/// Evaluate trees left to right, collecting their values, stopping at the
/// first that yields nothing.
pub open spec fn spec_eval_args(s: Seq<AstV>, m: Map<Seq<char>, SymbolV>, args: Seq<Num>) -> (
    Map<Seq<char>, SymbolV>,
    Option<Seq<Num>>,
)
    decreases s,
{
    if s.len() == 0 {
        (m, Some(Seq::empty()))
    } else {
        let (m1, v) = spec_eval(s[0], m, args);
        match v {
            None => (m1, None),
            Some(n) => {
                let (m2, rest) = spec_eval_args(s.skip(1), m1, args);
                match rest {
                    None => (m2, None),
                    Some(vs) => (m2, Some(seq![n] + vs)),
                }
            },
        }
    }
}

impl Ast {
    /// Evaluate the tree against the symbol table and the current call's
    /// argument values (empty at the top level).  `None` means the tree
    /// yields no number: a definition, an argument the call did not
    /// supply, or a remainder with a zero divisor.
    #[verifier::loop_isolation(false)]
    pub fn evaluate(&self, context: &mut Context, args: &Vec<Num>) -> (r: Option<Num>)
        requires
            old(context).wf(),
        ensures
            final(context).wf(),
            (final(context)@, r) == spec_eval(self@, old(context)@, args@),
        decreases *self,
    {
        match self {
            Ast::Value(n) => Some(*n),
            Ast::Argument(i) => {
                if *i < args.len() {
                    Some(args[*i])
                } else {
                    None
                }
            },
            Ast::Assign(var, sub) => {
                let v = sub.evaluate(context, args);
                match v {
                    Some(n) => {
                        context.update_var(var.as_str(), n);
                        Some(n)
                    },
                    None => None,
                }
            },
            Ast::Op(op, l, r) => {
                let lv = l.evaluate(context, args);
                match lv {
                    None => None,
                    Some(x) => {
                        let rv = r.evaluate(context, args);
                        match rv {
                            None => None,
                            Some(y) => op.eval(x, y),
                        }
                    },
                }
            },
            Ast::Call(f, argtrees) => {
                let ghost s = ast_view_seq(argtrees@);
                let ghost m0 = context@;
                let ghost aa = args@;
                proof {
                    lemma_ast_view_seq(argtrees@);
                    assert(self@ == AstV::Call(Box::new(ast_view(**f)), s));
                    assert(s.skip(0) =~= s);
                }
                let mut vals: Vec<Num> = Vec::new();
                let mut i: usize = 0;
                while i < argtrees.len()
                    invariant
                        0 <= i <= argtrees@.len(),
                        vals@.len() == i,
                        context.wf(),
                        ({
                            let (mf, vf) = spec_eval_args(s.skip(i as int), context@, aa);
                            spec_eval_args(s, m0, aa) == (
                                mf,
                                match vf {
                                    None => None::<Seq<Num>>,
                                    Some(vs) => Some(vals@ + vs),
                                },
                            )
                        }),
                    decreases argtrees@.len() - i,
                {
                    let v = argtrees[i].evaluate(context, args);
                    proof {
                        assert(s.skip(i as int)[0] == s[i as int]);
                        assert(s[i as int] == ast_view(argtrees@[i as int]));
                        assert(s.skip(i as int).skip(1) =~= s.skip(i + 1));
                    }
                    match v {
                        None => {
                            proof {
                                assert(spec_eval_args(s, m0, aa) == (context@, None::<Seq<Num>>));
                            }
                            return None;
                        },
                        Some(n) => {
                            let ghost old_vals = vals@;
                            vals.push(n);
                            proof {
                                let (mf, vf) = spec_eval_args(s.skip(i + 1), context@, aa);
                                match vf {
                                    None => {},
                                    Some(vs) => {
                                        assert(old_vals + (seq![n] + vs) =~= vals@ + vs);
                                    },
                                }
                            }
                        },
                    }
                    i = i + 1;
                }
                proof {
                    assert(s.skip(i as int) =~= Seq::<AstV>::empty());
                    assert(spec_eval_args(s.skip(i as int), context@, aa) == (
                        context@,
                        Some(Seq::<Num>::empty()),
                    ));
                    assert(vals@ + Seq::<Num>::empty() =~= vals@);
                    assert(spec_eval_args(s, m0, aa) == (context@, Some(vals@)));
                }
                let res = f.evaluate(context, &vals);
                res
            },
            Ast::FuncDef(func) => {
                context.update_func(func);
                None
            },
        }
    }
}

/// Outcome of a parse step: a tree and the position after it, or an error.
pub enum ParseOut {
    Done(AstV, int),
    Fail(CalcError),
}

/// Outcome of parsing a run of call arguments.
pub enum ArgsOut {
    Done(Seq<AstV>, int),
    Fail(CalcError),
}

/// Constant folding: an operator node collapses to a literal as soon as
/// its statically known value exists.
pub open spec fn spec_fold(op: Operator, l: AstV, r: AstV) -> AstV {
    let node = AstV::Op(op, Box::new(l), Box::new(r));
    match spec_value(node) {
        Some(n) => AstV::Value(n),
        None => node,
    }
}

/// Parse a terminal: a literal, a parenthesized expression, an assignment
/// whose target the table allows, or an identifier resolved through the
/// table as a variable (substituted now) or an argument slot.
pub open spec fn spec_parse_terminal(
    toks: Seq<TokenV>,
    pos: int,
    m: Map<Seq<char>, SymbolV>,
) -> ParseOut
    decreases toks.len() - pos, 1int,
{
    if pos < 0 || pos >= toks.len() {
        ParseOut::Fail(CalcError::UnexpectedEnd)
    } else {
        match toks[pos] {
            TokenV::Number(n) => ParseOut::Done(AstV::Value(n), pos + 1),
            TokenV::LBracket => match spec_parse_add(toks, pos + 1, m) {
                ParseOut::Done(a, p2) => if p2 < toks.len() && toks[p2] is RBracket {
                    ParseOut::Done(a, p2 + 1)
                } else {
                    ParseOut::Fail(CalcError::ExpectedRBracket)
                },
                ParseOut::Fail(e) => ParseOut::Fail(e),
            },
            TokenV::Assign(name) => if spec_is_var(m, name) {
                match spec_parse_call(toks, pos + 1, m) {
                    ParseOut::Done(a, p2) => ParseOut::Done(
                        AstV::Assign(name, Box::new(a)),
                        p2,
                    ),
                    ParseOut::Fail(e) => ParseOut::Fail(e),
                }
            } else {
                ParseOut::Fail(CalcError::AssignToNonVariable)
            },
            TokenV::Id(name) => if m.contains_key(name) && m[name] is Variable {
                ParseOut::Done(AstV::Value(m[name]->Variable_0), pos + 1)
            } else if m.contains_key(name) && m[name] is Argument {
                ParseOut::Done(AstV::Argument(m[name]->Argument_0), pos + 1)
            } else {
                ParseOut::Fail(CalcError::UnresolvedSymbol)
            },
            _ => ParseOut::Fail(CalcError::UnexpectedToken),
        }
    }
}

/// Fold further multiplicative applications onto an accumulated left
/// operand.
pub open spec fn spec_parse_mul_rest(
    toks: Seq<TokenV>,
    pos: int,
    m: Map<Seq<char>, SymbolV>,
    acc: AstV,
) -> ParseOut
    decreases toks.len() - pos, 2int,
{
    if 0 <= pos < toks.len() {
        match toks[pos] {
            TokenV::Operator(op) => if op.spec_priority() == 2 {
                match spec_parse_terminal(toks, pos + 1, m) {
                    ParseOut::Fail(e) => ParseOut::Fail(e),
                    ParseOut::Done(rhs, p2) => if pos < p2 <= toks.len() {
                        spec_parse_mul_rest(toks, p2, m, spec_fold(op, acc, rhs))
                    } else {
                        // Never reached: a successful parse moves forward.
                        ParseOut::Fail(CalcError::UnexpectedToken)
                    },
                }
            } else {
                ParseOut::Done(acc, pos)
            },
            _ => ParseOut::Done(acc, pos),
        }
    } else {
        ParseOut::Done(acc, pos)
    }
}

/// Parse a multiplicative chain: terminals joined by `*`, `/` and `%`,
/// folded left to right.
pub open spec fn spec_parse_mul(toks: Seq<TokenV>, pos: int, m: Map<Seq<char>, SymbolV>) -> ParseOut
    decreases toks.len() - pos, 3int,
{
    match spec_parse_terminal(toks, pos, m) {
        ParseOut::Fail(e) => ParseOut::Fail(e),
        ParseOut::Done(first, p1) => if pos < p1 <= toks.len() {
            spec_parse_mul_rest(toks, p1, m, first)
        } else {
            // Never reached: a successful parse moves forward.
            ParseOut::Fail(CalcError::UnexpectedToken)
        },
    }
}

/// Fold further additive applications onto an accumulated left operand.
pub open spec fn spec_parse_add_rest(
    toks: Seq<TokenV>,
    pos: int,
    m: Map<Seq<char>, SymbolV>,
    acc: AstV,
) -> ParseOut
    decreases toks.len() - pos, 4int,
{
    if 0 <= pos < toks.len() {
        match toks[pos] {
            TokenV::Operator(op) => if op.spec_priority() == 1 {
                match spec_parse_mul(toks, pos + 1, m) {
                    ParseOut::Fail(e) => ParseOut::Fail(e),
                    ParseOut::Done(rhs, p2) => if pos < p2 <= toks.len() {
                        spec_parse_add_rest(toks, p2, m, spec_fold(op, acc, rhs))
                    } else {
                        // Never reached: a successful parse moves forward.
                        ParseOut::Fail(CalcError::UnexpectedToken)
                    },
                }
            } else {
                ParseOut::Done(acc, pos)
            },
            _ => ParseOut::Done(acc, pos),
        }
    } else {
        ParseOut::Done(acc, pos)
    }
}

/// Parse an additive chain: multiplicative chains joined by `+` and `-`,
/// folded left to right.  This is a whole operator expression.
pub open spec fn spec_parse_add(toks: Seq<TokenV>, pos: int, m: Map<Seq<char>, SymbolV>) -> ParseOut
    decreases toks.len() - pos, 5int,
{
    match spec_parse_mul(toks, pos, m) {
        ParseOut::Fail(e) => ParseOut::Fail(e),
        ParseOut::Done(first, p1) => if pos < p1 <= toks.len() {
            spec_parse_add_rest(toks, p1, m, first)
        } else {
            // Never reached: a successful parse moves forward.
            ParseOut::Fail(CalcError::UnexpectedToken)
        },
    }
}

/// Parse a call expression: an identifier the table allows as a function,
/// followed by exactly its arity's worth of argument expressions; any
/// other start falls through to an operator expression.
pub open spec fn spec_parse_call(
    toks: Seq<TokenV>,
    pos: int,
    m: Map<Seq<char>, SymbolV>,
) -> ParseOut
    decreases toks.len() - pos, 6int,
{
    if 0 <= pos < toks.len() {
        match toks[pos] {
            TokenV::Id(name) => if spec_is_func(m, name) {
                if !m.contains_key(name) {
                    ParseOut::Fail(CalcError::NoSuchFunction)
                } else {
                    match spec_parse_args(toks, pos + 1, m, m[name]->Function_0) {
                        ArgsOut::Fail(e) => ParseOut::Fail(e),
                        ArgsOut::Done(asts, p2) => ParseOut::Done(
                            AstV::Call(Box::new(m[name]->Function_1), asts),
                            p2,
                        ),
                    }
                }
            } else {
                spec_parse_add(toks, pos, m)
            },
            _ => spec_parse_add(toks, pos, m),
        }
    } else {
        spec_parse_add(toks, pos, m)
    }
}

/// Parse `n` call arguments, each itself a call expression, in order.
pub open spec fn spec_parse_args(
    toks: Seq<TokenV>,
    pos: int,
    m: Map<Seq<char>, SymbolV>,
    n: int,
) -> ArgsOut
    decreases toks.len() - pos, 7int, n,
{
    if n <= 0 {
        ArgsOut::Done(Seq::empty(), pos)
    } else {
        match spec_parse_call(toks, pos, m) {
            ParseOut::Fail(e) => ArgsOut::Fail(e),
            ParseOut::Done(a, p2) => if pos < p2 <= toks.len() {
                match spec_parse_args(toks, p2, m, n - 1) {
                    ArgsOut::Fail(e) => ArgsOut::Fail(e),
                    ArgsOut::Done(rest, p3) => ArgsOut::Done(seq![a] + rest, p3),
                }
            } else {
                // Never reached: a successful parse moves forward.
                ArgsOut::Fail(CalcError::UnexpectedEnd)
            },
        }
    }
}

/// Collect the run of identifiers that begins at `pos`: the parameter
/// names of a definition, and the position after them.
pub open spec fn spec_params(toks: Seq<TokenV>, pos: int) -> (Seq<Seq<char>>, int)
    decreases toks.len() - pos,
{
    if 0 <= pos < toks.len() {
        match toks[pos] {
            TokenV::Id(name) => {
                let (rest, p) = spec_params(toks, pos + 1);
                (seq![name] + rest, p)
            },
            _ => (Seq::empty(), pos),
        }
    } else {
        (Seq::empty(), pos)
    }
}

/// Parse a function definition: a name the table allows as a function,
/// its parameters, the arrow, and a body parsed as a call expression in
/// the restricted child context.
pub open spec fn spec_parse_fundef(
    toks: Seq<TokenV>,
    pos: int,
    m: Map<Seq<char>, SymbolV>,
) -> ParseOut
    decreases toks.len() - pos, 8int,
{
    if pos < 0 || pos >= toks.len() || !(toks[pos] is Id) {
        ParseOut::Fail(CalcError::ExpectedFunctionName)
    } else {
        let name = toks[pos]->Id_0;
        if !spec_is_func(m, name) {
            ParseOut::Fail(CalcError::NotAFunction)
        } else {
            let (params, p) = spec_params(toks, pos + 1);
            if pos < p <= toks.len() && p < toks.len() && toks[p] is Func {
                let child = with_args(funcs_of(m), params, params.len() as int);
                match spec_parse_call(toks, p + 1, child) {
                    ParseOut::Fail(e) => ParseOut::Fail(e),
                    ParseOut::Done(body, p2) => ParseOut::Done(
                        AstV::FuncDef(name, params.len() as int, Box::new(body)),
                        p2,
                    ),
                }
            } else {
                ParseOut::Fail(CalcError::ExpectedArrow)
            }
        }
    }
}

/// Parse a whole line's tokens: a function definition when an arrow token
/// occurs anywhere, a call expression otherwise.  Tokens left over after a
/// complete parse are an error.
pub open spec fn spec_parse(toks: Seq<TokenV>, m: Map<Seq<char>, SymbolV>) -> Result<
    AstV,
    CalcError,
> {
    let out = if exists|i: int| 0 <= i < toks.len() && (#[trigger] toks[i]) is Func {
        spec_parse_fundef(toks, 0, m)
    } else {
        spec_parse_call(toks, 0, m)
    };
    match out {
        ParseOut::Done(a, p) => if p == toks.len() {
            Ok(a)
        } else {
            Err(CalcError::TrailingTokens)
        },
        ParseOut::Fail(e) => Err(e),
    }
}

/// Law: an assignment is an expression.  When its right-hand side yields
/// a value, the assignment yields that same value, and binds the name as
/// a variable in the table that results — so the binding is visible to
/// whatever is evaluated next.
pub proof fn lemma_assign_is_expression(
    name: Seq<char>,
    sub: AstV,
    m: Map<Seq<char>, SymbolV>,
    args: Seq<Num>,
)
    ensures
        ({
            let (m1, v) = spec_eval(sub, m, args);
            v matches Some(n) ==> spec_eval(AstV::Assign(name, Box::new(sub)), m, args) == (
                spec_update_var(m1, name, n),
                Some(n),
            )
        }),
{
}

/// Law: constant folding preserves a tree's statically known value: the
/// folded node reports exactly what the operator node would.
pub proof fn lemma_fold_preserves_value(op: Operator, l: AstV, r: AstV)
    ensures
        spec_value(spec_fold(op, l, r)) == spec_value(AstV::Op(op, Box::new(l), Box::new(r))),
{
}

/// Law: a tree with a statically known value evaluates to exactly that
/// value, against any symbol table and any argument list, and leaves the
/// table untouched.  This is what makes folding at parse time sound: a
/// folded subtree cannot see a different value in a different context.
pub proof fn lemma_static_value_evaluates(a: AstV, m: Map<Seq<char>, SymbolV>, args: Seq<Num>)
    requires
        spec_value(a) is Some,
    ensures
        spec_eval(a, m, args) == (m, spec_value(a)),
    decreases a,
{
    match a {
        AstV::Value(_) => {},
        AstV::Op(op, l, r) => {
            lemma_static_value_evaluates(*l, m, args);
            lemma_static_value_evaluates(*r, m, args);
        },
        _ => {},
    }
}

/// How a parse function's runtime result corresponds to the specified
/// parse: the same tree shape and the same next position, or the same
/// error; success always consumes at least one token.
pub open spec fn parse_post(
    r: Result<(Ast, usize), CalcError>,
    out: ParseOut,
    pos: int,
    len: int,
) -> bool {
    match r {
        Ok((a, p2)) => out == ParseOut::Done(ast_view(a), p2 as int) && pos < p2 <= len,
        Err(e) => out == ParseOut::Fail(e),
    }
}

/// Parse a terminal expression: a numeric literal, a parenthesized
/// expression, an assignment, or an identifier resolved through the
/// symbol table.
pub fn parse_terminal(tokens: &Vec<Token>, pos: usize, context: &Context) -> (r: Result<
    (Ast, usize),
    CalcError,
>)
    requires
        context.wf(),
        pos <= tokens@.len(),
    ensures
        parse_post(
            r,
            spec_parse_terminal(tokens.deep_view(), pos as int, context@),
            pos as int,
            tokens@.len() as int,
        ),
    decreases tokens@.len() - pos, 1int,
{
    if pos >= tokens.len() {
        return Err(CalcError::UnexpectedEnd);
    }
    match &tokens[pos] {
        Token::Number(n) => Ok((Ast::Value(*n), pos + 1)),
        Token::LBracket => {
            let step = parse_additive(tokens, pos + 1, context);
            match step {
                Err(e) => Err(e),
                Ok((expr, p2)) => {
                    if p2 < tokens.len() {
                        let closing = match &tokens[p2] {
                            Token::RBracket => true,
                            _ => false,
                        };
                        if closing {
                            Ok((expr, p2 + 1))
                        } else {
                            Err(CalcError::ExpectedRBracket)
                        }
                    } else {
                        Err(CalcError::ExpectedRBracket)
                    }
                },
            }
        },
        Token::Assign(var) => {
            if context.is_var(var.as_str()) {
                let step = parse_call(tokens, pos + 1, context);
                match step {
                    Err(e) => Err(e),
                    Ok((expr, p2)) => Ok((Ast::Assign(var.clone(), Box::new(expr)), p2)),
                }
            } else {
                Err(CalcError::AssignToNonVariable)
            }
        },
        Token::Id(var) => {
            match context.get_var(var.as_str()) {
                Some(n) => Ok((Ast::Value(n), pos + 1)),
                None => match context.get_arg(var.as_str()) {
                    Some(idx) => Ok((Ast::Argument(idx), pos + 1)),
                    None => Err(CalcError::UnresolvedSymbol),
                },
            }
        },
        _ => Err(CalcError::UnexpectedToken),
    }
}

/// Parse a multiplicative chain: terminals joined by `*`, `/` and `%`,
/// folding each application to a literal when both operands are known.
#[verifier::loop_isolation(false)]
pub fn parse_multiplicative(tokens: &Vec<Token>, pos: usize, context: &Context) -> (r: Result<
    (Ast, usize),
    CalcError,
>)
    requires
        context.wf(),
        pos <= tokens@.len(),
    ensures
        parse_post(
            r,
            spec_parse_mul(tokens.deep_view(), pos as int, context@),
            pos as int,
            tokens@.len() as int,
        ),
    decreases tokens@.len() - pos, 3int,
{
    let ghost toks = tokens.deep_view();
    let ghost m = context@;
    let first_step = parse_terminal(tokens, pos, context);
    let (mut result, mut p) = match first_step {
        Ok(x) => x,
        Err(e) => {
            return Err(e);
        },
    };
    loop
        invariant
            pos < p <= tokens@.len(),
            spec_parse_mul(toks, pos as int, m) == spec_parse_mul_rest(
                toks,
                p as int,
                m,
                ast_view(result),
            ),
        decreases tokens@.len() - p,
    {
        if p >= tokens.len() {
            return Ok((result, p));
        }
        let opx: Option<Operator> = match &tokens[p] {
            Token::Operator(o) => {
                if o.priority() == 2 {
                    Some(*o)
                } else {
                    None
                }
            },
            _ => None,
        };
        let o = match opx {
            Some(o) => o,
            None => {
                return Ok((result, p));
            },
        };
        let step = parse_terminal(tokens, p + 1, context);
        let (rhs, p2) = match step {
            Ok(x) => x,
            Err(e) => {
                return Err(e);
            },
        };
        let ghost accv = ast_view(result);
        let node = Ast::Op(o, Box::new(result), Box::new(rhs));
        let folded = match node.value() {
            Some(n) => Ast::Value(n),
            None => node,
        };
        proof {
            assert(ast_view(folded) == spec_fold(o, accv, ast_view(rhs)));
        }
        result = folded;
        p = p2;
    }
}

/// Parse an additive chain: multiplicative chains joined by `+` and `-`,
/// folding each application to a literal when both operands are known.
/// This is the whole operator-expression grammar.
#[verifier::loop_isolation(false)]
pub fn parse_additive(tokens: &Vec<Token>, pos: usize, context: &Context) -> (r: Result<
    (Ast, usize),
    CalcError,
>)
    requires
        context.wf(),
        pos <= tokens@.len(),
    ensures
        parse_post(
            r,
            spec_parse_add(tokens.deep_view(), pos as int, context@),
            pos as int,
            tokens@.len() as int,
        ),
    decreases tokens@.len() - pos, 5int,
{
    let ghost toks = tokens.deep_view();
    let ghost m = context@;
    let first_step = parse_multiplicative(tokens, pos, context);
    let (mut result, mut p) = match first_step {
        Ok(x) => x,
        Err(e) => {
            return Err(e);
        },
    };
    loop
        invariant
            pos < p <= tokens@.len(),
            spec_parse_add(toks, pos as int, m) == spec_parse_add_rest(
                toks,
                p as int,
                m,
                ast_view(result),
            ),
        decreases tokens@.len() - p,
    {
        if p >= tokens.len() {
            return Ok((result, p));
        }
        let opx: Option<Operator> = match &tokens[p] {
            Token::Operator(o) => {
                if o.priority() == 1 {
                    Some(*o)
                } else {
                    None
                }
            },
            _ => None,
        };
        let o = match opx {
            Some(o) => o,
            None => {
                return Ok((result, p));
            },
        };
        let step = parse_multiplicative(tokens, p + 1, context);
        let (rhs, p2) = match step {
            Ok(x) => x,
            Err(e) => {
                return Err(e);
            },
        };
        let ghost accv = ast_view(result);
        let node = Ast::Op(o, Box::new(result), Box::new(rhs));
        let folded = match node.value() {
            Some(n) => Ast::Value(n),
            None => node,
        };
        proof {
            assert(ast_view(folded) == spec_fold(o, accv, ast_view(rhs)));
        }
        result = folded;
        p = p2;
    }
}

/// Parse a call expression: a known function's name followed by exactly
/// its arity's worth of argument expressions, or else an operator
/// expression.
#[verifier::loop_isolation(false)]
pub fn parse_call(tokens: &Vec<Token>, pos: usize, context: &Context) -> (r: Result<
    (Ast, usize),
    CalcError,
>)
    requires
        context.wf(),
        pos <= tokens@.len(),
    ensures
        parse_post(
            r,
            spec_parse_call(tokens.deep_view(), pos as int, context@),
            pos as int,
            tokens@.len() as int,
        ),
    decreases tokens@.len() - pos, 6int,
{
    let ghost toks = tokens.deep_view();
    let ghost m = context@;
    let fname: Option<String> = if pos < tokens.len() {
        match &tokens[pos] {
            Token::Id(f) => {
                if context.is_func(f.as_str()) {
                    Some(f.clone())
                } else {
                    None
                }
            },
            _ => None,
        }
    } else {
        None
    };
    let name = match fname {
        Some(name) => name,
        None => {
            return parse_additive(tokens, pos, context);
        },
    };
    let arity = match context.get_arity(name.as_str()) {
        Some(a) => a,
        None => 0,
    };
    let func = match context.get_func(name.as_str()) {
        Some(rc) => rc,
        None => {
            return Err(CalcError::NoSuchFunction);
        },
    };
    let ghost body = m[name@]->Function_1;
    proof {
        assert(m.contains_key(name@) && m[name@] is Function);
        assert(arity as int == m[name@]->Function_0);
    }
    let mut argv: Vec<Ast> = Vec::new();
    let mut p = pos + 1;
    let mut i: usize = 0;
    proof {
        assert(ast_view_seq(argv@) =~= Seq::<AstV>::empty());
    }
    while i < arity
        invariant
            0 <= i <= arity,
            pos < p <= tokens@.len(),
            argv@.len() == i,
            ({
                match spec_parse_args(toks, p as int, m, arity - i) {
                    ArgsOut::Done(rest, pf) => spec_parse_args(toks, (pos + 1) as int, m, arity as int)
                        == ArgsOut::Done(ast_view_seq(argv@) + rest, pf),
                    ArgsOut::Fail(e) => spec_parse_args(toks, (pos + 1) as int, m, arity as int)
                        == ArgsOut::Fail(e),
                }
            }),
        decreases arity - i,
    {
        let step = parse_call(tokens, p, context);
        let (arg, p2) = match step {
            Ok(x) => x,
            Err(e) => {
                return Err(e);
            },
        };
        let ghost old_argv = argv@;
        argv.push(arg);
        proof {
            assert(argv@ =~= old_argv.push(arg));
            lemma_ast_view_seq_push(old_argv, arg);
            match spec_parse_args(toks, p2 as int, m, arity - i - 1) {
                ArgsOut::Done(rest, pf) => {
                    assert(ast_view_seq(old_argv) + (seq![ast_view(arg)] + rest) =~= ast_view_seq(
                        argv@,
                    ) + rest);
                },
                ArgsOut::Fail(e) => {},
            }
        }
        p = p2;
        i = i + 1;
    }
    proof {
        assert(spec_parse_args(toks, p as int, m, 0) == ArgsOut::Done(Seq::<AstV>::empty(), p as int));
        assert(ast_view_seq(argv@) + Seq::<AstV>::empty() =~= ast_view_seq(argv@));
    }
    let node = Ast::Call(func, argv);
    proof {
        assert(ast_view(node) == AstV::Call(Box::new(body), ast_view_seq(node->Call_1@)));
    }
    Ok((node, p))
}

/// Appending a tree appends its shape.
proof fn lemma_ast_view_seq_push(s: Seq<Ast>, a: Ast)
    ensures
        ast_view_seq(s.push(a)) == ast_view_seq(s) + seq![ast_view(a)],
    decreases s,
{
    reveal_with_fuel(ast_view_seq, 3);
    assert(s.push(a)[s.len() as int] == a);
    if s.len() == 0 {
        assert(s.push(a)[0] == a);
        assert(s.push(a).len() == 1);
        assert(s.push(a).skip(1) =~= Seq::<Ast>::empty());
        assert(ast_view_seq(s.push(a)) =~= ast_view_seq(s) + seq![ast_view(a)]);
    } else {
        assert(s.push(a)[0] == s[0]);
        assert(s.push(a).skip(1) =~= s.skip(1).push(a));
        lemma_ast_view_seq_push(s.skip(1), a);
        assert(ast_view_seq(s.push(a)) =~= ast_view_seq(s) + seq![ast_view(a)]);
    }
}

/// Parse a function definition: its name, its parameter names, the
/// arrow, and the body, parsed in the restricted child context that holds
/// only the parent's functions and the fresh argument slots.
#[verifier::loop_isolation(false)]
pub fn parse_function(tokens: &Vec<Token>, pos: usize, context: &Context) -> (r: Result<
    (Ast, usize),
    CalcError,
>)
    requires
        context.wf(),
        pos <= tokens@.len(),
    ensures
        parse_post(
            r,
            spec_parse_fundef(tokens.deep_view(), pos as int, context@),
            pos as int,
            tokens@.len() as int,
        ),
    decreases tokens@.len() - pos, 8int,
{
    let ghost toks = tokens.deep_view();
    let ghost m = context@;
    if pos >= tokens.len() {
        return Err(CalcError::ExpectedFunctionName);
    }
    let name = match &tokens[pos] {
        Token::Id(id) => id.clone(),
        _ => {
            return Err(CalcError::ExpectedFunctionName);
        },
    };
    if !context.is_func(name.as_str()) {
        return Err(CalcError::NotAFunction);
    }
    let mut params: Vec<String> = Vec::new();
    let mut p = pos + 1;
    proof {
        assert(params.deep_view() =~= Seq::<Seq<char>>::empty());
        assert(Seq::<Seq<char>>::empty() + spec_params(toks, p as int).0 =~= spec_params(
            toks,
            p as int,
        ).0);
    }
    while p < tokens.len() && matches!(&tokens[p], Token::Id(_))
        invariant
            pos < p <= tokens@.len(),
            spec_params(toks, (pos + 1) as int).0 == params.deep_view() + spec_params(
                toks,
                p as int,
            ).0,
            spec_params(toks, (pos + 1) as int).1 == spec_params(toks, p as int).1,
        decreases tokens@.len() - p,
    {
        let id = match &tokens[p] {
            Token::Id(id) => id.clone(),
            _ => {
                proof {
                    assert(false);
                }
                return Err(CalcError::ExpectedFunctionName);
            },
        };
        let ghost old_params = params.deep_view();
        params.push(id);
        proof {
            assert(params.deep_view() =~= old_params.push(id@));
            assert(old_params + (seq![id@] + spec_params(toks, (p + 1) as int).0) =~= params.deep_view()
                + spec_params(toks, (p + 1) as int).0);
        }
        p = p + 1;
    }
    proof {
        assert(spec_params(toks, p as int).0 =~= Seq::<Seq<char>>::empty());
        assert(params.deep_view() + Seq::<Seq<char>>::empty() =~= params.deep_view());
        assert(spec_params(toks, (pos + 1) as int).0 == params.deep_view());
        assert(spec_params(toks, (pos + 1) as int).1 == p as int);
    }
    if p >= tokens.len() {
        return Err(CalcError::ExpectedArrow);
    }
    let arrow = match &tokens[p] {
        Token::Func => true,
        _ => false,
    };
    if !arrow {
        return Err(CalcError::ExpectedArrow);
    }
    let arity = params.len();
    let ghost pnames = params.deep_view();
    let child = Context::function_ctx(params, context);
    let step = parse_call(tokens, p + 1, &child);
    let (body, p2) = match step {
        Ok(x) => x,
        Err(e) => {
            return Err(e);
        },
    };
    let node = Ast::FuncDef(Function { name, arity, expr: Rc::new(body) });
    Ok((node, p2))
}

impl Context {
    /// Parse a whole line's tokens against this symbol table: a function
    /// definition when an arrow token occurs anywhere in the line, a call
    /// expression otherwise.  Tokens left over after a complete parse are
    /// an error, never silently dropped.
    #[verifier::loop_isolation(false)]
    pub fn parse(&self, tokens: Vec<Token>) -> (r: Result<Ast, CalcError>)
        requires
            self.wf(),
        ensures
            ({
                match r {
                    Ok(a) => spec_parse(tokens.deep_view(), self@) == Ok::<AstV, CalcError>(
                        ast_view(a),
                    ),
                    Err(e) => spec_parse(tokens.deep_view(), self@) == Err::<AstV, CalcError>(e),
                }
            }),
    {
        let ghost toks = tokens.deep_view();
        let mut has_func = false;
        let mut i: usize = 0;
        while i < tokens.len()
            invariant
                0 <= i <= tokens@.len(),
                has_func == exists|j: int| 0 <= j < i && (#[trigger] toks[j]) is Func,
            decreases tokens@.len() - i,
        {
            let here = match &tokens[i] {
                Token::Func => true,
                _ => false,
            };
            if here {
                proof {
                    assert(toks[i as int] is Func);
                }
                has_func = true;
            }
            i = i + 1;
        }
        let out = if has_func {
            parse_function(&tokens, 0, self)
        } else {
            parse_call(&tokens, 0, self)
        };
        match out {
            Err(e) => Err(e),
            Ok((ast, p)) => {
                if p == tokens.len() {
                    Ok(ast)
                } else {
                    Err(CalcError::TrailingTokens)
                }
            },
        }
    }
}

/// Whether two character sequences are the same text.
pub fn str_eq(a: &str, b: &str) -> (r: bool)
    ensures
        r == (a@ == b@),
{
    let al = a.unicode_len();
    let bl = b.unicode_len();
    if al != bl {
        return false;
    }
    let mut i: usize = 0;
    while i < al
        invariant
            0 <= i <= al,
            al == a@.len(),
            al == b@.len(),
            forall|j: int| 0 <= j < i ==> a@[j] == b@[j],
        decreases al - i,
    {
        let ca = a.get_char(i);
        let cb = b.get_char(i);
        if ca != cb {
            return false;
        }
        i = i + 1;
    }
    proof {
        assert(a@ =~= b@);
    }
    true
}

} // verus!
