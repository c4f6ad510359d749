//! `lambda!{lambda x, y: expr if cond else other ...}`: a Python-like lambda,
//! expanded into a closure.
use vstd::prelude::*;

use crate::comp::{alone, id, spec_condition, spec_else, Condition, Else};
use crate::step::{
    advances, agrees, fail_as, is_punct, parse_expr, parse_kw, parse_punct, parse_till_end,
    peek_punct, spec_expr, spec_kw, spec_many, spec_punct, views,
    Grammar, Step,
};
use crate::tokens::{
    append_copy, append_trees, group, ident, punct, push_tree, seq_wf, trees, Delimiter,
    Spacing, TokenTree, Tree,
};

verus! {

/// One argument of a lambda: the tokens of its expression. The comma that
/// follows it is consumed by the parse and not kept.
pub struct Arg(pub Vec<TokenTree>);

impl View for Arg {
    type V = Seq<Tree>;

    open spec fn view(&self) -> Seq<Tree> {
        trees(self.0@)
    }
}

/// Parses an expression and then a comma if there is one; without a comma the
/// next token has to be `:` or the end.
pub open spec fn spec_arg(ts: Seq<Tree>, p: usize) -> Step<Seq<Tree>> {
    match spec_expr(ts, p) {
        Step::Done(e, q) => if peek_punct(ts, q, ',') {
            Step::Done(e, (q + 1) as usize)
        } else if !peek_punct(ts, q, ':') && q != ts.len() {
            Step::Failed(q)
        } else {
            Step::Done(e, q)
        },
        s => fail_as(s),
    }
}

impl Arg {
    /// Appends the argument's expression.
    pub fn to_tokens(&self, tokens: &mut Vec<TokenTree>)
        ensures
            trees(final(tokens)@) == trees(old(tokens)@) + self@,
    {
        append_copy(tokens, &self.0);
    }
}

impl Grammar for Arg {
    open spec fn spec_parse(ts: Seq<Tree>, p: usize) -> Step<Seq<Tree>> {
        spec_arg(ts, p)
    }

    fn parse(tokens: &Vec<TokenTree>, pos: usize) -> (r: Step<Arg>) {
        let (a, q) = match parse_expr(tokens, pos) {
            Step::Done(v, q) => (v, q),
            Step::Failed(q) => return Step::Failed(q),
            Step::Poisoned => return Step::Poisoned,
        };
        if is_punct(tokens, q, ',') {
            Step::Done(Arg(a), q + 1)
        } else if !is_punct(tokens, q, ':') && q != tokens.len() {
            Step::Failed(q)
        } else {
            Step::Done(Arg(a), q)
        }
    }
}

/// `if cond else other`: one conditional clause of a lambda's body.
pub struct IfElse {
    pub cond: Condition,
    pub else_clause: Else,
}

/// The value of a conditional clause.
pub struct IfElseView {
    pub cond: Seq<Tree>,
    pub else_clause: Seq<Tree>,
}

impl View for IfElse {
    type V = IfElseView;

    open spec fn view(&self) -> IfElseView {
        IfElseView { cond: self.cond@, else_clause: self.else_clause@ }
    }
}

/// Parses a condition and then an `else` branch.
pub open spec fn spec_if_else(ts: Seq<Tree>, p: usize) -> Step<IfElseView> {
    match spec_condition(ts, p) {
        Step::Done(cond, q) => match spec_else(ts, q) {
            Step::Done(else_clause, q2) => Step::Done(IfElseView { cond, else_clause }, q2),
            s => fail_as(s),
        },
        s => fail_as(s),
    }
}

impl Grammar for IfElse {
    open spec fn spec_parse(ts: Seq<Tree>, p: usize) -> Step<IfElseView> {
        spec_if_else(ts, p)
    }

    fn parse(tokens: &Vec<TokenTree>, pos: usize) -> (r: Step<IfElse>) {
        let (cond, q) = match Condition::parse(tokens, pos) {
            Step::Done(v, q) => (v, q),
            Step::Failed(q) => return Step::Failed(q),
            Step::Poisoned => return Step::Poisoned,
        };
        match Else::parse(tokens, q) {
            Step::Done(else_clause, q2) => Step::Done(IfElse { cond, else_clause }, q2),
            Step::Failed(q2) => Step::Failed(q2),
            Step::Poisoned => Step::Poisoned,
        }
    }
}

/// The body of a lambda: an expression and conditional clauses.
pub struct Body {
    pub expr: Vec<TokenTree>,
    pub conds: Vec<IfElse>,
}

/// The value of a lambda's body.
pub struct BodyView {
    pub expr: Seq<Tree>,
    pub conds: Seq<IfElseView>,
}

impl View for Body {
    type V = BodyView;

    open spec fn view(&self) -> BodyView {
        BodyView { expr: trees(self.expr@), conds: views(self.conds@) }
    }
}

/// Parses an expression and then conditional clauses until one fails.
pub open spec fn spec_body(ts: Seq<Tree>, p: usize) -> Step<BodyView> {
    match spec_expr(ts, p) {
        Step::Done(expr, q) => match spec_many::<IfElse>(ts, q) {
            Step::Done(conds, q2) => Step::Done(BodyView { expr, conds }, q2),
            s => fail_as(s),
        },
        s => fail_as(s),
    }
}

impl Body {
    /// Appends the body's expression.
    pub fn write_expr(&self, tokens: &mut Vec<TokenTree>)
        ensures
            trees(final(tokens)@) == trees(old(tokens)@) + self@.expr,
    {
        append_copy(tokens, &self.expr);
    }
}

impl Grammar for Body {
    open spec fn spec_parse(ts: Seq<Tree>, p: usize) -> Step<BodyView> {
        spec_body(ts, p)
    }

    fn parse(tokens: &Vec<TokenTree>, pos: usize) -> (r: Step<Body>) {
        let (expr, q) = match parse_expr(tokens, pos) {
            Step::Done(v, q) => (v, q),
            Step::Failed(q) => return Step::Failed(q),
            Step::Poisoned => return Step::Poisoned,
        };
        match parse_till_end::<IfElse>(tokens, q) {
            Step::Done(conds, q2) => Step::Done(Body { expr, conds }, q2),
            Step::Failed(q2) => Step::Failed(q2),
            Step::Poisoned => Step::Poisoned,
        }
    }
}

/// `lambda args: body`
pub struct LambdaFunc {
    pub args: Vec<Arg>,
    pub body: Body,
}

/// The value of a lambda.
pub struct LambdaView {
    pub args: Seq<Seq<Tree>>,
    pub body: BodyView,
}

impl View for LambdaFunc {
    type V = LambdaView;

    open spec fn view(&self) -> LambdaView {
        LambdaView { args: views(self.args@), body: self.body@ }
    }
}

/// Parses `lambda`, arguments until one fails, `:` and a body.
pub open spec fn spec_lambda(ts: Seq<Tree>, p: usize) -> Step<LambdaView> {
    match spec_kw(ts, p, "lambda"@) {
        Step::Done(_, q1) => match spec_many::<Arg>(ts, q1) {
            Step::Done(args, q2) => match spec_punct(ts, q2, ':') {
                Step::Done(_, q3) => match spec_body(ts, q3) {
                    Step::Done(body, q4) => Step::Done(LambdaView { args, body }, q4),
                    s => fail_as(s),
                },
                s => fail_as(s),
            },
            s => fail_as(s),
        },
        s => fail_as(s),
    }
}

impl Grammar for LambdaFunc {
    open spec fn spec_parse(ts: Seq<Tree>, p: usize) -> Step<LambdaView> {
        spec_lambda(ts, p)
    }

    fn parse(tokens: &Vec<TokenTree>, pos: usize) -> (r: Step<LambdaFunc>) {
        let q1 = match parse_kw(tokens, pos, "lambda") {
            Step::Done(_, q) => q,
            Step::Failed(q) => return Step::Failed(q),
            Step::Poisoned => return Step::Poisoned,
        };
        let (args, q2) = match parse_till_end::<Arg>(tokens, q1) {
            Step::Done(v, q) => (v, q),
            Step::Failed(q) => return Step::Failed(q),
            Step::Poisoned => return Step::Poisoned,
        };
        let q3 = match parse_punct(tokens, q2, ':') {
            Step::Done(_, q) => q,
            Step::Failed(q) => return Step::Failed(q),
            Step::Poisoned => return Step::Poisoned,
        };
        match Body::parse(tokens, q3) {
            Step::Done(body, q4) => Step::Done(LambdaFunc { args, body }, q4),
            Step::Failed(q) => Step::Failed(q),
            Step::Poisoned => Step::Poisoned,
        }
    }
}

/// The arguments separated by commas.
pub open spec fn join_args(args: Seq<Seq<Tree>>) -> Seq<Tree>
    decreases args.len(),
{
    if args.len() == 0 {
        Seq::empty()
    } else if args.len() == 1 {
        args[0]
    } else {
        join_args(args.drop_last()) + seq![alone(',')] + args.last()
    }
}

/// The body with its conditional clauses, nested as Python nests
/// `e if c1 else e1 if c2 else e2`: the first clause is outermost and each
/// later clause stands in the `else` branch of the one before it,
/// `if c1 { e } else { if c2 { e1 } else { e2 } }`.
pub open spec fn if_chain(expr: Seq<Tree>, conds: Seq<IfElseView>) -> Seq<Tree>
    decreases conds.len(),
{
    if conds.len() == 0 {
        expr
    } else {
        seq![id("if")] + conds[0].cond + seq![
            Tree::Group(Delimiter::Brace, expr),
            id("else"),
            Tree::Group(Delimiter::Brace, if_chain(conds[0].else_clause, conds.drop_first())),
        ]
    }
}

/// The value that the `k`-th clause guards: the body's expression for the
/// first clause, the `else` branch of the clause before it otherwise.
pub open spec fn guarded(expr: Seq<Tree>, conds: Seq<IfElseView>, k: int) -> Seq<Tree> {
    if k == 0 {
        expr
    } else {
        conds[k - 1].else_clause
    }
}

/// The expansion of a lambda: `|args| body`.
pub open spec fn lambda_tokens(l: LambdaView) -> Seq<Tree> {
    seq![alone('|')] + join_args(l.args) + seq![alone('|')] + if_chain(l.body.expr, l.body.conds)
}

impl LambdaFunc {
    /// The expansion: a closure over the arguments whose body nests the
    /// conditional clauses as Python does, the first one outermost.
    pub fn to_tokens(&self, tokens: &mut Vec<TokenTree>)
        ensures
            trees(final(tokens)@) == trees(old(tokens)@) + lambda_tokens(self@),
    {
        let ghost l = self@;
        let ghost start = trees(tokens@);
        // |a, b, c|
        push_tree(tokens, punct('|', Spacing::Alone));
        let ghost after_bar = trees(tokens@);
        let mut i: usize = 0;
        while i < self.args.len()
            invariant
                i <= self.args.len(),
                l == self@,
                trees(tokens@) == after_bar + join_args(l.args.subrange(0, i as int)),
            decreases self.args.len() - i,
        {
            let ghost before = trees(tokens@);
            if i > 0 {
                push_tree(tokens, punct(',', Spacing::Alone));
            }
            self.args[i].to_tokens(tokens);
            proof {
                let sub = l.args.subrange(0, i + 1);
                assert(sub.drop_last() =~= l.args.subrange(0, i as int));
                assert(sub.last() == l.args[i as int]);
                if i == 0 {
                    assert(l.args.subrange(0, 0) =~= Seq::<Seq<Tree>>::empty());
                    assert(trees(tokens@) =~= after_bar + join_args(sub));
                } else {
                    assert(trees(tokens@) =~= after_bar + join_args(sub));
                }
            }
            i = i + 1;
        }
        assert(l.args.subrange(0, self.args.len() as int) =~= l.args);
        push_tree(tokens, punct('|', Spacing::Alone));
        // if c1 { expr } else { if c2 { e1 } else { e2 } }, built from the
        // innermost clause outwards
        let n = self.body.conds.len();
        let mut acc: Vec<TokenTree> = Vec::new();
        if n == 0 {
            self.body.write_expr(&mut acc);
        } else {
            self.body.conds[n - 1].else_clause.to_tokens(&mut acc);
        }
        assert(trees(acc@) =~= Seq::<Tree>::empty() + trees(acc@));
        assert(l.body.conds.subrange(n as int, n as int) =~= Seq::<IfElseView>::empty());
        let mut k: usize = n;
        while k > 0
            invariant
                k <= n,
                n == self.body.conds.len(),
                l == self@,
                trees(acc@) == if_chain(
                    guarded(l.body.expr, l.body.conds, k as int),
                    l.body.conds.subrange(k as int, n as int),
                ),
            decreases k,
        {
            let mut inner: Vec<TokenTree> = Vec::new();
            if k == 1 {
                self.body.write_expr(&mut inner);
            } else {
                self.body.conds[k - 2].else_clause.to_tokens(&mut inner);
            }
            assert(trees(inner@) =~= guarded(l.body.expr, l.body.conds, k - 1));
            let ie = &self.body.conds[k - 1];
            let mut next: Vec<TokenTree> = Vec::new();
            push_tree(&mut next, ident("if"));
            ie.cond.to_tokens(&mut next);
            push_tree(&mut next, group(Delimiter::Brace, inner));
            push_tree(&mut next, ident("else"));
            let ghost rest = trees(acc@);
            push_tree(&mut next, group(Delimiter::Brace, acc));
            proof {
                let sub = l.body.conds.subrange(k - 1, n as int);
                assert(sub.drop_first() =~= l.body.conds.subrange(k as int, n as int));
                assert(sub[0] == l.body.conds[k - 1]);
                assert(trees(next@) =~= if_chain(guarded(l.body.expr, l.body.conds, k - 1), sub));
            }
            acc = next;
            k = k - 1;
        }
        assert(l.body.conds.subrange(0, n as int) =~= l.body.conds);
        append_trees(tokens, acc);
        assert(trees(tokens@) =~= start + lambda_tokens(l));
    }
}

} // verus!
