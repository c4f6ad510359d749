//! `comp![expr for pat in gen if cond ... for ...]`: a Python-like list
//! comprehension, expanded into nested `filter_map` calls.
use vstd::prelude::*;

use crate::step::{
    advances, agrees, fail_as, parse_expr, parse_kw, parse_pat, parse_till_end, spec_expr,
    spec_kw, spec_many, spec_pat, views, Grammar, Step,
};
use crate::tokens::{
    append_copy, append_trees, group, ident, punct, push_tree, seq_wf, trees, Delimiter,
    Spacing, TokenTree, Tree,
};

verus! {

/// An identifier.
pub open spec fn id(s: &str) -> Tree {
    Tree::Ident(s@)
}

/// A punctuation character glued to the next one.
pub open spec fn joint(c: char) -> Tree {
    Tree::Punct(c, Spacing::Joint)
}

/// A punctuation character that stands alone.
pub open spec fn alone(c: char) -> Tree {
    Tree::Punct(c, Spacing::Alone)
}

/// `::`
pub open spec fn colons() -> Seq<Tree> {
    seq![joint(':'), alone(':')]
}

/// `if cond`, one condition of a `for` clause.
pub struct Condition(pub Vec<TokenTree>);

/// `else expr`, the other branch of a conditional expression.
pub struct Else(pub Vec<TokenTree>);

impl View for Condition {
    type V = Seq<Tree>;

    open spec fn view(&self) -> Seq<Tree> {
        trees(self.0@)
    }
}

impl View for Else {
    type V = Seq<Tree>;

    open spec fn view(&self) -> Seq<Tree> {
        trees(self.0@)
    }
}

/// `for pattern in gen if cond ...`
pub struct ForIf {
    pub pattern: Vec<TokenTree>,
    pub gen: Vec<TokenTree>,
    pub conds: Vec<Condition>,
}

/// The value of a `for` clause.
pub struct ForIfView {
    pub pattern: Seq<Tree>,
    pub gen: Seq<Tree>,
    pub conds: Seq<Seq<Tree>>,
}

impl View for ForIf {
    type V = ForIfView;

    open spec fn view(&self) -> ForIfView {
        ForIfView {
            pattern: trees(self.pattern@),
            gen: trees(self.gen@),
            conds: views(self.conds@),
        }
    }
}

/// `expr for ...`: the element expression and at least one `for` clause.
pub struct Comprehension {
    pub expr: Vec<TokenTree>,
    pub for_ifs: Vec<ForIf>,
}

/// The value of a comprehension.
pub struct ComprehensionView {
    pub expr: Seq<Tree>,
    pub for_ifs: Seq<ForIfView>,
}

impl View for Comprehension {
    type V = ComprehensionView;

    open spec fn view(&self) -> ComprehensionView {
        ComprehensionView { expr: trees(self.expr@), for_ifs: views(self.for_ifs@) }
    }
}

/// Parses `if` and then an expression.
pub open spec fn spec_condition(ts: Seq<Tree>, p: usize) -> Step<Seq<Tree>> {
    match spec_kw(ts, p, "if"@) {
        Step::Done(_, q) => spec_expr(ts, q),
        s => fail_as(s),
    }
}

/// Parses `else` and then an expression.
pub open spec fn spec_else(ts: Seq<Tree>, p: usize) -> Step<Seq<Tree>> {
    match spec_kw(ts, p, "else"@) {
        Step::Done(_, q) => spec_expr(ts, q),
        s => fail_as(s),
    }
}

impl Condition {
    /// Appends the condition's expression, without its `if`.
    pub fn to_tokens(&self, tokens: &mut Vec<TokenTree>)
        ensures
            trees(final(tokens)@) == trees(old(tokens)@) + self@,
    {
        append_copy(tokens, &self.0);
    }
}

impl Else {
    /// Appends the `else` branch's expression, without its `else`.
    pub fn to_tokens(&self, tokens: &mut Vec<TokenTree>)
        ensures
            trees(final(tokens)@) == trees(old(tokens)@) + self@,
    {
        append_copy(tokens, &self.0);
    }
}

impl Grammar for Condition {
    open spec fn spec_parse(ts: Seq<Tree>, p: usize) -> Step<Seq<Tree>> {
        spec_condition(ts, p)
    }

    fn parse(tokens: &Vec<TokenTree>, pos: usize) -> (r: Step<Condition>) {
        match parse_kw(tokens, pos, "if") {
            Step::Done(_, q) => match parse_expr(tokens, q) {
                Step::Done(e, q2) => Step::Done(Condition(e), q2),
                Step::Failed(q2) => Step::Failed(q2),
                Step::Poisoned => Step::Poisoned,
            },
            Step::Failed(q) => Step::Failed(q),
            Step::Poisoned => Step::Poisoned,
        }
    }
}

impl Grammar for Else {
    open spec fn spec_parse(ts: Seq<Tree>, p: usize) -> Step<Seq<Tree>> {
        spec_else(ts, p)
    }

    fn parse(tokens: &Vec<TokenTree>, pos: usize) -> (r: Step<Else>) {
        match parse_kw(tokens, pos, "else") {
            Step::Done(_, q) => match parse_expr(tokens, q) {
                Step::Done(e, q2) => Step::Done(Else(e), q2),
                Step::Failed(q2) => Step::Failed(q2),
                Step::Poisoned => Step::Poisoned,
            },
            Step::Failed(q) => Step::Failed(q),
            Step::Poisoned => Step::Poisoned,
        }
    }
}

/// Parses `for`, a pattern, `in`, an expression and then conditions until one
/// fails.
pub open spec fn spec_for_if(ts: Seq<Tree>, p: usize) -> Step<ForIfView> {
    match spec_kw(ts, p, "for"@) {
        Step::Done(_, q1) => match spec_pat(ts, q1) {
            Step::Done(pattern, q2) => match spec_kw(ts, q2, "in"@) {
                Step::Done(_, q3) => match spec_expr(ts, q3) {
                    Step::Done(gen, q4) => match spec_many::<Condition>(ts, q4) {
                        Step::Done(conds, q5) => Step::Done(
                            ForIfView { pattern, gen, conds },
                            q5,
                        ),
                        s => fail_as(s),
                    },
                    s => fail_as(s),
                },
                s => fail_as(s),
            },
            s => fail_as(s),
        },
        s => fail_as(s),
    }
}

impl Grammar for ForIf {
    open spec fn spec_parse(ts: Seq<Tree>, p: usize) -> Step<ForIfView> {
        spec_for_if(ts, p)
    }

    fn parse(tokens: &Vec<TokenTree>, pos: usize) -> (r: Step<ForIf>) {
        let q1 = match parse_kw(tokens, pos, "for") {
            Step::Done(_, q) => q,
            Step::Failed(q) => return Step::Failed(q),
            Step::Poisoned => return Step::Poisoned,
        };
        let (pattern, q2) = match parse_pat(tokens, q1) {
            Step::Done(v, q) => (v, q),
            Step::Failed(q) => return Step::Failed(q),
            Step::Poisoned => return Step::Poisoned,
        };
        let q3 = match parse_kw(tokens, q2, "in") {
            Step::Done(_, q) => q,
            Step::Failed(q) => return Step::Failed(q),
            Step::Poisoned => return Step::Poisoned,
        };
        let (gen, q4) = match parse_expr(tokens, q3) {
            Step::Done(v, q) => (v, q),
            Step::Failed(q) => return Step::Failed(q),
            Step::Poisoned => return Step::Poisoned,
        };
        match parse_till_end::<Condition>(tokens, q4) {
            Step::Done(conds, q5) => Step::Done(ForIf { pattern, gen, conds }, q5),
            Step::Failed(q5) => Step::Failed(q5),
            Step::Poisoned => Step::Poisoned,
        }
    }
}

/// Parses an expression and then `for` clauses until one fails.
pub open spec fn spec_comprehension(ts: Seq<Tree>, p: usize) -> Step<ComprehensionView> {
    match spec_expr(ts, p) {
        Step::Done(expr, q) => match spec_many::<ForIf>(ts, q) {
            Step::Done(for_ifs, q2) => Step::Done(ComprehensionView { expr, for_ifs }, q2),
            s => fail_as(s),
        },
        s => fail_as(s),
    }
}

impl Grammar for Comprehension {
    open spec fn spec_parse(ts: Seq<Tree>, p: usize) -> Step<ComprehensionView> {
        spec_comprehension(ts, p)
    }

    fn parse(tokens: &Vec<TokenTree>, pos: usize) -> (r: Step<Comprehension>) {
        let (expr, q) = match parse_expr(tokens, pos) {
            Step::Done(v, q) => (v, q),
            Step::Failed(q) => return Step::Failed(q),
            Step::Poisoned => return Step::Poisoned,
        };
        match parse_till_end::<ForIf>(tokens, q) {
            Step::Done(for_ifs, q2) => Step::Done(Comprehension { expr, for_ifs }, q2),
            Step::Failed(q2) => Step::Failed(q2),
            Step::Poisoned => Step::Poisoned,
        }
    }
}

/// `core::iter::IntoIterator::into_iter`
pub open spec fn into_iter_path() -> Seq<Tree> {
    seq![id("core")] + colons() + seq![id("iter")] + colons() + seq![id("IntoIterator")] + colons()
        + seq![id("into_iter")]
}

/// `&& (c1) && (c2) ...`
pub open spec fn and_conds(conds: Seq<Seq<Tree>>) -> Seq<Tree>
    decreases conds.len(),
{
    if conds.len() == 0 {
        Seq::empty()
    } else {
        and_conds(conds.drop_last()) + seq![
            joint('&'),
            alone('&'),
            Tree::Group(Delimiter::Parenthesis, conds.last()),
        ]
    }
}

/// `core::iter::IntoIterator::into_iter(gen).filter_map(move |pattern| {
/// (true && (c1) ...).then(|| body) })`
pub open spec fn filter_map_call(fi: ForIfView, body: Seq<Tree>) -> Seq<Tree> {
    into_iter_path() + seq![
        Tree::Group(Delimiter::Parenthesis, fi.gen),
        alone('.'),
        id("filter_map"),
        Tree::Group(
            Delimiter::Parenthesis,
            seq![id("move"), alone('|')] + fi.pattern + seq![
                alone('|'),
                Tree::Group(
                    Delimiter::Brace,
                    seq![
                        Tree::Group(
                            Delimiter::Parenthesis,
                            seq![id("true")] + and_conds(fi.conds),
                        ),
                        alone('.'),
                        id("then"),
                        Tree::Group(
                            Delimiter::Parenthesis,
                            seq![joint('|'), alone('|')] + body,
                        ),
                    ],
                ),
            ],
        ),
    ]
}

/// `.flatten()`
pub open spec fn flatten_call() -> Seq<Tree> {
    seq![alone('.'), id("flatten"), Tree::Group(Delimiter::Parenthesis, Seq::empty())]
}

/// The expansion of the `for` clauses `fis` around the element expression:
/// the first clause outermost, each clause but the last flattened.
pub open spec fn nest(fis: Seq<ForIfView>, expr: Seq<Tree>) -> Seq<Tree>
    decreases fis.len(),
{
    if fis.len() == 0 {
        Seq::empty()
    } else if fis.len() == 1 {
        filter_map_call(fis[0], expr)
    } else {
        filter_map_call(fis[0], nest(fis.drop_first(), expr)) + flatten_call()
    }
}

/// Appends `::`.
fn push_colons(out: &mut Vec<TokenTree>)
    ensures
        trees(final(out)@) == trees(old(out)@) + colons(),
{
    push_tree(out, punct(':', Spacing::Joint));
    push_tree(out, punct(':', Spacing::Alone));
    assert(trees(out@) =~= trees(old(out)@) + colons());
}

/// Appends `core::iter::IntoIterator::into_iter`.
fn push_into_iter_path(out: &mut Vec<TokenTree>)
    ensures
        trees(final(out)@) == trees(old(out)@) + into_iter_path(),
{
    let ghost start = trees(out@);
    push_tree(out, ident("core"));
    push_colons(out);
    push_tree(out, ident("iter"));
    push_colons(out);
    push_tree(out, ident("IntoIterator"));
    push_colons(out);
    push_tree(out, ident("into_iter"));
    assert(trees(out@) =~= start + into_iter_path());
}

impl ForIf {
    /// `core::iter::IntoIterator::into_iter(gen).filter_map(move |pattern|
    /// { (true && (c1) ...).then(|| body) })`
    pub fn filter_map_tokens(&self, body: Vec<TokenTree>) -> (r: Vec<TokenTree>)
        ensures
            trees(r@) == filter_map_call(self@, trees(body@)),
    {
        let ghost fi = self@;
        // (true && (c1) && (c2) ...)
        let mut chain: Vec<TokenTree> = Vec::new();
        push_tree(&mut chain, ident("true"));
        let mut i: usize = 0;
        while i < self.conds.len()
            invariant
                i <= self.conds.len(),
                fi == self@,
                trees(chain@) == seq![id("true")] + and_conds(fi.conds.subrange(0, i as int)),
            decreases self.conds.len() - i,
        {
            let ghost before = trees(chain@);
            push_tree(&mut chain, punct('&', Spacing::Joint));
            push_tree(&mut chain, punct('&', Spacing::Alone));
            let mut c: Vec<TokenTree> = Vec::new();
            self.conds[i].to_tokens(&mut c);
            push_tree(&mut chain, group(Delimiter::Parenthesis, c));
            proof {
                let sub = fi.conds.subrange(0, i + 1);
                assert(sub.drop_last() =~= fi.conds.subrange(0, i as int));
                assert(sub.last() == fi.conds[i as int]);
                assert(trees(c@) =~= fi.conds[i as int]);
            }
            i = i + 1;
            assert(trees(chain@) =~= seq![id("true")] + and_conds(fi.conds.subrange(0, i as int)));
        }
        assert(fi.conds.subrange(0, i as int) =~= fi.conds);
        // { (...).then(|| body) }
        let mut then_args: Vec<TokenTree> = Vec::new();
        push_tree(&mut then_args, punct('|', Spacing::Joint));
        push_tree(&mut then_args, punct('|', Spacing::Alone));
        let ghost tb = trees(body@);
        append_trees(&mut then_args, body);
        let mut block: Vec<TokenTree> = Vec::new();
        push_tree(&mut block, group(Delimiter::Parenthesis, chain));
        push_tree(&mut block, punct('.', Spacing::Alone));
        push_tree(&mut block, ident("then"));
        push_tree(&mut block, group(Delimiter::Parenthesis, then_args));
        // (move |pattern| { ... })
        let mut closure: Vec<TokenTree> = Vec::new();
        push_tree(&mut closure, ident("move"));
        push_tree(&mut closure, punct('|', Spacing::Alone));
        append_copy(&mut closure, &self.pattern);
        push_tree(&mut closure, punct('|', Spacing::Alone));
        push_tree(&mut closure, group(Delimiter::Brace, block));
        // core::iter::IntoIterator::into_iter(gen).filter_map(...)
        let mut g: Vec<TokenTree> = Vec::new();
        append_copy(&mut g, &self.gen);
        let mut out: Vec<TokenTree> = Vec::new();
        push_into_iter_path(&mut out);
        push_tree(&mut out, group(Delimiter::Parenthesis, g));
        push_tree(&mut out, punct('.', Spacing::Alone));
        push_tree(&mut out, ident("filter_map"));
        push_tree(&mut out, group(Delimiter::Parenthesis, closure));
        proof {
            assert(trees(then_args@) =~= seq![joint('|'), alone('|')] + tb);
            assert(trees(block@) =~= seq![
                Tree::Group(Delimiter::Parenthesis, seq![id("true")] + and_conds(fi.conds)),
                alone('.'),
                id("then"),
                Tree::Group(Delimiter::Parenthesis, seq![joint('|'), alone('|')] + tb),
            ]);
            assert(trees(closure@) =~= seq![id("move"), alone('|')] + fi.pattern + seq![
                alone('|'),
                Tree::Group(Delimiter::Brace, trees(block@)),
            ]);
            assert(trees(out@) =~= filter_map_call(fi, tb));
        }
        out
    }
}

impl Comprehension {
    /// The expansion: the `for` clauses nested around the element
    /// expression, the first clause outermost. A comprehension without a
    /// `for` clause has no expansion ("must contain at least one for_if"):
    /// `comp` refuses it before it gets here.
    pub fn to_tokens(&self, tokens: &mut Vec<TokenTree>)
        requires
            self.for_ifs.len() > 0,
        ensures
            trees(final(tokens)@) == trees(old(tokens)@) + nest(self@.for_ifs, self@.expr),
    {
        let ghost c = self@;
        let n = self.for_ifs.len();
        let mut body: Vec<TokenTree> = Vec::new();
        append_copy(&mut body, &self.expr);
        let mut inner = self.for_ifs[n - 1].filter_map_tokens(body);
        proof {
            let sub = c.for_ifs.subrange(n - 1, n as int);
            assert(sub.len() == 1 && sub[0] == c.for_ifs[n - 1]);
            assert(trees(inner@) == nest(sub, c.expr));
        }
        let mut i: usize = n - 1;
        while i > 0
            invariant
                0 <= i < n,
                n == self.for_ifs.len(),
                c == self@,
                trees(inner@) == nest(c.for_ifs.subrange(i as int, n as int), c.expr),
            decreases i,
        {
            i = i - 1;
            let ghost prev = trees(inner@);
            let mut wrapped = self.for_ifs[i].filter_map_tokens(inner);
            push_tree(&mut wrapped, punct('.', Spacing::Alone));
            push_tree(&mut wrapped, ident("flatten"));
            let empty: Vec<TokenTree> = Vec::new();
            assert(trees(empty@) =~= Seq::<Tree>::empty());
            push_tree(&mut wrapped, group(Delimiter::Parenthesis, empty));
            proof {
                let sub = c.for_ifs.subrange(i as int, n as int);
                assert(sub.drop_first() =~= c.for_ifs.subrange(i + 1, n as int));
                assert(sub[0] == c.for_ifs[i as int]);
                assert(trees(wrapped@) =~= filter_map_call(sub[0], prev) + flatten_call());
            }
            inner = wrapped;
        }
        assert(c.for_ifs.subrange(0, n as int) =~= c.for_ifs);
        append_trees(tokens, inner);
    }
}

} // verus!
