//! `x = e` as an expression that binds `x` and yields it, as Python's `:=`.
use vstd::prelude::*;

use crate::comp::{alone, id};
use crate::scope::{spec_binding, SetInfoView};
use crate::step::{agrees, advances, parse_expr, parse_ident, parse_punct, Grammar, Step};
use crate::tokens::{append_copy, group, ident, punct, push_tree, seq_wf, trees, Delimiter, Spacing, TokenTree, Tree};

verus! {

/// `var = expr`
pub struct Walrus {
    pub var: String,
    pub expr: Vec<TokenTree>,
}

impl View for Walrus {
    type V = SetInfoView;

    open spec fn view(&self) -> SetInfoView {
        SetInfoView { var: self.var@, expr: trees(self.expr@) }
    }
}

impl Grammar for Walrus {
    open spec fn spec_parse(ts: Seq<Tree>, p: usize) -> Step<SetInfoView> {
        spec_binding(ts, p)
    }

    fn parse(tokens: &Vec<TokenTree>, pos: usize) -> (r: Step<Walrus>) {
        let (var, q) = match parse_ident(tokens, pos) {
            Step::Done(v, q) => (v, q),
            Step::Failed(q) => return Step::Failed(q),
            Step::Poisoned => return Step::Poisoned,
        };
        let q2 = match parse_punct(tokens, q, '=') {
            Step::Done(_, q2) => q2,
            Step::Failed(q2) => return Step::Failed(q2),
            Step::Poisoned => return Step::Poisoned,
        };
        match parse_expr(tokens, q2) {
            Step::Done(expr, q3) => Step::Done(Walrus { var, expr }, q3),
            Step::Failed(q3) => Step::Failed(q3),
            Step::Poisoned => Step::Poisoned,
        }
    }
}

/// The expansion of a binding: `{ let var = expr; var }`.
pub open spec fn walrus_tokens(w: SetInfoView) -> Seq<Tree> {
    seq![
        Tree::Group(
            Delimiter::Brace,
            seq![id("let"), Tree::Ident(w.var), alone('=')] + w.expr + seq![
                alone(';'),
                Tree::Ident(w.var),
            ],
        ),
    ]
}

impl Walrus {
    /// The expansion: a block that binds the variable and yields it.
    pub fn to_tokens(&self, tokens: &mut Vec<TokenTree>)
        ensures
            trees(final(tokens)@) == trees(old(tokens)@) + walrus_tokens(self@),
    {
        let mut inner: Vec<TokenTree> = Vec::new();
        push_tree(&mut inner, ident("let"));
        push_tree(&mut inner, TokenTree::Ident(self.var.clone()));
        push_tree(&mut inner, punct('=', Spacing::Alone));
        append_copy(&mut inner, &self.expr);
        push_tree(&mut inner, punct(';', Spacing::Alone));
        push_tree(&mut inner, TokenTree::Ident(self.var.clone()));
        assert(trees(inner@) =~= seq![id("let"), Tree::Ident(self@.var), alone('=')] + self@.expr
            + seq![alone(';'), Tree::Ident(self@.var)]);
        push_tree(tokens, group(Delimiter::Brace, inner));
        assert(trees(tokens@) =~= trees(old(tokens)@) + walrus_tokens(self@));
    }
}

} // verus!
