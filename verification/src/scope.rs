//! `scoped!{ ... set!(x = e) ... }`: variables that `set!` binds inside the
//! scoped expressions are declared at the top of the block that the scoped
//! expressions become, and each `set!(x = e)` becomes `{ x = e; x.clone() }`,
//! which binds `x` and yields its value, as Python's `x := e` does.
use vstd::prelude::*;

use crate::comp::{alone, colons, id};
use crate::error::MacroError;
use crate::outside::{expr_macros, pair_views, syn_macros};
use crate::step::{
    complete, fail_as, is_ident, is_kw, is_punct, parse_expr, parse_ident, parse_punct,
    peek_ident, peek_kw, peek_punct, spec_expr, spec_ident, spec_punct, advances, agrees,
    Grammar, Step,
};
use crate::tokens::{
    append_copy, append_trees, copy_range, copy_tree, group, ident, lemma_trees_push,
    lemma_wf_group, punct, push_tree, tree_wf,
    seq_wf, trees, Delimiter, Spacing, TokenTree, Tree,
};

verus! {

/// Whether a setter stands where a variable is declared or where it is
/// assigned.
#[derive(Clone, Copy, Debug, PartialEq, Eq, Structural)]
pub enum ParseContext {
    Expr,
    Decl,
}

impl Default for ParseContext {
    fn default() -> (r: Self)
        ensures
            r == ParseContext::Expr,
    {
        ParseContext::Expr
    }
}

/// The variable that a setter binds and the expression that it binds it to.
pub struct SetInfo {
    pub var: String,
    pub expr: Vec<TokenTree>,
}

/// The value of a binding.
pub struct SetInfoView {
    pub var: Seq<char>,
    pub expr: Seq<Tree>,
}

impl View for SetInfo {
    type V = SetInfoView;

    open spec fn view(&self) -> SetInfoView {
        SetInfoView { var: self.var@, expr: trees(self.expr@) }
    }
}

/// The argument of `set!`: `x = e`, `mut x = e` or `py x = e`.
pub enum Setter {
    SetVar(ParseContext, SetInfo),
    SetMut(ParseContext, SetInfo),
    SetPython(ParseContext, SetInfo),
}

/// The value of a setter.
pub enum SetterView {
    SetVar(ParseContext, SetInfoView),
    SetMut(ParseContext, SetInfoView),
    SetPython(ParseContext, SetInfoView),
}

impl View for Setter {
    type V = SetterView;

    open spec fn view(&self) -> SetterView {
        match self {
            Setter::SetVar(c, i) => SetterView::SetVar(*c, i@),
            Setter::SetMut(c, i) => SetterView::SetMut(*c, i@),
            Setter::SetPython(c, i) => SetterView::SetPython(*c, i@),
        }
    }
}

/// Parses `=` and then an expression.
pub open spec fn spec_assign(ts: Seq<Tree>, p: usize) -> Step<Seq<Tree>> {
    match spec_punct(ts, p, '=') {
        Step::Done(_, q) => spec_expr(ts, q),
        s => fail_as(s),
    }
}

/// Parses a variable, `=` and an expression.
pub open spec fn spec_binding(ts: Seq<Tree>, p: usize) -> Step<SetInfoView> {
    match spec_ident(ts, p) {
        Step::Done(var, q) => match spec_assign(ts, q) {
            Step::Done(expr, q2) => Step::Done(SetInfoView { var, expr }, q2),
            s => fail_as(s),
        },
        s => fail_as(s),
    }
}

/// Parses a setter, in the expression context. The `py` form can only be
/// reached where `syn` refuses `py` as an identifier, since an identifier is
/// looked for first.
pub open spec fn spec_setter(ts: Seq<Tree>, p: usize) -> Step<SetterView> {
    if !(peek_kw(ts, p, "mut"@) || peek_kw(ts, p, "py"@) || peek_ident(ts, p)) {
        Step::Failed(p)
    } else if peek_ident(ts, p) {
        match spec_binding(ts, p) {
            Step::Done(i, q) => Step::Done(SetterView::SetVar(ParseContext::Expr, i), q),
            s => fail_as(s),
        }
    } else if peek_kw(ts, p, "mut"@) {
        match spec_binding(ts, (p + 1) as usize) {
            Step::Done(i, q) => Step::Done(SetterView::SetMut(ParseContext::Expr, i), q),
            s => fail_as(s),
        }
    } else {
        match spec_binding(ts, (p + 1) as usize) {
            Step::Done(i, q) => Step::Done(SetterView::SetPython(ParseContext::Expr, i), q),
            s => fail_as(s),
        }
    }
}

/// Parses a variable, `=` and an expression.
fn parse_binding(tokens: &Vec<TokenTree>, pos: usize) -> (r: Step<SetInfo>)
    requires
        pos <= tokens.len(),
        seq_wf(trees(tokens@)),
    ensures
        agrees(r, spec_binding(trees(tokens@), pos)),
        advances(r, pos, tokens.len() as nat),
{
    let (var, q) = match parse_ident(tokens, pos) {
        Step::Done(v, q) => (v, q),
        Step::Failed(q) => return Step::Failed(q),
        Step::Poisoned => return Step::Poisoned,
    };
    let q2 = match parse_punct(tokens, q, '=') {
        Step::Done(_, q2) => q2,
        Step::Failed(q2) => return Step::Failed(q2),
        Step::Poisoned => return Step::Poisoned,
    };
    match parse_expr(tokens, q2) {
        Step::Done(expr, q3) => Step::Done(SetInfo { var, expr }, q3),
        Step::Failed(q3) => Step::Failed(q3),
        Step::Poisoned => Step::Poisoned,
    }
}

impl Grammar for Setter {
    open spec fn spec_parse(ts: Seq<Tree>, p: usize) -> Step<SetterView> {
        spec_setter(ts, p)
    }

    fn parse(tokens: &Vec<TokenTree>, pos: usize) -> (r: Step<Setter>) {
        let is_mut = is_kw(tokens, pos, "mut");
        let is_py = is_kw(tokens, pos, "py");
        let is_id = is_ident(tokens, pos);
        if !(is_mut || is_py || is_id) {
            Step::Failed(pos)
        } else if is_id {
            match parse_binding(tokens, pos) {
                Step::Done(i, q) => Step::Done(Setter::SetVar(ParseContext::Expr, i), q),
                Step::Failed(q) => Step::Failed(q),
                Step::Poisoned => Step::Poisoned,
            }
        } else if is_mut {
            match parse_binding(tokens, pos + 1) {
                Step::Done(i, q) => Step::Done(Setter::SetMut(ParseContext::Expr, i), q),
                Step::Failed(q) => Step::Failed(q),
                Step::Poisoned => Step::Poisoned,
            }
        } else {
            match parse_binding(tokens, pos + 1) {
                Step::Done(i, q) => Step::Done(Setter::SetPython(ParseContext::Expr, i), q),
                Step::Failed(q) => Step::Failed(q),
                Step::Poisoned => Step::Poisoned,
            }
        }
    }
}

/// The setter `s` in the context `ctx`.
pub open spec fn spec_with_context(s: SetterView, ctx: ParseContext) -> SetterView {
    match s {
        SetterView::SetVar(_, i) => SetterView::SetVar(ctx, i),
        SetterView::SetMut(_, i) => SetterView::SetMut(ctx, i),
        SetterView::SetPython(_, i) => SetterView::SetPython(ctx, i),
    }
}

/// `Rc::new(RefCell::new(expr))`
pub open spec fn rc_refcell(expr: Seq<Tree>) -> Seq<Tree> {
    seq![id("Rc")] + colons() + seq![
        id("new"),
        Tree::Group(
            Delimiter::Parenthesis,
            seq![id("RefCell")] + colons() + seq![
                id("new"),
                Tree::Group(Delimiter::Parenthesis, expr),
            ],
        ),
    ]
}

/// `{ var = value; var.clone() }`
pub open spec fn assign_block(var: Seq<char>, value: Seq<Tree>) -> Seq<Tree> {
    seq![
        Tree::Group(
            Delimiter::Brace,
            seq![Tree::Ident(var), alone('=')] + value + seq![
                alone(';'),
                Tree::Ident(var),
                alone('.'),
                id("clone"),
                Tree::Group(Delimiter::Parenthesis, Seq::empty()),
            ],
        ),
    ]
}

/// The expansion of a setter: a declaration (`let x;`, `let mut x;`) in the
/// declaration context, an assignment block that yields a clone of the new
/// value in the expression context.
pub open spec fn setter_tokens(s: SetterView) -> Seq<Tree> {
    match s {
        SetterView::SetVar(ParseContext::Decl, i) => seq![id("let"), Tree::Ident(i.var), alone(';')],
        SetterView::SetMut(ParseContext::Decl, i) => seq![
            id("let"),
            id("mut"),
            Tree::Ident(i.var),
            alone(';'),
        ],
        SetterView::SetPython(ParseContext::Decl, i) => seq![
            id("let"),
            id("mut"),
            Tree::Ident(i.var),
            alone(';'),
        ],
        SetterView::SetVar(ParseContext::Expr, i) => assign_block(i.var, i.expr),
        SetterView::SetMut(ParseContext::Expr, i) => assign_block(i.var, i.expr),
        SetterView::SetPython(ParseContext::Expr, i) => assign_block(i.var, rc_refcell(i.expr)),
    }
}

/// Why the whole argument of a `set!` is refused where it does not parse:
/// "not a set" where it starts with neither `mut`, `py` nor an identifier,
/// `syn`'s error otherwise.
pub open spec fn setter_error(ts: Seq<Tree>) -> MacroError {
    if !(peek_kw(ts, 0, "mut"@) || peek_kw(ts, 0, "py"@) || peek_ident(ts, 0)) {
        MacroError::NotASet
    } else {
        MacroError::Syntax
    }
}

/// The whole argument of a `set!` parsed as one setter (`syn::parse2`).
pub open spec fn spec_whole_setter(ts: Seq<Tree>) -> Result<SetterView, MacroError> {
    match complete(ts, spec_setter(ts, 0)) {
        Some(s) => Ok(s),
        None => Err(setter_error(ts)),
    }
}

/// The setter `s` with its expression replaced by `e`.
pub open spec fn spec_with_expr(s: SetterView, e: Seq<Tree>) -> SetterView {
    match s {
        SetterView::SetVar(c, i) => SetterView::SetVar(c, SetInfoView { var: i.var, expr: e }),
        SetterView::SetMut(c, i) => SetterView::SetMut(c, SetInfoView { var: i.var, expr: e }),
        SetterView::SetPython(c, i) => SetterView::SetPython(c, SetInfoView { var: i.var, expr: e }),
    }
}

/// Where the expression of a setter starts in its argument: after `x =`, or
/// after `mut x =` or `py x =`.
pub open spec fn expr_start(s: SetterView) -> int {
    match s {
        SetterView::SetVar(..) => 2,
        _ => 3,
    }
}

/// `p` put in front of the tokens of `r`, errors passed on.
pub open spec fn prepend(p: Seq<Tree>, r: Result<Seq<Tree>, MacroError>) -> Result<
    Seq<Tree>,
    MacroError,
> {
    match r {
        Ok(w) => Ok(p + w),
        Err(e) => Err(e),
    }
}

/// An invocation `set ! (..)` begins at `i`.
pub open spec fn is_set_call(ts: Seq<Tree>, i: int) -> bool {
    &&& 0 <= i
    &&& i + 2 < ts.len()
    &&& ts[i] == Tree::Ident("set"@)
    &&& ts[i + 1] matches Tree::Punct(c, _) && c == '!'
    &&& ts[i + 2] is Group
}

/// The tokens `ts[i..]` with every `set!(..)` invocation, at any depth,
/// replaced by its setter in the expression context: `{ x = e; x.clone() }`
/// (with `Rc::new(RefCell::new(e))` for `py`), so that the invocation binds
/// the variable and yields its value, as Python's `x := e` does. The
/// expression `e` is itself rewritten first. The first argument that does not
/// parse as a setter gives the error.
pub open spec fn walrus_tokens(ts: Seq<Tree>, i: int) -> Result<Seq<Tree>, MacroError>
    decreases ts, ts.len() - i,
{
    if i < 0 || i >= ts.len() {
        Ok(Seq::empty())
    } else if is_set_call(ts, i) {
        match ts[i + 2] {
            Tree::Group(_, inner) => {
                proof {
                    let t = ts[i + 2];
                    assert(decreases_to!(ts => t));
                    assert(decreases_to!(t => t->Group_1));
                }
                match spec_whole_setter(inner) {
                    Err(e) => Err(e),
                    Ok(s) => match walrus_tokens(inner, expr_start(s)) {
                        Err(e) => Err(e),
                        Ok(e2) => prepend(
                            setter_tokens(spec_with_expr(s, e2)),
                            walrus_tokens(ts, i + 3),
                        ),
                    },
                }
            },
            _ => Ok(Seq::empty()),
        }
    } else {
        match ts[i] {
            Tree::Group(d, inner) => {
                proof {
                    let t = ts[i];
                    assert(decreases_to!(ts => t));
                    assert(decreases_to!(t => t->Group_1));
                }
                match walrus_tokens(inner, 0) {
                    Err(e) => Err(e),
                    Ok(g) => prepend(seq![Tree::Group(d, g)], walrus_tokens(ts, i + 1)),
                }
            },
            _ => prepend(seq![ts[i]], walrus_tokens(ts, i + 1)),
        }
    }
}

/// Each expression rewritten by `walrus_tokens`; the first error is passed on.
pub open spec fn walrus_all(es: Seq<Seq<Tree>>) -> Result<Seq<Seq<Tree>>, MacroError>
    decreases es.len(),
{
    if es.len() == 0 {
        Ok(Seq::empty())
    } else {
        match walrus_all(es.drop_last()) {
            Err(e) => Err(e),
            Ok(ws) => match walrus_tokens(es.last(), 0) {
                Err(e) => Err(e),
                Ok(w) => Ok(ws.push(w)),
            },
        }
    }
}

impl SetInfo {
    /// The bound expression.
    pub fn to_tokens(&self, tokens: &mut Vec<TokenTree>)
        ensures
            trees(final(tokens)@) == trees(old(tokens)@) + self@.expr,
    {
        append_copy(tokens, &self.expr);
    }
}

/// Appends `::`.
fn push_colons(out: &mut Vec<TokenTree>)
    ensures
        trees(final(out)@) == trees(old(out)@) + colons(),
{
    push_tree(out, punct(':', Spacing::Joint));
    push_tree(out, punct(':', Spacing::Alone));
    assert(trees(out@) =~= trees(old(out)@) + colons());
}

/// `{ var = value; var.clone() }`
fn assign_block_tokens(var: &String, value: Vec<TokenTree>) -> (r: TokenTree)
    ensures
        seq![r@] == assign_block(var@, trees(value@)),
{
    let ghost v = trees(value@);
    let mut inner: Vec<TokenTree> = Vec::new();
    push_tree(&mut inner, TokenTree::Ident(var.clone()));
    push_tree(&mut inner, punct('=', Spacing::Alone));
    append_trees(&mut inner, value);
    push_tree(&mut inner, punct(';', Spacing::Alone));
    push_tree(&mut inner, TokenTree::Ident(var.clone()));
    push_tree(&mut inner, punct('.', Spacing::Alone));
    push_tree(&mut inner, ident("clone"));
    let empty: Vec<TokenTree> = Vec::new();
    assert(trees(empty@) =~= Seq::<Tree>::empty());
    push_tree(&mut inner, group(Delimiter::Parenthesis, empty));
    assert(trees(inner@) =~= seq![Tree::Ident(var@), alone('=')] + v + seq![
        alone(';'),
        Tree::Ident(var@),
        alone('.'),
        id("clone"),
        Tree::Group(Delimiter::Parenthesis, Seq::empty()),
    ]);
    let r = group(Delimiter::Brace, inner);
    assert(seq![r@] =~= assign_block(var@, v));
    r
}

impl Setter {
    /// The same setter in the context `ctx`.
    pub fn with_context(self, ctx: ParseContext) -> (r: Self)
        ensures
            r@ == spec_with_context(self@, ctx),
    {
        match self {
            Setter::SetVar(_ctx, i) => Setter::SetVar(ctx, i),
            Setter::SetMut(_ctx, i) => Setter::SetMut(ctx, i),
            Setter::SetPython(_ctx, i) => Setter::SetPython(ctx, i),
        }
    }

    /// The expansion: a declaration of the variable, or an assignment that
    /// yields a clone of the new value.
    pub fn to_tokens(&self, tokens: &mut Vec<TokenTree>)
        ensures
            trees(final(tokens)@) == trees(old(tokens)@) + setter_tokens(self@),
    {
        let ghost start = trees(tokens@);
        match self {
            Setter::SetVar(ParseContext::Decl, i) => {
                push_tree(tokens, ident("let"));
                push_tree(tokens, TokenTree::Ident(i.var.clone()));
                push_tree(tokens, punct(';', Spacing::Alone));
                assert(trees(tokens@) =~= start + setter_tokens(self@));
            },
            Setter::SetMut(ParseContext::Decl, i) | Setter::SetPython(ParseContext::Decl, i) => {
                push_tree(tokens, ident("let"));
                push_tree(tokens, ident("mut"));
                push_tree(tokens, TokenTree::Ident(i.var.clone()));
                push_tree(tokens, punct(';', Spacing::Alone));
                assert(trees(tokens@) =~= start + setter_tokens(self@));
            },
            Setter::SetVar(ParseContext::Expr, i) | Setter::SetMut(ParseContext::Expr, i) => {
                let mut value: Vec<TokenTree> = Vec::new();
                i.to_tokens(&mut value);
                assert(trees(value@) =~= i@.expr);
                let b = assign_block_tokens(&i.var, value);
                push_tree(tokens, b);
                assert(trees(tokens@) =~= start + setter_tokens(self@));
            },
            Setter::SetPython(ParseContext::Expr, i) => {
                let mut e: Vec<TokenTree> = Vec::new();
                i.to_tokens(&mut e);
                let ghost ev = trees(e@);
                let mut cell: Vec<TokenTree> = Vec::new();
                push_tree(&mut cell, ident("RefCell"));
                push_colons(&mut cell);
                push_tree(&mut cell, ident("new"));
                push_tree(&mut cell, group(Delimiter::Parenthesis, e));
                assert(ev =~= i@.expr);
                assert(trees(cell@) =~= seq![id("RefCell")] + colons() + seq![
                    id("new"),
                    Tree::Group(Delimiter::Parenthesis, i@.expr),
                ]);
                let mut value: Vec<TokenTree> = Vec::new();
                push_tree(&mut value, ident("Rc"));
                push_colons(&mut value);
                push_tree(&mut value, ident("new"));
                push_tree(&mut value, group(Delimiter::Parenthesis, cell));
                assert(trees(value@) =~= rc_refcell(i@.expr));
                let b = assign_block_tokens(&i.var, value);
                push_tree(tokens, b);
                assert(trees(tokens@) =~= start + setter_tokens(self@));
            },
        }
    }
}

impl Setter {
    /// Parses the whole argument of a `set!` as one setter, in the expression
    /// context; "not a set" where it starts with neither `mut`, `py` nor an
    /// identifier.
    pub fn parse_whole(tokens: &Vec<TokenTree>) -> (r: Result<Setter, MacroError>)
        requires
            seq_wf(trees(tokens@)),
        ensures
            match (r, spec_whole_setter(trees(tokens@))) {
                (Ok(s), Ok(v)) => s@ == v,
                (Err(e), Err(f)) => e == f,
                _ => false,
            },
    {
        match crate::step::parse_all::<Setter>(tokens) {
            Some(s) => Ok(s),
            None => {
                let starts = is_kw(tokens, 0, "mut") || is_kw(tokens, 0, "py") || is_ident(
                    tokens,
                    0,
                );
                if starts {
                    Err(MacroError::Syntax)
                } else {
                    Err(MacroError::NotASet)
                }
            },
        }
    }

    /// The same setter with the expression `expr`.
    pub fn with_expr(self, expr: Vec<TokenTree>) -> (r: Self)
        ensures
            r@ == spec_with_expr(self@, trees(expr@)),
    {
        match self {
            Setter::SetVar(c, i) => Setter::SetVar(c, SetInfo { var: i.var, expr }),
            Setter::SetMut(c, i) => Setter::SetMut(c, SetInfo { var: i.var, expr }),
            Setter::SetPython(c, i) => Setter::SetPython(c, SetInfo { var: i.var, expr }),
        }
    }
}

/// Whether an invocation `set ! (..)` begins at `i`.
fn set_call_at(tokens: &Vec<TokenTree>, i: usize) -> (b: bool)
    ensures
        b == is_set_call(trees(tokens@), i as int),
{
    if i >= tokens.len() || tokens.len() - i <= 2 {
        return false;
    }
    let first = is_kw(tokens, i, "set");
    let bang = is_punct(tokens, i + 1, '!');
    let g = match &tokens[i + 2] {
        TokenTree::Group(d, v) => {
            proof {
                crate::tokens::lemma_group_view(*d, *v);
            }
            true
        },
        TokenTree::Ident(x) => {
            assert(trees(tokens@)[i + 2] == Tree::Ident(x@));
            false
        },
        TokenTree::Literal(x) => {
            assert(trees(tokens@)[i + 2] == Tree::Literal(x@));
            false
        },
        TokenTree::Punct(c, sp) => {
            assert(trees(tokens@)[i + 2] == Tree::Punct(*c, *sp));
            false
        },
    };
    proof {
        reveal_strlit("set");
    }
    first && bang && g
}

/// Appends `walrus_tokens` of `tokens[start..]`.
#[verifier::loop_isolation(false)]
fn walrus_into(out: &mut Vec<TokenTree>, tokens: &Vec<TokenTree>, start: usize) -> (r: Result<
    (),
    MacroError,
>)
    requires
        seq_wf(trees(tokens@)),
    ensures
        match (r, walrus_tokens(trees(tokens@), start as int)) {
            (Ok(_), Ok(w)) => trees(final(out)@) == trees(old(out)@) + w,
            (Err(e), Err(f)) => e == f,
            _ => false,
        },
    decreases tokens,
{
    let ghost ts = trees(tokens@);
    let ghost o0 = trees(out@);
    let n = tokens.len();
    let mut i = start;
    let ghost mut produced: Seq<Tree> = Seq::empty();
    assert(o0 + produced =~= o0);
    assert(produced + Seq::<Tree>::empty() =~= Seq::<Tree>::empty());
    while i < n
        invariant
            start <= i,
            n == tokens.len(),
            ts == trees(tokens@),
            seq_wf(ts),
            trees(out@) == o0 + produced,
            walrus_tokens(ts, start as int) == prepend(produced, walrus_tokens(ts, i as int)),
        decreases n - i,
    {
        let ghost here = walrus_tokens(ts, i as int);
        if set_call_at(tokens, i) {
            match &tokens[i + 2] {
                TokenTree::Group(d, inner) => {
                    proof {
                        crate::tokens::lemma_group_view(*d, *inner);
                        assert(ts[i + 2] == Tree::Group(*d, trees(inner@)));
                        assert(tree_wf(ts[i + 2]));
                        lemma_wf_group(*d, trees(inner@));
                    }
                    match Setter::parse_whole(inner) {
                        Err(e) => {
                            return Err(e);
                        },
                        Ok(st) => {
                            let k: usize = match &st {
                                Setter::SetVar(..) => 2,
                                _ => 3,
                            };
                            let k = if k <= inner.len() {
                                k
                            } else {
                                inner.len()
                            };
                            let mut e2: Vec<TokenTree> = Vec::new();
                            match walrus_into(&mut e2, inner, k) {
                                Err(e) => {
                                    return Err(e);
                                },
                                Ok(_) => {},
                            }
                            let ghost ev = trees(e2@);
                            assert(ev =~= Seq::<Tree>::empty() + ev);
                            let s2 = st.with_expr(e2);
                            s2.to_tokens(out);
                            proof {
                                let piece = setter_tokens(s2@);
                                assert(prepend(produced, prepend(piece, walrus_tokens(ts, i + 3)))
                                    == prepend(produced + piece, walrus_tokens(ts, i + 3))) by {
                                    match walrus_tokens(ts, i + 3) {
                                        Ok(w) => assert(produced + (piece + w) =~= (produced
                                            + piece) + w),
                                        Err(_) => {},
                                    }
                                }
                                produced = produced + piece;
                            }
                            i = i + 3;
                        },
                    }
                },
                _ => {
                    assert(false);
                },
            }
        } else {
            match &tokens[i] {
                TokenTree::Group(d, inner) => {
                    proof {
                        crate::tokens::lemma_group_view(*d, *inner);
                        assert(ts[i as int] == Tree::Group(*d, trees(inner@)));
                        assert(tree_wf(ts[i as int]));
                        lemma_wf_group(*d, trees(inner@));
                    }
                    let mut g: Vec<TokenTree> = Vec::new();
                    match walrus_into(&mut g, inner, 0) {
                        Err(e) => {
                            return Err(e);
                        },
                        Ok(_) => {},
                    }
                    let ghost gv = trees(g@);
                    assert(gv =~= Seq::<Tree>::empty() + gv);
                    push_tree(out, group(*d, g));
                    proof {
                        let piece = seq![Tree::Group(*d, gv)];
                        assert(prepend(produced, prepend(piece, walrus_tokens(ts, i + 1)))
                            == prepend(produced + piece, walrus_tokens(ts, i + 1))) by {
                            match walrus_tokens(ts, i + 1) {
                                Ok(w) => assert(produced + (piece + w) =~= (produced + piece)
                                    + w),
                                Err(_) => {},
                            }
                        }
                        produced = produced + piece;
                    }
                },
                other => {
                    let c = copy_tree(other);
                    push_tree(out, c);
                    proof {
                        let piece = seq![ts[i as int]];
                        assert(prepend(produced, prepend(piece, walrus_tokens(ts, i + 1)))
                            == prepend(produced + piece, walrus_tokens(ts, i + 1))) by {
                            match walrus_tokens(ts, i + 1) {
                                Ok(w) => assert(produced + (piece + w) =~= (produced + piece)
                                    + w),
                                Err(_) => {},
                            }
                        }
                        produced = produced + piece;
                    }
                },
            }
            i = i + 1;
        }
    }
    assert(produced + Seq::<Tree>::empty() =~= produced);
    Ok(())
}

/// The tokens with every `set!(..)` invocation, at any depth, replaced by
/// its setter in the expression context (`walrus_tokens`).
pub fn walrus_rewrite(tokens: &Vec<TokenTree>) -> (r: Result<Vec<TokenTree>, MacroError>)
    requires
        seq_wf(trees(tokens@)),
    ensures
        match (r, walrus_tokens(trees(tokens@), 0)) {
            (Ok(v), Ok(w)) => trees(v@) == w,
            (Err(e), Err(f)) => e == f,
            _ => false,
        },
{
    let mut out: Vec<TokenTree> = Vec::new();
    let r = walrus_into(&mut out, tokens, 0);
    assert(trees(out@) =~= Seq::<Tree>::empty() + trees(out@));
    match r {
        Ok(_) => Ok(out),
        Err(e) => Err(e),
    }
}

/// The token streams of a list of token vectors.
pub open spec fn streams(v: Seq<Vec<TokenTree>>) -> Seq<Seq<Tree>> {
    Seq::new(v.len(), |k: int| trees(v[k]@))
}

/// The arguments of the `set!(..)` invocations in `ts[i..]`, found by
/// scanning the token trees one by one: after an identifier `set`, the next
/// token is taken, and if it is `!`, the one after it too; if that one is a
/// group, its own `set!` invocations come first and then its content. With
/// `deep`, the scan also enters every other group.
pub open spec fn scan_sets(ts: Seq<Tree>, i: int, deep: bool) -> Seq<Seq<Tree>>
    decreases ts, ts.len() - i,
{
    if i < 0 || i >= ts.len() {
        Seq::empty()
    } else {
        match ts[i] {
            Tree::Ident(s) => if s == "set"@ {
                if i + 1 < ts.len() {
                    if ts[i + 1] matches Tree::Punct(c, _) && c == '!' {
                        if i + 2 < ts.len() {
                            match ts[i + 2] {
                                Tree::Group(_, inner) => {
                                    proof {
                                        let t = ts[i + 2];
                                        assert(decreases_to!(ts => t));
                                        assert(decreases_to!(t => t->Group_1));
                                    }
                                    scan_sets(inner, 0, deep) + seq![inner] + scan_sets(
                                        ts,
                                        i + 3,
                                        deep,
                                    )
                                },
                                _ => scan_sets(ts, i + 3, deep),
                            }
                        } else {
                            Seq::empty()
                        }
                    } else {
                        scan_sets(ts, i + 2, deep)
                    }
                } else {
                    Seq::empty()
                }
            } else {
                scan_sets(ts, i + 1, deep)
            },
            Tree::Group(_, inner) => if deep {
                proof {
                    let t = ts[i];
                    assert(decreases_to!(ts => t));
                    assert(decreases_to!(t => t->Group_1));
                }
                scan_sets(inner, 0, deep) + scan_sets(ts, i + 1, deep)
            } else {
                scan_sets(ts, i + 1, deep)
            },
            _ => scan_sets(ts, i + 1, deep),
        }
    }
}

/// Appends the arguments of the `set!(..)` invocations of `tokens`, scanning
/// as `scan_sets` says.
fn scan_into(out: &mut Vec<Vec<TokenTree>>, tokens: &Vec<TokenTree>, deep: bool)
    ensures
        streams(final(out)@) == streams(old(out)@) + scan_sets(trees(tokens@), 0, deep),
    decreases tokens,
{
    let ghost ts = trees(tokens@);
    let ghost start = streams(out@);
    let n = tokens.len();
    let mut i: usize = 0;
    assert(streams(out@) =~= start + Seq::<Seq<Tree>>::empty());
    assert(Seq::<Seq<Tree>>::empty() + scan_sets(ts, 0, deep) =~= scan_sets(ts, 0, deep));
    #[verifier::loop_isolation(false)]
    while i < n
        invariant
            i <= n + 1,
            n == tokens.len(),
            ts == trees(tokens@),
            exists|found: Seq<Seq<Tree>>|
                streams(out@) == start + found && #[trigger] (found + scan_sets(ts, i as int, deep))
                    == scan_sets(ts, 0, deep),
        decreases n + 1 - i,
    {
        let ghost found = choose|found: Seq<Seq<Tree>>|
            streams(out@) == start + found && #[trigger] (found + scan_sets(ts, i as int, deep))
                == scan_sets(ts, 0, deep);
        let ghost here = scan_sets(ts, i as int, deep);
        let ghost before = streams(out@);
        let ghost mut f2 = found;
        match &tokens[i] {
            TokenTree::Ident(name) => {
                assert(ts[i as int] == Tree::Ident(name@));
                let set = String::from_str("set");
                if *name == set {
                    if i + 1 < n {
                        let bang = is_punct(tokens, i + 1, '!');
                        if bang {
                            if i + 2 < n {
                                match &tokens[i + 2] {
                                    TokenTree::Group(d, inner) => {
                                        proof {
                                            crate::tokens::lemma_group_view(*d, *inner);
                                            assert(ts[i + 2] == Tree::Group(*d, trees(inner@)));
                                        }
                                        scan_into(out, inner, deep);
                                        let c = copy_range(inner, 0, inner.len());
                                        assert(trees(inner@).subrange(0, inner.len() as int) =~= trees(inner@));
                                        out.push(c);
                                        proof {
                                            let nested = scan_sets(trees(inner@), 0, deep);
                                            assert(here == nested + seq![trees(inner@)] + scan_sets(ts, i + 3, deep));
                                            assert(streams(out@) =~= before + nested + seq![trees(inner@)]);
                                            f2 = found + nested + seq![trees(inner@)];
                                            assert(streams(out@) =~= start + f2);
                                            assert(f2 + scan_sets(ts, i + 3, deep) =~= found + here);
                                        }
                                    },
                                    _ => {
                                        proof {
                                            assert(!(ts[i + 2] is Group));
                                            assert(here == scan_sets(ts, i + 3, deep));
                                        }
                                    },
                                }
                                i = i + 3;
                            } else {
                                assert(here == Seq::<Seq<Tree>>::empty());
                                assert(found + scan_sets(ts, n as int, deep) =~= found + here);
                                i = n;
                            }
                        } else {
                            assert(here == scan_sets(ts, i + 2, deep));
                            i = i + 2;
                        }
                    } else {
                        assert(here == Seq::<Seq<Tree>>::empty());
                        i = n;
                    }
                } else {
                    assert(here == scan_sets(ts, i + 1, deep));
                    i = i + 1;
                }
            },
            TokenTree::Group(d, inner) => {
                proof {
                    crate::tokens::lemma_group_view(*d, *inner);
                    assert(ts[i as int] == Tree::Group(*d, trees(inner@)));
                }
                if deep {
                    scan_into(out, inner, deep);
                    proof {
                        let nested = scan_sets(trees(inner@), 0, deep);
                        assert(here == nested + scan_sets(ts, i + 1, deep));
                        f2 = found + nested;
                        assert(streams(out@) =~= start + f2);
                        assert(f2 + scan_sets(ts, i + 1, deep) =~= found + here);
                    }
                } else {
                    assert(here == scan_sets(ts, i + 1, deep));
                }
                i = i + 1;
            },
            TokenTree::Punct(c, sp) => {
                assert(ts[i as int] == Tree::Punct(*c, *sp));
                assert(here == scan_sets(ts, i + 1, deep));
                i = i + 1;
            },
            TokenTree::Literal(l) => {
                assert(ts[i as int] == Tree::Literal(l@));
                assert(here == scan_sets(ts, i + 1, deep));
                i = i + 1;
            },
        }
        assert(streams(out@) == start + f2);
        assert(f2 + scan_sets(ts, i as int, deep) =~= scan_sets(ts, 0, deep));
    }
    let ghost found = choose|found: Seq<Seq<Tree>>|
        streams(out@) == start + found && #[trigger] (found + scan_sets(ts, i as int, deep))
            == scan_sets(ts, 0, deep);
    assert(found + scan_sets(ts, i as int, deep) =~= found);
}

/// Finds the arguments of `set!(..)` invocations, only in the token trees of
/// `tokens` themselves and in the arguments found, not in other groups.
pub fn parse_set_macro(tokens: &Vec<TokenTree>) -> (r: Vec<Vec<TokenTree>>)
    ensures
        streams(r@) == scan_sets(trees(tokens@), 0, false),
{
    let mut r: Vec<Vec<TokenTree>> = Vec::new();
    assert(streams(r@) =~= Seq::<Seq<Tree>>::empty());
    scan_into(&mut r, tokens, false);
    assert(streams(r@) =~= scan_sets(trees(tokens@), 0, false));
    r
}

/// The path of a macro invocation is the single identifier `set`.
pub open spec fn is_set_path(path: Seq<Tree>) -> bool {
    path == seq![Tree::Ident("set"@)]
}

/// Collects the arguments of the `set!` invocations met while the scoped
/// expressions are walked.
pub struct SetterVisitor {
    pub setters: Vec<Vec<TokenTree>>,
}

impl View for SetterVisitor {
    type V = Seq<Seq<Tree>>;

    open spec fn view(&self) -> Seq<Seq<Tree>> {
        streams(self.setters@)
    }
}

impl Default for SetterVisitor {
    fn default() -> (r: Self)
        ensures
            r@ == Seq::<Seq<Tree>>::empty(),
    {
        let r = SetterVisitor { setters: Vec::new() };
        assert(r@ =~= Seq::<Seq<Tree>>::empty());
        r
    }
}

/// Whether `path` is the single identifier `set`.
fn is_set_ident(path: &Vec<TokenTree>) -> (b: bool)
    ensures
        b == is_set_path(trees(path@)),
{
    if path.len() != 1 {
        assert(trees(path@).len() != 1);
        return false;
    }
    match &path[0] {
        TokenTree::Ident(name) => {
            let set = String::from_str("set");
            let b = *name == set;
            proof {
                reveal_strlit("set");
                assert(trees(path@)[0] == Tree::Ident(name@));
                if b {
                    assert(trees(path@) =~= seq![Tree::Ident("set"@)]);
                } else {
                    assert(trees(path@)[0] != seq![Tree::Ident("set"@)][0]);
                }
            }
            b
        },
        TokenTree::Punct(c, sp) => {
            assert(trees(path@)[0] == Tree::Punct(*c, *sp));
            assert(trees(path@)[0] != seq![Tree::Ident("set"@)][0]);
            false
        },
        TokenTree::Literal(l) => {
            assert(trees(path@)[0] == Tree::Literal(l@));
            assert(trees(path@)[0] != seq![Tree::Ident("set"@)][0]);
            false
        },
        TokenTree::Group(d, v) => {
            proof {
                crate::tokens::lemma_group_view(*d, *v);
            }
            assert(trees(path@)[0] == Tree::Group(*d, trees(v@)));
            assert(trees(path@)[0] != seq![Tree::Ident("set"@)][0]);
            false
        },
    }
}

impl SetterVisitor {
    /// Collects the arguments of the `set!` invocations in `tokens`, at any
    /// depth, each after those nested in it.
    pub fn process_set_macro(&mut self, tokens: &Vec<TokenTree>)
        ensures
            final(self)@ == old(self)@ + scan_sets(trees(tokens@), 0, true),
    {
        scan_into(&mut self.setters, tokens, true);
    }

    /// What is done at a macro invocation met while the scoped expressions
    /// are walked, given the invocation's path and its tokens: for `set!` its
    /// argument is collected, then the `set!` invocations inside it; for
    /// another macro only those inside its tokens, at any depth. Each `set!`
    /// invocation is thus collected once, where the walk meets the macro
    /// that holds it; the walk does not go on into macro tokens.
    pub fn visit_expr_macro(&mut self, path: &Vec<TokenTree>, tokens: &Vec<TokenTree>)
        ensures
            is_set_path(trees(path@)) ==> final(self)@ == old(self)@ + seq![trees(tokens@)]
                + scan_sets(trees(tokens@), 0, true),
            !is_set_path(trees(path@)) ==> final(self)@ == old(self)@ + scan_sets(
                trees(tokens@),
                0,
                true,
            ),
    {
        if is_set_ident(path) {
            let c = copy_range(tokens, 0, tokens.len());
            assert(trees(tokens@).subrange(0, tokens.len() as int) =~= trees(tokens@));
            let ghost before = self@;
            self.setters.push(c);
            assert(self@ =~= before + seq![trees(tokens@)]);
            self.process_set_macro(tokens);
        } else {
            self.process_set_macro(tokens);
        }
    }
}


/// Every argument that the scan finds in well-formed tokens is well formed.
pub proof fn lemma_scan_sets_wf(ts: Seq<Tree>, i: int, deep: bool)
    requires
        seq_wf(ts),
    ensures
        forall|k: int|
            0 <= k < scan_sets(ts, i, deep).len() ==> seq_wf(#[trigger] scan_sets(ts, i, deep)[k]),
    decreases ts, ts.len() - i,
{
    if 0 <= i < ts.len() {
        let r = scan_sets(ts, i, deep);
        match ts[i] {
            Tree::Ident(s) => {
                if s == "set"@ {
                    if i + 1 < ts.len() {
                        if ts[i + 1] matches Tree::Punct(c, _) && c == '!' {
                            if i + 2 < ts.len() {
                                match ts[i + 2] {
                                    Tree::Group(d, inner) => {
                                        let t = ts[i + 2];
                                        assert(decreases_to!(ts => t));
                                        assert(decreases_to!(t => t->Group_1));
                                        assert(tree_wf(ts[i + 2]));
                                        lemma_wf_group(d, inner);
                                        lemma_scan_sets_wf(inner, 0, deep);
                                        lemma_scan_sets_wf(ts, i + 3, deep);
                                        let a = scan_sets(inner, 0, deep);
                                        let b = scan_sets(ts, i + 3, deep);
                                        assert(r == a + seq![inner] + b);
                                        assert forall|k: int| 0 <= k < r.len() implies seq_wf(
                                            #[trigger] r[k],
                                        ) by {
                                            if k < a.len() {
                                                assert(r[k] == a[k]);
                                            } else if k == a.len() {
                                                assert(r[k] == inner);
                                            } else {
                                                assert(r[k] == b[k - a.len() - 1]);
                                            }
                                        }
                                    },
                                    _ => {
                                        lemma_scan_sets_wf(ts, i + 3, deep);
                                        assert(r == scan_sets(ts, i + 3, deep));
                                    },
                                }
                            } else {
                                assert(r == Seq::<Seq<Tree>>::empty());
                            }
                        } else {
                            lemma_scan_sets_wf(ts, i + 2, deep);
                            assert(r == scan_sets(ts, i + 2, deep));
                        }
                    } else {
                        assert(r == Seq::<Seq<Tree>>::empty());
                    }
                } else {
                    lemma_scan_sets_wf(ts, i + 1, deep);
                    assert(r == scan_sets(ts, i + 1, deep));
                }
            },
            Tree::Group(d, inner) => {
                lemma_scan_sets_wf(ts, i + 1, deep);
                if deep {
                    let t = ts[i];
                    assert(decreases_to!(ts => t));
                    assert(decreases_to!(t => t->Group_1));
                    assert(tree_wf(ts[i]));
                    lemma_wf_group(d, inner);
                    lemma_scan_sets_wf(inner, 0, deep);
                    let a = scan_sets(inner, 0, deep);
                    let b = scan_sets(ts, i + 1, deep);
                    assert(r == a + b);
                    assert forall|k: int| 0 <= k < r.len() implies seq_wf(#[trigger] r[k]) by {
                        if k < a.len() {
                            assert(r[k] == a[k]);
                        } else {
                            assert(r[k] == b[k - a.len()]);
                        }
                    }
                } else {
                    assert(r == scan_sets(ts, i + 1, deep));
                }
            },
            _ => {
                lemma_scan_sets_wf(ts, i + 1, deep);
                assert(r == scan_sets(ts, i + 1, deep));
            },
        }
    } else {
        assert(scan_sets(ts, i, deep) == Seq::<Seq<Tree>>::empty());
    }
}

/// What the walk collects at one macro invocation, given its path and its
/// tokens (`SetterVisitor::visit_expr_macro`).
pub open spec fn visit_found(path: Seq<Tree>, toks: Seq<Tree>) -> Seq<Seq<Tree>> {
    if is_set_path(path) {
        seq![toks] + scan_sets(toks, 0, true)
    } else {
        scan_sets(toks, 0, true)
    }
}

/// What the walk collects at the macro invocations `ms`, in order.
pub open spec fn macros_setters(ms: Seq<(Seq<Tree>, Seq<Tree>)>) -> Seq<Seq<Tree>>
    decreases ms.len(),
{
    if ms.len() == 0 {
        Seq::empty()
    } else {
        macros_setters(ms.drop_last()) + visit_found(ms.last().0, ms.last().1)
    }
}

/// The `set!` arguments found in the expressions `es`, in order: in each
/// expression, at the macro invocations that `syn`'s walk meets
/// (`syn_macros`). The walk stops at the first expression that `syn` does not
/// parse; the flag says whether it walked them all.
pub open spec fn exprs_setters(es: Seq<Seq<Tree>>) -> (Seq<Seq<Tree>>, bool)
    decreases es.len(),
{
    if es.len() == 0 {
        (Seq::empty(), true)
    } else {
        let (a, ok) = exprs_setters(es.drop_last());
        if !ok {
            (a, false)
        } else {
            match syn_macros(es.last()) {
                Some(ms) => (a + macros_setters(ms), true),
                None => (a, false),
            }
        }
    }
}

/// Where the walk stops at the expression `i`, it stops for the whole.
proof fn lemma_exprs_setters_stop(es: Seq<Seq<Tree>>, i: int, a: Seq<Seq<Tree>>)
    requires
        0 <= i < es.len(),
        exprs_setters(es.subrange(0, i)) == (a, true),
        syn_macros(es[i]) is None,
    ensures
        exprs_setters(es) == (a, false),
    decreases es.len(),
{
    if i < es.len() - 1 {
        assert(es.drop_last().subrange(0, i) =~= es.subrange(0, i));
        assert(es.drop_last()[i] == es[i]);
        lemma_exprs_setters_stop(es.drop_last(), i, a);
    } else {
        assert(es.drop_last() =~= es.subrange(0, i));
    }
}

/// The expressions split off well-formed tokens are well formed.
pub proof fn lemma_split_wf(ts: Seq<Tree>, p: usize)
    requires
        seq_wf(ts),
        ts.len() <= usize::MAX,
    ensures
        forall|k: int|
            0 <= k < spec_split(ts, p).0.len() ==> seq_wf(#[trigger] spec_split(ts, p).0[k]),
    decreases ts.len() - p,
{
    if p < ts.len() {
        match spec_expr(ts, p) {
            Step::Done(e, q) => {
                let q2 = if peek_punct(ts, q, ';') {
                    (q + 1) as usize
                } else {
                    q
                };
                if p < q2 <= ts.len() {
                    lemma_split_wf(ts, q2);
                    assert(e == ts.subrange(p as int, q as int));
                    assert(seq_wf(e)) by {
                        assert forall|j: int| 0 <= j < e.len() implies #[trigger] tree_wf(e[j]) by {
                            assert(e[j] == ts[p + j]);
                        }
                    }
                    let r = spec_split(ts, p).0;
                    let rest = spec_split(ts, q2).0;
                    assert(r == seq![e] + rest);
                    assert forall|k: int| 0 <= k < r.len() implies seq_wf(#[trigger] r[k]) by {
                        if k > 0 {
                            assert(r[k] == rest[k - 1]);
                        }
                    }
                }
            },
            _ => {},
        }
    }
}

/// Collects the `set!` arguments of the expressions, in order, as `syn`'s
/// walk meets the macro invocations in each (`exprs_setters`).
pub fn collect_setters(exprs: &Vec<Vec<TokenTree>>) -> (r: (Vec<Vec<TokenTree>>, bool))
    requires
        forall|k: int| 0 <= k < exprs.len() ==> seq_wf(#[trigger] trees(exprs@[k]@)),
    ensures
        (streams(r.0@), r.1) == exprs_setters(streams(exprs@)),
        forall|k: int| 0 <= k < r.0.len() ==> seq_wf(#[trigger] trees(r.0@[k]@)),
{
    let ghost es = streams(exprs@);
    let mut visitor = SetterVisitor::default();
    let mut walked = true;
    let mut i: usize = 0;
    assert(es.subrange(0, 0) =~= Seq::<Seq<Tree>>::empty());
    while i < exprs.len() && walked
        invariant
            i <= exprs.len(),
            es == streams(exprs@),
            forall|k: int| 0 <= k < exprs.len() ==> seq_wf(#[trigger] trees(exprs@[k]@)),
            walked ==> exprs_setters(es.subrange(0, i as int)) == (visitor@, true),
            !walked ==> exprs_setters(es) == (visitor@, false),
            forall|k: int| 0 <= k < visitor@.len() ==> seq_wf(#[trigger] visitor@[k]),
        decreases exprs.len() - i, (if walked { 1int } else { 0int }),
    {
        assert(seq_wf(trees(exprs@[i as int]@)));
        match expr_macros(&exprs[i]) {
            None => {
                proof {
                    lemma_exprs_setters_stop(es, i as int, visitor@);
                }
                walked = false;
            },
            Some(ms) => {
                let ghost mv = pair_views(ms@);
                let ghost start = visitor@;
                let mut j: usize = 0;
                assert(mv.subrange(0, 0) =~= Seq::<(Seq<Tree>, Seq<Tree>)>::empty());
                assert(start + Seq::<Seq<Tree>>::empty() =~= start);
                while j < ms.len()
                    invariant
                        j <= ms.len(),
                        mv == pair_views(ms@),
                        forall|k: int| 0 <= k < ms.len() ==> seq_wf(#[trigger] trees(ms@[k].1@)),
                        visitor@ == start + macros_setters(mv.subrange(0, j as int)),
                        forall|k: int| 0 <= k < visitor@.len() ==> seq_wf(#[trigger] visitor@[k]),
                    decreases ms.len() - j,
                {
                    let ghost before = visitor@;
                    let ghost toks = trees(ms@[j as int].1@);
                    assert(seq_wf(toks));
                    visitor.visit_expr_macro(&ms[j].0, &ms[j].1);
                    proof {
                        let sub = mv.subrange(0, j + 1);
                        assert(sub.drop_last() =~= mv.subrange(0, j as int));
                        assert(sub.last() == mv[j as int]);
                        let found = visit_found(mv[j as int].0, mv[j as int].1);
                        assert(visitor@ =~= before + found);
                        assert(start + macros_setters(sub) =~= start + macros_setters(
                            mv.subrange(0, j as int),
                        ) + found);
                        lemma_scan_sets_wf(toks, 0, true);
                        assert forall|k: int| 0 <= k < visitor@.len() implies seq_wf(
                            #[trigger] visitor@[k],
                        ) by {
                            if k >= before.len() {
                                let f = k - before.len();
                                assert(visitor@[k] == found[f]);
                                if is_set_path(mv[j as int].0) {
                                    if f > 0 {
                                        assert(found[f] == scan_sets(toks, 0, true)[f - 1]);
                                    }
                                } else {
                                    assert(found[f] == scan_sets(toks, 0, true)[f]);
                                }
                            }
                        }
                    }
                    j = j + 1;
                }
                proof {
                    assert(mv.subrange(0, ms.len() as int) =~= mv);
                    let sub = es.subrange(0, i + 1);
                    assert(sub.drop_last() =~= es.subrange(0, i as int));
                    assert(sub.last() == es[i as int]);
                }
                i = i + 1;
            },
        }
    }
    if walked {
        assert(es.subrange(0, exprs.len() as int) =~= es);
    }
    let ghost v = visitor@;
    let setters = visitor.setters;
    assert(streams(setters@) == v);
    assert forall|k: int| 0 <= k < setters.len() implies seq_wf(#[trigger] trees(setters@[k]@)) by {
        assert(v[k] == trees(setters@[k]@));
    }
    (setters, walked)
}

/// Splits the scoped tokens into expressions: an expression, then a `;` if
/// there is one, until the end. Gives the expressions split before the first
/// one that does not parse, and whether all of them parsed.
pub open spec fn spec_split(ts: Seq<Tree>, p: usize) -> (Seq<Seq<Tree>>, bool)
    decreases ts.len() - p,
{
    if p >= ts.len() {
        (Seq::empty(), true)
    } else {
        match spec_expr(ts, p) {
            Step::Done(e, q) => {
                let q2 = if peek_punct(ts, q, ';') {
                    (q + 1) as usize
                } else {
                    q
                };
                if p < q2 <= ts.len() {
                    let (es, all) = spec_split(ts, q2);
                    (seq![e] + es, all)
                } else {
                    (Seq::empty(), false)
                }
            },
            _ => (Seq::empty(), false),
        }
    }
}

/// Parses each setter argument, all of its tokens, and puts the setter in
/// the declaration context; the first argument that does not parse gives the
/// error.
pub open spec fn spec_setters(args: Seq<Seq<Tree>>) -> Result<Seq<SetterView>, MacroError>
    decreases args.len(),
{
    if args.len() == 0 {
        Ok(Seq::empty())
    } else {
        match spec_setters(args.drop_last()) {
            Err(e) => Err(e),
            Ok(ss) => match spec_whole_setter(args.last()) {
                Err(e) => Err(e),
                Ok(s) => Ok(ss.push(spec_with_context(s, ParseContext::Decl))),
            },
        }
    }
}

/// A scoped block: its setters, in the declaration context, from the `set!`
/// arguments found in its expressions, and its expressions with each `set!`
/// invocation rewritten (`walrus_tokens`). Errors come in the order of the
/// expressions: those of the setters found in the expressions that parsed,
/// then the expression that did not parse (`all` false), then the rewrite.
pub open spec fn spec_scoper(exprs: Seq<Seq<Tree>>, args: Seq<Seq<Tree>>, all: bool) -> Result<
    ScoperView,
    MacroError,
> {
    match spec_setters(args) {
        Err(e) => Err(e),
        Ok(ss) => if !all {
            Err(MacroError::Syntax)
        } else {
            match walrus_all(exprs) {
                Err(e) => Err(e),
                Ok(ws) => Ok(ScoperView { setters: ss, exprs: ws }),
            }
        },
    }
}

/// The declarations and the expressions of a scoped block.
pub struct Scoper {
    pub setters: Vec<Setter>,
    pub exprs: Vec<Vec<TokenTree>>,
}

/// The value of a scoped block.
pub struct ScoperView {
    pub setters: Seq<SetterView>,
    pub exprs: Seq<Seq<Tree>>,
}

impl View for Scoper {
    type V = ScoperView;

    open spec fn view(&self) -> ScoperView {
        ScoperView { setters: crate::step::views(self.setters@), exprs: streams(self.exprs@) }
    }
}

/// The declarations of the setters, in order.
pub open spec fn setters_tokens(ss: Seq<SetterView>) -> Seq<Tree>
    decreases ss.len(),
{
    if ss.len() == 0 {
        Seq::empty()
    } else {
        setters_tokens(ss.drop_last()) + setter_tokens(ss.last())
    }
}

/// Each expression followed by `;`.
pub open spec fn statements(es: Seq<Seq<Tree>>) -> Seq<Tree>
    decreases es.len(),
{
    if es.len() == 0 {
        Seq::empty()
    } else {
        statements(es.drop_last()) + es.last() + seq![alone(';')]
    }
}

/// The expansion of a scoped block: a block with the declarations first, then
/// every expression but the last as a statement, then the last one, whose
/// value the block yields. Without expressions, the declarations alone.
pub open spec fn scoper_tokens(v: ScoperView) -> Seq<Tree> {
    if v.exprs.len() > 0 {
        seq![
            Tree::Group(
                Delimiter::Brace,
                setters_tokens(v.setters) + statements(v.exprs.drop_last()) + v.exprs.last(),
            ),
        ]
    } else {
        setters_tokens(v.setters)
    }
}

impl Scoper {
    /// Splits the tokens of `scoped!` into its expressions, up to the first
    /// one that does not parse; the flag says whether all of them parsed.
    pub fn split_exprs(tokens: &Vec<TokenTree>) -> (r: (Vec<Vec<TokenTree>>, bool))
        requires
            seq_wf(trees(tokens@)),
        ensures
            (streams(r.0@), r.1) == spec_split(trees(tokens@), 0),
    {
        let ghost ts = trees(tokens@);
        let mut exprs: Vec<Vec<TokenTree>> = Vec::new();
        let mut p: usize = 0;
        assert(streams(exprs@) + spec_split(ts, 0).0 =~= spec_split(ts, 0).0);
        while p < tokens.len()
            invariant
                p <= tokens.len(),
                ts == trees(tokens@),
                seq_wf(ts),
                spec_split(ts, 0) == (streams(exprs@) + spec_split(ts, p).0, spec_split(ts, p).1),
            decreases tokens.len() - p,
        {
            match parse_expr(tokens, p) {
                Step::Done(e, q) => {
                    let q2 = if is_punct(tokens, q, ';') {
                        q + 1
                    } else {
                        q
                    };
                    let ghost ev = trees(e@);
                    let ghost before = streams(exprs@);
                    exprs.push(e);
                    proof {
                        assert(streams(exprs@) =~= before + seq![ev]);
                        let es = spec_split(ts, q2).0;
                        assert(streams(exprs@) + es =~= before + (seq![ev] + es));
                    }
                    p = q2;
                },
                _ => {
                    proof {
                        assert(streams(exprs@) + Seq::<Seq<Tree>>::empty() =~= streams(exprs@));
                    }
                    return (exprs, false);
                },
            }
        }
        assert(streams(exprs@) + Seq::<Seq<Tree>>::empty() =~= streams(exprs@));
        (exprs, true)
    }

    /// The scoped block of the expressions `exprs`, given the arguments of the
    /// `set!` invocations found in them, in order, and whether all the
    /// expressions parsed: the setters are declared, and each `set!`
    /// invocation in the expressions is rewritten to bind its variable and
    /// yield the value.
    pub fn parse(exprs: Vec<Vec<TokenTree>>, setter_args: &Vec<Vec<TokenTree>>, all: bool) -> (r: Result<
        Scoper,
        MacroError,
    >)
        requires
            forall|k: int| 0 <= k < setter_args.len() ==> seq_wf(#[trigger] trees(setter_args@[k]@)),
            forall|k: int| 0 <= k < exprs.len() ==> seq_wf(#[trigger] trees(exprs@[k]@)),
        ensures
            match (r, spec_scoper(streams(exprs@), streams(setter_args@), all)) {
                (Ok(sc), Ok(v)) => sc@ == v,
                (Err(e), Err(f)) => e == f,
                _ => false,
            },
    {
        let ghost args = streams(setter_args@);
        let ghost es = streams(exprs@);
        let mut setters: Vec<Setter> = Vec::new();
        let mut k: usize = 0;
        assert(args.subrange(0, 0) =~= Seq::<Seq<Tree>>::empty());
        assert(crate::step::views(setters@) =~= Seq::<SetterView>::empty());
        while k < setter_args.len()
            invariant
                k <= setter_args.len(),
                args == streams(setter_args@),
                forall|j: int| 0 <= j < setter_args.len() ==> seq_wf(#[trigger] trees(setter_args@[j]@)),
                spec_setters(args.subrange(0, k as int)) == Ok::<Seq<SetterView>, MacroError>(
                    crate::step::views(setters@),
                ),
            decreases setter_args.len() - k,
        {
            assert(seq_wf(trees(setter_args@[k as int]@)));
            let ghost sub = args.subrange(0, k + 1);
            assert(sub.drop_last() =~= args.subrange(0, k as int));
            assert(sub.last() == trees(setter_args[k as int]@));
            match Setter::parse_whole(&setter_args[k]) {
                Ok(s) => {
                    let s2 = s.with_context(ParseContext::Decl);
                    let ghost before = crate::step::views(setters@);
                    setters.push(s2);
                    assert(crate::step::views(setters@) =~= before.push(s2@));
                },
                Err(e) => {
                    proof {
                        lemma_setters_err(args, k as int);
                    }
                    return Err(e);
                },
            }
            k = k + 1;
        }
        assert(args.subrange(0, setter_args.len() as int) =~= args);
        if !all {
            return Err(MacroError::Syntax);
        }
        let mut rewritten: Vec<Vec<TokenTree>> = Vec::new();
        let mut i: usize = 0;
        assert(es.subrange(0, 0) =~= Seq::<Seq<Tree>>::empty());
        assert(streams(rewritten@) =~= Seq::<Seq<Tree>>::empty());
        while i < exprs.len()
            invariant
                i <= exprs.len(),
                es == streams(exprs@),
                args == streams(setter_args@),
                all,
                spec_setters(args) == Ok::<Seq<SetterView>, MacroError>(
                    crate::step::views(setters@),
                ),
                forall|j: int| 0 <= j < exprs.len() ==> seq_wf(#[trigger] trees(exprs@[j]@)),
                walrus_all(es.subrange(0, i as int)) == Ok::<Seq<Seq<Tree>>, MacroError>(
                    streams(rewritten@),
                ),
            decreases exprs.len() - i,
        {
            assert(seq_wf(trees(exprs@[i as int]@)));
            let ghost sub = es.subrange(0, i + 1);
            assert(sub.drop_last() =~= es.subrange(0, i as int));
            assert(sub.last() == trees(exprs[i as int]@));
            match walrus_rewrite(&exprs[i]) {
                Ok(w) => {
                    let ghost before = streams(rewritten@);
                    let ghost wv = trees(w@);
                    rewritten.push(w);
                    assert(streams(rewritten@) =~= before.push(wv));
                },
                Err(e) => {
                    proof {
                        lemma_walrus_all_err(es, i as int);
                    }
                    return Err(e);
                },
            }
            i = i + 1;
        }
        assert(es.subrange(0, exprs.len() as int) =~= es);
        let r = Scoper { setters, exprs: rewritten };
        Ok(r)
    }

    /// The expansion: a block with the declarations first, then the
    /// expressions, the last one yielding the block's value.
    pub fn to_tokens(&self, tokens: &mut Vec<TokenTree>)
        ensures
            trees(final(tokens)@) == trees(old(tokens)@) + scoper_tokens(self@),
    {
        let ghost v = self@;
        let mut body: Vec<TokenTree> = Vec::new();
        let mut k: usize = 0;
        assert(trees(body@) =~= setters_tokens(v.setters.subrange(0, 0)));
        while k < self.setters.len()
            invariant
                k <= self.setters.len(),
                v == self@,
                trees(body@) == setters_tokens(v.setters.subrange(0, k as int)),
            decreases self.setters.len() - k,
        {
            self.setters[k].to_tokens(&mut body);
            proof {
                let sub = v.setters.subrange(0, k + 1);
                assert(sub.drop_last() =~= v.setters.subrange(0, k as int));
                assert(sub.last() == v.setters[k as int]);
            }
            k = k + 1;
        }
        assert(v.setters.subrange(0, self.setters.len() as int) =~= v.setters);
        let n = self.exprs.len();
        if n == 0 {
            append_trees(tokens, body);
            return;
        }
        let ghost sets = trees(body@);
        let mut i: usize = 0;
        assert(statements(v.exprs.subrange(0, 0)) =~= Seq::<Tree>::empty());
        assert(trees(body@) =~= sets + statements(v.exprs.subrange(0, 0)));
        while i + 1 < n
            invariant
                i + 1 <= n,
                n == self.exprs.len(),
                v == self@,
                trees(body@) == sets + statements(v.exprs.subrange(0, i as int)),
            decreases n - i,
        {
            append_copy(&mut body, &self.exprs[i]);
            push_tree(&mut body, punct(';', Spacing::Alone));
            proof {
                let sub = v.exprs.subrange(0, i + 1);
                assert(sub.drop_last() =~= v.exprs.subrange(0, i as int));
                assert(sub.last() == v.exprs[i as int]);
                assert(trees(body@) =~= sets + statements(sub));
            }
            i = i + 1;
        }
        append_copy(&mut body, &self.exprs[n - 1]);
        assert(v.exprs.drop_last() =~= v.exprs.subrange(0, (n - 1) as int));
        assert(trees(body@) =~= setters_tokens(v.setters) + statements(v.exprs.drop_last())
            + v.exprs.last());
        push_tree(tokens, group(Delimiter::Brace, body));
    }
}

/// Where the arguments before `k` parse and the one at `k` does not, its
/// error is the error of the whole.
proof fn lemma_setters_err(args: Seq<Seq<Tree>>, k: int)
    requires
        0 <= k < args.len(),
        spec_setters(args.subrange(0, k)) is Ok,
        spec_whole_setter(args[k]) is Err,
    ensures
        spec_setters(args) == Err::<Seq<SetterView>, MacroError>(
            spec_whole_setter(args[k])->Err_0,
        ),
    decreases args.len(),
{
    if k < args.len() - 1 {
        assert(args.drop_last().subrange(0, k) =~= args.subrange(0, k));
        assert(args.drop_last()[k] == args[k]);
        lemma_setters_err(args.drop_last(), k);
    } else {
        assert(args.drop_last() =~= args.subrange(0, k));
    }
}

/// Where the expressions before `k` are rewritten and the one at `k` fails,
/// its error is the error of the whole.
proof fn lemma_walrus_all_err(es: Seq<Seq<Tree>>, k: int)
    requires
        0 <= k < es.len(),
        walrus_all(es.subrange(0, k)) is Ok,
        walrus_tokens(es[k], 0) is Err,
    ensures
        walrus_all(es) == Err::<Seq<Seq<Tree>>, MacroError>(walrus_tokens(es[k], 0)->Err_0),
    decreases es.len(),
{
    if k < es.len() - 1 {
        assert(es.drop_last().subrange(0, k) =~= es.subrange(0, k));
        assert(es.drop_last()[k] == es[k]);
        lemma_walrus_all_err(es.drop_last(), k);
    } else {
        assert(es.drop_last() =~= es.subrange(0, k));
    }
}

} // verus!
