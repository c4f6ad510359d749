//! The macros themselves: each takes the token trees of its invocation and
//! gives the token trees of its expansion.
use vstd::prelude::*;

use crate::comp::{id, alone, nest, spec_comprehension, Comprehension};
use crate::error::MacroError;
use crate::func::{lambda_tokens, spec_lambda, LambdaFunc};
use crate::list::{list_tokens, spec_list, List};
use crate::scope::{
    collect_setters, exprs_setters, lemma_split_wf, scoper_tokens, spec_scoper, spec_split, streams,
    Scoper,
};
use crate::step::{complete, parse_all, Step};
use crate::tokens::{
    flat_trees, flatten_into, ident, punct, push_tree, seq_wf, trees, Spacing, TokenTree, Tree,
};

verus! {

/// What `comp!` gives for the tokens `ts`.
pub open spec fn spec_comp(ts: Seq<Tree>) -> Result<Seq<Tree>, MacroError> {
    match complete(ts, spec_comprehension(ts, 0)) {
        None => Err(MacroError::Syntax),
        Some(c) => if c.for_ifs.len() == 0 {
            Err(MacroError::MissingForClause)
        } else {
            Ok(nest(c.for_ifs, c.expr))
        },
    }
}

/// What `lambda!` gives for the tokens `ts`.
pub open spec fn spec_lambda_macro(ts: Seq<Tree>) -> Result<Seq<Tree>, MacroError> {
    match complete(ts, spec_lambda(ts, 0)) {
        None => Err(MacroError::Syntax),
        Some(l) => Ok(lambda_tokens(l)),
    }
}

/// What `list!` gives for the tokens `ts`.
pub open spec fn spec_list_macro(ts: Seq<Tree>) -> Result<Seq<Tree>, MacroError> {
    match complete(ts, spec_list(ts, 0)) {
        None => Err(MacroError::Syntax),
        Some(items) => Ok(list_tokens(items)),
    }
}

/// What `scoped!` gives for its expressions, whether all of them parsed, and
/// the arguments of the `set!` invocations found in them.
pub open spec fn spec_scoped(exprs: Seq<Seq<Tree>>, setter_args: Seq<Seq<Tree>>, all: bool) -> Result<
    Seq<Tree>,
    MacroError,
> {
    match spec_scoper(exprs, setter_args, all) {
        Err(e) => Err(e),
        Ok(v) => Ok(scoper_tokens(v)),
    }
}

/// The expansion as a result over token trees.
pub open spec fn result_trees(r: Result<Vec<TokenTree>, MacroError>) -> Result<
    Seq<Tree>,
    MacroError,
> {
    match r {
        Ok(v) => Ok(trees(v@)),
        Err(e) => Err(e),
    }
}

/// `comp![expr for pat in gen if cond ...]`
pub fn comp(tokens: &Vec<TokenTree>) -> (r: Result<Vec<TokenTree>, MacroError>)
    requires
        seq_wf(trees(tokens@)),
    ensures
        result_trees(r) == spec_comp(trees(tokens@)),
{
    match parse_all::<Comprehension>(tokens) {
        Some(c) => {
            if c.for_ifs.len() == 0 {
                Err(MacroError::MissingForClause)
            } else {
                let mut out: Vec<TokenTree> = Vec::new();
                c.to_tokens(&mut out);
                assert(trees(out@) =~= nest(c@.for_ifs, c@.expr));
                Ok(out)
            }
        },
        None => Err(MacroError::Syntax),
    }
}

/// `lambda!{lambda args: expr if cond else other ...}`
pub fn lambda(tokens: &Vec<TokenTree>) -> (r: Result<Vec<TokenTree>, MacroError>)
    requires
        seq_wf(trees(tokens@)),
    ensures
        result_trees(r) == spec_lambda_macro(trees(tokens@)),
{
    match parse_all::<LambdaFunc>(tokens) {
        Some(l) => {
            let mut out: Vec<TokenTree> = Vec::new();
            l.to_tokens(&mut out);
            assert(trees(out@) =~= lambda_tokens(l@));
            Ok(out)
        },
        None => Err(MacroError::Syntax),
    }
}

/// `list![a, b, c]`
pub fn list(tokens: &Vec<TokenTree>) -> (r: Result<Vec<TokenTree>, MacroError>)
    requires
        seq_wf(trees(tokens@)),
    ensures
        result_trees(r) == spec_list_macro(trees(tokens@)),
{
    match List::parse(tokens, 0) {
        Step::Done(l, q) => if q == tokens.len() {
            let mut out: Vec<TokenTree> = Vec::new();
            l.to_tokens(&mut out);
            assert(trees(out@) =~= list_tokens(l@));
            Ok(out)
        } else {
            Err(MacroError::Syntax)
        },
        _ => Err(MacroError::Syntax),
    }
}

/// The expressions of `scoped!{e1; e2; ...}`, up to the first that does not
/// parse, and whether all of them parsed. The caller walks them for `set!`
/// invocations before it calls `scoped`.
pub fn scoped_exprs(tokens: &Vec<TokenTree>) -> (r: (Vec<Vec<TokenTree>>, bool))
    requires
        seq_wf(trees(tokens@)),
    ensures
        (streams(r.0@), r.1) == spec_split(trees(tokens@), 0),
{
    Scoper::split_exprs(tokens)
}

/// The scoped block, given its expressions, whether all of them parsed, and
/// the arguments of the `set!` invocations found in them, in the order in
/// which they were found: a block that declares each variable that a `set!`
/// binds, then evaluates the expressions, in which each `set!(x = e)` assigns
/// `x` and yields its value.
pub fn scoped_parts(exprs: Vec<Vec<TokenTree>>, all: bool, setter_args: &Vec<Vec<TokenTree>>) -> (r: Result<
    Vec<TokenTree>,
    MacroError,
>)
    requires
        forall|k: int| 0 <= k < setter_args.len() ==> seq_wf(#[trigger] trees(setter_args@[k]@)),
        forall|k: int| 0 <= k < exprs.len() ==> seq_wf(#[trigger] trees(exprs@[k]@)),
    ensures
        result_trees(r) == spec_scoped(streams(exprs@), streams(setter_args@), all),
{
    match Scoper::parse(exprs, setter_args, all) {
        Ok(s) => {
            let mut out: Vec<TokenTree> = Vec::new();
            s.to_tokens(&mut out);
            assert(trees(out@) =~= scoper_tokens(s@));
            Ok(out)
        },
        Err(e) => Err(e),
    }
}

/// What `scoped!` gives for its tokens: the expressions split off them, the
/// `set!` arguments that `syn`'s walk finds in each, in order, and the block
/// built from both (`spec_scoped`).
pub open spec fn spec_scoped_input(ts: Seq<Tree>) -> Result<Seq<Tree>, MacroError> {
    let (es, all) = spec_split(ts, 0);
    let (args, walked) = exprs_setters(es);
    spec_scoped(es, args, all && walked)
}

/// `scoped!{e1; e2; ...}`: a block that declares each variable that a
/// `set!` in the expressions binds, then evaluates the expressions, in which
/// each `set!(x = e)` assigns `x` and yields its value, as Python's `x := e`
/// does.
pub fn scoped(tokens: &Vec<TokenTree>) -> (r: Result<Vec<TokenTree>, MacroError>)
    requires
        seq_wf(trees(tokens@)),
    ensures
        result_trees(r) == spec_scoped_input(trees(tokens@)),
{
    let (exprs, all) = Scoper::split_exprs(tokens);
    proof {
        assert(trees(tokens@).len() == tokens.len());
        lemma_split_wf(trees(tokens@), 0);
        assert forall|k: int| 0 <= k < exprs.len() implies seq_wf(#[trigger] trees(exprs@[k]@)) by {
            assert(streams(exprs@)[k] == trees(exprs@[k]@));
        }
    }
    let (setters, walked) = collect_setters(&exprs);
    scoped_parts(exprs, all && walked, &setters)
}

/// `let` + the tokens + `;`, with `extra` after `let` where it is given. The
/// tokens come out as printing and lexing them again gives them: invisible
/// groups are replaced by their content.
fn declaration(tokens: &Vec<TokenTree>, extra: Option<&str>) -> (r: Vec<TokenTree>)
    ensures
        trees(r@) == seq![id("let")] + match extra {
            Some(x) => seq![Tree::Ident(x@)],
            None => Seq::empty(),
        } + flat_trees(trees(tokens@)) + seq![alone(';')],
{
    let mut out: Vec<TokenTree> = Vec::new();
    push_tree(&mut out, ident("let"));
    match extra {
        Some(x) => push_tree(&mut out, ident(x)),
        None => {},
    }
    flatten_into(&mut out, tokens);
    push_tree(&mut out, punct(';', Spacing::Alone));
    proof {
        match extra {
            Some(x) => assert(trees(out@) =~= seq![id("let")] + seq![Tree::Ident(x@)] + flat_trees(
                trees(tokens@),
            ) + seq![alone(';')]),
            None => assert(trees(out@) =~= seq![id("let")] + Seq::<Tree>::empty() + flat_trees(
                trees(tokens@),
            ) + seq![alone(';')]),
        }
    }
    out
}

/// `set!(x = e)`: `let x = e;`
pub fn set(tokens: &Vec<TokenTree>) -> (r: Vec<TokenTree>)
    ensures
        trees(r@) == seq![id("let")] + flat_trees(trees(tokens@)) + seq![alone(';')],
{
    let r = declaration(tokens, None);
    assert(trees(r@) =~= seq![id("let")] + flat_trees(trees(tokens@)) + seq![alone(';')]);
    r
}

/// `set_mut!(x = e)`: `let mut x = e;`
pub fn set_mut(tokens: &Vec<TokenTree>) -> (r: Vec<TokenTree>)
    ensures
        trees(r@) == seq![id("let"), id("mut")] + flat_trees(trees(tokens@)) + seq![alone(';')],
{
    let r = declaration(tokens, Some("mut"));
    assert(trees(r@) =~= seq![id("let"), id("mut")] + flat_trees(trees(tokens@)) + seq![alone(';')]);
    r
}

/// `set_py!(x = e)`: `let python_var x = e;`
pub fn set_py(tokens: &Vec<TokenTree>) -> (r: Vec<TokenTree>)
    ensures
        trees(r@) == seq![id("let"), id("python_var")] + flat_trees(trees(tokens@)) + seq![alone(';')],
{
    let r = declaration(tokens, Some("python_var"));
    assert(trees(r@) =~= seq![id("let"), id("python_var")] + flat_trees(trees(tokens@)) + seq![alone(';')]);
    r
}

} // verus!
