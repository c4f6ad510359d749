//! What the expansions are made of, stated by how the expansion of one input
//! relates to the expansions of smaller inputs: where each condition, each
//! argument, each list item and each scoped expression goes, in order.
use vstd::prelude::*;

use crate::comp::{alone, filter_map_call, id, joint, nest, ForIfView};
use crate::func::{if_chain, join_args, lambda_tokens, IfElseView, LambdaView};
use crate::list::{list_tokens, push_stmts};
use crate::scope::{
    scoper_tokens, setters_tokens, statements, ParseContext, ScoperView, SetInfoView, SetterView,
};
use crate::tokens::{flat_tree, flat_trees, Delimiter, Tree};

verus! {

/// The guard of a for clause's expansion: what stands in the parentheses
/// before `.then(..)` inside the closure handed to `filter_map`.
pub open spec fn guard_of(t: Seq<Tree>) -> Seq<Tree> {
    let closure = t[13]->Group_1;
    let block = closure[closure.len() - 1]->Group_1;
    block[0]->Group_1
}

/// The same for clause with the conditions `conds`.
pub open spec fn with_conds(fi: ForIfView, conds: Seq<Seq<Tree>>) -> ForIfView {
    ForIfView { pattern: fi.pattern, gen: fi.gen, conds }
}

/// The guard of a for clause is `true` followed by `&& (c)` for each of its
/// conditions, in order: without conditions it is `true`, and one more
/// condition `c` adds `&& (c)` at its end, so an item is kept only when every
/// condition holds. The guard stands where the expansion's shape puts it: the
/// closure is the last token, its block the closure's last token, and the
/// guard is the first group of the block, followed by `.then(|| body)`.
pub proof fn law_guard_conjoins(fi: ForIfView, body: Seq<Tree>, c: Seq<Tree>)
    ensures
        ({
            let t = filter_map_call(fi, body);
            let closure = t[13]->Group_1;
            let block = closure[closure.len() - 1]->Group_1;
            &&& t.len() == 14
            &&& t.subrange(0, 10) == seq![
                id("core"),
                joint(':'),
                alone(':'),
                id("iter"),
                joint(':'),
                alone(':'),
                id("IntoIterator"),
                joint(':'),
                alone(':'),
                id("into_iter"),
            ]
            &&& t[10] == Tree::Group(Delimiter::Parenthesis, fi.gen)
            &&& t[11] == alone('.')
            &&& t[12] == id("filter_map")
            &&& t[13] == Tree::Group(Delimiter::Parenthesis, closure)
            &&& closure.subrange(0, 2) == seq![id("move"), alone('|')]
            &&& closure.subrange(2, fi.pattern.len() + 2int) == fi.pattern
            &&& closure[fi.pattern.len() + 2int] == alone('|')
            &&& closure.len() == fi.pattern.len() + 4
            &&& closure[closure.len() - 1] == Tree::Group(Delimiter::Brace, block)
            &&& block == seq![
                Tree::Group(Delimiter::Parenthesis, guard_of(t)),
                alone('.'),
                id("then"),
                Tree::Group(Delimiter::Parenthesis, seq![joint('|'), alone('|')] + body),
            ]
        }),
        guard_of(filter_map_call(with_conds(fi, Seq::empty()), body)) == seq![id("true")],
        guard_of(filter_map_call(with_conds(fi, fi.conds.push(c)), body)) == guard_of(
            filter_map_call(fi, body),
        ) + seq![joint('&'), alone('&'), Tree::Group(Delimiter::Parenthesis, c)],
{
    let cs = fi.conds.push(c);
    assert(cs.drop_last() =~= fi.conds);
    assert(cs.last() == c);
    let t = filter_map_call(fi, body);
    let closure = seq![id("move"), alone('|')] + fi.pattern + seq![
        alone('|'),
        Tree::Group(
            Delimiter::Brace,
            seq![
                Tree::Group(
                    Delimiter::Parenthesis,
                    seq![id("true")] + crate::comp::and_conds(fi.conds),
                ),
                alone('.'),
                id("then"),
                Tree::Group(Delimiter::Parenthesis, seq![joint('|'), alone('|')] + body),
            ],
        ),
    ];
    assert(crate::comp::into_iter_path() =~= seq![
        id("core"),
        joint(':'),
        alone(':'),
        id("iter"),
        joint(':'),
        alone(':'),
        id("IntoIterator"),
        joint(':'),
        alone(':'),
        id("into_iter"),
    ]);
    assert(t[13] == Tree::Group(Delimiter::Parenthesis, closure));
    assert(closure[closure.len() - 1] == closure.last());
    assert(t.subrange(0, 10) =~= crate::comp::into_iter_path());
    assert(closure.subrange(2, fi.pattern.len() + 2int) =~= fi.pattern);
}

/// The for clauses of a comprehension nest with the first one outermost:
/// one clause `f` is its `filter_map` around the element expression, and a
/// clause `f` in front of others is its `filter_map` around the expansion of
/// the others, followed by `.flatten()`.
pub proof fn law_comp_nesting(f: ForIfView, rest: Seq<ForIfView>, e: Seq<Tree>)
    ensures
        nest(seq![f], e) == filter_map_call(f, e),
        rest.len() > 0 ==> nest(seq![f] + rest, e) == filter_map_call(f, nest(rest, e)) + seq![
            alone('.'),
            id("flatten"),
            Tree::Group(Delimiter::Parenthesis, Seq::empty()),
        ],
{
    let all = seq![f] + rest;
    assert(all.drop_first() =~= rest);
    assert(all[0] == f);
}

/// The conditional clauses of a lambda nest as Python nests them: without
/// clauses the body is its expression `e`; with a first clause `c` the body
/// is `if c.cond { e } else { .. }`, where the `else` branch is the chain of
/// the remaining clauses on `c.else_clause`.
pub proof fn law_lambda_conditionals(e: Seq<Tree>, c: IfElseView, rest: Seq<IfElseView>)
    ensures
        if_chain(e, Seq::empty()) == e,
        if_chain(e, seq![c] + rest) == seq![id("if")] + c.cond + seq![
            Tree::Group(Delimiter::Brace, e),
            id("else"),
            Tree::Group(Delimiter::Brace, if_chain(c.else_clause, rest)),
        ],
{
    let all = seq![c] + rest;
    assert(all.drop_first() =~= rest);
    assert(all[0] == c);
}

/// The declarations of a scoped block come one per setter, in order, each
/// `let x;` (`let mut x;` for `mut` and `py`).
pub proof fn law_declarations_in_order(ss: Seq<SetterView>, var: Seq<char>, e: Seq<Tree>)
    ensures
        setters_tokens(Seq::empty()) == Seq::<Tree>::empty(),
        setters_tokens(ss.push(SetterView::SetVar(ParseContext::Decl, SetInfoView { var, expr: e })))
            == setters_tokens(ss) + seq![id("let"), Tree::Ident(var), alone(';')],
        setters_tokens(ss.push(SetterView::SetMut(ParseContext::Decl, SetInfoView { var, expr: e })))
            == setters_tokens(ss) + seq![id("let"), id("mut"), Tree::Ident(var), alone(';')],
        setters_tokens(
            ss.push(SetterView::SetPython(ParseContext::Decl, SetInfoView { var, expr: e })),
        ) == setters_tokens(ss) + seq![id("let"), id("mut"), Tree::Ident(var), alone(';')],
{
    let a = SetterView::SetVar(ParseContext::Decl, SetInfoView { var, expr: e });
    let b = SetterView::SetMut(ParseContext::Decl, SetInfoView { var, expr: e });
    let c = SetterView::SetPython(ParseContext::Decl, SetInfoView { var, expr: e });
    assert(ss.push(a).drop_last() =~= ss);
    assert(ss.push(b).drop_last() =~= ss);
    assert(ss.push(c).drop_last() =~= ss);
}

/// The same lambda with the arguments `args`.
pub open spec fn with_args(l: LambdaView, args: Seq<Seq<Tree>>) -> LambdaView {
    LambdaView { args, body: l.body }
}

/// Putting `a` in front of at least one argument puts `a ,` in front of
/// their list.
proof fn lemma_join_prepend(a: Seq<Tree>, args: Seq<Seq<Tree>>)
    requires
        args.len() > 0,
    ensures
        join_args(seq![a] + args) == a + seq![alone(',')] + join_args(args),
    decreases args.len(),
{
    let all = seq![a] + args;
    assert(all.drop_last() =~= seq![a] + args.drop_last());
    assert(all.last() == args.last());
    if args.len() == 1 {
        assert(args.drop_last() =~= Seq::<Seq<Tree>>::empty());
        assert(seq![a].drop_last() =~= Seq::<Seq<Tree>>::empty());
        assert(join_args(seq![a]) == a);
        assert(join_args(args) == args[0]);
    } else {
        lemma_join_prepend(a, args.drop_last());
        assert(a + seq![alone(',')] + join_args(args.drop_last()) + seq![alone(',')]
            + args.last() =~= a + seq![alone(',')] + (join_args(args.drop_last()) + seq![
            alone(',')] + args.last()));
    }
}

/// The closure's parameters are the lambda's arguments in their written
/// order, separated by commas: without arguments the closure opens with
/// `| |`; with one argument `a` it is `| a |` and the rest; and putting an
/// argument `a` in front of others puts `a ,` right after the first `|`.
pub proof fn law_lambda_params(l: LambdaView, a: Seq<Tree>, args: Seq<Seq<Tree>>)
    ensures
        lambda_tokens(with_args(l, Seq::empty())).subrange(0, 2) == seq![alone('|'), alone('|')],
        lambda_tokens(with_args(l, seq![a])) == seq![alone('|')] + a + lambda_tokens(
            with_args(l, Seq::empty()),
        ).skip(1),
        args.len() > 0 ==> lambda_tokens(with_args(l, seq![a] + args)) == seq![alone('|')] + a
            + seq![alone(',')] + lambda_tokens(with_args(l, args)).skip(1),
{
    let chain = crate::func::if_chain(l.body.expr, l.body.conds);
    assert(join_args(Seq::<Seq<Tree>>::empty()) == Seq::<Tree>::empty());
    assert(lambda_tokens(with_args(l, Seq::empty())) =~= seq![alone('|'), alone('|')] + chain);
    assert(lambda_tokens(with_args(l, Seq::empty())).skip(1) =~= seq![alone('|')] + chain);
    assert(join_args(seq![a]) == a);
    assert(lambda_tokens(with_args(l, seq![a])) =~= seq![alone('|')] + a + (seq![alone('|')]
        + chain));
    if args.len() > 0 {
        lemma_join_prepend(a, args);
        let j = join_args(args);
        assert(lambda_tokens(with_args(l, args)).skip(1) =~= j + seq![alone('|')] + chain);
        assert(lambda_tokens(with_args(l, seq![a] + args)) =~= seq![alone('|')] + a + seq![
            alone(',')] + (j + seq![alone('|')] + chain));
    }
}

/// The tokens inside the block of a list's expansion.
pub open spec fn list_block(items: Seq<Seq<Tree>>) -> Seq<Tree> {
    list_tokens(items)[0]->Group_1
}

/// The push statements of a list's expansion: its block without the
/// declaration of `temp` (22 token trees) and without the final `temp`.
pub open spec fn list_pushes(items: Seq<Seq<Tree>>) -> Seq<Tree> {
    list_block(items).subrange(22, list_block(items).len() - 1)
}

/// The items of a list are pushed in the order written: a list's expansion
/// is one block that declares `temp`, pushes, and yields `temp`; without
/// items nothing is pushed; the pushes of one item `x` are exactly
/// `temp.push(Rc::new(RefCell::new(x)));`; and one more item at the end adds
/// its push after the pushes of the others.
pub proof fn law_list_pushes_in_order(items: Seq<Seq<Tree>>, x: Seq<Tree>)
    ensures
        list_tokens(items).len() == 1,
        list_tokens(items)[0] == Tree::Group(Delimiter::Brace, list_block(items)),
        list_block(items).len() >= 23,
        list_block(items).last() == id("temp"),
        list_pushes(Seq::empty()) == Seq::<Tree>::empty(),
        list_pushes(seq![x]) == seq![
            id("temp"),
            alone('.'),
            id("push"),
            Tree::Group(
                Delimiter::Parenthesis,
                seq![id("Rc"), joint(':'), alone(':'), id("new"), Tree::Group(
                    Delimiter::Parenthesis,
                    seq![id("RefCell"), joint(':'), alone(':'), id("new"), Tree::Group(
                        Delimiter::Parenthesis,
                        x,
                    )],
                )],
            ),
            alone(';'),
        ],
        list_pushes(items.push(x)) == list_pushes(items) + list_pushes(seq![x]),
{
    assert(crate::list::list_header(items.len()).len() == 22);
    assert(crate::list::list_header(0).len() == 22);
    assert(crate::list::list_header(1).len() == 22);
    assert(crate::list::list_header(items.len() + 1).len() == 22);
    let h = crate::list::list_header(items.len());
    assert(list_block(items) == h + push_stmts(items) + seq![id("temp")]);
    assert(list_pushes(items) =~= push_stmts(items));
    assert(push_stmts(Seq::<Seq<Tree>>::empty()) == Seq::<Tree>::empty());
    assert(list_pushes(Seq::empty()) =~= Seq::<Tree>::empty());
    assert(seq![x].drop_last() =~= Seq::<Seq<Tree>>::empty());
    assert(push_stmts(seq![x]) =~= crate::list::push_stmt(x));
    let inner_new = seq![id("RefCell")] + crate::comp::colons() + seq![
        id("new"),
        Tree::Group(Delimiter::Parenthesis, x),
    ];
    assert(inner_new =~= seq![id("RefCell"), joint(':'), alone(':'), id("new"), Tree::Group(
        Delimiter::Parenthesis,
        x,
    )]);
    let outer_new = seq![id("Rc")] + crate::comp::colons() + seq![
        id("new"),
        Tree::Group(Delimiter::Parenthesis, inner_new),
    ];
    assert(outer_new =~= seq![id("Rc"), joint(':'), alone(':'), id("new"), Tree::Group(
        Delimiter::Parenthesis,
        inner_new,
    )]);
    assert(list_pushes(seq![x]) =~= push_stmts(seq![x]));
    assert(items.push(x).drop_last() =~= items);
    assert(list_pushes(items.push(x)) =~= push_stmts(items.push(x)));
}

/// The tokens inside the block of a scoped expansion.
pub open spec fn scoped_body(v: ScoperView) -> Seq<Tree> {
    scoper_tokens(v)[0]->Group_1
}

/// Every expression of a scoped block occurs in its expansion, in order:
/// without expressions the expansion is the declarations alone; with one
/// expression `e` it is a block of the declarations and then `e`; and one
/// more expression `e` after others adds `; e` at the end of the block.
pub proof fn law_scoped_statements(ss: Seq<SetterView>, es: Seq<Seq<Tree>>, e: Seq<Tree>)
    ensures
        scoper_tokens(ScoperView { setters: ss, exprs: Seq::empty() }) == setters_tokens(ss),
        scoper_tokens(ScoperView { setters: ss, exprs: seq![e] }) == seq![
            Tree::Group(Delimiter::Brace, setters_tokens(ss) + e),
        ],
        es.len() > 0 ==> scoper_tokens(ScoperView { setters: ss, exprs: es.push(e) }) == seq![
            Tree::Group(
                Delimiter::Brace,
                scoped_body(ScoperView { setters: ss, exprs: es }) + seq![alone(';')] + e,
            ),
        ],
{
    assert(seq![e].drop_last() =~= Seq::<Seq<Tree>>::empty());
    assert(statements(Seq::<Seq<Tree>>::empty()) == Seq::<Tree>::empty());
    assert(setters_tokens(ss) + statements(seq![e].drop_last()) + seq![e].last() =~= setters_tokens(
        ss,
    ) + e);
    if es.len() > 0 {
        let all = es.push(e);
        assert(all.drop_last() =~= es);
        assert(all.last() == e);
        let d = setters_tokens(ss);
        assert(statements(es) == statements(es.drop_last()) + es.last() + seq![alone(';')]);
        assert(d + statements(es) + e =~= d + statements(es.drop_last()) + es.last() + seq![
            alone(';')] + e);
    }
}

/// Flattening replaces only invisible groups by their content: a group with
/// parentheses, braces or brackets keeps its delimiter around its flattened
/// content, a tree that is not a group stays as it is, and flattening two
/// sequences one after the other is flattening them together.
pub proof fn law_flat_keeps_delimiters(d: Delimiter, inner: Seq<Tree>, t: Tree, a: Seq<Tree>, b: Seq<Tree>)
    ensures
        d != Delimiter::Invisible ==> flat_trees(seq![Tree::Group(d, inner)]) == seq![
            Tree::Group(d, flat_trees(inner)),
        ],
        flat_trees(seq![Tree::Group(Delimiter::Invisible, inner)]) == flat_trees(inner),
        !(t is Group) ==> flat_trees(seq![t]) == seq![t],
        flat_trees(a + b) == flat_trees(a) + flat_trees(b),
    decreases b.len(),
{
    let g = seq![Tree::Group(d, inner)];
    assert(g.drop_last() =~= Seq::<Tree>::empty());
    let gi = seq![Tree::Group(Delimiter::Invisible, inner)];
    assert(gi.drop_last() =~= Seq::<Tree>::empty());
    let st = seq![t];
    assert(st.drop_last() =~= Seq::<Tree>::empty());
    assert(flat_trees(Seq::<Tree>::empty()) == Seq::<Tree>::empty());
    assert(flat_trees(g) =~= flat_tree(Tree::Group(d, inner)));
    assert(flat_trees(gi) =~= flat_tree(Tree::Group(Delimiter::Invisible, inner)));
    assert(flat_trees(st) =~= flat_tree(t));
    if b.len() == 0 {
        assert(a + b =~= a);
    } else {
        law_flat_keeps_delimiters(d, inner, t, a, b.drop_last());
        assert((a + b).drop_last() =~= a + b.drop_last());
        assert((a + b).last() == b.last());
    }
}

/// No group in `t`, at any depth, is invisible.
pub open spec fn visible_tree(t: Tree) -> bool
    decreases t, 1nat,
{
    match t {
        Tree::Group(d, inner) => d != Delimiter::Invisible && visible_trees(inner),
        _ => true,
    }
}

/// No group in `ts`, at any depth, is invisible.
pub open spec fn visible_trees(ts: Seq<Tree>) -> bool
    decreases ts, 0nat,
{
    if ts.len() == 0 {
        true
    } else {
        proof {
            assert(decreases_to!(ts => ts.subrange(0, ts.len() - 1)));
            assert(ts.drop_last() == ts.subrange(0, ts.len() - 1));
        }
        visible_trees(ts.drop_last()) && visible_tree(ts.last())
    }
}

/// Tokens without invisible groups are kept exactly as they are, so
/// `set!(a = [1, 2, 3])` declares `let a = [1, 2, 3];`.
pub proof fn law_flat_keeps_visible(ts: Seq<Tree>)
    requires
        visible_trees(ts),
    ensures
        flat_trees(ts) == ts,
    decreases ts,
{
    if ts.len() > 0 {
        assert(decreases_to!(ts => ts.subrange(0, ts.len() - 1)));
        assert(ts.drop_last() == ts.subrange(0, ts.len() - 1));
        assert(visible_trees(ts) == (visible_trees(ts.drop_last()) && visible_tree(ts.last())));
        law_flat_keeps_visible(ts.drop_last());
        let t = ts.last();
        assert(t == ts[ts.len() - 1]);
        assert(decreases_to!(ts => t));
        assert(flat_trees(ts) == flat_trees(ts.drop_last()) + flat_tree(t));
        match t {
            Tree::Group(d, inner) => {
                assert(decreases_to!(t => t->Group_1));
                assert(visible_tree(t) == (d != Delimiter::Invisible && visible_trees(inner)));
                law_flat_keeps_visible(inner);
                assert(flat_tree(t) == seq![Tree::Group(d, flat_trees(inner))]);
            },
            _ => {},
        }
        assert(ts =~= ts.drop_last() + seq![t]);
    }
}

} // verus!
