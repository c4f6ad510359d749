//! Properties of the macros that hold across their functions.
use vstd::prelude::*;

use crate::comp::{
    id, spec_comprehension, spec_condition, spec_for_if, ComprehensionView, Condition, ForIf,
    ForIfView,
};
use crate::list::{
    decimal, digits_value, lemma_decimal_value, list_tokens, usize_literal, ListItem,
};
use crate::error::MacroError;
use crate::macros::spec_list_macro;
use crate::outside::syn_expr_scan;
use crate::scope::{
    is_set_call, scan_sets, spec_split, spec_with_context, walrus_tokens, ParseContext,
    SetterView,
};
use crate::step::{
    complete, lemma_many_moves, moves, peek_punct, spec_expr, spec_kw, spec_many, spec_pat, Grammar,
    Step,
};
use crate::tokens::{Spacing, Tree};

verus! {

/// The tokens that a sequence of parsed items came from, each item given back
/// its tokens by `u`.
pub open spec fn concat_with<V>(vs: Seq<V>, u: spec_fn(V) -> Seq<Tree>) -> Seq<Tree>
    decreases vs.len(),
{
    if vs.len() == 0 {
        Seq::empty()
    } else {
        u(vs[0]) + concat_with(vs.drop_first(), u)
    }
}

/// `if cond`
pub open spec fn unparse_condition(c: Seq<Tree>) -> Seq<Tree> {
    seq![id("if")] + c
}

/// `for pattern in gen if cond ...`
pub open spec fn unparse_for_if(fi: ForIfView) -> Seq<Tree> {
    seq![id("for")] + fi.pattern + seq![id("in")] + fi.gen + concat_with(
        fi.conds,
        |c: Seq<Tree>| unparse_condition(c),
    )
}

/// `ts[p..q]` is `u`.
pub open spec fn spans(ts: Seq<Tree>, p: int, q: int, u: Seq<Tree>) -> bool {
    &&& 0 <= p
    &&& p + u.len() == q <= ts.len()
    &&& ts.subrange(p, q) == u
}

/// A parsed expression is the tokens that it spans.
proof fn lemma_expr_span(ts: Seq<Tree>, p: usize)
    requires
        p <= ts.len() <= usize::MAX,
    ensures
        spec_expr(ts, p) matches Step::Done(e, q) ==> p <= q <= ts.len() && e == ts.subrange(
            p as int,
            q as int,
        ),
        spec_pat(ts, p) matches Step::Done(e, q) ==> p <= q <= ts.len() && e == ts.subrange(
            p as int,
            q as int,
        ),
{
}

/// Items parsed one after another give back, put together, exactly what they
/// consumed, where each item gives back its own tokens.
proof fn lemma_many_spans<T: Grammar>(ts: Seq<Tree>, p: usize, u: spec_fn(T::V) -> Seq<Tree>)
    requires
        p <= ts.len() <= usize::MAX,
        forall|q: usize|
            #![trigger T::spec_parse(ts, q)]
            q <= ts.len() ==> match T::spec_parse(ts, q) {
                Step::Done(v, q2) => q <= q2 <= ts.len() && ts.subrange(q as int, q2 as int) == u(
                    v,
                ),
                Step::Failed(q2) => q <= q2 <= ts.len(),
                Step::Poisoned => true,
            },
    ensures
        spec_many::<T>(ts, p) matches Step::Done(vs, q) ==> spans(
            ts,
            p as int,
            q as int,
            concat_with(vs, u),
        ),
    decreases ts.len() - p,
{
    match T::spec_parse(ts, p) {
        Step::Done(v, q) => {
            if p < q <= ts.len() {
                lemma_many_spans::<T>(ts, q, u);
                match spec_many::<T>(ts, q) {
                    Step::Done(vs, r) => {
                        let all = seq![v] + vs;
                        assert(all.drop_first() =~= vs);
                        assert(all[0] == v);
                        let rest = concat_with(vs, u);
                        assert(concat_with(all, u) == u(v) + rest);
                        assert(ts.subrange(p as int, p + u(v).len() + rest.len()) =~= ts.subrange(
                            p as int,
                            q as int,
                        ) + ts.subrange(q as int, q + rest.len()));
                    },
                    _ => {},
                }
            }
        },
        Step::Failed(q) => {
            assert(concat_with(Seq::<T::V>::empty(), u) == Seq::<Tree>::empty());
            assert(ts.subrange(p as int, p as int) =~= Seq::<Tree>::empty());
        },
        Step::Poisoned => {},
    }
}

/// A condition gives back `if` and its expression.
proof fn lemma_condition_spans(ts: Seq<Tree>)
    requires
        ts.len() <= usize::MAX,
    ensures
        forall|q: usize|
            #![trigger Condition::spec_parse(ts, q)]
            q <= ts.len() ==> match Condition::spec_parse(ts, q) {
                Step::Done(v, q2) => q <= q2 <= ts.len() && ts.subrange(q as int, q2 as int)
                    == unparse_condition(v),
                Step::Failed(q2) => q <= q2 <= ts.len(),
                Step::Poisoned => true,
            },
{
    assert forall|q: usize| q <= ts.len() implies match #[trigger] Condition::spec_parse(ts, q) {
        Step::Done(v, q2) => q <= q2 <= ts.len() && ts.subrange(q as int, q2 as int)
            == unparse_condition(v),
        Step::Failed(q2) => q <= q2 <= ts.len(),
        Step::Poisoned => true,
    } by {
        if spec_kw(ts, q, "if"@) is Done {
            lemma_expr_span(ts, (q + 1) as usize);
            match spec_expr(ts, (q + 1) as usize) {
                Step::Done(e, q2) => {
                    assert(ts.subrange(q as int, q2 as int) =~= seq![ts[q as int]]
                        + ts.subrange(q + 1, q2 as int));
                },
                _ => {},
            }
        }
    }
}

/// Parsing `if e` and writing the condition (`Condition::to_tokens`) gives
/// back `e`: what the parse consumed is `if` followed by the condition.
pub proof fn law_condition_round_trip(ts: Seq<Tree>, p: usize)
    requires
        p <= ts.len() <= usize::MAX,
    ensures
        Condition::spec_parse(ts, p) matches Step::Done(c, q) ==> ts.subrange(p as int, q as int)
            == seq![id("if")] + c,
{
    lemma_condition_spans(ts);
    assert(p <= ts.len() ==> match Condition::spec_parse(ts, p) {
        Step::Done(v, q2) => p <= q2 <= ts.len() && ts.subrange(p as int, q2 as int)
            == unparse_condition(v),
        Step::Failed(q2) => p <= q2 <= ts.len(),
        Step::Poisoned => true,
    });
}

/// A parsed `for` clause, given back its keywords in order, is exactly what
/// the parse consumed: the keyword `for`, the pattern, `in`, the generator
/// and each condition after `if`, with nothing between them or after them.
pub proof fn law_for_clause_spans(ts: Seq<Tree>, q: usize)
    requires
        q <= ts.len() <= usize::MAX,
    ensures
        ForIf::spec_parse(ts, q) matches Step::Done(v, q2) ==> spans(
            ts,
            q as int,
            q2 as int,
            unparse_for_if(v),
        ),
        ForIf::spec_parse(ts, q) matches Step::Failed(q2) ==> q <= q2 <= ts.len(),
{
    lemma_condition_spans(ts);
    lemma_expr_span(ts, q);
    if spec_kw(ts, q, "for"@) is Done {
        let q1 = (q + 1) as usize;
        lemma_expr_span(ts, q1);
        if let Step::Done(pattern, q2) = spec_pat(ts, q1) {
            if spec_kw(ts, q2, "in"@) is Done {
                let q3 = (q2 + 1) as usize;
                lemma_expr_span(ts, q3);
                if let Step::Done(gen, q4) = spec_expr(ts, q3) {
                    lemma_many_spans::<Condition>(ts, q4, |c: Seq<Tree>| unparse_condition(c));
                    assert forall|r: usize| r <= ts.len() implies #[trigger] moves(
                        Condition::spec_parse(ts, r),
                        r,
                        ts.len(),
                    ) by {
                        assert(r <= ts.len() ==> match Condition::spec_parse(ts, r) {
                            Step::Done(v, r2) => r <= r2 <= ts.len() && ts.subrange(
                                r as int,
                                r2 as int,
                            ) == unparse_condition(v),
                            Step::Failed(r2) => r <= r2 <= ts.len(),
                            Step::Poisoned => true,
                        });
                    }
                    lemma_many_moves::<Condition>(ts, q4);
                    if let Step::Done(conds, q5) = spec_many::<Condition>(ts, q4) {
                        let cu = concat_with(conds, |c: Seq<Tree>| unparse_condition(c));
                        assert(ts.subrange(q as int, q4 + cu.len()) =~= seq![ts[q as int]]
                            + ts.subrange(q1 as int, q2 as int) + seq![ts[q2 as int]]
                            + ts.subrange(q3 as int, q4 as int) + ts.subrange(
                            q4 as int,
                            q4 + cu.len(),
                        ));
                    }
                }
            }
        }
    }
}

/// A comprehension parsed from the whole input gives back the whole input:
/// its element expression, then each `for` clause with its keywords (the
/// keyword `for`, the pattern, `in`, the generator and each condition after
/// `if`), with nothing between them or after them.
pub proof fn law_comprehension_round_trip(ts: Seq<Tree>)
    requires
        ts.len() <= usize::MAX,
    ensures
        complete(ts, spec_comprehension(ts, 0)) matches Some(c) ==> ts == c.expr + concat_with(
            c.for_ifs,
            |f: ForIfView| unparse_for_if(f),
        ),
{
    lemma_expr_span(ts, 0);
    if let Step::Done(expr, q) = spec_expr(ts, 0) {
        let u = |f: ForIfView| unparse_for_if(f);
        assert forall|r: usize|
            r <= ts.len() implies match #[trigger] ForIf::spec_parse(ts, r) {
            Step::Done(v, r2) => r <= r2 <= ts.len() && ts.subrange(r as int, r2 as int) == u(v),
            Step::Failed(r2) => r <= r2 <= ts.len(),
            Step::Poisoned => true,
        } by {
            law_for_clause_spans(ts, r);
        }
        lemma_many_spans::<ForIf>(ts, q, u);
        if let Step::Done(for_ifs, q2) = spec_many::<ForIf>(ts, q) {
            if q2 == ts.len() {
                assert(ts =~= ts.subrange(0, q as int) + ts.subrange(q as int, q2 as int));
            }
        }
    }
}

/// The identifier `set` does not occur in `t`, at any depth.
pub open spec fn free_of_set(t: Tree) -> bool
    decreases t, 1nat,
{
    match t {
        Tree::Ident(s) => s != "set"@,
        Tree::Group(_, inner) => all_free_of_set(inner),
        _ => true,
    }
}

/// The identifier `set` does not occur in `s`, at any depth.
pub open spec fn all_free_of_set(s: Seq<Tree>) -> bool
    decreases s, 0nat,
{
    if s.len() == 0 {
        true
    } else {
        free_of_set(s[0]) && all_free_of_set(s.drop_first())
    }
}

proof fn lemma_all_free_at(s: Seq<Tree>, i: int)
    requires
        all_free_of_set(s),
        0 <= i < s.len(),
    ensures
        free_of_set(s[i]),
    decreases s.len(),
{
    assert(decreases_to!(s => s[0]));
    assert(decreases_to!(s => s.subrange(1, s.len() as int)));
    assert(s.drop_first() == s.subrange(1, s.len() as int));
    assert(all_free_of_set(s) == (free_of_set(s[0]) && all_free_of_set(s.drop_first())));
    if i > 0 {
        lemma_all_free_at(s.drop_first(), i - 1);
        assert(s.drop_first()[i - 1] == s[i]);
    }
}

/// Only invocations of `set!` are collected: tokens in which the identifier
/// `set` does not occur, at any depth, give no setter argument, whether or not
/// the scan enters groups.
pub proof fn law_no_set_no_setters(ts: Seq<Tree>, i: int, deep: bool)
    requires
        all_free_of_set(ts),
    ensures
        scan_sets(ts, i, deep) == Seq::<Seq<Tree>>::empty(),
    decreases ts, ts.len() - i,
{
    if 0 <= i < ts.len() {
        lemma_all_free_at(ts, i);
        match ts[i] {
            Tree::Ident(name) => {
                assert(name != "set"@);
                law_no_set_no_setters(ts, i + 1, deep);
            },
            Tree::Group(d, inner) => {
                let t = ts[i];
                assert(decreases_to!(ts => t));
                assert(decreases_to!(t => t->Group_1));
                assert(free_of_set(t) == all_free_of_set(inner));
                law_no_set_no_setters(inner, 0, deep);
                law_no_set_no_setters(ts, i + 1, deep);
            },
            _ => {
                law_no_set_no_setters(ts, i + 1, deep);
            },
        }
    }
}

/// Putting a setter into a context keeps its kind and its binding, and
/// putting it into a second context is putting it into the second one.
pub proof fn law_with_context(s: SetterView, a: ParseContext, b: ParseContext)
    ensures
        spec_with_context(spec_with_context(s, a), b) == spec_with_context(s, b),
        spec_with_context(s, a) is SetVar <==> s is SetVar,
        spec_with_context(s, a) is SetMut <==> s is SetMut,
        spec_with_context(s, a) is SetPython <==> s is SetPython,
{
}

/// Every setter of a scoped block stands in the declaration context, so that
/// each variable that a `set!` binds is declared (`let ..;`) at the top of the
/// block, before the expressions.
pub proof fn law_scoped_setters_declare(args: Seq<Seq<Tree>>)
    ensures
        crate::scope::spec_setters(args) matches Ok(ss) ==> forall|i: int|
            0 <= i < ss.len() ==> {
                let t = #[trigger] crate::scope::setter_tokens(ss[i]);
                t[0] == id("let") && t.last() == crate::comp::alone(';')
            },
    decreases args.len(),
{
    if args.len() > 0 {
        law_scoped_setters_declare(args.drop_last());
    }
}

/// The capacity literal of a list's expansion is the number of its items.
pub proof fn law_list_capacity(items: Seq<Seq<Tree>>)
    ensures
        list_tokens(items)[0]->Group_1[20] == Tree::Group(
            crate::tokens::Delimiter::Parenthesis,
            seq![Tree::Literal(decimal(items.len()) + "usize"@)],
        ),
        digits_value(decimal(items.len())) == items.len(),
{
    lemma_decimal_value(items.len());
}


/// `syn`'s report on a stream with one more tree at its end: the same
/// outcome, one more tree left over.
pub open spec fn scan_shifted(longer: Option<(bool, usize)>, shorter: Option<(bool, usize)>) -> bool {
    match (longer, shorter) {
        (None, None) => true,
        (Some((o1, r1)), Some((o2, r2))) => o1 == o2 && r1 == r2 + 1,
        _ => false,
    }
}

/// `syn` reads an expression from each position of `ts` in the same way
/// whether or not the tree `t` follows `ts`: `t` is only left over.
pub open spec fn trailing_token_ignored(ts: Seq<Tree>, t: Tree) -> bool {
    forall|p: int|
        0 <= p <= ts.len() ==> #[trigger] scan_shifted(
            syn_expr_scan(ts.push(t).skip(p)),
            syn_expr_scan(ts.skip(p)),
        )
}

/// Where `syn` ignores a trailing tree, an expression parsed inside `ts` is
/// parsed the same with the tree after it.
proof fn lemma_expr_ignores_trailing(ts: Seq<Tree>, t: Tree, p: usize)
    requires
        trailing_token_ignored(ts, t),
        p <= ts.len() < usize::MAX,
    ensures
        spec_expr(ts.push(t), p) == spec_expr(ts, p),
{
    let ts2 = ts.push(t);
    assert(scan_shifted(syn_expr_scan(ts2.skip(p as int)), syn_expr_scan(ts.skip(p as int))));
    match syn_expr_scan(ts.skip(p as int)) {
        Some((ok, r)) => {
            let q = (ts.len() - r) as usize;
            if r <= ts.len() - p {
                assert(ts2.subrange(p as int, q as int) =~= ts.subrange(p as int, q as int));
            }
        },
        None => {},
    }
}

/// At the end of `ts`, and at the end of `ts` with one more tree, an
/// expression never parses, and fails (at the end) or is poisoned alike.
proof fn lemma_expr_at_ends(ts: Seq<Tree>, t: Tree)
    requires
        ts.len() < usize::MAX,
    ensures
        !(spec_expr(ts, ts.len() as usize) is Done),
        spec_expr(ts, ts.len() as usize) is Poisoned <==> spec_expr(
            ts.push(t),
            (ts.len() + 1) as usize,
        ) is Poisoned,
        spec_expr(ts, ts.len() as usize) is Failed ==> spec_expr(ts, ts.len() as usize)
            == Step::<Seq<Tree>>::Failed(ts.len() as usize) && spec_expr(
            ts.push(t),
            (ts.len() + 1) as usize,
        ) == Step::<Seq<Tree>>::Failed((ts.len() + 1) as usize),
{
    assert(ts.skip(ts.len() as int) =~= ts.push(t).skip(ts.len() + 1int));
}

/// The list items parsed from `p` with a trailing comma after `ts` are those
/// parsed without it; where they reach the end, the comma is consumed too.
proof fn lemma_list_ignores_trailing_comma(ts: Seq<Tree>, t: Tree, p: usize)
    requires
        trailing_token_ignored(ts, t),
        t matches Tree::Punct(c, _) && c == ',',
        p < ts.len() < usize::MAX,
        !(ts.last() matches Tree::Punct(c, _) && c == ','),
    ensures
        match spec_many::<ListItem>(ts, p) {
            Step::Done(vs, q) => if q == ts.len() {
                spec_many::<ListItem>(ts.push(t), p) == Step::Done(vs, (q + 1) as usize)
            } else {
                spec_many::<ListItem>(ts.push(t), p) == Step::Done(vs, q)
            },
            Step::Failed(q) => spec_many::<ListItem>(ts.push(t), p) == Step::<
                Seq<Seq<Tree>>,
            >::Failed(q),
            Step::Poisoned => spec_many::<ListItem>(ts.push(t), p) is Poisoned,
        },
        spec_many::<ListItem>(ts, p) matches Step::Done(_, q) ==> q <= ts.len(),
    decreases ts.len() - p,
{
    let ts2 = ts.push(t);
    lemma_expr_ignores_trailing(ts, t, p);
    match spec_expr(ts, p) {
        Step::Done(e, q) => {
            if q < ts.len() {
                assert(ts2[q as int] == ts[q as int]);
                if peek_punct(ts, q, ',') {
                    assert(q + 1 < ts.len());
                    lemma_list_ignores_trailing_comma(ts, t, (q + 1) as usize);
                } else {
                    lemma_list_ignores_trailing_comma(ts, t, q);
                }
            } else {
                lemma_expr_at_ends(ts, t);
                assert(peek_punct(ts2, q, ','));
            }
        },
        _ => {},
    }
}

/// A trailing comma does not change a list (`list![a, b,]` is `list![a, b]`),
/// where `syn` reads each item the same with the comma after the input.
pub proof fn law_list_trailing_comma(ts: Seq<Tree>, sp: Spacing)
    requires
        trailing_token_ignored(ts, Tree::Punct(',', sp)),
        0 < ts.len() < usize::MAX,
        !(ts.last() matches Tree::Punct(c, _) && c == ','),
    ensures
        spec_list_macro(ts.push(Tree::Punct(',', sp))) == spec_list_macro(ts),
{
    let ts2 = ts.push(Tree::Punct(',', sp));
    lemma_list_ignores_trailing_comma(ts, Tree::Punct(',', sp), 0);
    assert(ts2.len() == ts.len() + 1);
    match spec_many::<ListItem>(ts, 0) {
        Step::Done(vs, q) => {
            if q == ts.len() {
                assert(complete(ts2, crate::list::spec_list(ts2, 0)) == Some(vs));
                assert(complete(ts, crate::list::spec_list(ts, 0)) == Some(vs));
            } else {
                assert(complete(ts2, crate::list::spec_list(ts2, 0)) is None);
                assert(complete(ts, crate::list::spec_list(ts, 0)) is None);
            }
        },
        _ => {},
    }
}

/// The scoped expressions split from `p` with a trailing `;` after `ts` are
/// those split without it.
proof fn lemma_split_ignores_trailing(ts: Seq<Tree>, t: Tree, p: usize)
    requires
        trailing_token_ignored(ts, t),
        t matches Tree::Punct(c, _) && c == ';',
        p < ts.len() < usize::MAX,
        !(ts.last() matches Tree::Punct(c, _) && c == ';'),
    ensures
        spec_split(ts.push(t), p) == spec_split(ts, p),
    decreases ts.len() - p,
{
    let ts2 = ts.push(t);
    lemma_expr_ignores_trailing(ts, t, p);
    match spec_expr(ts, p) {
        Step::Done(e, q) => {
            if q < ts.len() {
                assert(ts2[q as int] == ts[q as int]);
                if peek_punct(ts, q, ';') {
                    assert(q + 1 < ts.len());
                    lemma_split_ignores_trailing(ts, t, (q + 1) as usize);
                } else {
                    lemma_split_ignores_trailing(ts, t, q);
                }
            } else {
                assert(peek_punct(ts2, q, ';'));
                assert(spec_split(ts2, (q + 1) as usize) == (Seq::<Seq<Tree>>::empty(), true));
                assert(spec_split(ts, q) == (Seq::<Seq<Tree>>::empty(), true));
            }
        },
        _ => {},
    }
}

/// A trailing `;` does not change a scoped block (`scoped!{a; b;}` is
/// `scoped!{a; b}`, whose value is that of `b`): the same expressions are
/// split off, where `syn` reads each the same with the `;` after the input.
pub proof fn law_scoped_trailing_semicolon(ts: Seq<Tree>, sp: Spacing)
    requires
        trailing_token_ignored(ts, Tree::Punct(';', sp)),
        0 < ts.len() < usize::MAX,
        !(ts.last() matches Tree::Punct(c, _) && c == ';'),
    ensures
        spec_split(ts.push(Tree::Punct(';', sp)), 0) == spec_split(ts, 0),
{
    lemma_split_ignores_trailing(ts, Tree::Punct(';', sp), 0);
}

/// Tokens in which the identifier `set` does not occur, at any depth, are
/// kept as they are when the `set!` invocations are rewritten.
pub proof fn law_no_set_unchanged(ts: Seq<Tree>, i: int)
    requires
        all_free_of_set(ts),
        0 <= i <= ts.len(),
    ensures
        walrus_tokens(ts, i) == Ok::<Seq<Tree>, MacroError>(ts.subrange(i, ts.len() as int)),
    decreases ts, ts.len() - i,
{
    if i < ts.len() {
        lemma_all_free_at(ts, i);
        assert(!is_set_call(ts, i));
        law_no_set_unchanged(ts, i + 1);
        assert(ts.subrange(i, ts.len() as int) =~= seq![ts[i]] + ts.subrange(
            i + 1,
            ts.len() as int,
        ));
        match ts[i] {
            Tree::Group(d, inner) => {
                let t = ts[i];
                assert(decreases_to!(ts => t));
                assert(decreases_to!(t => t->Group_1));
                assert(free_of_set(t) == all_free_of_set(inner));
                law_no_set_unchanged(inner, 0);
                assert(inner.subrange(0, inner.len() as int) =~= inner);
            },
            _ => {},
        }
    } else {
        assert(ts.subrange(i, ts.len() as int) =~= Seq::<Tree>::empty());
    }
}

} // verus!
