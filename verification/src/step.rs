//! A parser over token trees that, as `syn`'s `ParseStream` does, never backs
//! up: a parse that fails may already have consumed tokens.
use vstd::prelude::*;

use crate::outside::{
    accepts_ident, scan_expr, scan_pat, syn_accepts_ident, syn_expr_scan, syn_pat_scan,
};
use crate::tokens::{copy_range, seq_wf, trees, TokenTree, Tree};

verus! {

/// The outcome of one parse at a position: the value and the position after
/// it; a failure and the position where the parser stopped; or a failure
/// that makes the whole enclosing parse fail whatever follows, because an
/// unexpected token was left behind inside a group.
pub enum Step<T> {
    Done(T, usize),
    Failed(usize),
    Poisoned,
}

/// The views of a sequence of values.
pub open spec fn views<T: View>(s: Seq<T>) -> Seq<T::V> {
    Seq::new(s.len(), |i: int| s[i]@)
}

/// `r` is the step `s`, with values compared by their views.
pub open spec fn agrees<T: View>(r: Step<T>, s: Step<T::V>) -> bool {
    match (r, s) {
        (Step::Done(v, p), Step::Done(w, q)) => v@ == w && p == q,
        (Step::Failed(p), Step::Failed(q)) => p == q,
        (Step::Poisoned, Step::Poisoned) => true,
        _ => false,
    }
}

/// A step moves forward from `pos` and stays within `len` tokens; a step that
/// succeeds consumes at least one token.
pub open spec fn advances<T>(r: Step<T>, pos: usize, len: nat) -> bool {
    match r {
        Step::Done(_, q) => pos < q <= len,
        Step::Failed(q) => pos <= q <= len,
        Step::Poisoned => true,
    }
}

/// A step moves forward from `pos` and stays within `len` tokens.
pub open spec fn moves<T>(r: Step<T>, pos: usize, len: nat) -> bool {
    match r {
        Step::Done(_, q) => pos <= q <= len,
        Step::Failed(q) => pos <= q <= len,
        Step::Poisoned => true,
    }
}

/// The next token is the keyword (or identifier) `kw`.
pub open spec fn peek_kw(ts: Seq<Tree>, p: usize, kw: Seq<char>) -> bool {
    p < ts.len() && ts[p as int] == Tree::Ident(kw)
}

/// The next token is the punctuation character `c`, whatever its spacing.
pub open spec fn peek_punct(ts: Seq<Tree>, p: usize, c: char) -> bool {
    &&& p < ts.len()
    &&& ts[p as int] matches Tree::Punct(d, _) && d == c
}

/// The next token is an identifier that `syn` accepts as `syn::Ident`.
pub open spec fn peek_ident(ts: Seq<Tree>, p: usize) -> bool {
    &&& p < ts.len()
    &&& ts[p as int] matches Tree::Ident(s) && syn_accepts_ident(s)
}

/// Parses the keyword `kw`.
pub open spec fn spec_kw(ts: Seq<Tree>, p: usize, kw: Seq<char>) -> Step<()> {
    if peek_kw(ts, p, kw) {
        Step::Done((), (p + 1) as usize)
    } else {
        Step::Failed(p)
    }
}

/// Parses the punctuation character `c`.
pub open spec fn spec_punct(ts: Seq<Tree>, p: usize, c: char) -> Step<()> {
    if peek_punct(ts, p, c) {
        Step::Done((), (p + 1) as usize)
    } else {
        Step::Failed(p)
    }
}

/// Parses an identifier that `syn` accepts, giving its text.
pub open spec fn spec_ident(ts: Seq<Tree>, p: usize) -> Step<Seq<char>> {
    if peek_ident(ts, p) {
        Step::Done(ts[p as int]->Ident_0, (p + 1) as usize)
    } else {
        Step::Failed(p)
    }
}

/// Turns what `syn` reports of a parse that starts at `p` into a step whose
/// value is the token trees that the parse consumed. A report that does not
/// fit the tokens (more left over than there were, or a success that took
/// nothing) is read as a poisoned parse: it comes from text of one token that
/// lexes to several, and then no position in `ts` stands for where `syn`
/// stopped.
pub open spec fn scan_step(ts: Seq<Tree>, p: usize, scan: Option<(bool, usize)>) -> Step<
    Seq<Tree>,
> {
    match scan {
        None => Step::Poisoned,
        Some((ok, rest)) => {
            let q = (ts.len() - rest) as usize;
            if rest > ts.len() - p {
                Step::Poisoned
            } else if ok {
                if rest < ts.len() - p {
                    Step::Done(ts.subrange(p as int, q as int), q)
                } else {
                    Step::Poisoned
                }
            } else {
                Step::Failed(q)
            }
        },
    }
}

/// Parses a Rust expression with `syn`, giving the token trees that it spans.
pub open spec fn spec_expr(ts: Seq<Tree>, p: usize) -> Step<Seq<Tree>> {
    scan_step(ts, p, syn_expr_scan(ts.skip(p as int)))
}

/// Parses a Rust pattern with `syn`, giving the token trees that it spans.
pub open spec fn spec_pat(ts: Seq<Tree>, p: usize) -> Step<Seq<Tree>> {
    scan_step(ts, p, syn_pat_scan(ts.skip(p as int)))
}

/// The step `s` where it did not succeed, passed on with another value type.
pub open spec fn fail_as<A, B>(s: Step<A>) -> Step<B> {
    match s {
        Step::Failed(q) => Step::Failed(q),
        _ => Step::Poisoned,
    }
}

/// What a parse of the whole token sequence gives: `syn`'s `parse2` asks the
/// parse to succeed, to leave no token and to leave no unexpected token in a
/// group.
pub open spec fn complete<V>(ts: Seq<Tree>, s: Step<V>) -> Option<V> {
    match s {
        Step::Done(v, q) => if q == ts.len() {
            Some(v)
        } else {
            None
        },
        _ => None,
    }
}

/// Whether the next token is the keyword `kw`.
pub fn is_kw(tokens: &Vec<TokenTree>, pos: usize, kw: &str) -> (b: bool)
    ensures
        b == peek_kw(trees(tokens@), pos, kw@),
{
    if pos < tokens.len() {
        match &tokens[pos] {
            TokenTree::Ident(s) => {
                let k = String::from_str(kw);
                let b = *s == k;
                assert(trees(tokens@)[pos as int] == Tree::Ident(s@));
                b
            },
            _ => false,
        }
    } else {
        false
    }
}

/// Whether the next token is the punctuation character `c`.
pub fn is_punct(tokens: &Vec<TokenTree>, pos: usize, c: char) -> (b: bool)
    ensures
        b == peek_punct(trees(tokens@), pos, c),
{
    if pos < tokens.len() {
        match &tokens[pos] {
            TokenTree::Punct(d, sp) => {
                assert(trees(tokens@)[pos as int] == Tree::Punct(*d, *sp));
                *d == c
            },
            _ => false,
        }
    } else {
        false
    }
}

/// Whether the next token is an identifier that `syn` accepts.
pub fn is_ident(tokens: &Vec<TokenTree>, pos: usize) -> (b: bool)
    ensures
        b == peek_ident(trees(tokens@), pos),
{
    if pos < tokens.len() {
        match &tokens[pos] {
            TokenTree::Ident(s) => {
                assert(trees(tokens@)[pos as int] == Tree::Ident(s@));
                accepts_ident(s)
            },
            _ => false,
        }
    } else {
        false
    }
}

/// Parses the keyword `kw`.
pub fn parse_kw(tokens: &Vec<TokenTree>, pos: usize, kw: &str) -> (r: Step<()>)
    requires
        pos <= tokens.len(),
    ensures
        r == spec_kw(trees(tokens@), pos, kw@),
        advances(r, pos, tokens.len() as nat),
{
    if is_kw(tokens, pos, kw) {
        Step::Done((), pos + 1)
    } else {
        Step::Failed(pos)
    }
}

/// Parses the punctuation character `c`.
pub fn parse_punct(tokens: &Vec<TokenTree>, pos: usize, c: char) -> (r: Step<()>)
    requires
        pos <= tokens.len(),
    ensures
        r == spec_punct(trees(tokens@), pos, c),
        advances(r, pos, tokens.len() as nat),
{
    if is_punct(tokens, pos, c) {
        Step::Done((), pos + 1)
    } else {
        Step::Failed(pos)
    }
}

/// Parses an identifier that `syn` accepts.
pub fn parse_ident(tokens: &Vec<TokenTree>, pos: usize) -> (r: Step<String>)
    requires
        pos <= tokens.len(),
    ensures
        agrees(r, spec_ident(trees(tokens@), pos)),
        advances(r, pos, tokens.len() as nat),
{
    if is_ident(tokens, pos) {
        match &tokens[pos] {
            TokenTree::Ident(s) => {
                assert(trees(tokens@)[pos as int] == Tree::Ident(s@));
                Step::Done(s.clone(), pos + 1)
            },
            _ => Step::Failed(pos),
        }
    } else {
        Step::Failed(pos)
    }
}

/// The step for a report of `syn`, with the consumed token trees copied out.
fn scan_to_step(tokens: &Vec<TokenTree>, pos: usize, scan: Option<(bool, usize)>) -> (r: Step<
    Vec<TokenTree>,
>)
    requires
        pos <= tokens.len(),
    ensures
        match (r, scan_step(trees(tokens@), pos, scan)) {
            (Step::Done(v, q), Step::Done(w, q2)) => trees(v@) == w && q == q2,
            (Step::Failed(q), Step::Failed(q2)) => q == q2,
            (Step::Poisoned, Step::Poisoned) => true,
            _ => false,
        },
        moves(r, pos, tokens.len() as nat),
        scan matches Some((true, rest)) && rest < tokens.len() - pos ==> r is Done,
{
    match scan {
        None => Step::Poisoned,
        Some((ok, rest)) => {
            if rest > tokens.len() - pos {
                return Step::Poisoned;
            }
            let q = tokens.len() - rest;
            if ok {
                if rest < tokens.len() - pos {
                    let v = copy_range(tokens, pos, q);
                    Step::Done(v, q)
                } else {
                    Step::Poisoned
                }
            } else {
                Step::Failed(q)
            }
        },
    }
}

/// The token trees of a step, compared with a step of tree sequences.
pub open spec fn agrees_trees(r: Step<Vec<TokenTree>>, s: Step<Seq<Tree>>) -> bool {
    match (r, s) {
        (Step::Done(v, p), Step::Done(w, q)) => trees(v@) == w && p == q,
        (Step::Failed(p), Step::Failed(q)) => p == q,
        (Step::Poisoned, Step::Poisoned) => true,
        _ => false,
    }
}

/// Parses a Rust expression with `syn`, giving a copy of the token trees that
/// it spans.
pub fn parse_expr(tokens: &Vec<TokenTree>, pos: usize) -> (r: Step<Vec<TokenTree>>)
    requires
        pos <= tokens.len(),
        seq_wf(trees(tokens@)),
    ensures
        agrees_trees(r, spec_expr(trees(tokens@), pos)),
        advances(r, pos, tokens.len() as nat),
{
    let scan = scan_expr(tokens, pos);
    scan_to_step(tokens, pos, scan)
}

/// Parses a Rust pattern with `syn`, giving a copy of the token trees that it
/// spans.
pub fn parse_pat(tokens: &Vec<TokenTree>, pos: usize) -> (r: Step<Vec<TokenTree>>)
    requires
        pos <= tokens.len(),
        seq_wf(trees(tokens@)),
    ensures
        agrees_trees(r, spec_pat(trees(tokens@), pos)),
        moves(r, pos, tokens.len() as nat),
{
    let scan = scan_pat(tokens, pos);
    scan_to_step(tokens, pos, scan)
}

} // verus!

verus! {

/// A piece of the macros' grammar, parsed at a position of a token sequence
/// as `syn::parse::Parse` parses from a parse stream.
pub trait Grammar: View + Sized {
    /// What parsing at position `p` of `ts` gives.
    spec fn spec_parse(ts: Seq<Tree>, p: usize) -> Step<Self::V>;

    /// Parses at position `pos` of `tokens`.
    fn parse(tokens: &Vec<TokenTree>, pos: usize) -> (r: Step<Self>)
        requires
            pos <= tokens.len(),
            seq_wf(trees(tokens@)),
        ensures
            agrees(r, Self::spec_parse(trees(tokens@), pos)),
            advances(r, pos, tokens.len() as nat),
    ;
}

/// Parses items one after another until one fails where it starts: that
/// failure ends the list. An item that fails after it has consumed tokens
/// (a clause cut short, such as an `if` without its condition) makes the
/// whole list fail there. A poisoned item poisons the list: the enclosing
/// parse fails whatever follows, so the items parsed before it are not kept.
pub open spec fn spec_many<T: Grammar>(ts: Seq<Tree>, p: usize) -> Step<Seq<T::V>>
    decreases ts.len() - p,
{
    match T::spec_parse(ts, p) {
        Step::Done(v, q) => if p < q <= ts.len() {
            match spec_many::<T>(ts, q) {
                Step::Done(vs, r) => Step::Done(seq![v] + vs, r),
                Step::Failed(r) => Step::Failed(r),
                Step::Poisoned => Step::Poisoned,
            }
        } else {
            Step::Poisoned
        },
        Step::Failed(q) => if q == p {
            Step::Done(Seq::empty(), p)
        } else {
            Step::Failed(q)
        },
        Step::Poisoned => Step::Poisoned,
    }
}

/// `spec_many` moves forward within the tokens, and where it fails, it fails
/// past the position where it started.
pub proof fn lemma_many_moves<T: Grammar>(ts: Seq<Tree>, p: usize)
    requires
        p <= ts.len(),
        forall|q: usize|
            q <= ts.len() ==> #[trigger] moves(T::spec_parse(ts, q), q, ts.len()),
    ensures
        spec_many::<T>(ts, p) matches Step::Failed(q) ==> p < q,
        moves(spec_many::<T>(ts, p), p, ts.len()),
    decreases ts.len() - p,
{
    assert(moves(T::spec_parse(ts, p), p, ts.len()));
    match T::spec_parse(ts, p) {
        Step::Done(v, q) => {
            if p < q <= ts.len() {
                lemma_many_moves::<T>(ts, q);
            }
        },
        _ => {},
    }
}

/// Parses items one after another (`spec_many`).
pub fn parse_till_end<T: Grammar>(tokens: &Vec<TokenTree>, pos: usize) -> (r: Step<Vec<T>>)
    requires
        pos <= tokens.len(),
        seq_wf(trees(tokens@)),
    ensures
        match (r, spec_many::<T>(trees(tokens@), pos)) {
            (Step::Done(v, p), Step::Done(w, q)) => views(v@) == w && p == q,
            (Step::Failed(p), Step::Failed(q)) => p == q,
            (Step::Poisoned, Step::Poisoned) => true,
            _ => false,
        },
        moves(r, pos, tokens.len() as nat),
{
    let ghost ts = trees(tokens@);
    let mut res: Vec<T> = Vec::new();
    let mut p = pos;
    loop
        invariant
            pos <= p <= tokens.len(),
            ts == trees(tokens@),
            seq_wf(ts),
            match spec_many::<T>(ts, p) {
                Step::Done(vs, q) => spec_many::<T>(ts, pos) == Step::Done(views(res@) + vs, q),
                Step::Failed(q) => spec_many::<T>(ts, pos) == Step::<Seq<T::V>>::Failed(q),
                Step::Poisoned => spec_many::<T>(ts, pos) is Poisoned,
            },
        decreases tokens.len() - p,
    {
        let ghost before = res@;
        match T::parse(tokens, p) {
            Step::Done(v, q) => {
                let ghost vv = v@;
                res.push(v);
                proof {
                    assert(views(res@) =~= views(before) + seq![vv]);
                    match spec_many::<T>(ts, q) {
                        Step::Done(vs, r) => {
                            assert(views(res@) + vs =~= views(before) + (seq![vv] + vs));
                        },
                        _ => {},
                    }
                }
                p = q;
            },
            Step::Failed(q) => {
                if q == p {
                    proof {
                        assert(views(res@) + Seq::<T::V>::empty() =~= views(res@));
                    }
                    return Step::Done(res, q);
                } else {
                    return Step::Failed(q);
                }
            },
            Step::Poisoned => {
                return Step::Poisoned;
            },
        }
    }
}

/// Parses the whole token sequence as one `T`, as `syn::parse2` does.
pub fn parse_all<T: Grammar>(tokens: &Vec<TokenTree>) -> (r: Option<T>)
    requires
        seq_wf(trees(tokens@)),
    ensures
        match (r, complete(trees(tokens@), T::spec_parse(trees(tokens@), 0))) {
            (Some(v), Some(w)) => v@ == w,
            (None, None) => true,
            _ => false,
        },
{
    match T::parse(tokens, 0) {
        Step::Done(v, q) => if q == tokens.len() {
            Some(v)
        } else {
            None
        },
        _ => None,
    }
}

} // verus!
