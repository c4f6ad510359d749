//! Token trees as plain values: the input and the output of every macro of
//! this crate.
use vstd::prelude::*;
use vstd::string::StringExecFns;

verus! {

/// How a group of tokens is delimited. An `Invisible` group has no
/// delimiters in the text; it keeps together the tokens of a fragment that a
/// `macro_rules!` macro handed on (such as an `$e:expr`).
#[derive(Clone, Copy, Debug, PartialEq, Eq, Structural)]
pub enum Delimiter {
    Parenthesis,
    Brace,
    Bracket,
    Invisible,
}

/// Whether a punctuation character is glued to the punctuation character that
/// follows it (`Joint`, as the first `:` of `::`) or not (`Alone`).
#[derive(Clone, Copy, Debug, PartialEq, Eq, Structural)]
pub enum Spacing {
    Alone,
    Joint,
}

/// The mathematical value of a token tree.
pub enum Tree {
    Ident(Seq<char>),
    Punct(char, Spacing),
    Literal(Seq<char>),
    Group(Delimiter, Seq<Tree>),
}

/// A token tree. An identifier and a literal are kept as their source text;
/// a group holds the token trees between its delimiters.
#[derive(Debug, PartialEq, Eq)]
pub enum TokenTree {
    Ident(String),
    Punct(char, Spacing),
    Literal(String),
    Group(Delimiter, Vec<TokenTree>),
}

/// The value of a token tree.
pub open spec fn tree_of(t: TokenTree) -> Tree
    decreases t,
{
    match t {
        TokenTree::Ident(s) => Tree::Ident(s@),
        TokenTree::Punct(c, sp) => Tree::Punct(c, sp),
        TokenTree::Literal(s) => Tree::Literal(s@),
        TokenTree::Group(d, v) => Tree::Group(
            d,
            Seq::new(
                v@.len(),
                |i: int|
                    if 0 <= i < v@.len() {
                        tree_of(v@[i])
                    } else {
                        Tree::Punct(' ', Spacing::Alone)
                    },
            ),
        ),
    }
}

impl View for TokenTree {
    type V = Tree;

    open spec fn view(&self) -> Tree {
        tree_of(*self)
    }
}

/// The trees of a sequence of token trees.
pub open spec fn trees(v: Seq<TokenTree>) -> Seq<Tree> {
    Seq::new(v.len(), |i: int| v[i]@)
}

/// The characters that a punctuation token may hold.
pub open spec fn valid_punct(c: char) -> bool {
    c == '!' || c == '#' || c == '$' || c == '%' || c == '&' || c == '\'' || c == '*' || c == '+'
        || c == ',' || c == '-' || c == '.' || c == '/' || c == ':' || c == ';' || c == '<' || c
        == '=' || c == '>' || c == '?' || c == '@' || c == '^' || c == '|' || c == '~'
}

/// Every punctuation token of `t`, at any depth, holds a valid punctuation
/// character.
pub open spec fn tree_wf(t: Tree) -> bool
    decreases t, 1nat,
{
    match t {
        Tree::Punct(c, _) => valid_punct(c),
        Tree::Group(_, s) => all_wf(s),
        _ => true,
    }
}

/// Every tree of `s` is well formed.
pub open spec fn all_wf(s: Seq<Tree>) -> bool
    decreases s, 0nat,
{
    if s.len() == 0 {
        true
    } else {
        tree_wf(s[0]) && all_wf(s.drop_first())
    }
}

/// Every tree of `s` is well formed, stated over its positions.
pub open spec fn seq_wf(s: Seq<Tree>) -> bool {
    forall|i: int| 0 <= i < s.len() ==> #[trigger] tree_wf(s[i])
}

pub proof fn lemma_all_wf(s: Seq<Tree>)
    ensures
        all_wf(s) == seq_wf(s),
    decreases s.len(),
{
    if s.len() == 0 {
        assert(all_wf(s));
    }
    if s.len() > 0 {
        assert(decreases_to!(s => s[0]));
        assert(decreases_to!(s => s.subrange(1, s.len() as int)));
        assert(s.drop_first() == s.subrange(1, s.len() as int));
        assert(all_wf(s) == (tree_wf(s[0]) && all_wf(s.drop_first())));
        lemma_all_wf(s.drop_first());
        if seq_wf(s) {
            assert forall|i: int| 0 <= i < s.drop_first().len() implies #[trigger] tree_wf(
                s.drop_first()[i],
            ) by {
                assert(s.drop_first()[i] == s[i + 1]);
            }
        }
        if all_wf(s) {
            assert forall|i: int| 0 <= i < s.len() implies #[trigger] tree_wf(s[i]) by {
                if i > 0 {
                    assert(s[i] == s.drop_first()[i - 1]);
                }
            }
        }
    }
}

pub proof fn lemma_wf_group(d: Delimiter, s: Seq<Tree>)
    ensures
        tree_wf(Tree::Group(d, s)) == seq_wf(s),
{
    lemma_all_wf(s);
}

/// The view of a group is the group of the views of its trees.
pub proof fn lemma_group_view(d: Delimiter, v: Vec<TokenTree>)
    ensures
        TokenTree::Group(d, v)@ == Tree::Group(d, trees(v@)),
{
    let g = TokenTree::Group(d, v)@;
    match g {
        Tree::Group(d2, s) => {
            assert(s =~= trees(v@));
        },
        _ => {},
    }
}

/// The trees with every invisible group, at any depth, replaced by its
/// content: what printing tokens and lexing the text again gives, since an
/// invisible group prints as its content alone.
pub open spec fn flat_trees(ts: Seq<Tree>) -> Seq<Tree>
    decreases ts, 0nat,
{
    if ts.len() == 0 {
        Seq::empty()
    } else {
        proof {
            assert(decreases_to!(ts => ts.subrange(0, ts.len() - 1)));
            assert(ts.drop_last() == ts.subrange(0, ts.len() - 1));
        }
        flat_trees(ts.drop_last()) + flat_tree(ts.last())
    }
}

/// One tree with every invisible group in it replaced by its content.
pub open spec fn flat_tree(t: Tree) -> Seq<Tree>
    decreases t, 1nat,
{
    match t {
        Tree::Group(Delimiter::Invisible, inner) => flat_trees(inner),
        Tree::Group(d, inner) => seq![Tree::Group(d, flat_trees(inner))],
        _ => seq![t],
    }
}

/// Appends the trees with every invisible group, at any depth, replaced by
/// its content.
#[verifier::loop_isolation(false)]
pub fn flatten_into(out: &mut Vec<TokenTree>, tokens: &Vec<TokenTree>)
    ensures
        trees(final(out)@) == trees(old(out)@) + flat_trees(trees(tokens@)),
    decreases tokens,
{
    let ghost ts = trees(tokens@);
    let ghost o0 = trees(out@);
    let mut i: usize = 0;
    assert(ts.subrange(0, 0) =~= Seq::<Tree>::empty());
    assert(o0 + flat_trees(ts.subrange(0, 0)) =~= o0);
    while i < tokens.len()
        invariant
            i <= tokens.len(),
            ts == trees(tokens@),
            trees(out@) == o0 + flat_trees(ts.subrange(0, i as int)),
        decreases tokens.len() - i,
    {
        let ghost before = trees(out@);
        let ghost sub = ts.subrange(0, i + 1);
        assert(sub.drop_last() =~= ts.subrange(0, i as int));
        assert(sub.last() == ts[i as int]);
        match &tokens[i] {
            TokenTree::Group(d, inner) => {
                proof {
                    lemma_group_view(*d, *inner);
                }
                if *d == Delimiter::Invisible {
                    flatten_into(out, inner);
                } else {
                    let mut g: Vec<TokenTree> = Vec::new();
                    flatten_into(&mut g, inner);
                    assert(trees(g@) =~= flat_trees(trees(inner@)));
                    push_tree(out, group(*d, g));
                }
                assert(trees(out@) =~= before + flat_tree(ts[i as int]));
            },
            other => {
                let c = copy_tree(other);
                push_tree(out, c);
                assert(trees(out@) =~= before + flat_tree(ts[i as int]));
            },
        }
        i = i + 1;
    }
    assert(ts.subrange(0, tokens.len() as int) =~= ts);
}

/// Viewing commutes with pushing a tree.
pub proof fn lemma_trees_push(v: Seq<TokenTree>, t: TokenTree)
    ensures
        trees(v.push(t)) == trees(v).push(t@),
{
    assert(trees(v.push(t)) =~= trees(v).push(t@));
}

/// Viewing commutes with concatenation.
pub proof fn lemma_trees_add(v: Seq<TokenTree>, w: Seq<TokenTree>)
    ensures
        trees(v + w) == trees(v) + trees(w),
{
    assert(trees(v + w) =~= trees(v) + trees(w));
}

/// A copy of a token tree.
#[verifier::loop_isolation(false)]
pub fn copy_tree(t: &TokenTree) -> (r: TokenTree)
    ensures
        r@ == t@,
    decreases t,
{
    match t {
        TokenTree::Ident(s) => TokenTree::Ident(s.clone()),
        TokenTree::Punct(c, sp) => TokenTree::Punct(*c, *sp),
        TokenTree::Literal(s) => TokenTree::Literal(s.clone()),
        TokenTree::Group(d, v) => {
            let mut out: Vec<TokenTree> = Vec::new();
            let mut i: usize = 0;
            while i < v.len()
                invariant
                    i <= v.len(),
                    *t == TokenTree::Group(*d, *v),
                    trees(out@) == trees(v@).subrange(0, i as int),
                decreases v.len() - i,
            {
                let c = copy_tree(&v[i]);
                proof {
                    lemma_trees_push(out@, c);
                }
                out.push(c);
                i = i + 1;
                assert(trees(out@) =~= trees(v@).subrange(0, i as int));
            }
            proof {
                lemma_group_view(*d, out);
                lemma_group_view(*d, *v);
                assert(trees(out@) =~= trees(v@));
            }
            TokenTree::Group(*d, out)
        },
    }
}

/// A copy of the token trees `v[lo..hi]`.
pub fn copy_range(v: &Vec<TokenTree>, lo: usize, hi: usize) -> (r: Vec<TokenTree>)
    requires
        lo <= hi <= v.len(),
    ensures
        trees(r@) == trees(v@).subrange(lo as int, hi as int),
{
    let mut out: Vec<TokenTree> = Vec::new();
    let mut i: usize = lo;
    while i < hi
        invariant
            lo <= i <= hi <= v.len(),
            trees(out@) == trees(v@).subrange(lo as int, i as int),
        decreases hi - i,
    {
        let c = copy_tree(&v[i]);
        proof {
            lemma_trees_push(out@, c);
        }
        out.push(c);
        i = i + 1;
        assert(trees(out@) =~= trees(v@).subrange(lo as int, i as int));
    }
    out
}

/// Appends a copy of `src` to `out`.
pub fn append_copy(out: &mut Vec<TokenTree>, src: &Vec<TokenTree>)
    ensures
        trees(final(out)@) == trees(old(out)@) + trees(src@),
{
    let ghost start = trees(out@);
    let mut i: usize = 0;
    while i < src.len()
        invariant
            i <= src.len(),
            trees(out@) == start + trees(src@).subrange(0, i as int),
        decreases src.len() - i,
    {
        let c = copy_tree(&src[i]);
        proof {
            lemma_trees_push(out@, c);
        }
        out.push(c);
        i = i + 1;
        assert(trees(out@) =~= start + trees(src@).subrange(0, i as int));
    }
    assert(trees(src@).subrange(0, src.len() as int) =~= trees(src@));
}

/// Whether every punctuation token of `t` holds a valid punctuation character.
#[verifier::loop_isolation(false)]
pub fn tree_is_wf(t: &TokenTree) -> (b: bool)
    ensures
        b == tree_wf(t@),
    decreases t,
{
    match t {
        TokenTree::Punct(ch, sp) => {
            let c = *ch;
            assert(t@ == Tree::Punct(c, *sp));
            assert(tree_wf(Tree::Punct(c, *sp)) == valid_punct(c));
            let ok = c == '!' || c == '#' || c == '$' || c == '%' || c == '&' || c == '\'' || c == '*' || c
                == '+' || c == ',' || c == '-' || c == '.' || c == '/' || c == ':' || c == ';' || c
                == '<' || c == '=' || c == '>' || c == '?' || c == '@' || c == '^' || c == '|' || c
                == '~';
            assert(ok == valid_punct(c));
            assert(tree_wf(t@) == ok);
            ok
        },
        TokenTree::Ident(s) => {
            assert(t@ == Tree::Ident(s@));
            true
        },
        TokenTree::Literal(s) => {
            assert(t@ == Tree::Literal(s@));
            true
        },
        TokenTree::Group(d, v) => {
            proof {
                lemma_group_view(*d, *v);
            }
            let mut i: usize = 0;
            while i < v.len()
                invariant
                    i <= v.len(),
                    *t == TokenTree::Group(*d, *v),
                    t@ == Tree::Group(*d, trees(v@)),
                    forall|j: int| 0 <= j < i ==> #[trigger] tree_wf(trees(v@)[j]),
                decreases v.len() - i,
            {
                if !tree_is_wf(&v[i]) {
                    assert(!tree_wf(trees(v@)[i as int]));
                    proof {
                        lemma_wf_group(*d, trees(v@));
                    }
                    return false;
                }
                i = i + 1;
            }
            proof {
                lemma_wf_group(*d, trees(v@));
            }
            true
        },
    }
}

/// Whether every punctuation token in `v`, at any depth, holds a valid
/// punctuation character: what the conversions to `proc_macro2` tokens need.
pub fn well_formed(v: &Vec<TokenTree>) -> (b: bool)
    ensures
        b == seq_wf(trees(v@)),
{
    let mut i: usize = 0;
    while i < v.len()
        invariant
            i <= v.len(),
            forall|j: int| 0 <= j < i ==> #[trigger] tree_wf(trees(v@)[j]),
        decreases v.len() - i,
    {
        if !tree_is_wf(&v[i]) {
            assert(!tree_wf(trees(v@)[i as int]));
            return false;
        }
        i = i + 1;
    }
    true
}

/// An identifier token.
pub fn ident(text: &str) -> (r: TokenTree)
    ensures
        r@ == Tree::Ident(text@),
{
    TokenTree::Ident(String::from_str(text))
}

/// A punctuation token.
pub fn punct(c: char, sp: Spacing) -> (r: TokenTree)
    ensures
        r@ == Tree::Punct(c, sp),
{
    TokenTree::Punct(c, sp)
}

/// A group token.
pub fn group(d: Delimiter, inner: Vec<TokenTree>) -> (r: TokenTree)
    ensures
        r@ == Tree::Group(d, trees(inner@)),
{
    proof {
        lemma_group_view(d, inner);
    }
    TokenTree::Group(d, inner)
}

/// Appends one token to `out`.
pub fn push_tree(out: &mut Vec<TokenTree>, t: TokenTree)
    ensures
        trees(final(out)@) == trees(old(out)@).push(t@),
{
    proof {
        lemma_trees_push(out@, t);
    }
    out.push(t);
}

/// Appends the tokens of `src` to `out`, consuming `src`.
pub fn append_trees(out: &mut Vec<TokenTree>, src: Vec<TokenTree>)
    ensures
        trees(final(out)@) == trees(old(out)@) + trees(src@),
{
    let mut src = src;
    proof {
        lemma_trees_add(out@, src@);
    }
    out.append(&mut src);
}

} // verus!
