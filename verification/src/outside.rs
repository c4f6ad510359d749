//! The calls into `syn` and `proc-macro2` that the parsers rest on, with the
//! contracts that are believed of them.
use vstd::prelude::*;

use proc_macro2::{
    Delimiter as PDelim, Group as PGroup, Literal as PLiteral, Punct as PPunct,
    Spacing as PSpacing, TokenStream as PStream, TokenTree as PTree,
};

use crate::tokens::{seq_wf, tree_wf, trees, Delimiter, Spacing, TokenTree, Tree};

verus! {

/// `proc_macro2::TokenStream`, which the calls into `syn` read.
#[verifier::external_type_specification]
#[verifier::external_body]
pub struct ExTokenStream(PStream);

/// What `syn` reports when it parses one `syn::Expr` from the front of
/// `tokens` with `ParseStream::parse` and then hands back the rest of the
/// stream: `None` when the parse left an unexpected token behind inside a
/// group (which makes the whole enclosing parse fail), otherwise whether the
/// expression parsed and how many token trees were left after the parser
/// stopped, on success or on failure alike.
pub uninterp spec fn syn_expr_scan(tokens: Seq<Tree>) -> Option<(bool, usize)>;

/// The same as `syn_expr_scan`, for `syn::Pat::parse_single`.
pub uninterp spec fn syn_pat_scan(tokens: Seq<Tree>) -> Option<(bool, usize)>;

/// Whether `syn` accepts the identifier with this text as a `syn::Ident`
/// (it refuses Rust's keywords and `_`).
pub uninterp spec fn syn_accepts_ident(text: Seq<char>) -> bool;

/// Converts token trees, one for one, into a `proc_macro2::TokenStream`.
#[verifier::external_body]
fn to_stream(tokens: &[TokenTree]) -> PStream
    requires
        seq_wf(trees(tokens@)),
{
    tokens.iter().map(to_tree).collect()
}

/// Converts one token tree into a `proc_macro2::TokenStream`: a literal as
/// one `proc_macro2::Literal` (a negative number such as `-1i32` included),
/// an identifier, or a literal that is not one, by lexing its text (an empty
/// stream where the text does not lex), a punctuation token and a group by
/// their constructors (an invisible group as one without delimiters).
/// `proc_macro2::Punct::new` panics on a character that is not punctuation,
/// hence the requirement.
#[verifier::external_body]
fn to_tree(t: &TokenTree) -> PStream
    requires
        tree_wf(t@),
{
    match t {
        TokenTree::Literal(s) => match s.parse::<PLiteral>() {
            Ok(l) => PTree::from(l).into(),
            Err(_) => s.parse().unwrap_or_default(),
        },
        TokenTree::Ident(s) => s.parse().unwrap_or_default(),
        TokenTree::Punct(c, sp) => {
            let ps = match sp { Spacing::Alone => PSpacing::Alone, Spacing::Joint => PSpacing::Joint };
            PTree::from(PPunct::new(*c, ps)).into()
        },
        TokenTree::Group(d, v) => {
            let pd = match d { Delimiter::Parenthesis => PDelim::Parenthesis, Delimiter::Brace => PDelim::Brace, Delimiter::Bracket => PDelim::Bracket, Delimiter::Invisible => PDelim::None };
            PTree::from(PGroup::new(pd, to_stream(v))).into()
        },
    }
}

/// Calls `syn::parse::Parser::parse2` with a parser that runs
/// `ParseStream::parse::<syn::Expr>` on `tokens[pos..]` and then takes the
/// rest of the stream. The result is `syn_expr_scan` of those tokens. Nothing
/// is said of the count: an identifier or a literal whose text lexes to
/// several trees makes the stream longer than `tokens[pos..]`.
#[verifier::external_body]
pub(crate) fn scan_expr(tokens: &Vec<TokenTree>, pos: usize) -> (r: Option<(bool, usize)>)
    requires
        pos <= tokens.len(),
        seq_wf(trees(tokens@)),
    ensures
        r == syn_expr_scan(trees(tokens@).skip(pos as int)),
{
    let stream = to_stream(&tokens[pos..]);
    syn::parse::Parser::parse2(|input: syn::parse::ParseStream| Ok((input.parse::<syn::Expr>().is_ok(), input.parse::<PStream>()?)), stream)
        .ok().map(|(ok, rest)| (ok, rest.into_iter().count()))
}

/// Calls `syn::parse::Parser::parse2` with a parser that runs
/// `syn::Pat::parse_single` on `tokens[pos..]` and then takes the rest of the
/// stream. The result is `syn_pat_scan` of those tokens; as for
/// `scan_expr`, nothing is said of the count.
#[verifier::external_body]
pub(crate) fn scan_pat(tokens: &Vec<TokenTree>, pos: usize) -> (r: Option<(bool, usize)>)
    requires
        pos <= tokens.len(),
        seq_wf(trees(tokens@)),
    ensures
        r == syn_pat_scan(trees(tokens@).skip(pos as int)),
{
    let stream = to_stream(&tokens[pos..]);
    syn::parse::Parser::parse2(|input: syn::parse::ParseStream| Ok((syn::Pat::parse_single(input).is_ok(), input.parse::<PStream>()?)), stream)
        .ok().map(|(ok, rest)| (ok, rest.into_iter().count()))
}

/// Calls `syn::parse_str::<syn::Ident>` on the identifier's text: the result is
/// `syn_accepts_ident` of the text.
#[verifier::external_body]
pub(crate) fn accepts_ident(text: &String) -> (r: bool)
    ensures
        r == syn_accepts_ident(text@),
{
    syn::parse_str::<syn::Ident>(text).is_ok()
}


/// `syn::Macro`, the macro invocations that `syn`'s walk meets.
#[verifier::external_type_specification]
#[verifier::external_body]
pub struct ExMacro(syn::Macro);

/// What `syn` finds when it parses `tokens` as one `syn::Expr`
/// (`syn::parse2`) and walks the expression with `syn::visit::Visit`: the path
/// and the tokens of each macro invocation that the walk meets, in the order
/// in which it meets them (in expression and in statement position; the
/// tokens of a macro are not walked). `None` where the tokens do not parse.
pub uninterp spec fn syn_macros(tokens: Seq<Tree>) -> Option<Seq<(Seq<Tree>, Seq<Tree>)>>;

/// The views of pairs of token vectors.
pub open spec fn pair_views(v: Seq<(Vec<TokenTree>, Vec<TokenTree>)>) -> Seq<(Seq<Tree>, Seq<Tree>)> {
    Seq::new(v.len(), |k: int| (trees(v[k].0@), trees(v[k].1@)))
}

/// Records, for `syn`'s walk, the path and the tokens of each macro
/// invocation met.
pub struct MacroCollector {
    found: Vec<(PStream, PStream)>,
}

impl<'ast> syn::visit::Visit<'ast> for MacroCollector {
    #[verifier::external_body]
    fn visit_macro(&mut self, mac: &'ast syn::Macro) {
        self.found.push((quote::ToTokens::to_token_stream(&mac.path), mac.tokens.clone()));
    }
}

/// Converts a `proc_macro2::TokenStream` into token trees, one for one; a
/// group without delimiters becomes an invisible group.
#[verifier::external_body]
fn from_stream(stream: PStream) -> Vec<TokenTree> {
    stream.into_iter().map(|t| match t {
        PTree::Ident(i) => TokenTree::Ident(i.to_string()),
        PTree::Literal(l) => TokenTree::Literal(l.to_string()),
        PTree::Punct(p) => TokenTree::Punct(p.as_char(), match p.spacing() { PSpacing::Alone => Spacing::Alone, PSpacing::Joint => Spacing::Joint }),
        PTree::Group(g) => TokenTree::Group(match g.delimiter() { PDelim::Parenthesis => Delimiter::Parenthesis, PDelim::Brace => Delimiter::Brace, PDelim::Bracket => Delimiter::Bracket, PDelim::None => Delimiter::Invisible }, from_stream(g.stream())),
    }).collect()
}

/// Calls `syn::parse2::<syn::Expr>` on the tokens and walks the expression
/// with `syn::visit::Visit::visit_expr`, recording each macro invocation met:
/// the result is `syn_macros` of the tokens. Every punctuation character in
/// what is recorded is one that `proc_macro2::Punct::new` accepts, since every
/// punctuation token is built by it or by the lexer, which makes only those.
#[verifier::external_body]
pub(crate) fn expr_macros(tokens: &Vec<TokenTree>) -> (r: Option<Vec<(Vec<TokenTree>, Vec<TokenTree>)>>)
    requires
        seq_wf(trees(tokens@)),
    ensures
        match r {
            Some(v) => syn_macros(trees(tokens@)) == Some(pair_views(v@)),
            None => syn_macros(trees(tokens@)) is None,
        },
        r matches Some(v) ==> forall|k: int| 0 <= k < v.len() ==> seq_wf(#[trigger] trees(v@[k].1@)),
{
    let expr = syn::parse2::<syn::Expr>(to_stream(tokens)).ok()?;
    let mut collector = MacroCollector { found: Vec::new() };
    syn::visit::Visit::visit_expr(&mut collector, &expr);
    Some(collector.found.into_iter().map(|(p, t)| (from_stream(p), from_stream(t))).collect())
}

} // verus!
