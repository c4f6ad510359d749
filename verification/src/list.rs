//! `list![a, b, c]`: a Python-like list whose items are held as
//! `Rc<RefCell<dyn Any>>`.
use vstd::prelude::*;
use vstd::string::StringExecFns;

use crate::comp::{alone, colons, id, joint};
use crate::step::{
    fail_as, is_punct, moves, parse_expr, parse_till_end, peek_punct, spec_expr, spec_many,
    views, Grammar, Step,
};
use crate::tokens::{
    append_copy, append_trees, group, ident, punct, push_tree, seq_wf, trees, Delimiter,
    Spacing, TokenTree, Tree,
};

verus! {

/// The decimal digit `d`.
pub open spec fn digit(d: nat) -> char {
    (d + 48) as char
}

/// The decimal digits of `n`, most significant first, without leading zeros.
pub open spec fn decimal(n: nat) -> Seq<char>
    decreases n,
{
    if n < 10 {
        seq![digit(n)]
    } else {
        decimal(n / 10).push(digit(n % 10))
    }
}

/// The number that a sequence of decimal digits denotes.
pub open spec fn digits_value(s: Seq<char>) -> nat
    decreases s.len(),
{
    if s.len() == 0 {
        0
    } else {
        digits_value(s.drop_last()) * 10 + (s.last() as nat - 48) as nat
    }
}

/// The literal that `quote` writes for a `usize`: its digits and the suffix.
pub open spec fn usize_literal(n: nat) -> Seq<char> {
    decimal(n) + "usize"@
}

/// The decimal digits of `n` denote `n`, and every one of them is a digit.
pub proof fn lemma_decimal_value(n: nat)
    ensures
        digits_value(decimal(n)) == n,
        forall|i: int|
            0 <= i < decimal(n).len() ==> '0' <= #[trigger] decimal(n)[i] <= '9',
        decimal(n).len() >= 1,
    decreases n,
{
    if n < 10 {
        assert(decimal(n) == seq![digit(n)]);
        assert(decimal(n).drop_last() =~= Seq::<char>::empty());
        assert(digit(n) as nat == n + 48);
        assert(digits_value(decimal(n)) == digits_value(Seq::<char>::empty()) * 10 + (digit(
            n,
        ) as nat - 48) as nat);
    } else {
        lemma_decimal_value(n / 10);
        let s = decimal(n);
        assert(s == decimal(n / 10).push(digit(n % 10)));
        assert(s.drop_last() =~= decimal(n / 10));
        assert(n == (n / 10) * 10 + n % 10) by (nonlinear_arith);
        assert(digit(n % 10) as nat == n % 10 + 48);
        assert(s.last() == digit(n % 10));
        assert(digits_value(s) == digits_value(s.drop_last()) * 10 + (s.last() as nat - 48) as nat);
        assert forall|i: int| 0 <= i < s.len() implies '0' <= #[trigger] s[i] <= '9' by {
            if i < s.len() - 1 {
                assert(s[i] == decimal(n / 10)[i]);
            }
        }
    }
}

/// The one-character text of the digit `d`.
fn digit_str(d: usize) -> (r: &'static str)
    requires
        d < 10,
    ensures
        r@ == seq![digit(d as nat)],
{
    match d {
        0 => {
            proof {
                reveal_strlit("0");
            }
            "0"
        },
        1 => {
            proof {
                reveal_strlit("1");
            }
            "1"
        },
        2 => {
            proof {
                reveal_strlit("2");
            }
            "2"
        },
        3 => {
            proof {
                reveal_strlit("3");
            }
            "3"
        },
        4 => {
            proof {
                reveal_strlit("4");
            }
            "4"
        },
        5 => {
            proof {
                reveal_strlit("5");
            }
            "5"
        },
        6 => {
            proof {
                reveal_strlit("6");
            }
            "6"
        },
        7 => {
            proof {
                reveal_strlit("7");
            }
            "7"
        },
        8 => {
            proof {
                reveal_strlit("8");
            }
            "8"
        },
        _ => {
            proof {
                reveal_strlit("9");
            }
            "9"
        },
    }
}

/// Appends the decimal digits of `n`.
fn write_decimal(s: &mut String, n: usize)
    ensures
        final(s)@ == old(s)@ + decimal(n as nat),
    decreases n,
{
    let ghost start = s@;
    if n >= 10 {
        write_decimal(s, n / 10);
    }
    s.append(digit_str(n % 10));
    if n >= 10 {
        assert(s@ =~= start + decimal(n as nat));
    } else {
        assert(s@ =~= start + decimal(n as nat));
    }
}

/// The text of the literal that `quote` writes for the `usize` `n`.
pub fn usize_literal_text(n: usize) -> (r: String)
    ensures
        r@ == usize_literal(n as nat),
{
    let mut s = String::new();
    write_decimal(&mut s, n);
    s.append("usize");
    assert(s@ =~= usize_literal(n as nat));
    s
}

/// One item of a list: the tokens of its expression. The comma that follows
/// it is consumed by the parse and not kept.
pub struct ListItem(pub Vec<TokenTree>);

impl View for ListItem {
    type V = Seq<Tree>;

    open spec fn view(&self) -> Seq<Tree> {
        trees(self.0@)
    }
}

/// Parses an expression and then a comma if there is one.
pub open spec fn spec_list_item(ts: Seq<Tree>, p: usize) -> Step<Seq<Tree>> {
    match spec_expr(ts, p) {
        Step::Done(e, q) => if peek_punct(ts, q, ',') {
            Step::Done(e, (q + 1) as usize)
        } else {
            Step::Done(e, q)
        },
        s => fail_as(s),
    }
}

impl ListItem {
    /// Appends the item's expression.
    pub fn to_tokens(&self, tokens: &mut Vec<TokenTree>)
        ensures
            trees(final(tokens)@) == trees(old(tokens)@) + self@,
    {
        append_copy(tokens, &self.0);
    }
}

impl Grammar for ListItem {
    open spec fn spec_parse(ts: Seq<Tree>, p: usize) -> Step<Seq<Tree>> {
        spec_list_item(ts, p)
    }

    fn parse(tokens: &Vec<TokenTree>, pos: usize) -> (r: Step<ListItem>) {
        let (e, q) = match parse_expr(tokens, pos) {
            Step::Done(v, q) => (v, q),
            Step::Failed(q) => return Step::Failed(q),
            Step::Poisoned => return Step::Poisoned,
        };
        if is_punct(tokens, q, ',') {
            Step::Done(ListItem(e), q + 1)
        } else {
            Step::Done(ListItem(e), q)
        }
    }
}

/// The items of a list.
pub struct List {
    pub items: Vec<ListItem>,
}

impl View for List {
    type V = Seq<Seq<Tree>>;

    open spec fn view(&self) -> Seq<Seq<Tree>> {
        views(self.items@)
    }
}

/// Parses items until one fails.
pub open spec fn spec_list(ts: Seq<Tree>, p: usize) -> Step<Seq<Seq<Tree>>> {
    spec_many::<ListItem>(ts, p)
}

impl List {
    /// Parses items until one fails where it starts; an empty list consumes
    /// nothing.
    pub fn parse(tokens: &Vec<TokenTree>, pos: usize) -> (r: Step<List>)
        requires
            pos <= tokens.len(),
            seq_wf(trees(tokens@)),
        ensures
            match (r, spec_list(trees(tokens@), pos)) {
                (Step::Done(v, p), Step::Done(w, q)) => v@ == w && p == q,
                (Step::Failed(p), Step::Failed(q)) => p == q,
                (Step::Poisoned, Step::Poisoned) => true,
                _ => false,
            },
            moves(r, pos, tokens.len() as nat),
    {
        match parse_till_end::<ListItem>(tokens, pos) {
            Step::Done(items, q) => Step::Done(List { items }, q),
            Step::Failed(q) => Step::Failed(q),
            Step::Poisoned => Step::Poisoned,
        }
    }
}

/// `let mut temp: Vec<Rc<RefCell<dyn Any>>> = Vec::with_capacity(n);`
pub open spec fn list_header(n: nat) -> Seq<Tree> {
    seq![
        id("let"),
        id("mut"),
        id("temp"),
        alone(':'),
        id("Vec"),
        alone('<'),
        id("Rc"),
        alone('<'),
        id("RefCell"),
        alone('<'),
        id("dyn"),
        id("Any"),
        joint('>'),
        alone('>'),
        alone('>'),
        alone('='),
        id("Vec"),
    ] + colons() + seq![
        id("with_capacity"),
        Tree::Group(Delimiter::Parenthesis, seq![Tree::Literal(usize_literal(n))]),
        alone(';'),
    ]
}

/// `temp.push(Rc::new(RefCell::new(item)));`
pub open spec fn push_stmt(item: Seq<Tree>) -> Seq<Tree> {
    seq![
        id("temp"),
        alone('.'),
        id("push"),
        Tree::Group(
            Delimiter::Parenthesis,
            seq![id("Rc")] + colons() + seq![
                id("new"),
                Tree::Group(
                    Delimiter::Parenthesis,
                    seq![id("RefCell")] + colons() + seq![
                        id("new"),
                        Tree::Group(Delimiter::Parenthesis, item),
                    ],
                ),
            ],
        ),
        alone(';'),
    ]
}

/// One `push` statement per item, in order.
pub open spec fn push_stmts(items: Seq<Seq<Tree>>) -> Seq<Tree>
    decreases items.len(),
{
    if items.len() == 0 {
        Seq::empty()
    } else {
        push_stmts(items.drop_last()) + push_stmt(items.last())
    }
}

/// The expansion of a list: a block that fills a vector with the items and
/// yields it.
pub open spec fn list_tokens(items: Seq<Seq<Tree>>) -> Seq<Tree> {
    seq![
        Tree::Group(
            Delimiter::Brace,
            list_header(items.len()) + push_stmts(items) + seq![id("temp")],
        ),
    ]
}

/// Appends `::`.
fn push_colons(out: &mut Vec<TokenTree>)
    ensures
        trees(final(out)@) == trees(old(out)@) + colons(),
{
    push_tree(out, punct(':', Spacing::Joint));
    push_tree(out, punct(':', Spacing::Alone));
    assert(trees(out@) =~= trees(old(out)@) + colons());
}

/// `Path::new(inner)`
fn new_call(out: &mut Vec<TokenTree>, path: &str, inner: Vec<TokenTree>)
    ensures
        trees(final(out)@) == trees(old(out)@) + seq![Tree::Ident(path@)] + colons() + seq![
            id("new"),
            Tree::Group(Delimiter::Parenthesis, trees(inner@)),
        ],
{
    let ghost start = trees(out@);
    push_tree(out, ident(path));
    push_colons(out);
    push_tree(out, ident("new"));
    push_tree(out, group(Delimiter::Parenthesis, inner));
    assert(trees(out@) =~= start + seq![Tree::Ident(path@)] + colons() + seq![
        id("new"),
        Tree::Group(Delimiter::Parenthesis, trees(inner@)),
    ]);
}

impl List {
    /// The expansion: a block that makes a vector with room for every item,
    /// pushes each item wrapped in `Rc::new(RefCell::new(..))`, in order, and
    /// yields the vector.
    pub fn to_tokens(&self, tokens: &mut Vec<TokenTree>)
        ensures
            trees(final(tokens)@) == trees(old(tokens)@) + list_tokens(self@),
    {
        let ghost items = self@;
        let n = self.items.len();
        let mut body: Vec<TokenTree> = Vec::new();
        push_tree(&mut body, ident("let"));
        push_tree(&mut body, ident("mut"));
        push_tree(&mut body, ident("temp"));
        push_tree(&mut body, punct(':', Spacing::Alone));
        push_tree(&mut body, ident("Vec"));
        push_tree(&mut body, punct('<', Spacing::Alone));
        push_tree(&mut body, ident("Rc"));
        push_tree(&mut body, punct('<', Spacing::Alone));
        push_tree(&mut body, ident("RefCell"));
        push_tree(&mut body, punct('<', Spacing::Alone));
        push_tree(&mut body, ident("dyn"));
        push_tree(&mut body, ident("Any"));
        push_tree(&mut body, punct('>', Spacing::Joint));
        push_tree(&mut body, punct('>', Spacing::Alone));
        push_tree(&mut body, punct('>', Spacing::Alone));
        push_tree(&mut body, punct('=', Spacing::Alone));
        push_tree(&mut body, ident("Vec"));
        push_colons(&mut body);
        push_tree(&mut body, ident("with_capacity"));
        let mut lit: Vec<TokenTree> = Vec::new();
        push_tree(&mut lit, TokenTree::Literal(usize_literal_text(n)));
        assert(trees(lit@) =~= seq![Tree::Literal(usize_literal(n as nat))]);
        push_tree(&mut body, group(Delimiter::Parenthesis, lit));
        push_tree(&mut body, punct(';', Spacing::Alone));
        assert(trees(body@) =~= list_header(n as nat));
        let mut i: usize = 0;
        while i < n
            invariant
                i <= n,
                n == self.items.len(),
                items == self@,
                trees(body@) == list_header(n as nat) + push_stmts(items.subrange(0, i as int)),
            decreases n - i,
        {
            let ghost before = trees(body@);
            let mut item: Vec<TokenTree> = Vec::new();
            self.items[i].to_tokens(&mut item);
            let mut cell: Vec<TokenTree> = Vec::new();
            new_call(&mut cell, "RefCell", item);
            let mut rc: Vec<TokenTree> = Vec::new();
            new_call(&mut rc, "Rc", cell);
            push_tree(&mut body, ident("temp"));
            push_tree(&mut body, punct('.', Spacing::Alone));
            push_tree(&mut body, ident("push"));
            push_tree(&mut body, group(Delimiter::Parenthesis, rc));
            push_tree(&mut body, punct(';', Spacing::Alone));
            proof {
                let sub = items.subrange(0, i + 1);
                assert(sub.drop_last() =~= items.subrange(0, i as int));
                assert(sub.last() == items[i as int]);
                assert(trees(body@) =~= before + push_stmt(items[i as int]));
            }
            i = i + 1;
        }
        assert(items.subrange(0, n as int) =~= items);
        push_tree(&mut body, ident("temp"));
        assert(trees(body@) =~= list_header(items.len()) + push_stmts(items) + seq![id("temp")]);
        push_tree(tokens, group(Delimiter::Brace, body));
        assert(trees(tokens@) =~= trees(old(tokens)@) + list_tokens(items));
    }
}

} // verus!
