//! The library's own scenarios: each macro's expansion on concrete input, the
//! errors, the setter scan and the laws on concrete values.
use python_macros::comp::Comprehension;
use python_macros::list::usize_literal_text;
use python_macros::scope::{parse_set_macro, walrus_rewrite, ParseContext, Scoper, Setter, SetterVisitor};
use python_macros::step::{parse_all, parse_till_end, Grammar, Step};
use python_macros::tokens::{Delimiter, Spacing, TokenTree};
use python_macros::walrus::Walrus;
use python_macros::{
    comp, lambda, list, scoped, scoped_exprs, scoped_parts, set_mut, set_py, well_formed, MacroError,
};

fn convert(stream: proc_macro2::TokenStream) -> Vec<TokenTree> {
    let mut out = Vec::new();
    for t in stream {
        match t {
            proc_macro2::TokenTree::Ident(i) => out.push(TokenTree::Ident(i.to_string())),
            proc_macro2::TokenTree::Literal(l) => out.push(TokenTree::Literal(l.to_string())),
            proc_macro2::TokenTree::Punct(p) => out.push(TokenTree::Punct(
                p.as_char(),
                match p.spacing() {
                    proc_macro2::Spacing::Alone => Spacing::Alone,
                    proc_macro2::Spacing::Joint => Spacing::Joint,
                },
            )),
            proc_macro2::TokenTree::Group(g) => {
                let inner = convert(g.stream());
                match g.delimiter() {
                    proc_macro2::Delimiter::Parenthesis => {
                        out.push(TokenTree::Group(Delimiter::Parenthesis, inner))
                    }
                    proc_macro2::Delimiter::Brace => out.push(TokenTree::Group(Delimiter::Brace, inner)),
                    proc_macro2::Delimiter::Bracket => {
                        out.push(TokenTree::Group(Delimiter::Bracket, inner))
                    }
                    proc_macro2::Delimiter::None => {
                        out.push(TokenTree::Group(Delimiter::Invisible, inner))
                    }
                }
            }
        }
    }
    out
}

fn lex(text: &str) -> Vec<TokenTree> {
    convert(text.parse().unwrap())
}

#[test]
fn comp_without_for_clause_is_refused() {
    assert_eq!(comp(&lex("x")), Err(MacroError::MissingForClause));
}

#[test]
fn comp_syntax_errors() {
    assert_eq!(comp(&lex("for x in y")), Err(MacroError::Syntax));
    assert_eq!(comp(&lex("x for x in y z")), Err(MacroError::Syntax));
    assert_eq!(comp(&lex("x for in y")), Err(MacroError::Syntax));
}

#[test]
fn comp_refuses_a_clause_cut_short() {
    // `[x for y in v if]` is refused, as Python refuses it: the `if` is
    // consumed and its condition is missing.
    assert_eq!(comp(&lex("x for y in v if")), Err(MacroError::Syntax));
    assert_eq!(comp(&lex("x for y in v for")), Err(MacroError::Syntax));
    assert_eq!(comp(&lex("x for y in v if y > 1 if")), Err(MacroError::Syntax));
}

#[test]
fn comp_three_clauses_nest_first_outermost() {
    let out = comp(&lex("z for x in a for y in x if y > 0 for z in y")).unwrap();
    assert_eq!(
        out,
        lex("core::iter::IntoIterator::into_iter(a).filter_map(move |x| { (true).then(|| \
             core::iter::IntoIterator::into_iter(x).filter_map(move |y| { (true && (y > 0)).then(|| \
             core::iter::IntoIterator::into_iter(y).filter_map(move |z| { (true).then(|| z) })) }).flatten()) }).flatten()")
    );
}

#[test]
fn comprehension_parse_keeps_the_pieces() {
    let tokens = lex("x + 1 for (a, b) in pairs if a > b if b > 0");
    let c: Comprehension = parse_all(&tokens).unwrap();
    assert_eq!(c.expr, lex("x + 1"));
    assert_eq!(c.for_ifs.len(), 1);
    assert_eq!(c.for_ifs[0].pattern, lex("(a, b)"));
    assert_eq!(c.for_ifs[0].gen, lex("pairs"));
    assert_eq!(c.for_ifs[0].conds.len(), 2);
    assert_eq!(c.for_ifs[0].conds[0].0, lex("a > b"));
    assert_eq!(c.for_ifs[0].conds[1].0, lex("b > 0"));
}

#[test]
fn lambda_without_conditions() {
    assert_eq!(lambda(&lex("lambda a, b: a * b")).unwrap(), lex("|a, b| a * b"));
}

#[test]
fn lambda_with_trailing_comma_and_no_args() {
    assert_eq!(lambda(&lex("lambda a,: a")).unwrap(), lex("|a| a"));
    assert_eq!(lambda(&lex("lambda : 1")).unwrap(), lex("| | 1"));
}

#[test]
fn lambda_errors() {
    assert_eq!(lambda(&lex("lambda x y: x")), Err(MacroError::Syntax));
    assert_eq!(lambda(&lex("x: x")), Err(MacroError::Syntax));
    // a conditional without `else` is refused, as Python refuses it
    assert_eq!(lambda(&lex("lambda x: x if x > 0")), Err(MacroError::Syntax));
    assert_eq!(list(&lex("1, 2 +")), Err(MacroError::Syntax));
}

#[test]
fn lambda_chained_conditionals_nest_as_python() {
    let out = lambda(&lex("lambda x: x * 2 if x % 2 == 0 else 10 if x < 1000 else 0")).unwrap();
    assert_eq!(out, lex("|x| if x % 2 == 0 { x * 2 } else { if x < 1000 { 10 } else { 0 } }"));
    let f = |x: i32| if x % 2 == 0 { x * 2 } else { if x < 1000 { 10 } else { 0 } };
    assert_eq!(f(1002), 2004);
    assert_eq!(f(3), 10);
    assert_eq!(f(1001), 0);
    let three = lambda(&lex("lambda: a if p else b if q else c if r else d")).unwrap();
    assert_eq!(three, lex("| | if p { a } else { if q { b } else { if r { c } else { d } } }"));
}

#[test]
fn list_empty_and_capacity() {
    assert_eq!(
        list(&lex("")).unwrap(),
        lex("{ let mut temp: Vec<Rc<RefCell<dyn Any>> > = Vec::with_capacity(0usize); temp }")
    );
    let twelve = "1, 2, 3, 4, 5, 6, 7, 8, 9, 10, 11, 12";
    let out = list(&lex(twelve)).unwrap();
    match &out[0] {
        TokenTree::Group(Delimiter::Brace, body) => {
            assert_eq!(body[20], TokenTree::Group(Delimiter::Parenthesis, vec![TokenTree::Literal("12usize".to_string())]));
        }
        _ => panic!("not a block"),
    }
}

#[test]
fn list_errors() {
    // an item that is not an expression stops the list and is left over
    assert_eq!(list(&lex("1 ;")), Err(MacroError::Syntax));
    assert_eq!(list(&lex("1, ;")), Err(MacroError::Syntax));
}

#[test]
fn list_items_without_commas() {
    // the comma after an item is optional
    let with_commas = list(&lex("1, 2")).unwrap();
    let without = list(&lex("1 2")).unwrap();
    assert_eq!(with_commas, without);
}

#[test]
fn usize_literals() {
    assert_eq!(usize_literal_text(0), "0usize");
    assert_eq!(usize_literal_text(7), "7usize");
    assert_eq!(usize_literal_text(1024), "1024usize");
    assert_eq!(usize_literal_text(usize::MAX), format!("{}usize", usize::MAX));
}

#[test]
fn set_declarations() {
    assert_eq!(python_macros::macros::set(&lex("x = 5")), lex("let x = 5;"));
    assert_eq!(set_mut(&lex("x = 5")), lex("let mut x = 5;"));
    assert_eq!(set_py(&lex("x = 5")), lex("let python_var x = 5;"));
}

#[test]
fn setter_parse_forms() {
    let s: Setter = parse_all(&lex("x = 5 + 1")).unwrap();
    match &s {
        Setter::SetVar(ParseContext::Expr, i) => {
            assert_eq!(i.var, "x");
            assert_eq!(i.expr, lex("5 + 1"));
        }
        _ => panic!("wrong setter"),
    }
    match parse_all::<Setter>(&lex("mut y = v")).unwrap() {
        Setter::SetMut(ParseContext::Expr, i) => assert_eq!(i.var, "y"),
        _ => panic!("wrong setter"),
    }
    // `py` is an identifier to syn, so `py z = 1` is read as a setter of
    // `py` that misses its `=`.
    assert!(parse_all::<Setter>(&lex("py z = 1")).is_none());
    assert!(parse_all::<Setter>(&lex("for = 1")).is_none());
    assert!(parse_all::<Setter>(&lex("x = 1 2")).is_none());
}

#[test]
fn setter_tokens_in_both_contexts() {
    let s: Setter = parse_all(&lex("x = 5")).unwrap();
    let mut out = Vec::new();
    s.to_tokens(&mut out);
    assert_eq!(out, lex("{ x = 5; x.clone() }"));
    let d = s.with_context(ParseContext::Decl);
    let mut out = Vec::new();
    d.to_tokens(&mut out);
    assert_eq!(out, lex("let x;"));
    let p = Setter::SetPython(ParseContext::Expr, python_macros::scope::SetInfo { var: "v".to_string(), expr: lex("3") });
    let mut out = Vec::new();
    p.to_tokens(&mut out);
    assert_eq!(out, lex("{ v = Rc::new(RefCell::new(3)); v.clone() }"));
}

#[test]
fn set_scan_nested_first() {
    let found = parse_set_macro(&lex("set!(a = set!(b = 1)) f(set!(c = 2))"));
    assert_eq!(found, vec![lex("b = 1"), lex("a = set!(b = 1)")]);
    let mut visitor = SetterVisitor::default();
    visitor.process_set_macro(&lex("set!(a = set!(b = 1)) f(set!(c = 2))"));
    assert_eq!(visitor.setters, vec![lex("b = 1"), lex("a = set!(b = 1)"), lex("c = 2")]);
}

#[test]
fn set_scan_skips_what_follows_set() {
    // `set` not followed by `!`: the next token is taken and not entered.
    let mut visitor = SetterVisitor::default();
    visitor.process_set_macro(&lex("set (set!(a = 1))"));
    assert_eq!(visitor.setters, Vec::<Vec<TokenTree>>::new());
}

#[test]
fn visit_expr_macro_decisions() {
    let mut visitor = SetterVisitor::default();
    visitor.visit_expr_macro(&lex("set"), &lex("x = 5"));
    assert_eq!(visitor.setters, vec![lex("x = 5")]);
    let mut visitor = SetterVisitor::default();
    visitor.visit_expr_macro(&lex("vec"), &lex("set!(y = 1), 2"));
    assert_eq!(visitor.setters, vec![lex("y = 1")]);
    // a macro whose whole body is one `set!`: collected once
    let mut visitor = SetterVisitor::default();
    visitor.visit_expr_macro(&lex("dbg"), &lex("set!(z = 2)"));
    assert_eq!(visitor.setters, vec![lex("z = 2")]);
    let mut visitor = SetterVisitor::default();
    visitor.visit_expr_macro(&lex("set"), &lex("a = set!(b = 1)"));
    assert_eq!(visitor.setters, vec![lex("a = set!(b = 1)"), lex("b = 1")]);
}

#[test]
fn scoped_block() {
    let tokens = lex("vec![set!(x = 5), x + 5]; x");
    let (exprs, all) = scoped_exprs(&tokens);
    assert!(all);
    assert_eq!(exprs, vec![lex("vec![set!(x = 5), x + 5]"), lex("x")]);
    let out = scoped_parts(exprs, all, &vec![lex("x = 5"), lex("mut y = 2")]).unwrap();
    assert_eq!(out, lex("{ let x; let mut y; vec![{ x = 5; x.clone() }, x + 5]; x }"));
}

#[test]
fn scoped_set_acts_as_walrus() {
    // scoped!{ vec![set!(x = 5), x + 5] }: `set!` binds `x`, yields 5, and
    // the later `x + 5` sees it.
    let (exprs, all) = scoped_exprs(&lex("vec![set!(x = 5), x + 5]"));
    let out = scoped_parts(exprs, all, &vec![lex("x = 5")]).unwrap();
    assert_eq!(out, lex("{ let x; vec![{ x = 5; x.clone() }, x + 5] }"));
    let v = {
        let x;
        vec![
            {
                x = 5;
                x.clone()
            },
            x + 5,
        ]
    };
    assert_eq!(v, vec![5, 10]);
}

#[test]
fn walrus_rewrite_nested_and_py() {
    assert_eq!(
        walrus_rewrite(&lex("f(set!(a = set!(b = 1) + 1))")).unwrap(),
        lex("f({ a = { b = 1; b.clone() } + 1; a.clone() })")
    );
    assert_eq!(walrus_rewrite(&lex("set!(mut m = 2)")).unwrap(), lex("{ m = 2; m.clone() }"));
    assert_eq!(walrus_rewrite(&lex("set (a) + set!{ c = 3 }")).unwrap(), lex("set (a) + { c = 3; c.clone() }"));
    assert_eq!(walrus_rewrite(&lex("g(set!(= 1))")), Err(MacroError::NotASet));
    assert_eq!(walrus_rewrite(&lex("set!(x 1)")), Err(MacroError::Syntax));
}

#[test]
fn scoped_without_expressions_and_errors() {
    assert_eq!(scoped_exprs(&lex("")), (Vec::<Vec<TokenTree>>::new(), true));
    assert_eq!(scoped_parts(vec![], true, &vec![lex("a = 1")]).unwrap(), lex("let a;"));
    assert_eq!(scoped_parts(vec![lex("1")], true, &vec![lex("= 1")]), Err(MacroError::NotASet));
    assert_eq!(
        scoped_parts(vec![lex("vec![set!(let x = 5)]")], true, &vec![lex("let x = 5")]),
        Err(MacroError::NotASet)
    );
    assert_eq!(scoped_parts(vec![lex("1")], true, &vec![lex("x 1")]), Err(MacroError::Syntax));
    // `1; ;`: the second expression does not parse
    assert_eq!(scoped_exprs(&lex("1; ;")), (vec![lex("1")], false));
    assert_eq!(scoped_parts(vec![lex("1")], false, &vec![]), Err(MacroError::Syntax));
    let (s, all) = Scoper::split_exprs(&lex("a b; c"));
    assert!(all);
    assert_eq!(s, vec![lex("a"), lex("b"), lex("c")]);
}

#[test]
fn scoped_errors_come_in_expression_order() {
    // `scoped!{ vec![set!(let x = 1)]; ; }`: the setter of the first
    // expression is refused before the second expression fails to parse
    let (exprs, all) = scoped_exprs(&lex("vec![set!(let x = 1)]; ;"));
    assert!(!all);
    assert_eq!(exprs, vec![lex("vec![set!(let x = 1)]")]);
    assert_eq!(scoped_parts(exprs, all, &vec![lex("let x = 1")]), Err(MacroError::NotASet));
}

#[test]
fn setter_errors_carry_messages() {
    match Setter::parse_whole(&lex("let x = 5")) {
        Err(e) => {
            assert_eq!(e, MacroError::NotASet);
            assert_eq!(e.message(), "not a set");
        }
        Ok(_) => panic!("`let x = 5` is not a set"),
    }
    assert!(matches!(Setter::parse_whole(&lex("x = ")), Err(MacroError::Syntax)));
    assert!(Setter::parse_whole(&lex("x = 1")).is_ok());
    assert_eq!(MacroError::MissingForClause.message(), "must contain at least one for_if");
    assert_eq!(MacroError::Syntax.message(), "unexpected input");
}

#[test]
fn text_that_lexes_to_several_trees_is_refused() {
    // one identifier whose text lexes to several trees: syn's report does not
    // fit the tokens, and the parse is refused rather than miscounted
    assert_eq!(list(&vec![TokenTree::Ident("a b".to_string())]), Err(MacroError::Syntax));
    assert_eq!(list(&vec![TokenTree::Ident("a b c".to_string())]), Err(MacroError::Syntax));
    // a literal `-1` made by another macro is converted as one literal
    assert!(list(&vec![TokenTree::Literal("-1".to_string())]).is_ok());
}

#[test]
fn walrus_binding() {
    let w: Walrus = parse_all(&lex("x = vec![1, 2, 3]")).unwrap();
    let mut out = Vec::new();
    w.to_tokens(&mut out);
    assert_eq!(out, lex("{ let x = vec![1, 2, 3]; x }"));
    assert!(parse_all::<Walrus>(&lex("5 = x")).is_none());
}

#[test]
fn parse_till_end_stops_at_first_failure() {
    // the third `if` fails where it starts: the list ends there
    let tokens = lex("if a if b else c");
    match parse_till_end::<python_macros::comp::Condition>(&tokens, 0) {
        Step::Done(conds, q) => {
            assert_eq!(conds.len(), 2);
            assert_eq!(conds[1].0, lex("b"));
            assert_eq!(q, 4);
        }
        _ => panic!("parse_till_end failed"),
    }
    // an `if` without its condition fails after it was consumed
    match parse_till_end::<python_macros::comp::Condition>(&lex("if a if"), 0) {
        Step::Failed(q) => assert_eq!(q, 3),
        _ => panic!("a condition cut short is accepted"),
    }
}

#[test]
fn condition_writes_its_expression() {
    let tokens = lex("if a > b");
    match <python_macros::comp::Condition as Grammar>::parse(&tokens, 0) {
        Step::Done(c, q) => {
            assert_eq!(q, tokens.len());
            let mut out = Vec::new();
            c.to_tokens(&mut out);
            assert_eq!(out, lex("a > b"));
        }
        _ => panic!("condition refused"),
    }
}

#[test]
fn well_formed_tokens() {
    assert!(well_formed(&lex("a + (b - [c])")));
    assert!(!well_formed(&vec![TokenTree::Group(Delimiter::Brace, vec![TokenTree::Punct('a', Spacing::Alone)])]));
}

#[test]
fn unexpected_token_in_group_fails_the_whole_parse() {
    // `(a b)` leaves `b` behind inside the parentheses.
    assert_eq!(comp(&lex("x for x in v if (a b)")), Err(MacroError::Syntax));
}

#[test]
fn no_set_no_setters() {
    let found = parse_set_macro(&lex("vec![settle!(x = 1), reset(2), {set_x}]"));
    assert_eq!(found, Vec::<Vec<TokenTree>>::new());
    let mut visitor = SetterVisitor::default();
    visitor.process_set_macro(&lex("vec![settle!(x = 1), reset(2), {set_x}]"));
    assert_eq!(visitor.setters, Vec::<Vec<TokenTree>>::new());
}

#[test]
fn trailing_comma_and_semicolon_change_nothing() {
    assert_eq!(list(&lex("a, f(b),")).unwrap(), list(&lex("a, f(b)")).unwrap());
    assert_eq!(scoped_exprs(&lex("a; b;")), scoped_exprs(&lex("a; b")));
    let (exprs, all) = scoped_exprs(&lex("a; b;"));
    let out = scoped_parts(exprs, all, &vec![]).unwrap();
    assert_eq!(out, lex("{ a; b }"));
}

#[test]
fn expressions_without_set_are_kept() {
    let t = lex("f(x) + [1, 2] * { y }");
    assert_eq!(walrus_rewrite(&t).unwrap(), t);
}

#[test]
fn set_prints_invisible_groups_as_their_content() {
    let mut input = lex("x =");
    input.push(TokenTree::Group(Delimiter::Invisible, lex("1 + (2)")));
    assert_eq!(python_macros::macros::set(&input), lex("let x = 1 + (2);"));
}

#[test]
fn scoped_whole_input_declares_and_rewrites() {
    // scoped!{ vec![set!(x = 5), x + 5] } yields vec![5, 10]
    assert_eq!(
        scoped(&lex("vec![set!(x = 5), x + 5]")),
        Ok(lex("{ let x; vec![{ x = 5; x.clone() }, x + 5] }"))
    );
    // the setters of e1, then those of e2, in order; each `set!` once
    assert_eq!(
        scoped(&lex("f(set!(a = 1)); dbg!(set!(mut b = 2)); a + b")),
        Ok(lex("{ let a; let mut b; f({ a = 1; a.clone() }); dbg!({ b = 2; b.clone() }); a + b }"))
    );
    // a `set!` in statement position inside a block is declared too
    assert_eq!(
        scoped(&lex("{ set!(c = 3); c }")),
        Ok(lex("{ let c; { { c = 3; c.clone() }; c } }"))
    );
    // nested: the outer argument, then the one inside it
    assert_eq!(
        scoped(&lex("set!(p = set!(q = 1) + 1)")),
        Ok(lex("{ let p; let q; { p = { q = 1; q.clone() } + 1; p.clone() } }"))
    );
}

#[test]
fn scoped_whole_input_errors() {
    assert_eq!(scoped(&lex("vec![set!(let x = 5)]")), Err(MacroError::NotASet));
    assert_eq!(scoped(&lex("vec![set!(x 5)]")), Err(MacroError::Syntax));
    // a refused `set!` in the first expression comes before the second
    // expression that does not parse
    assert_eq!(scoped(&lex("vec![set!(let x = 1)]; ;")), Err(MacroError::NotASet));
    assert_eq!(scoped(&lex("1; ;")), Err(MacroError::Syntax));
    assert_eq!(scoped(&lex("a; b;")), scoped(&lex("a; b")));
    assert_eq!(scoped(&lex("a; b")), Ok(lex("{ a; b }")));
}

#[test]
fn negative_literal_from_another_macro_is_one_token() {
    // a literal `-1i32` made by another macro is one token: one list item
    let item = vec![TokenTree::Literal("-1i32".to_string())];
    let out = list(&item).unwrap();
    let mut expected = lex("{ let mut temp: Vec<Rc<RefCell<dyn Any>> > = Vec::with_capacity(1usize); temp.push(Rc::new(RefCell::new(X))); temp }");
    put_literal(&mut expected);
    assert_eq!(out, expected);
}

fn put_literal(ts: &mut Vec<TokenTree>) {
    for t in ts.iter_mut() {
        match t {
            TokenTree::Ident(s) if s == "X" => *t = TokenTree::Literal("-1i32".to_string()),
            TokenTree::Group(_, inner) => put_literal(inner),
            _ => {}
        }
    }
}
