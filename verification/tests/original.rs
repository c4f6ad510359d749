//! The scenarios of the crate's own tests: each expansion is compared with the
//! code it should be, and that code is run to the values the tests expect.
use std::{any::Any, cell::RefCell, rc::Rc};

use python_macros::tokens::{Delimiter, Spacing, TokenTree};
use python_macros::{comp, lambda, list};

fn convert(stream: proc_macro2::TokenStream) -> Vec<TokenTree> {
    let mut out = Vec::new();
    for t in stream {
        match t {
            proc_macro2::TokenTree::Ident(i) => out.push(TokenTree::Ident(i.to_string())),
            proc_macro2::TokenTree::Literal(l) => out.push(TokenTree::Literal(l.to_string())),
            proc_macro2::TokenTree::Punct(p) => out.push(TokenTree::Punct(
                p.as_char(),
                match p.spacing() {
                    proc_macro2::Spacing::Alone => Spacing::Alone,
                    proc_macro2::Spacing::Joint => Spacing::Joint,
                },
            )),
            proc_macro2::TokenTree::Group(g) => {
                let inner = convert(g.stream());
                match g.delimiter() {
                    proc_macro2::Delimiter::Parenthesis => {
                        out.push(TokenTree::Group(Delimiter::Parenthesis, inner))
                    }
                    proc_macro2::Delimiter::Brace => out.push(TokenTree::Group(Delimiter::Brace, inner)),
                    proc_macro2::Delimiter::Bracket => {
                        out.push(TokenTree::Group(Delimiter::Bracket, inner))
                    }
                    proc_macro2::Delimiter::None => {
                        out.push(TokenTree::Group(Delimiter::Invisible, inner))
                    }
                }
            }
        }
    }
    out
}

fn lex(text: &str) -> Vec<TokenTree> {
    convert(text.parse().unwrap())
}

#[test]
fn it_works() {
    let out = comp(&lex("x for x in [1, 2, 3]")).unwrap();
    assert_eq!(
        out,
        lex("core::iter::IntoIterator::into_iter([1, 2, 3]).filter_map(move |x| { (true).then(|| x) })")
    );
    let result = core::iter::IntoIterator::into_iter([1, 2, 3])
        .filter_map(move |x| (true).then(|| x))
        .collect::<Vec<_>>();

    let out2 = comp(&lex("x * y for (x, y) in list if x * y > 2 && x < 3")).unwrap();
    assert_eq!(
        out2,
        lex("core::iter::IntoIterator::into_iter(list).filter_map(move |(x, y)| { (true && (x * y > 2 && x < 3)).then(|| x * y) })")
    );
    let list = Vec::from([(1, 2), (2, 2), (3, 3)]);
    let res2 = core::iter::IntoIterator::into_iter(list)
        .filter_map(move |(x, y)| (true && (x * y > 2 && x < 3)).then(|| x * y))
        .collect::<Vec<_>>();
    assert_eq!(result, [1, 2, 3]);
    assert_eq!(res2, [4]);
}

#[test]
fn lambda_fn() {
    let out = lambda(&lex("lambda x, y, z: x + y + z  if x == 1 else 5")).unwrap();
    assert_eq!(out, lex("|x, y, z| if x == 1 { x + y + z } else { 5 }"));
    let add = |x, y, z| if x == 1 { x + y + z } else { 5 };
    assert_eq!(add(1, 2, 3), 6);
}

#[test]
fn test_combined() {
    let out = comp(&lex(
        "lambda! {lambda x, y: x + y if x < y else y}(x, y) for (x, y) in list",
    ))
    .unwrap();
    assert_eq!(
        out,
        lex("core::iter::IntoIterator::into_iter(list).filter_map(move |(x, y)| { (true).then(|| lambda! {lambda x, y: x + y if x < y else y}(x, y)) })")
    );
    let inner = lambda(&lex("lambda x, y: x + y if x < y else y")).unwrap();
    assert_eq!(inner, lex("|x, y| if x < y { x + y } else { y }"));
    let list = Vec::from([(1, 2), (2, 1), (3, 3), (1, 5)]);
    let res1 = core::iter::IntoIterator::into_iter(list)
        .filter_map(move |(x, y)| (true).then(|| (|x, y| if x < y { x + y } else { y })(x, y)))
        .collect::<Vec<_>>();
    assert_eq!(res1, [3, 1, 3, 6]);
}

#[test]
fn test_large() {
    let out = comp(&lex(
        "comp![lambda!{lambda x: x * 2 if x % 2 == 0 else 10 if x < 1000 else 0}(x) for x in l].sum::<i32>() for l in list",
    ))
    .unwrap();
    assert_eq!(
        out,
        lex("core::iter::IntoIterator::into_iter(list).filter_map(move |l| { (true).then(|| comp![lambda!{lambda x: x * 2 if x % 2 == 0 else 10 if x < 1000 else 0}(x) for x in l].sum::<i32>()) })")
    );
    let middle = comp(&lex(
        "lambda!{lambda x: x * 2 if x % 2 == 0 else 10 if x < 1000 else 0}(x) for x in l",
    ))
    .unwrap();
    assert_eq!(
        middle,
        lex("core::iter::IntoIterator::into_iter(l).filter_map(move |x| { (true).then(|| lambda!{lambda x: x * 2 if x % 2 == 0 else 10 if x < 1000 else 0}(x)) })")
    );
    let inner = lambda(&lex("lambda x: x * 2 if x % 2 == 0 else 10 if x < 1000 else 0")).unwrap();
    assert_eq!(
        inner,
        lex("|x| if x % 2 == 0 { x * 2 } else { if x < 1000 { 10 } else { 0 } }")
    );
    let list = Vec::from([vec![1, 2, 3], vec![2, 3, 4], vec![3, 4, 5]]);
    let res1 = core::iter::IntoIterator::into_iter(list)
        .filter_map(move |l| {
            (true).then(|| {
                core::iter::IntoIterator::into_iter(l)
                    .filter_map(move |x| {
                        (true).then(|| {
                            (|x| if x % 2 == 0 { x * 2 } else { if x < 1000 { 10 } else { 0 } })(x)
                        })
                    })
                    .sum::<i32>()
            })
        })
        .sum::<i32>();
    assert_eq!(res1, 74);
}

#[test]
fn test_multi_comp() {
    let out = comp(&lex("x for v in list if v.len() <= 3 for x in v if x > 1 ")).unwrap();
    assert_eq!(
        out,
        lex("core::iter::IntoIterator::into_iter(list).filter_map(move |v| { (true && (v.len() <= 3)).then(|| core::iter::IntoIterator::into_iter(v).filter_map(move |x| { (true && (x > 1)).then(|| x) })) }).flatten()")
    );
    let list = vec![vec![1, 2, 3]; 3];
    let res: Vec<_> = core::iter::IntoIterator::into_iter(list)
        .filter_map(move |v| {
            (true && (v.len() <= 3)).then(|| {
                core::iter::IntoIterator::into_iter(v).filter_map(move |x| (true && (x > 1)).then(|| x))
            })
        })
        .flatten()
        .collect();
    assert_eq!(res, vec![2, 3, 2, 3, 2, 3]);
}

#[test]
fn test_list() {
    let out = list(&lex(
        "comp![x for x in [1, 2, 3]].collect::<Vec<i32>>(), 1 + 2, \"hello_world\".to_string(), lambda! {lambda x, y: x * y if x > 0 else y}(0, 5),",
    ))
    .unwrap();
    assert_eq!(
        out,
        lex("{ let mut temp: Vec<Rc<RefCell<dyn Any>> > = Vec::with_capacity(4usize); \
             temp.push(Rc::new(RefCell::new(comp![x for x in [1, 2, 3]].collect::<Vec<i32>>()))); \
             temp.push(Rc::new(RefCell::new(1 + 2))); \
             temp.push(Rc::new(RefCell::new(\"hello_world\".to_string()))); \
             temp.push(Rc::new(RefCell::new(lambda! {lambda x, y: x * y if x > 0 else y}(0, 5)))); \
             temp }")
    );
    let l = {
        let mut temp: Vec<Rc<RefCell<dyn Any>>> = Vec::with_capacity(4usize);
        temp.push(Rc::new(RefCell::new(
            core::iter::IntoIterator::into_iter([1, 2, 3])
                .filter_map(move |x| (true).then(|| x))
                .collect::<Vec<i32>>(),
        )));
        temp.push(Rc::new(RefCell::new(1 + 2)));
        temp.push(Rc::new(RefCell::new("hello_world".to_string())));
        temp.push(Rc::new(RefCell::new((|x, y| if x > 0 { x * y } else { y })(0, 5))));
        temp
    };
    let expected: Vec<Rc<RefCell<dyn Any>>> = vec![
        Rc::new(RefCell::new(vec![1, 2, 3])),
        Rc::new(RefCell::new(3)),
        Rc::new(RefCell::new("hello_world".to_string())),
        Rc::new(RefCell::new(5)),
    ];

    assert_eq!(l.len(), expected.len());
    for (item, expected_item) in l.iter().zip(expected.iter()) {
        let item = item.borrow();
        let expected_item = expected_item.borrow();

        if let Some(item) = item.downcast_ref::<i32>() {
            assert_eq!(item, expected_item.downcast_ref::<i32>().unwrap());
        } else if let Some(item) = item.downcast_ref::<String>() {
            assert_eq!(item, expected_item.downcast_ref::<String>().unwrap());
        } else if let Some(item) = item.downcast_ref::<Vec<i32>>() {
            assert_eq!(item, expected_item.downcast_ref::<Vec<i32>>().unwrap());
        } else {
            panic!("Unexpected type in list!");
        }
    }
}
