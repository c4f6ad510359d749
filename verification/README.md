# python_macros

Python-like syntax for Rust, as verified functions from token trees to token
trees:

- `comp![expr for pat in iter if cond ...]`: a list comprehension, expanded to
  nested `into_iter(..).filter_map(..)` chains;
- `lambda!{lambda x, y: body if cond else other}`: a closure;
- `list![a, b, c]`: a `Vec<Rc<RefCell<dyn Any>>>` holding the items;
- `scoped!{ ...; set!(x = e) ...; }`: a block that declares each variable that
  a `set!` binds at its top, and in which each `set!(x = e)` becomes
  `{ x = e; x.clone() }`, which binds `x` and yields its value, as Python's
  walrus operator `x := e` does;
- `set!`, `set_mut!`, `set_py!` on their own: `let` declarations.

Layout:

- `src/tokens.rs`: the token trees and their mathematical view;
- `src/step.rs`: a non-backtracking parser over token trees, in which Rust
  expressions and patterns are recognised by `syn`;
- `src/outside.rs`: the calls into `syn` and `proc-macro2` (parsing
  expressions, patterns and identifiers, and walking an expression for its
  macro invocations), with the contracts that are trusted of them;
- `src/comp.rs`, `src/func.rs`, `src/list.rs`, `src/scope.rs`, `src/walrus.rs`:
  the grammar and the expansion of each macro, each with a spec function that
  states it;
- `src/error.rs`: the errors and the messages they report;
- `src/macros.rs`: the macros as whole functions;
- `src/laws.rs`: properties that span several functions;
- `app/lib.rs`: the entry points over `proc_macro2::TokenStream`.
