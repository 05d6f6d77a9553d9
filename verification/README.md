# fold_constants

Constant folding for JavaScript syntax trees, verified with Verus.

The pass folds comparisons, shifts, additions, `typeof`, `!`, `void`, `&&`, `||`, conditional
expressions and the conditions of `if`, `while` and `for` statements where their values are known.

- `src/` is the library. Every function has a contract over a mathematical tree. Numbers are IEEE
  doubles held as their bits, with order, equality, sums and conversions proved over integers.
  Integers of any size are computed by `num_bigint`.
- `src/value.rs` defines the values of expressions as ECMA-262 does, in an environment that gives
  variables, calls and other nodes any value or an exception. `src/soundness.rs` and
  `src/effects.rs` prove that folding keeps the value and the effects of an expression. Each law
  says which expressions it leaves out.
- `src/numeric_text.rs` sorts the texts that are converted to numbers.
- `app/` runs the pass on the trees of `oxc_ast`, under the traversal of `oxc_traverse`, and holds
  what is floating point: the value of a decimal text, and the text of a number.
- `tests/` runs the library.
