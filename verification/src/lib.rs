//! Constant folding for JavaScript.
//!
//! [`fold_constants`] holds the pass: it takes an expression or a statement of the tree in [`ast`]
//! and puts what it folds to in its place. [`comparison`] and [`arithmetic`] evaluate the operators,
//! [`node_util`] reads values out of expressions, and [`numeric_text`] sorts the texts that are
//! converted to numbers. What each function does is stated over the mathematical tree in [`model`].
//! [`soundness`], [`effects`] and [`laws`] prove that folding keeps the meaning that [`value`] gives
//! to expressions, whatever its environment gives to variables and other nodes. [`parts`] says on
//! the syntax alone what acts and what is declared in a tree, and [`known`] what its form is enough
//! to know.
pub mod arithmetic;
pub mod ast;
pub mod bigint;
pub mod builder;
pub mod comparison;
pub mod context;
pub mod effects;
pub mod fold_constants;
pub mod keep_var;
pub mod known;
pub mod laws;
pub mod model;
pub mod node_util;
pub mod number;
pub mod number_value;
pub mod numeric_text;
pub mod operator;
pub mod parts;
pub mod soundness;
pub mod text;
pub mod tri;
pub mod ty;
pub mod value;
