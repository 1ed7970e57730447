use vstd::prelude::*;

pub mod error;
pub mod eval;
pub mod eval_expr;
pub mod eval_stmt;
pub mod tokenizer;
pub mod value;
pub mod ast;
pub mod ast_expr;
pub mod ast_stmt;
pub mod build_env;
pub mod display;
pub mod import;
pub mod machine;
pub mod table;
pub mod laws;
pub mod semantics_laws;
