//! The expression tree that a parser builds from tokens, and that the
//! compiler reads. Every node carries the position it was read at.

use vstd::prelude::*;
use vstd::string::StringExecFns;

verus! {

/// The shape of an expression, with its payload. A float literal keeps its
/// text.
#[derive(Debug)]
pub enum ExprT {
    String(String),
    Identifier(String),
    Symbol(String),
    Number(i32),
    Float(String),
    List(Vec<Expr>),
}

/// An expression with its source position.
#[derive(Debug)]
pub struct Expr {
    pub exprt: ExprT,
    pub line: usize,
    pub column: usize,
}

/// The name under which an expression's shape is reported.
pub open spec fn shape_name(e: ExprT) -> Seq<char> {
    match e {
        ExprT::String(_) => "String"@,
        ExprT::Identifier(_) => "Identifier"@,
        ExprT::Symbol(_) => "Symbol"@,
        ExprT::Number(_) => "Number"@,
        ExprT::Float(_) => "Float"@,
        ExprT::List(_) => "List"@,
    }
}

impl Expr {
    pub fn new(exprt: ExprT, line: usize, column: usize) -> (r: Self)
        ensures
            r.exprt == exprt,
            r.line == line,
            r.column == column,
    {
        Expr { exprt, line, column }
    }

    /// The name of this expression's shape, as used in diagnostics.
    pub fn get_type(&self) -> (r: String)
        ensures
            r@ == shape_name(self.exprt),
    {
        let s = match &self.exprt {
            ExprT::String(_) => "String",
            ExprT::Identifier(_) => "Identifier",
            ExprT::Symbol(_) => "Symbol",
            ExprT::Number(_) => "Number",
            ExprT::Float(_) => "Float",
            ExprT::List(_) => "List",
        };
        String::from_str(s)
    }
}

} // verus!
