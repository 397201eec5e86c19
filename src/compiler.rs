//! Compilation of expressions into editor statements.
//!
//! A call `(name arg ...)` whose head names a builtin is handed to that
//! builtin, which checks its arguments (count, shape, enumerated symbols)
//! and emits one statement. Arguments that are arbitrary expressions are
//! compiled by the same dispatch. Every diagnostic carries the position of
//! the offending expression.

use vstd::prelude::*;
use vstd::string::StringExecFns;
use crate::expr::{shape_name, Expr, ExprT};
use crate::text::{decimal, push_char, push_decimal, push_str, signed_decimal};

verus! {

/// The text of a compilation result.
pub open spec fn res_view(r: Result<String, String>) -> Result<Seq<char>, Seq<char>> {
    match r {
        Ok(s) => Ok(s@),
        Err(m) => Err(m@),
    }
}

/// The `line:column | ` prefix of a diagnostic about `e`.
pub open spec fn position(e: Expr) -> Seq<char> {
    decimal(e.line as nat) + ":"@ + decimal(e.column as nat) + " | "@
}

/// The diagnostic for `e` standing where a `want` was expected.
pub open spec fn expected_message(want: Seq<char>, e: Expr) -> Seq<char> {
    position(e) + "Expected "@ + want + ", found "@ + shape_name(e.exprt) + "."@
}

/// The diagnostic for a builtin given `n` arguments outside `accepted`.
pub open spec fn arity_message(name: Seq<char>, accepted: Seq<char>, n: nat) -> Seq<char> {
    "Function '"@ + name + "' takes "@ + accepted + " arguments, but "@ + decimal(n)
        + " arguments were supplied."@
}

/// The variable prefix that a scope symbol stands for.
pub open spec fn scope_prefix(sym: Seq<char>) -> Option<Seq<char>> {
    if sym == "global"@ {
        Some("g"@)
    } else if sym == "script"@ {
        Some("s"@)
    } else if sym == "window"@ {
        Some("w"@)
    } else if sym == "tab"@ {
        Some("t"@)
    } else if sym == "buffer"@ {
        Some("b"@)
    } else if sym == "function"@ {
        Some("l"@)
    } else {
        None
    }
}

/// What compiling an expression yields.
///
/// Literals stand for themselves (a string in double quotes); a call whose
/// head names a builtin is compiled by it; anything else is an error.
pub open spec fn expr_result(e: Expr) -> Result<Seq<char>, Seq<char>>
    decreases e,
{
    match e.exprt {
        ExprT::Number(n) => Ok(signed_decimal(n as int)),
        ExprT::Float(t) => Ok(t@),
        ExprT::String(t) => Ok(seq!['"'] + t@ + seq!['"']),
        ExprT::Identifier(t) => Ok(t@),
        ExprT::Symbol(t) => Err(position(e) + t@ + ": Unexpected symbol."@),
        ExprT::List(items) => {
            if items@.len() == 0 {
                Err(position(e) + "Empty call."@)
            } else {
                let head = items@[0];
                let args = items@.subrange(1, items@.len() as int);
                match head.exprt {
                    ExprT::Identifier(name) => {
                        if name@ == "let"@ {
                            let_result(args)
                        } else if name@ == "colorscheme"@ {
                            colorscheme_result(args)
                        } else {
                            Err(position(head) + name@ + ": Unknown function."@)
                        }
                    },
                    _ => Err(expected_message("Identifier"@, head)),
                }
            }
        },
    }
}

/// What the `let` builtin yields: `let [scope:]name = value`.
pub open spec fn let_result(args: Seq<Expr>) -> Result<Seq<char>, Seq<char>>
    decreases args,
{
    if !(2 <= args.len() <= 3) {
        Err(arity_message("let"@, "2 or 3"@, args.len()))
    } else {
        match args[0].exprt {
            ExprT::Identifier(name) => match expr_result(args[1]) {
                Err(m) => Err(m),
                Ok(value) => {
                    if args.len() == 3 {
                        match args[2].exprt {
                            ExprT::Symbol(sym) => match scope_prefix(sym@) {
                                Some(p) => Ok("let "@ + p + ":"@ + name@ + " = "@ + value),
                                None => Err(position(args[2]) + sym@ + ": Unknown symbol."@),
                            },
                            _ => Err(expected_message("Symbol"@, args[2])),
                        }
                    } else {
                        Ok("let "@ + name@ + " = "@ + value)
                    }
                },
            },
            _ => Err(expected_message("Identifier"@, args[0])),
        }
    }
}

/// What the `colorscheme` builtin yields: the keyword, then a space and the
/// scheme's name when one is given.
pub open spec fn colorscheme_result(args: Seq<Expr>) -> Result<Seq<char>, Seq<char>> {
    if args.len() > 1 {
        Err(arity_message("colorscheme"@, "0 or 1"@, args.len()))
    } else if args.len() == 0 {
        Ok("colorscheme"@)
    } else {
        match args[0].exprt {
            ExprT::String(s) => Ok("colorscheme "@ + s@),
            _ => Err(expected_message("String"@, args[0])),
        }
    }
}

/// Appends the `line:column | ` prefix of a diagnostic about `e`.
fn push_position(m: &mut String, e: &Expr)
    ensures
        final(m)@ == old(m)@ + position(*e),
{
    push_decimal(m, e.line);
    push_str(m, ":");
    push_decimal(m, e.column);
    push_str(m, " | ");
    assert(final(m)@ =~= old(m)@ + position(*e));
}

fn expected_error(want: &str, e: &Expr) -> (r: String)
    ensures
        r@ == expected_message(want@, *e),
{
    let mut m = String::new();
    push_position(&mut m, e);
    push_str(&mut m, "Expected ");
    push_str(&mut m, want);
    push_str(&mut m, ", found ");
    let t = e.get_type();
    push_str(&mut m, t.as_str());
    push_str(&mut m, ".");
    assert(m@ =~= expected_message(want@, *e));
    m
}

fn arity_error(name: &str, accepted: &str, n: usize) -> (r: String)
    ensures
        r@ == arity_message(name@, accepted@, n as nat),
{
    let mut m = String::new();
    push_str(&mut m, "Function '");
    push_str(&mut m, name);
    push_str(&mut m, "' takes ");
    push_str(&mut m, accepted);
    push_str(&mut m, " arguments, but ");
    push_decimal(&mut m, n);
    push_str(&mut m, " arguments were supplied.");
    assert(m@ =~= arity_message(name@, accepted@, n as nat));
    m
}

/// Appends `t`, then a diagnostic text after the position of `e`.
fn error_at(e: &Expr, t: &String, what: &str) -> (r: String)
    ensures
        r@ == position(*e) + t@ + what@,
{
    let mut m = String::new();
    push_position(&mut m, e);
    push_str(&mut m, t.as_str());
    push_str(&mut m, what);
    assert(m@ =~= position(*e) + t@ + what@);
    m
}

fn scope_of(sym: &String) -> (r: Option<String>)
    ensures
        match r {
            Some(p) => scope_prefix(sym@) == Some(p@),
            None => scope_prefix(sym@) is None,
        },
{
    if *sym == String::from_str("global") {
        Some(String::from_str("g"))
    } else if *sym == String::from_str("script") {
        Some(String::from_str("s"))
    } else if *sym == String::from_str("window") {
        Some(String::from_str("w"))
    } else if *sym == String::from_str("tab") {
        Some(String::from_str("t"))
    } else if *sym == String::from_str("buffer") {
        Some(String::from_str("b"))
    } else if *sym == String::from_str("function") {
        Some(String::from_str("l"))
    } else {
        None
    }
}

/// The compiler from expressions to editor statements.
pub struct Compiler {}

impl Compiler {
    pub fn new() -> (r: Self) {
        Compiler {}
    }

    /// Compiles one expression.
    pub fn compile_expr(&self, e: &Expr) -> (r: Result<String, String>)
        ensures
            res_view(r) == expr_result(*e),
        decreases e,
    {
        match &e.exprt {
            ExprT::Number(n) => {
                let mut s = String::new();
                if *n < 0 {
                    push_char(&mut s, '-');
                    let k: i64 = -(*n as i64);
                    push_decimal(&mut s, k as usize);
                } else {
                    push_decimal(&mut s, *n as usize);
                }
                assert(s@ =~= signed_decimal(*n as int));
                Ok(s)
            },
            ExprT::Float(t) => Ok(t.clone()),
            ExprT::String(t) => {
                let mut s = String::new();
                push_char(&mut s, '"');
                push_str(&mut s, t.as_str());
                push_char(&mut s, '"');
                assert(s@ =~= seq!['"'] + t@ + seq!['"']);
                Ok(s)
            },
            ExprT::Identifier(t) => Ok(t.clone()),
            ExprT::Symbol(t) => Err(error_at(e, t, ": Unexpected symbol.")),
            ExprT::List(items) => {
                if items.len() == 0 {
                    let mut m = String::new();
                    push_position(&mut m, e);
                    push_str(&mut m, "Empty call.");
                    return Err(m);
                }
                let head = &items[0];
                match &head.exprt {
                    ExprT::Identifier(name) => {
                        if *name == String::from_str("let") {
                            self.compile_let(items, 1)
                        } else if *name == String::from_str("colorscheme") {
                            self.compile_colorscheme(items, 1)
                        } else {
                            Err(error_at(head, name, ": Unknown function."))
                        }
                    },
                    _ => Err(expected_error("Identifier", head)),
                }
            },
        }
    }

    /// The `let` builtin on the arguments `args[from..]`.
    fn compile_let(&self, args: &Vec<Expr>, from: usize) -> (r: Result<String, String>)
        requires
            from <= args@.len(),
        ensures
            res_view(r) == let_result(args@.subrange(from as int, args@.len() as int)),
        decreases args,
    {
        let ghost a = args@.subrange(from as int, args@.len() as int);
        let n = args.len() - from;
        if n < 2 || n > 3 {
            return Err(arity_error("let", "2 or 3", n));
        }
        assert(a[0] == args@[from as int] && a[1] == args@[from + 1]);
        let name = match &args[from].exprt {
            ExprT::Identifier(name) => name,
            _ => return Err(expected_error("Identifier", &args[from])),
        };
        let value = match self.compile_expr(&args[from + 1]) {
            Ok(v) => v,
            Err(m) => return Err(m),
        };
        let mut out = String::new();
        push_str(&mut out, "let ");
        if n == 3 {
            let s = &args[from + 2];
            assert(a[2] == *s);
            match &s.exprt {
                ExprT::Symbol(sym) => match scope_of(sym) {
                    Some(p) => {
                        push_str(&mut out, p.as_str());
                        push_str(&mut out, ":");
                    },
                    None => return Err(error_at(s, sym, ": Unknown symbol.")),
                },
                _ => return Err(expected_error("Symbol", s)),
            }
        }
        push_str(&mut out, name.as_str());
        push_str(&mut out, " = ");
        push_str(&mut out, value.as_str());
        assert(out@ =~= let_result(a)->Ok_0);
        Ok(out)
    }

    /// The `colorscheme` builtin on the arguments `args[from..]`.
    fn compile_colorscheme(&self, args: &Vec<Expr>, from: usize) -> (r: Result<String, String>)
        requires
            from <= args@.len(),
        ensures
            res_view(r) == colorscheme_result(args@.subrange(from as int, args@.len() as int)),
    {
        let ghost a = args@.subrange(from as int, args@.len() as int);
        let n = args.len() - from;
        if n > 1 {
            return Err(arity_error("colorscheme", "0 or 1", n));
        }
        let mut out = String::from_str("colorscheme");
        if n == 1 {
            assert(a[0] == args@[from as int]);
            match &args[from].exprt {
                ExprT::String(scheme) => {
                    push_str(&mut out, " ");
                    push_str(&mut out, scheme.as_str());
                },
                _ => return Err(expected_error("String", &args[from])),
            }
        }
        proof {
            reveal_strlit("colorscheme");
            reveal_strlit("colorscheme ");
            reveal_strlit(" ");
            let r = colorscheme_result(a);
            assert(out@ =~= r->Ok_0);
        }
        Ok(out)
    }

    /// The `let` builtin: binds a variable, optionally in a scope.
    pub fn let_(&mut self, args: Vec<Expr>) -> (r: Result<String, String>)
        ensures
            res_view(r) == let_result(args@),
    {
        assert(args@.subrange(0, args@.len() as int) =~= args@);
        self.compile_let(&args, 0)
    }

    /// The `colorscheme` builtin: applies a named color scheme.
    pub fn colorscheme(&mut self, args: Vec<Expr>) -> (r: Result<String, String>)
        ensures
            res_view(r) == colorscheme_result(args@),
    {
        assert(args@.subrange(0, args@.len() as int) =~= args@);
        self.compile_colorscheme(&args, 0)
    }
}

} // verus!
