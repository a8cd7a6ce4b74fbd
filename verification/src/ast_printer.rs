use vstd::prelude::*;

use crate::expr::{expr_view, exprs_view, lemma_exprs_view_index, ExprView, Expression, LiteralView};
use crate::text::{chars_of, push_str, string_from_chars, string_of};
use crate::token::{binary_token, logical_token, spelling, unary_token, BinaryOp, LogicalOp, TokenLiteral, UnaryOp};

verus! {

/// The index of the first `.` in `s` at or after `i`, or the length of `s`.
pub open spec fn dot_from(s: Seq<char>, i: int) -> int
    decreases s.len() - i,
{
    if i < 0 || i >= s.len() {
        s.len() as int
    } else if s[i] == '.' {
        i
    } else {
        dot_from(s, i + 1)
    }
}

/// Where the whole part `s[i..d]` starts once its leading zeros are dropped,
/// one digit always kept.
pub open spec fn lead_end(s: Seq<char>, i: int, d: int) -> int
    decreases d - i,
{
    if i + 1 < d && s[i] == '0' {
        lead_end(s, i + 1, d)
    } else {
        i
    }
}

/// Where the fraction `s[d + 1..j]` ends once its trailing zeros are dropped.
pub open spec fn trail_end(s: Seq<char>, j: int, d: int) -> int
    decreases j,
{
    if j > d + 1 && j >= 1 && s[j - 1] == '0' {
        trail_end(s, j - 1, d)
    } else {
        j
    }
}

/// A number lexeme written in shortest form: without the leading zeros of
/// its whole part, the trailing zeros of its fraction, and a point with
/// nothing after it (so `007.50` is written `7.5` and `1.0` is written `1`).
pub open spec fn number_text(s: Seq<char>) -> Seq<char> {
    let d = dot_from(s, 0);
    let a = lead_end(s, 0, d);
    let b = if d < s.len() { trail_end(s, s.len() as int, d) } else { d };
    if b <= d + 1 {
        s.subrange(a, d)
    } else {
        s.subrange(a, d) + seq!['.'] + s.subrange(d + 1, b)
    }
}

pub open spec fn binary_text(op: BinaryOp) -> Seq<char> {
    match op {
        BinaryOp::BangEqual => "!="@,
        BinaryOp::EqualEqual => "=="@,
        BinaryOp::Greater => ">"@,
        BinaryOp::GreaterEqual => ">="@,
        BinaryOp::Less => "<"@,
        BinaryOp::LessEqual => "<="@,
        BinaryOp::Minus => "-"@,
        BinaryOp::Plus => "+"@,
        BinaryOp::Slash => "/"@,
        BinaryOp::Star => "*"@,
    }
}

pub open spec fn unary_text(op: UnaryOp) -> Seq<char> {
    match op {
        UnaryOp::Bang => "!"@,
        UnaryOp::Minus => "-"@,
    }
}

pub open spec fn logical_text(op: LogicalOp) -> Seq<char> {
    match op {
        LogicalOp::And => "and"@,
        LogicalOp::Or => "or"@,
    }
}

pub open spec fn literal_text(l: LiteralView) -> Seq<char> {
    match l {
        LiteralView::Number(n) => number_text(n),
        LiteralView::Boolean(b) => if b { "true"@ } else { "false"@ },
        LiteralView::StringLiteral(s) => s,
        LiteralView::Null => "null"@,
    }
}

/// The text the printer gives an expression.
pub open spec fn show(e: ExprView) -> Seq<char>
    decreases e,
{
    match e {
        ExprView::Binary(l, op, _, r) => "(left "@ + show(*l) + ", op "@ + binary_text(op) + ", right "@
            + show(*r) + ")"@,
        ExprView::Unary(op, _, x) => "op "@ + unary_text(op) + " expr "@ + show(*x),
        ExprView::Grouping(x) => "(group "@ + show(*x) + ")"@,
        ExprView::Literal(l) => literal_text(l),
        ExprView::Variable(name, _, _) => name,
        ExprView::Assign(name, _, _, _) => name,
        ExprView::Logical(l, op, _, r) => "(left "@ + show(*l) + ", op "@ + logical_text(op) + ", right "@
            + show(*r) + ")"@,
        ExprView::Call(callee, args, _) => "callee: "@ + show(*callee) + ", args: "@ + show_args(args),
        ExprView::Get(x, name) => show(*x) + "."@ + name.lexeme@,
        ExprView::SetProperty(x, name, v) => show(*x) + "."@ + name.lexeme@ + " = "@ + show(*v),
        ExprView::This(_, _) => "this"@,
        ExprView::Super(_, method, _) => "super."@ + method.lexeme@,
    }
}

/// The texts of the arguments of a call, separated by `, `.
pub open spec fn show_args(es: Seq<ExprView>) -> Seq<char>
    decreases es,
{
    if es.len() == 0 {
        Seq::empty()
    } else if es.len() == 1 {
        show(es[0])
    } else {
        show_args(es.drop_last()) + ", "@ + show(es.last())
    }
}

/// Law: the printer writes each operator as the source spells the token it
/// is written with: `-` for `Minus`, `==` for `EqualEqual`, `and` for `And`.
pub proof fn law_operators_printed_as_spelled(b: BinaryOp, l: LogicalOp, u: UnaryOp)
    ensures
        binary_text(b) == spelling(binary_token(b)),
        logical_text(l) == spelling(logical_token(l)),
        unary_text(u) == spelling(unary_token(u)),
{
}

/// Writes expressions out as text, for inspecting what the parser built.
pub struct AstPrinter;

impl AstPrinter {
    pub fn new() -> (p: AstPrinter)
        ensures
            p == AstPrinter,
    {
        AstPrinter
    }

    /// A number lexeme in shortest form.
    pub fn number(lexeme: &String) -> (s: String)
        ensures
            s@ == number_text(lexeme@),
    {
        let c = chars_of(lexeme);
        let n = c.len();
        let mut d: usize = 0;
        while d < n && c[d] != '.'
            invariant
                c@ == lexeme@,
                n == c@.len(),
                d <= n,
                dot_from(c@, 0) == dot_from(c@, d as int),
            decreases n - d,
        {
            d = d + 1;
        }
        let mut a: usize = 0;
        while a + 1 < d && c[a] == '0'
            invariant
                c@ == lexeme@,
                n == c@.len(),
                d <= n,
                d == dot_from(c@, 0),
                a <= d || d == 0,
                a == 0 || a < d,
                lead_end(c@, 0, d as int) == lead_end(c@, a as int, d as int),
            decreases d - a,
        {
            a = a + 1;
        }
        let mut s = string_from_chars(&c, a, d);
        if d < n {
            let mut b: usize = n;
            while b > d + 1 && c[b - 1] == '0'
                invariant
                    c@ == lexeme@,
                    n == c@.len(),
                    d < n,
                    d + 1 <= b <= n,
                    trail_end(c@, n as int, d as int) == trail_end(c@, b as int, d as int),
                decreases b,
            {
                b = b - 1;
            }
            if b > d + 1 {
                s.push('.');
                let f = string_from_chars(&c, d + 1, b);
                push_str(&mut s, f.as_str());
            }
        }
        s
    }

    fn literal(l: &TokenLiteral) -> (s: String)
        ensures
            s@ == literal_text(crate::expr::literal_view(*l)),
    {
        match l {
            TokenLiteral::Number(n) => Self::number(n),
            TokenLiteral::Boolean(b) => if *b { string_of("true") } else { string_of("false") },
            TokenLiteral::StringLiteral(s) => s.clone(),
            TokenLiteral::Null => string_of("null"),
        }
    }

    /// The text of the expression `e`.
    pub fn print(&self, e: &Expression) -> (s: String)
        ensures
            s@ == show(expr_view(*e)),
        decreases e,
    {
        match e {
            Expression::Binary(l, op, _, r) => {
                let op_text = match op {
                    BinaryOp::BangEqual => "!=",
                    BinaryOp::EqualEqual => "==",
                    BinaryOp::Greater => ">",
                    BinaryOp::GreaterEqual => ">=",
                    BinaryOp::Less => "<",
                    BinaryOp::LessEqual => "<=",
                    BinaryOp::Minus => "-",
                    BinaryOp::Plus => "+",
                    BinaryOp::Slash => "/",
                    BinaryOp::Star => "*",
                };
                let left = self.print(l);
                let right = self.print(r);
                let mut s = string_of("(left ");
                push_str(&mut s, left.as_str());
                push_str(&mut s, ", op ");
                push_str(&mut s, op_text);
                push_str(&mut s, ", right ");
                push_str(&mut s, right.as_str());
                push_str(&mut s, ")");
                s
            },
            Expression::Unary(op, _, x) => {
                let op_text = match op {
                    UnaryOp::Bang => "!",
                    UnaryOp::Minus => "-",
                };
                let inner = self.print(x);
                let mut s = string_of("op ");
                push_str(&mut s, op_text);
                push_str(&mut s, " expr ");
                push_str(&mut s, inner.as_str());
                s
            },
            Expression::Grouping(x) => {
                let inner = self.print(x);
                let mut s = string_of("(group ");
                push_str(&mut s, inner.as_str());
                push_str(&mut s, ")");
                s
            },
            Expression::Literal(l) => Self::literal(l),
            Expression::Variable(name, _, _) => name.clone(),
            Expression::Assign(name, _, _, _) => name.clone(),
            Expression::Logical(l, op, _, r) => {
                let op_text = match op {
                    LogicalOp::And => "and",
                    LogicalOp::Or => "or",
                };
                let left = self.print(l);
                let right = self.print(r);
                let mut s = string_of("(left ");
                push_str(&mut s, left.as_str());
                push_str(&mut s, ", op ");
                push_str(&mut s, op_text);
                push_str(&mut s, ", right ");
                push_str(&mut s, right.as_str());
                push_str(&mut s, ")");
                s
            },
            Expression::Call(callee, args, _) => {
                let c = self.print(callee);
                let mut s = string_of("callee: ");
                push_str(&mut s, c.as_str());
                push_str(&mut s, ", args: ");
                let ghost av = exprs_view(args@);
                let ghost head = s@;
                proof {
                    lemma_exprs_view_index(args@);
                    assert(av.take(0) =~= Seq::<ExprView>::empty());
                }
                let mut i: usize = 0;
                #[verifier::loop_isolation(false)]
                while i < args.len()
                    invariant
                        0 <= i <= args@.len(),
                        av == exprs_view(args@),
                        av.len() == args@.len(),
                        forall|k: int| 0 <= k < args@.len() ==> #[trigger] av[k] == expr_view(args@[k]),
                        s@ == head + show_args(av.take(i as int)),
                    decreases args@.len() - i,
                {
                    assert(decreases_to!(*e => args@[i as int]));
                    let a = self.print(&args[i]);
                    if i > 0 {
                        push_str(&mut s, ", ");
                    }
                    push_str(&mut s, a.as_str());
                    proof {
                        assert(av.take(i + 1).drop_last() =~= av.take(i as int));
                        assert(av.take(i + 1).last() == av[i as int]);
                        if i == 0 {
                            assert(av.take(1) =~= seq![av[0]]);
                        }
                    }
                    i = i + 1;
                }
                proof {
                    assert(av.take(args@.len() as int) =~= av);
                }
                s
            },
            Expression::Get(x, name) => {
                let mut s = self.print(x);
                push_str(&mut s, ".");
                push_str(&mut s, name.lexeme.as_str());
                s
            },
            Expression::SetProperty(x, name, v) => {
                let mut s = self.print(x);
                push_str(&mut s, ".");
                push_str(&mut s, name.lexeme.as_str());
                push_str(&mut s, " = ");
                let value = self.print(v);
                push_str(&mut s, value.as_str());
                s
            },
            Expression::This(_, _) => string_of("this"),
            Expression::Super(_, method, _) => {
                let mut s = string_of("super.");
                push_str(&mut s, method.lexeme.as_str());
                s
            },
        }
    }
}

} // verus!
