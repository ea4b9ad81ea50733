//! Infix rendering of expressions.
//!
//! The structure is rendered here: parentheses around every sum, product
//! and power, `f(..)` around every function application, and the names of
//! variables. A constant is rendered by the text the caller supplies for
//! it, because writing an `f64` in shortest round-trip decimal is the
//! formatter's business: constants are taken in left-to-right order, the
//! order in which `constants` lists them.
use crate::expr::{node, Expr, Fun, Var};
use crate::text::{decimal, push_char, push_decimal, push_var_name, var_name};
use vstd::prelude::*;
use vstd::string::*;

verus! {

/// The constants of `e`, left to right.
pub open spec fn consts_of(e: Expr) -> Seq<u64>
    decreases e,
{
    match e {
        Expr::Const(b) => seq![b],
        Expr::Var(_) => Seq::empty(),
        Expr::Add(a, b) => consts_of(*a) + consts_of(*b),
        Expr::Mul(a, b) => consts_of(*a) + consts_of(*b),
        Expr::Pow(a, _) => consts_of(*a),
        Expr::Fun(_, a) => consts_of(*a),
    }
}

/// The name of a function.
pub open spec fn fun_name(f: Fun) -> Seq<char> {
    match f {
        Fun::Exp => seq!['e', 'x', 'p'],
        Fun::Log => seq!['l', 'o', 'g'],
        Fun::Sin => seq!['s', 'i', 'n'],
        Fun::Cos => seq!['c', 'o', 's'],
        Fun::Sqrt => seq!['s', 'q', 'r', 't'],
    }
}

/// The decimal text of an integer exponent.
pub open spec fn int_text(n: i32) -> Seq<char> {
    if n < 0 {
        seq!['-'] + decimal((-(n as int)) as nat)
    } else {
        decimal(n as nat)
    }
}

/// The text of `e`, with `texts[k]` standing for its `k`-th constant.
pub open spec fn rendered(e: Expr, texts: Seq<Seq<char>>) -> Seq<char>
    decreases e,
{
    match e {
        Expr::Const(_) => texts[0],
        Expr::Var(v) => var_name(v),
        Expr::Add(a, b) => seq!['('] + rendered(*a, texts) + seq![' ', '+', ' '] + rendered(
            *b,
            texts.skip(consts_of(*a).len() as int),
        ) + seq![')'],
        Expr::Mul(a, b) => seq!['('] + rendered(*a, texts) + seq![' ', '*', ' '] + rendered(
            *b,
            texts.skip(consts_of(*a).len() as int),
        ) + seq![')'],
        Expr::Pow(a, n) => seq!['('] + rendered(*a, texts) + seq!['^'] + int_text(n) + seq![')'],
        Expr::Fun(f, a) => fun_name(f) + seq!['('] + rendered(*a, texts) + seq![')'],
    }
}

fn collect_consts(e: &Expr, out: &mut Vec<u64>)
    ensures
        final(out)@ == old(out)@ + consts_of(*e),
    decreases e,
{
    match e {
        Expr::Const(b) => out.push(*b),
        Expr::Var(_) => {},
        Expr::Add(a, b) => {
            collect_consts(a, out);
            collect_consts(b, out);
        },
        Expr::Mul(a, b) => {
            collect_consts(a, out);
            collect_consts(b, out);
        },
        Expr::Pow(a, _) => collect_consts(a, out),
        Expr::Fun(_, a) => collect_consts(a, out),
    }
    proof {
        assert(final(out)@ =~= old(out)@ + consts_of(*e));
    }
}

fn push_str(s: &mut String, t: &str)
    ensures
        final(s)@ == old(s)@ + t@,
{
    s.append(t);
}

fn push_fun_name(s: &mut String, f: Fun)
    ensures
        final(s)@ == old(s)@ + fun_name(f),
{
    let ghost s0 = s@;
    match f {
        Fun::Exp => {
            push_char(s, 'e');
            push_char(s, 'x');
            push_char(s, 'p');
        },
        Fun::Log => {
            push_char(s, 'l');
            push_char(s, 'o');
            push_char(s, 'g');
        },
        Fun::Sin => {
            push_char(s, 's');
            push_char(s, 'i');
            push_char(s, 'n');
        },
        Fun::Cos => {
            push_char(s, 'c');
            push_char(s, 'o');
            push_char(s, 's');
        },
        Fun::Sqrt => {
            push_char(s, 's');
            push_char(s, 'q');
            push_char(s, 'r');
            push_char(s, 't');
        },
    }
    proof {
        assert(s@ =~= s0 + fun_name(f));
    }
}

fn push_int(s: &mut String, n: i32)
    ensures
        final(s)@ == old(s)@ + int_text(n),
{
    let ghost s0 = s@;
    if n < 0 {
        push_char(s, '-');
        push_decimal(s, (0i64 - n as i64) as u64);
    } else {
        push_decimal(s, n as u64);
    }
    proof {
        assert(s@ =~= s0 + int_text(n));
    }
}

fn render_into(e: &Expr, texts: &Vec<String>, start: usize, out: &mut String) -> (next: usize)
    requires
        start + consts_of(*e).len() <= texts@.len(),
    ensures
        next == start + consts_of(*e).len(),
        final(out)@ == old(out)@ + rendered(
            *e,
            texts@.skip(start as int).map_values(|t: String| t@),
        ),
    decreases e,
{
    let ghost s0 = out@;
    let ghost ts = texts@.skip(start as int).map_values(|t: String| t@);
    match e {
        Expr::Const(_) => {
            let n = texts.len();
            assert(start < n);
            out.append(texts[start].as_str());
            proof {
                assert(ts[0] == texts@[start as int]@);
            }
            start + 1
        },
        Expr::Var(v) => {
            push_var_name(out, v);
            start
        },
        Expr::Add(a, b) => {
            push_char(out, '(');
            let m = render_into(a, texts, start, out);
            push_str(out, " + ");
            let r = render_into(b, texts, m, out);
            push_char(out, ')');
            proof {
                reveal_strlit(" + ");
                assert(texts@.skip(m as int).map_values(|t: String| t@) =~= ts.skip(consts_of(node(*a)).len() as int));
                assert(out@ =~= s0 + rendered(*e, ts));
            }
            r
        },
        Expr::Mul(a, b) => {
            push_char(out, '(');
            let m = render_into(a, texts, start, out);
            push_str(out, " * ");
            let r = render_into(b, texts, m, out);
            push_char(out, ')');
            proof {
                reveal_strlit(" * ");
                assert(texts@.skip(m as int).map_values(|t: String| t@) =~= ts.skip(consts_of(node(*a)).len() as int));
                assert(out@ =~= s0 + rendered(*e, ts));
            }
            r
        },
        Expr::Pow(a, n) => {
            push_char(out, '(');
            let r = render_into(a, texts, start, out);
            push_char(out, '^');
            push_int(out, *n);
            push_char(out, ')');
            proof {
                assert(out@ =~= s0 + rendered(*e, ts));
            }
            r
        },
        Expr::Fun(f, a) => {
            push_fun_name(out, *f);
            push_char(out, '(');
            let r = render_into(a, texts, start, out);
            push_char(out, ')');
            proof {
                assert(out@ =~= s0 + rendered(*e, ts));
            }
            r
        },
    }
}

impl Expr {
    /// The constants of the expression, as `f64` bit patterns, left to
    /// right.
    pub fn constants(&self) -> (r: Vec<u64>)
        ensures
            r@ == consts_of(*self),
    {
        let mut out: Vec<u64> = Vec::new();
        collect_consts(self, &mut out);
        proof {
            assert(out@ =~= consts_of(*self));
        }
        out
    }

    /// The infix text of the expression, `const_texts[k]` standing for its
    /// `k`-th constant: for example `(theta2 * sqrt(x1))`.
    pub fn render(&self, const_texts: &Vec<String>) -> (r: String)
        requires
            const_texts@.len() == consts_of(*self).len(),
        ensures
            r@ == rendered(*self, const_texts@.map_values(|t: String| t@)),
    {
        let mut out = String::new();
        render_into(self, const_texts, 0, &mut out);
        proof {
            assert(const_texts@.skip(0) =~= const_texts@);
            assert(out@ =~= rendered(*self, const_texts@.map_values(|t: String| t@)));
        }
        out
    }
}

} // verus!
