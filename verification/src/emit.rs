//! C code emission.
//!
//! A tree is serialized to a C translation unit that includes
//! `<complex.h>` and defines one entry point of type
//! `double complex -> double complex`.  The variable is `x`, the
//! imaginary unit is `I`, binary operators are parenthesised, powers go
//! through `cpow` and the elementary functions through their `<complex.h>`
//! counterparts.  A rational constant is emitted as a quotient of two
//! double literals, `(3.0/2.0)`, which keeps the text exact.

use vstd::prelude::*;

use crate::func::Func;
use crate::rat::Rat;

verus! {

/// The decimal digits of a nonnegative integer.
pub open spec fn spec_udec(n: int) -> Seq<char>
    decreases n,
{
    if n < 10 {
        seq![spec_digit_char(n)]
    } else {
        spec_udec(n / 10) + seq![spec_digit_char(n % 10)]
    }
}

/// The decimal form of an integer, with a leading minus when negative.
pub open spec fn spec_idec(n: int) -> Seq<char> {
    if n < 0 {
        ("-")@ + spec_udec(-n)
    } else {
        spec_udec(n)
    }
}

/// The character of one decimal digit.
pub open spec fn spec_digit_char(d: int) -> char {
    ((48 + d) as u8) as char
}

/// A rational constant as C text: a parenthesised quotient of two
/// double literals.
pub open spec fn spec_rat_c(r: Rat) -> Seq<char> {
    ("(")@ + spec_idec(r.n as int) + (".0/")@ + spec_udec(r.d as int) + (".0)")@
}

impl Func {
    /// The C expression text of the tree.
    pub open spec fn spec_emit(self) -> Seq<char>
        decreases self,
    {
        match self {
            Func::Arg => ("x")@,
            Func::Num(r) => spec_rat_c(r),
            Func::Im => ("I")@,
            Func::Add(a, b) => ("(")@ + a.spec_emit() + ("+")@ + b.spec_emit() + (")")@,
            Func::Sub(a, b) => ("(")@ + a.spec_emit() + ("-")@ + b.spec_emit() + (")")@,
            Func::Mul(a, b) => ("(")@ + a.spec_emit() + ("*")@ + b.spec_emit() + (")")@,
            Func::Div(a, b) => ("(")@ + a.spec_emit() + ("/")@ + b.spec_emit() + (")")@,
            Func::PowI(a, n) => ("cpow(")@ + a.spec_emit() + (", ")@ + spec_idec(n as int) + (")")@,
            Func::PowC(a, r) => ("cpow(")@ + a.spec_emit() + (", ")@ + spec_rat_c(r) + (")")@,
            Func::Sqrt(a) => ("csqrt(")@ + a.spec_emit() + (")")@,
            Func::Exp(a) => ("cexp(")@ + a.spec_emit() + (")")@,
            Func::Ln(a) => ("clog(")@ + a.spec_emit() + (")")@,
            Func::Sin(a) => ("csin(")@ + a.spec_emit() + (")")@,
            Func::Cos(a) => ("ccos(")@ + a.spec_emit() + (")")@,
            Func::Tan(a) => ("ctan(")@ + a.spec_emit() + (")")@,
        }
    }

    /// The full C translation unit defining one entry point named
    /// `fun_name` whose body is the tree's C expression.
    pub open spec fn spec_genc(self, fun_name: Seq<char>) -> Seq<char> {
        ("\n#include <complex.h>\n\ndouble complex ")@ + fun_name
            + ("(double complex x) {\n    return ")@ + self.spec_emit() + (";\n}\n\n")@
    }

    /// Emits the C translation unit for this tree under the entry-point
    /// name `fun_name`.
    pub fn genc(&self, fun_name: &str) -> (r: String)
        requires
            self.wf(),
        ensures
            r@ == self.spec_genc(fun_name@),
    {
        let mut s = String::new();
        s.append("\n#include <complex.h>\n\ndouble complex ");
        s.append(fun_name);
        s.append("(double complex x) {\n    return ");
        push_inner(&mut s, self);
        s.append(";\n}\n\n");
        s
    }
}

/// Appends the C expression text of `e`.
fn push_inner(s: &mut String, e: &Func) -> (r: ())
    requires
        e.wf(),
    ensures
        final(s)@ == old(s)@ + e.spec_emit(),
    decreases *e,
{
    match e {
        Func::Arg => s.append("x"),
        Func::Num(r) => push_rat_c(s, *r),
        Func::Im => s.append("I"),
        Func::Add(a, b) => {
            s.append("(");
            push_inner(s, a);
            s.append("+");
            push_inner(s, b);
            s.append(")");
        }
        Func::Sub(a, b) => {
            s.append("(");
            push_inner(s, a);
            s.append("-");
            push_inner(s, b);
            s.append(")");
        }
        Func::Mul(a, b) => {
            s.append("(");
            push_inner(s, a);
            s.append("*");
            push_inner(s, b);
            s.append(")");
        }
        Func::Div(a, b) => {
            s.append("(");
            push_inner(s, a);
            s.append("/");
            push_inner(s, b);
            s.append(")");
        }
        Func::PowI(a, n) => {
            s.append("cpow(");
            push_inner(s, a);
            s.append(", ");
            push_i64(s, *n as i64);
            s.append(")");
        }
        Func::PowC(a, r) => {
            s.append("cpow(");
            push_inner(s, a);
            s.append(", ");
            push_rat_c(s, *r);
            s.append(")");
        }
        Func::Sqrt(a) => {
            s.append("csqrt(");
            push_inner(s, a);
            s.append(")");
        }
        Func::Exp(a) => {
            s.append("cexp(");
            push_inner(s, a);
            s.append(")");
        }
        Func::Ln(a) => {
            s.append("clog(");
            push_inner(s, a);
            s.append(")");
        }
        Func::Sin(a) => {
            s.append("csin(");
            push_inner(s, a);
            s.append(")");
        }
        Func::Tan(a) => {
            s.append("ctan(");
            push_inner(s, a);
            s.append(")");
        }
        Func::Cos(a) => {
            s.append("ccos(");
            push_inner(s, a);
            s.append(")");
        }
    }
}

/// Appends a rational constant as C text.
fn push_rat_c(s: &mut String, r: Rat) -> (u: ())
    requires
        r.wf(),
    ensures
        final(s)@ == old(s)@ + spec_rat_c(r),
{
    s.append("(");
    push_i64(s, r.n);
    s.append(".0/");
    push_i64(s, r.d);
    s.append(".0)");
    proof {
        assert(spec_idec(r.d as int) == spec_udec(r.d as int));
    }
}

/// Appends the decimal form of an integer.
fn push_i64(s: &mut String, n: i64) -> (u: ())
    ensures
        final(s)@ == old(s)@ + spec_idec(n as int),
{
    if n < 0 {
        s.append("-");
        let abs: u64 = (-(n as i128)) as u64;
        push_u64(s, abs);
    } else {
        push_u64(s, n as u64);
    }
}

/// Appends the decimal digits of a nonnegative integer.
fn push_u64(s: &mut String, n: u64) -> (u: ())
    ensures
        final(s)@ == old(s)@ + spec_udec(n as int),
    decreases n,
{
    if n < 10 {
        push_digit(s, n);
    } else {
        push_u64(s, n / 10);
        push_digit(s, n % 10);
    }
}

/// Appends one decimal digit.
fn push_digit(s: &mut String, d: u64) -> (u: ())
    requires
        d < 10,
    ensures
        final(s)@ == old(s)@ + seq![spec_digit_char(d as int)],
{
    proof {
        reveal_strlit("0");
        reveal_strlit("1");
        reveal_strlit("2");
        reveal_strlit("3");
        reveal_strlit("4");
        reveal_strlit("5");
        reveal_strlit("6");
        reveal_strlit("7");
        reveal_strlit("8");
        reveal_strlit("9");
    }
    if d == 0 {
        s.append("0");
    } else if d == 1 {
        s.append("1");
    } else if d == 2 {
        s.append("2");
    } else if d == 3 {
        s.append("3");
    } else if d == 4 {
        s.append("4");
    } else if d == 5 {
        s.append("5");
    } else if d == 6 {
        s.append("6");
    } else if d == 7 {
        s.append("7");
    } else if d == 8 {
        s.append("8");
    } else {
        s.append("9");
    }
    proof {
        assert(s@ =~= old(s)@ + seq![spec_digit_char(d as int)]);
    }
}

} // verus!
