use newton_fractal::func::Func;
use newton_fractal::parse::parse_func;
use newton_fractal::rat::Rat;
use num_complex::Complex;

fn rat_f64(r: &Rat) -> f64 {
    r.n as f64 / r.d as f64
}

fn eval(f: &Func, z: Complex<f64>) -> Complex<f64> {
    match f {
        Func::Arg => z,
        Func::Num(r) => Complex::new(rat_f64(r), 0.0),
        Func::Im => Complex::new(0.0, 1.0),
        Func::Add(a, b) => eval(a, z) + eval(b, z),
        Func::Sub(a, b) => eval(a, z) - eval(b, z),
        Func::Mul(a, b) => eval(a, z) * eval(b, z),
        Func::Div(a, b) => eval(a, z) / eval(b, z),
        Func::PowI(a, n) => eval(a, z).powi(*n),
        Func::PowC(a, r) => eval(a, z).powf(rat_f64(r)),
        Func::Sqrt(a) => eval(a, z).sqrt(),
        Func::Exp(a) => eval(a, z).exp(),
        Func::Ln(a) => eval(a, z).ln(),
        Func::Sin(a) => eval(a, z).sin(),
        Func::Cos(a) => eval(a, z).cos(),
        Func::Tan(a) => eval(a, z).tan(),
    }
}

fn tree_eq(a: &Func, b: &Func) -> bool {
    match (a, b) {
        (Func::Arg, Func::Arg) => true,
        (Func::Num(x), Func::Num(y)) => x == y,
        (Func::Im, Func::Im) => true,
        (Func::Add(a1, a2), Func::Add(b1, b2)) => tree_eq(a1, b1) && tree_eq(a2, b2),
        (Func::Sub(a1, a2), Func::Sub(b1, b2)) => tree_eq(a1, b1) && tree_eq(a2, b2),
        (Func::Mul(a1, a2), Func::Mul(b1, b2)) => tree_eq(a1, b1) && tree_eq(a2, b2),
        (Func::Div(a1, a2), Func::Div(b1, b2)) => tree_eq(a1, b1) && tree_eq(a2, b2),
        (Func::PowI(a1, n), Func::PowI(b1, m)) => n == m && tree_eq(a1, b1),
        (Func::PowC(a1, r), Func::PowC(b1, s)) => r == s && tree_eq(a1, b1),
        (Func::Sqrt(a1), Func::Sqrt(b1)) => tree_eq(a1, b1),
        (Func::Exp(a1), Func::Exp(b1)) => tree_eq(a1, b1),
        (Func::Ln(a1), Func::Ln(b1)) => tree_eq(a1, b1),
        (Func::Sin(a1), Func::Sin(b1)) => tree_eq(a1, b1),
        (Func::Cos(a1), Func::Cos(b1)) => tree_eq(a1, b1),
        (Func::Tan(a1), Func::Tan(b1)) => tree_eq(a1, b1),
        _ => false,
    }
}

// Ten fixed sample points inside |z| < 2.
fn sample_points() -> Vec<Complex<f64>> {
    vec![
        Complex::new(0.3, 0.4),
        Complex::new(-0.7, 0.2),
        Complex::new(1.1, -0.5),
        Complex::new(-1.2, -0.9),
        Complex::new(0.05, 1.3),
        Complex::new(1.7, 0.1),
        Complex::new(-0.4, -1.5),
        Complex::new(0.9, 0.9),
        Complex::new(-1.6, 0.6),
        Complex::new(0.2, -0.3),
    ]
}

// Differentiation agrees with a central-difference approximation at ten
// sample points, to a relative tolerance of 1e-6.
#[test]
fn diff_matches_central_difference() {
    let exprs = ["x^3-1", "sin(x)*x", "exp(x)+x^2", "cos(x)/(x+3)", "x*x*x-2*x+1"];
    for src in exprs.iter() {
        let f = parse_func(src).unwrap();
        let g = parse_func(src).unwrap().diff();
        let h = 1e-5_f64;
        for z in sample_points() {
            let num = (eval(&f, z + Complex::new(h, 0.0)) - eval(&f, z - Complex::new(h, 0.0)))
                / Complex::new(2.0 * h, 0.0);
            let sym = eval(&g, z);
            let denom = sym.norm().max(1.0);
            assert!(
                (num - sym).norm() / denom < 1e-6,
                "derivative mismatch for {} at {}: {} vs {}",
                src,
                z,
                num,
                sym
            );
        }
    }
}

#[test]
fn add_zero_is_identity() {
    let e = parse_func("sin(x)+x^2").unwrap();
    let e2 = parse_func("sin(x)+x^2").unwrap();
    assert!(tree_eq(&e.duplicate(), &e2));
    let zero = Func::Num(Rat { n: 0, d: 1 });
    assert!(tree_eq(&e.duplicate().add(zero), &e2));
}

#[test]
fn mul_zero_collapses() {
    let e = parse_func("exp(x)").unwrap();
    let zero = Func::Num(Rat { n: 0, d: 1 });
    match zero.mul(e) {
        Func::Num(r) => assert_eq!(r.n, 0),
        _ => panic!("zero times an expression must fold to a constant"),
    }
}

#[test]
fn mul_one_is_identity() {
    let e = parse_func("x^3-1").unwrap();
    let e2 = parse_func("x^3-1").unwrap();
    let one = Func::Num(Rat { n: 1, d: 1 });
    assert!(tree_eq(&e.mul(one), &e2));
}

#[test]
fn div_one_is_identity() {
    let e = parse_func("cos(x)").unwrap();
    let e2 = parse_func("cos(x)").unwrap();
    let one = Func::Num(Rat { n: 1, d: 1 });
    assert!(tree_eq(&e.div(one), &e2));
}

#[test]
fn pow_zero_is_one() {
    let e = parse_func("sin(x)").unwrap();
    match e.powc(Rat { n: 0, d: 1 }) {
        Func::Num(r) => assert_eq!((r.n, r.d), (1, 1)),
        _ => panic!("an expression to the zeroth power must fold to one"),
    }
    let e2 = parse_func("x+1").unwrap();
    match e2.powi(0) {
        Func::Num(r) => assert_eq!((r.n, r.d), (1, 1)),
        _ => panic!("an expression to the zeroth integer power must fold to one"),
    }
}

#[test]
fn pow_one_is_identity() {
    let e = parse_func("sin(x)").unwrap();
    let e2 = parse_func("sin(x)").unwrap();
    assert!(tree_eq(&e.powc(Rat { n: 1, d: 1 }), &e2));
}

#[test]
fn constants_fold() {
    match parse_func("1+2*3").unwrap() {
        Func::Num(r) => assert_eq!((r.n, r.d), (7, 1)),
        _ => panic!("constant arithmetic must fold"),
    }
    match parse_func("2^3").unwrap() {
        Func::Num(r) => assert_eq!((r.n, r.d), (8, 1)),
        _ => panic!("constant powers must fold"),
    }
    match parse_func("0.5+0.25").unwrap() {
        Func::Num(r) => assert_eq!(r.n * 4, r.d * 3),
        _ => panic!("decimal arithmetic must fold"),
    }
}

#[test]
fn power_exponent_must_be_numeric() {
    assert!(parse_func("x^x").is_err());
    assert!(parse_func("x^(x+1)").is_err());
    assert!(parse_func("x^2").is_ok());
    assert!(parse_func("x^0.5").is_ok());
}

#[test]
fn parse_rejects_garbage() {
    assert!(parse_func("").is_err());
    assert!(parse_func("x+").is_err());
    assert!(parse_func("(x").is_err());
    assert!(parse_func("foo(x)").is_err());
    assert!(parse_func("1..2").is_err());
}

#[test]
fn parse_accepts_grammar() {
    assert!(parse_func("x").is_ok());
    assert!(parse_func("pi*e+i").is_ok());
    assert!(parse_func("-x").is_ok());
    assert!(parse_func("sqrt(x)+ln(x)-sin(x)*cos(x)/tan(x)").is_ok());
    assert!(parse_func(" x ^ 2 - 1 ").is_ok());
    assert!(parse_func("exp(x^2)").is_ok());
}

#[test]
fn half_power_becomes_sqrt() {
    let e = parse_func("x^0.5").unwrap();
    match e {
        Func::Sqrt(inner) => assert!(tree_eq(&inner, &Func::Arg)),
        _ => panic!("the half power must collapse to a square root"),
    }
}

#[test]
fn emission_matches_layout() {
    let f = parse_func("x^3-1").unwrap();
    assert_eq!(
        f.genc("func"),
        "\n#include <complex.h>\n\ndouble complex func(double complex x) {\n    \
         return (cpow(x, 3)-(1.0/1.0));\n}\n\n"
    );
    let g = parse_func("x/2+sqrt(x)*i").unwrap();
    assert_eq!(
        g.genc("diff"),
        "\n#include <complex.h>\n\ndouble complex diff(double complex x) {\n    \
         return ((x/(2.0/1.0))+(csqrt(x)*I));\n}\n\n"
    );
}

// The emitted C of a polynomial names only identifiers from <complex.h>
// and evaluates the same tree that in-tree evaluation uses; in-tree
// evaluation is checked against direct polynomial arithmetic here.
#[test]
fn polynomial_eval_round_trip() {
    let f = parse_func("x^3-2*x+1").unwrap();
    for z in sample_points() {
        let direct = z * z * z - z * 2.0 + Complex::new(1.0, 0.0);
        let via_tree = eval(&f, z);
        assert!((direct - via_tree).norm() < 1e-12 * direct.norm().max(1.0));
    }
}

#[test]
fn diff_of_cubic() {
    // d/dx (x^3 - 1) = 3 * x^2 (as the smart constructors arrange it)
    let g = parse_func("x^3-1").unwrap().diff();
    for z in sample_points() {
        let expect = z * z * 3.0;
        assert!((eval(&g, z) - expect).norm() < 1e-12 * expect.norm().max(1.0));
    }
}

#[test]
fn constants_are_exact_doubles() {
    let pi = parse_func("pi").unwrap();
    match pi {
        Func::Num(r) => assert_eq!(rat_f64(&r), std::f64::consts::PI),
        _ => panic!("pi must parse to a constant"),
    }
    let e = parse_func("e").unwrap();
    match e {
        Func::Num(r) => assert_eq!(rat_f64(&r), std::f64::consts::E),
        _ => panic!("e must parse to a constant"),
    }
}

#[test]
fn real_power_emits_cpow() {
    let f = parse_func("x^2.5").unwrap();
    let text = f.genc("func");
    assert!(text.contains("cpow(x, (25.0/10.0))"), "got: {}", text);
}

#[test]
fn negation_stays_syntactic() {
    // unary minus builds a subtraction from zero, as the grammar does
    let f = parse_func("-x").unwrap();
    match f {
        Func::Sub(a, b) => {
            assert!(matches!(*a, Func::Num(r) if r.n == 0));
            assert!(matches!(*b, Func::Arg));
        }
        _ => panic!("negation must be a subtraction from zero"),
    }
}
