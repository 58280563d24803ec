use newton_fractal::color::{Color, Weight};
use newton_fractal::coord::{parse_coord, COORD_SCALE};
use newton_fractal::func::Func;
use newton_fractal::parse::parse_func;
use newton_fractal::point::{Point, POINT_SCALE, ROOT_EPS};
use newton_fractal::registry::find_roots;
use newton_fractal::render::{calculate_width, complex_by_coord, render_image, Outcome};
use newton_fractal::shadow::get_shadow;
use num_complex::Complex;

const PRECISION: f64 = 1e-10;
const ROOT_ITER: u16 = 256;

fn rat_f64(r: &newton_fractal::rat::Rat) -> f64 {
    r.n as f64 / r.d as f64
}

fn eval(f: &Func, z: Complex<f64>) -> Complex<f64> {
    match f {
        Func::Arg => z,
        Func::Num(r) => Complex::new(rat_f64(r), 0.0),
        Func::Im => Complex::new(0.0, 1.0),
        Func::Add(a, b) => eval(a, z) + eval(b, z),
        Func::Sub(a, b) => eval(a, z) - eval(b, z),
        Func::Mul(a, b) => eval(a, z) * eval(b, z),
        Func::Div(a, b) => eval(a, z) / eval(b, z),
        Func::PowI(a, n) => eval(a, z).powi(*n),
        Func::PowC(a, r) => eval(a, z).powf(rat_f64(r)),
        Func::Sqrt(a) => eval(a, z).sqrt(),
        Func::Exp(a) => eval(a, z).exp(),
        Func::Ln(a) => eval(a, z).ln(),
        Func::Sin(a) => eval(a, z).sin(),
        Func::Cos(a) => eval(a, z).cos(),
        Func::Tan(a) => eval(a, z).tan(),
    }
}

fn find_root_f64(f: &Func, g: &Func, mut x: Complex<f64>) -> (Option<Complex<f64>>, u16) {
    for i in 0..ROOT_ITER {
        let t = x;
        let fc = eval(f, t);
        let gc = eval(g, t);
        x = t - fc / gc;
        if fc.norm() < PRECISION {
            return (Some(x), i);
        }
    }
    (None, ROOT_ITER)
}

fn to_point(z: Complex<f64>) -> Option<Point> {
    let re = z.re * POINT_SCALE as f64;
    let im = z.im * POINT_SCALE as f64;
    if re.is_finite() && im.is_finite() && re.abs() < 2e18 && im.abs() < 2e18 {
        Some(Point::new(re.round() as i64, im.round() as i64))
    } else {
        None
    }
}

fn seed_of(i: u32, h: u32, j: u32, w: u32, x1: i64, y1: i64, x2: i64, y2: i64) -> Complex<f64> {
    let (re, im) = complex_by_coord(i, h, j, w, x1, y1, x2, y2);
    Complex::new(
        re.num as f64 / re.den as f64 / COORD_SCALE as f64,
        im.num as f64 / im.den as f64 / COORD_SCALE as f64,
    )
}

// The whole sampling pass: outcomes, per-row endpoints, divergence flags.
fn run_outcomes(
    fsrc: &str,
    x1: i64,
    y1: i64,
    x2: i64,
    y2: i64,
    height: u32,
) -> (u32, Vec<Outcome>, Vec<Vec<Point>>, Vec<bool>) {
    let f = parse_func(fsrc).unwrap();
    let g = parse_func(fsrc).unwrap().diff();
    let w = calculate_width(x1, y1, x2, y2, height);
    let mut outcomes = Vec::new();
    let mut rows = Vec::new();
    let mut div = Vec::new();
    for i in 0..height {
        let mut row = Vec::new();
        for j in 0..w {
            let z0 = seed_of(i, height, j, w, x1, y1, x2, y2);
            let (ep, iters) = find_root_f64(&f, &g, z0);
            match ep {
                Some(z) => {
                    let pt = to_point(z);
                    outcomes.push(Outcome::Converged(iters, pt));
                    if let Some(p) = pt {
                        row.push(p);
                    }
                    div.push(false);
                }
                None => {
                    outcomes.push(Outcome::Diverged);
                    div.push(true);
                }
            }
        }
        rows.push(row);
    }
    (w, outcomes, rows, div)
}

fn near(a: &Point, b: &Point) -> bool {
    a.near(b)
}

// Registry of z^3 - 1 on the unit viewport: exactly the three cube
// roots of unity, within 1e-4.
#[test]
fn registry_cubic_roots() {
    let s = COORD_SCALE;
    let (_, _, rows, _) = run_outcomes("x^3-1", -s, -s, s, s, 100);
    let roots = find_roots(rows);
    assert_eq!(roots.len(), 3, "expected exactly three roots, got {:?}", roots);
    let tol = 1_000_i64; // 1e-4 in point units
    let expect = [
        (-(POINT_SCALE / 2), -8_660_254),
        (-(POINT_SCALE / 2), 8_660_254),
        (POINT_SCALE, 0),
    ];
    for (k, (er, ei)) in expect.iter().enumerate() {
        assert!(
            (roots[k].re - er).abs() <= tol && (roots[k].im - ei).abs() <= tol,
            "root {} out of place: {:?}",
            k,
            roots[k]
        );
    }
}

// Shadow laws on a real field: diverging pixels at 0, everything else
// at least 1, neighbors within one level of each other.
#[test]
fn shadow_laws_on_parabola() {
    let s = COORD_SCALE;
    let (w, _, _, div) = run_outcomes("x^2-1", -s, -s, s, s, 50);
    let w = w as usize;
    let h = 50usize;
    assert!(div.iter().any(|d| *d));
    let dist = get_shadow(&div, h, w);
    assert_eq!(dist.len(), w * h);
    for i in 0..h {
        for j in 0..w {
            let p = i * w + j;
            let d = dist[p];
            assert!(d.is_some(), "every pixel is reached when a diverging pixel exists");
            let d = d.unwrap();
            assert_eq!(div[p], d == 0, "distance zero exactly at diverging pixels");
            if !div[p] {
                assert!(d >= 1);
            }
            let mut has_parent = d == 0;
            let mut check = |i2: usize, j2: usize| {
                let d2 = dist[i2 * w + j2].unwrap();
                assert!((d2 as i64 - d as i64).abs() <= 1, "neighbor levels differ by at most 1");
                if d > 0 && d2 == d - 1 {
                    has_parent = true;
                }
            };
            if i > 0 {
                check(i - 1, j);
            }
            if j > 0 {
                check(i, j - 1);
            }
            if i + 1 < h {
                check(i + 1, j);
            }
            if j + 1 < w {
                check(i, j + 1);
            }
            assert!(has_parent, "a positive level has a neighbor one step closer");
        }
    }
}

// A hand grid: the field is the exact minimum Manhattan distance.
#[test]
fn shadow_exact_distances() {
    // 3 rows by 4 columns, single diverging pixel at (1, 1)
    let mut div = vec![false; 12];
    div[1 * 4 + 1] = true;
    let dist = get_shadow(&div, 3, 4);
    let expect: [u32; 12] = [2, 1, 2, 3, 1, 0, 1, 2, 2, 1, 2, 3];
    for p in 0..12 {
        assert_eq!(dist[p], Some(expect[p]));
    }
}

#[test]
fn shadow_empty_without_divergence() {
    let div = vec![false; 9];
    let dist = get_shadow(&div, 3, 3);
    assert!(dist.iter().all(|d| d.is_none()));
}

// Width formula: max(floor((x2-x1)/(y2-y1)*H), 1).
#[test]
fn width_formula() {
    let s = COORD_SCALE;
    assert_eq!(calculate_width(-s, -s, s, s, 100), 100);
    assert_eq!(calculate_width(0, 0, 2 * s, 2 * s, 50), 50);
    assert_eq!(calculate_width(0, 0, 4 * s, 2 * s, 10), 20);
    assert_eq!(calculate_width(0, 0, 3 * s, 2 * s, 5), 7);
    assert_eq!(calculate_width(0, 0, 1, 2 * s, 100), 1);
}

// Grayscale cubic: width 100, center pixel black (the origin seed hits
// a zero derivative and never converges).
#[test]
fn grayscale_cubic_scenario() {
    let s = COORD_SCALE;
    let (w, outcomes, _, _) = run_outcomes("x^3-1", -s, -s, s, s, 100);
    assert_eq!(w, 100);
    let img = render_image(&outcomes, &None, None, None, false, w as usize, 100);
    assert_eq!(img.len(), 100 * 100 * 3);
    let p = (50 * 100 + 50) * 3;
    assert_eq!((img[p], img[p + 1], img[p + 2]), (0, 0, 0));
}

// Colored cubic: the pixel near 1+0i gets the palette entry of the
// root nearest 1 in the registry order.
#[test]
fn colored_cubic_scenario() {
    let s = COORD_SCALE;
    let (w, outcomes, rows, _) = run_outcomes("x^3-1", -s, -s, s, s, 100);
    let roots = find_roots(rows);
    let (table, default) =
        newton_fractal::palette::get_palette("#ff0000>#00ff00>#0000ff");
    let one = Point::new(POINT_SCALE, 0);
    let k = roots.iter().position(|r| near(r, &one)).unwrap();
    let expect = table[k % table.len()];
    let img = render_image(
        &outcomes,
        &Some(roots),
        Some(&(table.clone(), default)),
        None,
        false,
        w as usize,
        100,
    );
    let p = (50 * 100 + 99) * 3;
    assert_eq!((img[p], img[p + 1], img[p + 2]), (expect.0, expect.1, expect.2));
}

// Negation complements every channel.
#[test]
fn negate_scenario() {
    let s = COORD_SCALE;
    let (w, outcomes, _, _) = run_outcomes("x^2-1", -s, -s, s, s, 50);
    let plain = render_image(&outcomes, &None, None, None, false, w as usize, 50);
    let negated = render_image(&outcomes, &None, None, None, true, w as usize, 50);
    assert_eq!(plain.len(), negated.len());
    for t in 0..plain.len() {
        assert_eq!(negated[t], 255 - plain[t]);
    }
}

// Shadow scenario: a pixel one step inside a diverging region blends
// the white palette toward the black default at weight exp(-10/H).
#[test]
fn shadow_blend_scenario() {
    let s = COORD_SCALE;
    let h = 50u32;
    let (w, outcomes, rows, div) = run_outcomes("x^2-1", -s, -s, s, s, h);
    let roots = find_roots(rows);
    let (table, default) = newton_fractal::palette::get_palette("#ffffff");
    let wid = w as usize;
    let dist = get_shadow(&div, h as usize, wid);
    let alpha = 10.0f64;
    let weights: Vec<Weight> = dist
        .iter()
        .map(|d| match d {
            Some(d) => {
                let wf = (-(*d as f64) * alpha / h as f64).exp();
                Weight::new((wf * 4_294_967_296.0).round() as u64)
            }
            None => Weight::zero(),
        })
        .collect();
    let img = render_image(
        &outcomes,
        &Some(roots),
        Some(&(table, default)),
        Some(&weights),
        false,
        wid,
        h as usize,
    );
    // find a converging pixel at distance 1
    let mut found = false;
    for p in 0..wid * h as usize {
        if !div[p] && dist[p] == Some(1) {
            let wf = (-1.0f64 * alpha / h as f64).exp();
            let num = (wf * 4_294_967_296.0).round() as u64;
            let expected =
                ((255u64 * (4_294_967_296 - num) + 0 * num + 2_147_483_648) / 4_294_967_296) as u8;
            assert_eq!(img[3 * p], expected);
            assert_eq!(img[3 * p + 1], expected);
            assert_eq!(img[3 * p + 2], expected);
            found = true;
            break;
        }
    }
    assert!(found, "expected a pixel one step inside a diverging region");
}

// Viewport scenario: coord 0,0;2,2 at height 50 gives width 50 and a
// zero seed at pixel (0, 0).
#[test]
fn viewport_scenario() {
    let (x1, y1, x2, y2) = parse_coord("0,0;2,2").unwrap();
    let w = calculate_width(x1, y1, x2, y2, 50);
    assert_eq!(w, 50);
    let (re, im) = complex_by_coord(0, 50, 0, w, x1, y1, x2, y2);
    assert_eq!(re.num, 0);
    assert_eq!(im.num, 0);
}

// Palette default scenario: non-converging pixels emit the default.
#[test]
fn palette_default_scenario() {
    let s = COORD_SCALE;
    let h = 50u32;
    let (w, outcomes, rows, div) = run_outcomes("x^2-1", -s, -s, s, s, h);
    let roots = find_roots(rows);
    let (table, default) =
        newton_fractal::palette::get_palette("#ff0000 |> #123456");
    assert_eq!(default, Color(0x12, 0x34, 0x56));
    let wid = w as usize;
    let img = render_image(
        &outcomes,
        &Some(roots),
        Some(&(table, default)),
        None,
        false,
        wid,
        h as usize,
    );
    let mut found = false;
    for p in 0..wid * h as usize {
        if div[p] {
            assert_eq!((img[3 * p], img[3 * p + 1], img[3 * p + 2]), (0x12, 0x34, 0x56));
            found = true;
        }
    }
    assert!(found, "expected diverging pixels for the parabola");
}

// Root precision: two nearby endpoints cluster to one root.
#[test]
fn registry_clusters_nearby_points() {
    let a = Point::new(0, 0);
    let b = Point::new(ROOT_EPS / 2, 0);
    let c = Point::new(5 * POINT_SCALE, 0);
    let roots = find_roots(vec![vec![a, b, c]]);
    assert_eq!(roots.len(), 2);
}

// The grayscale level is the rounded contrast ramp.
#[test]
fn grayscale_levels_exact() {
    assert_eq!(newton_fractal::color::gray_color(0), Color(255, 255, 255));
    assert_eq!(newton_fractal::color::gray_color(32), Color(128, 128, 128));
    assert_eq!(newton_fractal::color::gray_color(63), Color(4, 4, 4));
    assert_eq!(newton_fractal::color::gray_color(64), Color(0, 0, 0));
    assert_eq!(newton_fractal::color::gray_color(255), Color(0, 0, 0));
}
