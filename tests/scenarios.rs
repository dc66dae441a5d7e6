use reverse_ad::differentiator::DifferentiationError;
use reverse_ad::operation::Partial;
use reverse_ad::tape::Tape;
use std::f64::consts::PI;

/// Primal values beside a tape: the library records the graph and plans the
/// backward sweep; this evaluates it in floating point.
struct Graph {
    tape: Tape,
    values: Vec<f64>,
    constants: Vec<f64>,
}

impl Graph {
    fn new() -> Self {
        Graph { tape: Tape::new(), values: Vec::new(), constants: Vec::new() }
    }

    fn push(&mut self, id: u64, value: f64, constant: f64) -> u64 {
        assert_eq!(id as usize, self.values.len());
        self.values.push(value);
        self.constants.push(constant);
        id
    }

    fn v(&self, id: u64) -> f64 {
        self.values[id as usize]
    }

    fn leaf(&mut self, value: f64) -> u64 {
        let id = self.tape.leaf();
        self.push(id, value, 0.0)
    }

    fn add(&mut self, a: u64, b: u64) -> u64 {
        let r = self.v(a) + self.v(b);
        let id = self.tape.add(a, b);
        self.push(id, r, 0.0)
    }

    fn sub(&mut self, a: u64, b: u64) -> u64 {
        let r = self.v(a) - self.v(b);
        let id = self.tape.sub(a, b);
        self.push(id, r, 0.0)
    }

    fn mul(&mut self, a: u64, b: u64) -> u64 {
        let r = self.v(a) * self.v(b);
        let id = self.tape.mul(a, b);
        self.push(id, r, 0.0)
    }

    fn div(&mut self, a: u64, b: u64) -> u64 {
        let r = self.v(a) / self.v(b);
        let id = self.tape.div(a, b);
        self.push(id, r, 0.0)
    }

    fn ln(&mut self, a: u64) -> u64 {
        let r = self.v(a).ln();
        let id = self.tape.ln(a);
        self.push(id, r, 0.0)
    }

    fn sin(&mut self, a: u64) -> u64 {
        let r = self.v(a).sin();
        let id = self.tape.sin(a);
        self.push(id, r, 0.0)
    }

    fn cos(&mut self, a: u64) -> u64 {
        let r = self.v(a).cos();
        let id = self.tape.cos(a);
        self.push(id, r, 0.0)
    }

    fn exp(&mut self, a: u64) -> u64 {
        let r = self.v(a).exp();
        let id = self.tape.exp(a);
        self.push(id, r, 0.0)
    }

    fn sqrt(&mut self, a: u64) -> u64 {
        let r = self.v(a).sqrt();
        let id = self.tape.sqrt(a);
        self.push(id, r, 0.0)
    }

    fn pow(&mut self, a: u64, k: f64) -> u64 {
        let r = self.v(a).powf(k);
        let id = self.tape.pow(a);
        self.push(id, r, k)
    }

    fn log(&mut self, a: u64, base: f64) -> u64 {
        let r = self.v(a).log(base);
        let id = self.tape.log(a);
        self.push(id, r, base)
    }

    fn partial(&self, d: Partial) -> f64 {
        match d {
            Partial::One => 1.0,
            Partial::MinusOne => -1.0,
            Partial::ValueOf(i) => self.v(i),
            Partial::ReciprocalOf(i) => 1.0 / self.v(i),
            Partial::NegQuotient(a, b) => -self.v(a) / (self.v(b) * self.v(b)),
            Partial::CosOf(i) => self.v(i).cos(),
            Partial::NegSinOf(i) => -self.v(i).sin(),
            Partial::HalfReciprocalOf(i) => 1.0 / (2.0 * self.v(i)),
            Partial::PowerRule(p, a) => {
                let k = self.constants[p as usize];
                k * self.v(a).powf(k - 1.0)
            }
            Partial::LogRule(p, a) => 1.0 / (self.v(a) * self.constants[p as usize].ln()),
        }
    }

    /// The output's value and its derivative with respect to each input.
    fn derivatives(&self, inputs: &[u64]) -> Result<(f64, Vec<f64>), DifferentiationError> {
        self.tape.check_inputs(&inputs.to_vec())?;
        let out = self.tape.output_node().expect("empty tape");
        let mut adjoints = vec![0.0; self.values.len()];
        adjoints[out as usize] = 1.0;
        for step in self.tape.adjoint_plan() {
            let mut sum = 0.0;
            for t in &step.terms {
                sum += adjoints[t.parent as usize] * self.partial(t.partial);
            }
            adjoints[step.node as usize] = sum;
        }
        let ds = inputs.iter().map(|&i| adjoints[i as usize]).collect();
        Ok((self.v(out), ds))
    }
}

fn close(a: f64, b: f64, eps: f64) -> bool {
    (a - b).abs() < eps
}

fn check_binary(op: fn(&mut Graph, u64, u64) -> u64, result: f64, dfdx: f64, dfdy: f64) {
    let mut g = Graph::new();
    let x = g.leaf(3.0);
    let y = g.leaf(5.0);
    op(&mut g, x, y);
    let (r, ds) = g.derivatives(&[x, y]).unwrap();
    assert_eq!(ds.len(), 2);
    assert!(close(r, result, 1e-5));
    assert!(close(ds[0], dfdx, 1e-5));
    assert!(close(ds[1], dfdy, 1e-5));
}

fn check_unary(op: fn(&mut Graph, u64) -> u64, arg: f64, result: f64, dfdx: f64) {
    let mut g = Graph::new();
    let x = g.leaf(arg);
    op(&mut g, x);
    let (r, ds) = g.derivatives(&[x]).unwrap();
    assert_eq!(ds.len(), 1);
    assert!(close(r, result, 1e-5));
    assert!(close(ds[0], dfdx, 1e-5));
}

#[test]
fn test_add_3_5() {
    check_binary(|g, x, y| g.add(x, y), 8.0, 1.0, 1.0);
}

#[test]
fn test_sub_3_5() {
    check_binary(|g, x, y| g.sub(x, y), -2.0, 1.0, -1.0);
}

#[test]
fn test_mul_3_5() {
    check_binary(|g, x, y| g.mul(x, y), 15.0, 5.0, 3.0);
}

#[test]
fn test_div_3_5() {
    check_binary(|g, x, y| g.div(x, y), 0.6, 0.2, -0.12);
}

#[test]
fn test_cos_of_3() {
    check_unary(|g, x| g.cos(x), 3.0, -0.98999, -0.14112);
}

#[test]
fn test_sin_of_3() {
    check_unary(|g, x| g.sin(x), 3.0, 0.141120, -0.98999);
}

#[test]
fn test_sin_of_0_comma_96398171442035951() {
    check_unary(|g, x| g.sin(x), 0.96398171442035951, 0.821469, 0.570254);
}

#[test]
fn test_ln_of_3() {
    check_unary(|g, x| g.ln(x), 3.0, 1.098612, 0.333333);
}

#[test]
fn test_sqrt_of_3() {
    check_unary(|g, x| g.sqrt(x), 3.0, 1.732051, 0.288675);
}

#[test]
fn test_exp_of_3() {
    check_unary(|g, x| g.exp(x), 3.0, 20.08554, 20.08554);
}

#[test]
fn test_pow_fifth_of_3() {
    check_unary(|g, x| g.pow(x, 5.0), 3.0, 243.0, 405.0);
}

#[test]
fn test_log_base_eight_of_3() {
    check_unary(|g, x| g.log(x, 8.0), 3.0, 0.528321, 0.160299);
}

/// y1 = x3 * (x5 * x1 + x2), y2 = ln(y1), y = (y1 + x4 * y2) * (y1 + y2)
fn five_variable_graph() -> (Graph, Vec<u64>) {
    let mut g = Graph::new();
    let xs: Vec<u64> = [1.0, 2.0, 3.0, 4.0, 5.0].iter().map(|&v| g.leaf(v)).collect();
    let a = g.mul(xs[4], xs[0]);
    let b = g.add(a, xs[1]);
    let y1 = g.mul(xs[2], b);
    let y2 = g.ln(y1);
    let c = g.mul(xs[3], y2);
    let d = g.add(y1, c);
    let e = g.add(y1, y2);
    g.mul(d, e);
    (g, xs)
}

fn check_five_variable_graph(eps: f64) {
    let (g, xs) = five_variable_graph();
    let (r, ds) = g.derivatives(&xs).unwrap();
    assert_eq!(ds.len(), 5);
    assert!(r - 797.75132345616487 < eps);
    assert!(ds[0] - 950.7364539019619 < eps);
    assert!(ds[1] - 190.14729078039238 < eps);
    assert!(ds[2] - 443.6770118209156 < eps);
    assert!(ds[3] - 73.20408806599326 < eps);
    assert!(ds[4] - 190.14729078039238 < eps);
}

#[test]
fn automatic_differentiator_test_operators_add_mul_ln() {
    check_five_variable_graph(1e-10);
}

#[test]
fn differentiation_rules_combination_test_test_operators_add_mul_ln() {
    let (g, xs) = five_variable_graph();
    let (r, ds) = g.derivatives(&xs).unwrap();
    assert_eq!(ds.len(), xs.len());
    let epsilon = 1e-10;
    assert!((r - 797.75132345616487).abs() < epsilon);
    assert!((ds[0] - 950.7364539019619).abs() < epsilon);
    assert!((ds[1] - 190.14729078039238).abs() < epsilon);
    assert!((ds[2] - 443.6770118209156).abs() < epsilon);
    assert!((ds[3] - 73.20408806599326).abs() < epsilon);
    assert!((ds[4] - 190.14729078039238).abs() < epsilon);
}

#[test]
fn differentiation_rules_test_test_operators_add_mul_ln() {
    check_five_variable_graph(1e-10);
}

#[test]
fn five_variable_graph_matches_closed_form() {
    let (g, xs) = five_variable_graph();
    let (r, ds) = g.derivatives(&xs).unwrap();
    assert!(close(r, 797.751323456, 1e-6));
    assert!(close(ds[0], 950.736454, 1e-5));
    assert!(close(ds[1], 190.147291, 1e-5));
    assert!(close(ds[2], 443.677012, 1e-5));
    assert!(close(ds[3], 73.204088, 1e-5));
    assert!(close(ds[4], 190.147291, 1e-5));
}

/// frac = x1 / x2, f = (sin(frac) + frac - exp(x2)) * (frac - exp(x2))
fn trig_exp_graph() -> (Graph, Vec<u64>) {
    let mut g = Graph::new();
    let x1 = g.leaf(1.5);
    let x2 = g.leaf(0.5);
    let frac = g.div(x1, x2);
    let s = g.sin(frac);
    let a = g.add(s, frac);
    let e1 = g.exp(x2);
    let b = g.sub(a, e1);
    let e2 = g.exp(x2);
    let c = g.sub(frac, e2);
    g.mul(b, c);
    (g, vec![x1, x2])
}

#[test]
fn automatic_differentiator_test_operators_sub_sin_div() {
    let (g, xs) = trig_exp_graph();
    let (r, ds) = g.derivatives(&xs).unwrap();
    assert_eq!(ds.len(), 2);
    let epsilon = 1e-10;
    assert!(r - 2.017 < epsilon);
    assert!(ds[0] - 3.0118433276739069 < epsilon);
    assert!(ds[1] - (-13.723961509314076) < epsilon);
}

#[test]
fn differentiation_rules_test_test_operators_sub_sin_div() {
    let (g, xs) = trig_exp_graph();
    let (r, ds) = g.derivatives(&xs).unwrap();
    assert_eq!(ds.len(), xs.len());
    let epsilon = 1e-10;
    assert!(r - 2.017 < epsilon);
    assert!(ds[0] - 3.0118433276739069 < epsilon);
    assert!(ds[1] - (-13.723961509314076) < epsilon);
}

#[test]
fn test_operators_sub_sin_div_exp() {
    let (g, xs) = trig_exp_graph();
    let (r, ds) = g.derivatives(&xs).unwrap();
    assert_eq!(ds.len(), xs.len());
    let epsilon = 1e-10;
    assert!((r - 2.0166466694282015).abs() < epsilon);
    assert!((ds[0] - 3.0118433276739069).abs() < epsilon);
    assert!((ds[1] - (-13.723961509314076)).abs() < epsilon);
}

/// cos(exp(x1) + pi / 2)
fn cos_exp_graph() -> (Graph, u64) {
    let mut g = Graph::new();
    let x1 = g.leaf(1.0);
    let pi = g.leaf(PI);
    let two = g.leaf(2.0);
    let e = g.exp(x1);
    let h = g.div(pi, two);
    let s = g.add(e, h);
    g.cos(s);
    (g, x1)
}

#[test]
fn test_operators_cos_pi_div_exp_cos() {
    let (g, x1) = cos_exp_graph();
    let (r, ds) = g.derivatives(&[x1]).unwrap();
    assert_eq!(ds.len(), 1);
    let epsilon = 1e-10;
    assert!((r - (-0.41078129050290929)).abs() < epsilon);
    assert!((ds[0] - 2.478349732955234).abs() < epsilon);
}

#[test]
fn test_operators_cos_exp() {
    let (g, x1) = cos_exp_graph();
    let (r, ds) = g.derivatives(&[x1]).unwrap();
    assert_eq!(ds.len(), 1);
    let epsilon = 1e-5;
    assert!(r - (-0.41078) < epsilon);
    assert!(ds[0] - 2.478350 < epsilon);
}

/// cos(x1^5 + pi / 2)
fn cos_pow_graph() -> (Graph, u64) {
    let mut g = Graph::new();
    let x1 = g.leaf(-1.0);
    let pi = g.leaf(PI);
    let two = g.leaf(2.0);
    let p = g.pow(x1, 5.0);
    let h = g.div(pi, two);
    let s = g.add(p, h);
    g.cos(s);
    (g, x1)
}

#[test]
fn test_operators_cos_pow_pi_add_div() {
    let (g, x1) = cos_pow_graph();
    let (r, ds) = g.derivatives(&[x1]).unwrap();
    assert_eq!(ds.len(), 1);
    let epsilon = 1e-10;
    assert!((r - 0.8414709848078965).abs() < epsilon);
    assert!((ds[0] - (-2.7015115293406984)).abs() < epsilon);
}

#[test]
fn test_operators_cos_pow() {
    let (g, x1) = cos_pow_graph();
    let (r, ds) = g.derivatives(&[x1]).unwrap();
    assert_eq!(ds.len(), 1);
    let epsilon = 1e-5;
    assert!(r - 0.841471 < epsilon);
    assert!(ds[0] - (-2.70151) < epsilon);
}

/// sin(sqrt(exp(x1) + pi) / 2)
fn sin_sqrt_graph() -> (Graph, u64) {
    let mut g = Graph::new();
    let x1 = g.leaf(5.0);
    let pi = g.leaf(PI);
    let two = g.leaf(2.0);
    let e = g.exp(x1);
    let s = g.add(e, pi);
    let q = g.sqrt(s);
    let h = g.div(q, two);
    g.sin(h);
    (g, x1)
}

#[test]
fn test_operators_sin_sqrt_exp_div_add() {
    let (g, x1) = sin_sqrt_graph();
    let (r, ds) = g.derivatives(&[x1]).unwrap();
    assert_eq!(ds.len(), 1);
    let epsilon = 1e-10;
    assert!((r - (-0.12745886733521275)).abs() < epsilon);
    assert!((ds[0] - 2.9893099479208347).abs() < epsilon);
}

#[test]
fn test_operators_sin_sqrt_exp() {
    let (g, x1) = sin_sqrt_graph();
    let (r, ds) = g.derivatives(&[x1]).unwrap();
    assert_eq!(ds.len(), 1);
    let epsilon = 1e-5;
    assert!(r - (-0.12745886733521275) < epsilon);
    assert!(ds[0] - 2.989310 < epsilon);
}

/// ((x + y) * (y - z)) / pi, with x = y = 3 and z = -0.6
fn product_over_pi(g: &mut Graph) -> (u64, u64, u64, u64) {
    let x = g.leaf(3.0);
    let y = g.leaf(3.0);
    let z = g.leaf(-0.6);
    let pi = g.leaf(PI);
    let a = g.add(x, y);
    let b = g.sub(y, z);
    let m = g.mul(a, b);
    let d = g.div(m, pi);
    (x, y, z, d)
}

#[test]
fn test_operators_add_sub_mull_div_ln_sin_cos_exp_pow_sqrt_log() {
    let mut g = Graph::new();
    let (x, y, z, d) = product_over_pi(&mut g);
    let w = g.leaf(3.0);
    let q = g.sqrt(d);
    let l = g.ln(q);
    let s = g.sin(l);
    let c = g.cos(w);
    let e = g.exp(c);
    let p = g.pow(e, 5.0);
    let lg = g.log(p, 8.0);
    g.add(s, lg);
    let (r, ds) = g.derivatives(&[x, y, w, z]).unwrap();
    assert_eq!(ds.len(), 4);
    let epsilon = 1e-10;
    assert!((r - (-1.5589601142820477)).abs() < epsilon);
    assert!((ds[3] - (-0.079201897431872462)).abs() < epsilon);
    assert!((ds[0] - 0.04752113845912348).abs() < epsilon);
    assert!((ds[2] - (-0.33932189299696824)).abs() < epsilon);
    assert!((ds[1] - 0.12672303589099593).abs() < epsilon);
}

#[test]
fn test_operators_add_sub_mul_div_pi_ln_sqrt() {
    let mut g = Graph::new();
    let (x, y, z, d) = product_over_pi(&mut g);
    let q = g.sqrt(d);
    g.ln(q);
    let (r, ds) = g.derivatives(&[x, y, z]).unwrap();
    assert_eq!(ds.len(), 3);
    let epsilon = 1e-5;
    assert!((r - 0.96398171442035951).abs() < epsilon);
    assert!((ds[2] - (-0.1388888888888889)).abs() < epsilon);
    assert!((ds[1] - 0.222222).abs() < epsilon);
    assert!((ds[0] - 0.083333333333333342).abs() < epsilon);
}

#[test]
fn test_operators_ln_sqrt() {
    let mut g = Graph::new();
    let x = g.leaf(3.0);
    let y = g.leaf(3.0);
    let z = g.leaf(-0.6);
    let a = g.add(x, y);
    let b = g.add(a, z);
    let yy = g.mul(y, y);
    let c = g.add(b, yy);
    let q = g.sqrt(c);
    g.sqrt(q);
    let (r, ds) = g.derivatives(&[x, y, z]).unwrap();
    assert_eq!(ds.len(), 3);
    let epsilon = 1e-5;
    assert!((r - 1.948007).abs() < epsilon);
    assert!((ds[0] - 0.033820).abs() < epsilon);
    assert!((ds[1] - 0.236737).abs() < epsilon);
    assert!((ds[2] - 0.033820).abs() < epsilon);
}

#[test]
fn test_operators_add_sub_mul_sin() {
    let mut g = Graph::new();
    let x = g.leaf(3.0);
    let y = g.leaf(3.0);
    let z = g.leaf(-0.6);
    let a = g.add(x, y);
    let b = g.sub(y, z);
    let m = g.mul(a, b);
    g.sin(m);
    let (r, ds) = g.derivatives(&[x, y, z]).unwrap();
    assert_eq!(ds.len(), 3);
    let epsilon = 1e-5;
    assert!((r - 0.381250).abs() < epsilon);
    assert!((ds[0] - (-3.32810)).abs() < epsilon);
    assert!((ds[1] - (-8.87493)).abs() < epsilon);
    assert!((ds[2] - 5.546831).abs() < epsilon);
}

#[test]
fn test_operators_add_div_pi() {
    let mut g = Graph::new();
    let x = g.leaf(3.0);
    let y = g.leaf(3.0);
    let pi = g.leaf(PI);
    let a = g.add(x, y);
    let d = g.div(a, pi);
    g.sin(d);
    let (r, ds) = g.derivatives(&[x, y]).unwrap();
    assert_eq!(ds.len(), 2);
    let epsilon = 1e-5;
    assert!((r - 0.943067).abs() < epsilon);
    assert!((ds[0] - (-0.10587)).abs() < epsilon);
    assert!((ds[1] - (-0.10587)).abs() < epsilon);
}

#[test]
fn test_operators_sub_div_pi() {
    let mut g = Graph::new();
    let y = g.leaf(3.0);
    let z = g.leaf(-0.6);
    let pi = g.leaf(PI);
    let a = g.sub(y, z);
    let d = g.div(a, pi);
    g.sin(d);
    let (r, ds) = g.derivatives(&[y, z]).unwrap();
    assert_eq!(ds.len(), 2);
    let epsilon = 1e-5;
    assert!((r - 0.911088).abs() < epsilon);
    assert!((ds[0] - 0.131211).abs() < epsilon);
    assert!((ds[1] - (-0.13121)).abs() < epsilon);
}

#[test]
fn test_operators_mul_div_pi() {
    let mut g = Graph::new();
    let x = g.leaf(3.0);
    let y = g.leaf(3.0);
    let pi = g.leaf(PI);
    let a = g.mul(x, y);
    let d = g.div(a, pi);
    g.sin(d);
    let (r, ds) = g.derivatives(&[x, y]).unwrap();
    assert_eq!(ds.len(), 2);
    let epsilon = 1e-5;
    assert!((r - 0.273282).abs() < epsilon);
    assert!((ds[0] - (-0.91858)).abs() < epsilon);
    assert!((ds[1] - (-0.91858)).abs() < epsilon);
}

#[test]
fn test_operators_add_sub_mul_div_pi() {
    let mut g = Graph::new();
    let (x, y, z, d) = product_over_pi(&mut g);
    g.sin(d);
    let (r, ds) = g.derivatives(&[x, y, z]).unwrap();
    assert_eq!(ds.len(), 3);
    let epsilon = 1e-5;
    assert!((r - 0.558278).abs() < epsilon);
    assert!((ds[0] - 0.950714).abs() < epsilon);
    assert!((ds[1] - 2.535237).abs() < epsilon);
    assert!((ds[2] - (-1.58452)).abs() < epsilon);
}

#[test]
fn square_counts_both_uses() {
    let mut g = Graph::new();
    let x = g.leaf(3.0);
    g.mul(x, x);
    let (r, ds) = g.derivatives(&[x]).unwrap();
    assert_eq!(r, 9.0);
    assert_eq!(ds[0], 6.0);
}

#[test]
fn doubling_counts_both_uses() {
    let mut g = Graph::new();
    let x = g.leaf(4.0);
    let d = g.add(x, x);
    g.mul(d, x);
    let (r, ds) = g.derivatives(&[x]).unwrap();
    assert_eq!(r, 32.0);
    assert_eq!(ds[0], 16.0);
}

#[test]
fn two_fresh_tapes_give_identical_results() {
    let (g1, xs1) = five_variable_graph();
    let (g2, xs2) = five_variable_graph();
    assert_eq!(xs1, xs2);
    let (r1, d1) = g1.derivatives(&xs1).unwrap();
    let (r2, d2) = g2.derivatives(&xs2).unwrap();
    assert_eq!(r1.to_bits(), r2.to_bits());
    for (a, b) in d1.iter().zip(d2.iter()) {
        assert_eq!(a.to_bits(), b.to_bits());
    }
}

#[test]
fn sum_and_difference_of_two_leaves() {
    let mut g = Graph::new();
    let x = g.leaf(-7.25);
    let y = g.leaf(11.5);
    g.add(x, y);
    assert_eq!(g.derivatives(&[x, y]).unwrap().1, vec![1.0, 1.0]);
    let mut h = Graph::new();
    let x = h.leaf(-7.25);
    let y = h.leaf(11.5);
    h.sub(x, y);
    assert_eq!(h.derivatives(&[x, y]).unwrap().1, vec![1.0, -1.0]);
}

#[test]
fn derivative_of_a_stale_id_is_an_error() {
    let mut g = Graph::new();
    let x = g.leaf(2.0);
    g.exp(x);
    assert_eq!(g.derivatives(&[x, 7]), Err(DifferentiationError::UnregisteredNode(7)));
}
