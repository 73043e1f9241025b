use calc_cmd::math_types::matrix::Matrix;
use calc_cmd::math_types::scalar::Scalar;
use calc_cmd::math_types::vector::Vector;
use calc_cmd::numeric::Numeric;
use calc_cmd::text::{fmt_usize, parse_usize, split_spaces, trim_str};
use calc_cmd::variables::variable_storage::VarStorage;
use calc_cmd::variables::variable_types::VariableType;

#[derive(Clone, Copy, Debug, PartialEq)]
struct Num(f64);

impl Numeric for Num {
    fn zero() -> Self {
        Num(0.0)
    }
    fn one() -> Self {
        Num(1.0)
    }
    fn add(&self, other: &Self) -> Self {
        Num(self.0 + other.0)
    }
    fn sub(&self, other: &Self) -> Self {
        Num(self.0 - other.0)
    }
    fn mul(&self, other: &Self) -> Self {
        Num(self.0 * other.0)
    }
    fn div(&self, other: &Self) -> Self {
        Num(self.0 / other.0)
    }
    fn modulo(&self, other: &Self) -> Self {
        Num(self.0 % other.0)
    }
    fn pow(&self, other: &Self) -> Self {
        Num(self.0.powf(other.0))
    }
    fn sqrt(&self) -> Self {
        Num(self.0.sqrt())
    }
    fn atan(&self) -> Self {
        Num(self.0.atan())
    }
    fn eq_num(&self, other: &Self) -> bool {
        self.0 == other.0
    }
    fn abs_gt(&self, other: &Self) -> bool {
        self.0.abs() > other.0.abs()
    }
    fn is_negligible(&self) -> bool {
        self.0.abs() < 1e-10
    }
    fn from_text(s: &str) -> Option<Self> {
        s.parse::<f64>().ok().map(Num)
    }
    fn to_text(&self) -> String {
        self.0.to_string()
    }
}

fn vec_of(vals: &[f64]) -> Vector<Num> {
    Vector::from_list(vals.iter().map(|v| Num(*v)).collect())
}

fn mat_of(rows: &[&[f64]]) -> Matrix<Num> {
    let m = rows.len();
    let n = if m == 0 { 0 } else { rows[0].len() };
    let mut out: Matrix<Num> = Matrix::new(m, n);
    for (i, row) in rows.iter().enumerate() {
        for (j, v) in row.iter().enumerate() {
            out.set_entry(i, j, Num(*v));
        }
    }
    out
}

fn entries(m: &Matrix<Num>) -> Vec<Vec<f64>> {
    let mut out = Vec::new();
    for i in 0..m.rows() {
        let mut row = Vec::new();
        for j in 0..m.cols() {
            row.push(m.get_entry(i, j).0);
        }
        out.push(row);
    }
    out
}

fn rounded(m: &Matrix<Num>, precis: u32) -> Vec<Vec<f64>> {
    let y = 10i32.pow(precis) as f64;
    entries(m)
        .into_iter()
        .map(|r| r.into_iter().map(|v| (v * y).round() / y).collect())
        .collect()
}

#[test]
fn test_scalar_add() {
    let a = Scalar::new(Num(3.0));
    let b = Scalar::new(Num(2.0));
    let result = Scalar::new(Num(5.0));
    assert_eq!(a.add(&b), result);
}

#[test]
fn test_scalar_sterilize() {
    let a = Scalar::new(Num(3.0));
    let result = a.sterilize();
    assert_eq!(result, "SCA 3");
    let b = Scalar::from_sterilize(&result);
    assert_eq!(b, Ok(a));
}

#[test]
fn test_vector_add() {
    let a = vec_of(&[1.0, 2.0, 3.0]);
    let b = vec_of(&[4.0, 5.0, 6.0]);
    let result = vec_of(&[5.0, 7.0, 9.0]);
    match a.add(&b) {
        Ok(c) => assert_eq!(c, result),
        Err(e) => panic!("Value could not be added because of '{e}'."),
    }
}

#[test]
fn test_vector_sterilize() {
    let a = vec_of(&[1.46, 2.32, 31.2]);
    let result = a.sterilize();
    assert_eq!(result.trim(), "VEC 3 1.46 2.32 31.2");
    let b = Vector::from_sterilize(&result);
    assert_eq!(b, Ok(a));
}

#[test]
fn test_matrix_add() {
    let a = mat_of(&[&[1.0, 2.0], &[3.0, 4.0]]);
    let b = mat_of(&[&[4.0, 3.0], &[2.0, 1.0]]);
    let result = mat_of(&[&[5.0, 5.0], &[5.0, 5.0]]);
    match a.add(&b) {
        Ok(c) => assert_eq!(c, result),
        Err(e) => panic!("Value could not be added because of '{e}'."),
    }
}

#[test]
fn vector_add_dimension_mismatch() {
    let a = vec_of(&[1.0, 2.0]);
    let b = vec_of(&[1.0, 2.0, 3.0]);
    assert!(a.add(&b).is_err());
    assert!(a.sub(&b).is_err());
    assert!(a.dot_product(&b).is_err());
}

#[test]
fn vector_magnitude_keeps_sign_for_dimension_one() {
    let v = vec_of(&[-5.0]);
    assert_eq!(v.magnitude(), Ok(Num(-5.0)));
    let w = vec_of(&[3.0, 4.0]);
    assert_eq!(w.magnitude(), Ok(Num(5.0)));
    let e: Vector<Num> = Vector::error_vector();
    assert!(e.magnitude().is_err());
}

#[test]
fn vector_angle_is_atan_of_magnitude() {
    let w = vec_of(&[3.0, 4.0]);
    assert_eq!(w.angle(), Ok(Num(5.0f64.atan())));
    let one = vec_of(&[2.0]);
    assert!(one.angle().is_err());
    let e: Vector<Num> = Vector::error_vector();
    assert!(e.angle().is_err());
}

#[test]
fn cross_product_of_unit_vectors() {
    let x = vec_of(&[1.0, 0.0, 0.0]);
    let y = vec_of(&[0.0, 1.0, 0.0]);
    assert_eq!(x.cross_product(&y), Ok(vec_of(&[0.0, 0.0, 1.0])));
}

#[test]
fn cross_product_of_one_vectors_multiplies() {
    let a = vec_of(&[3.0]);
    let b = vec_of(&[4.0]);
    assert_eq!(a.cross_product(&b), Ok(vec_of(&[12.0])));
}

#[test]
fn cross_product_of_plane_vectors() {
    let a = vec_of(&[1.0, 0.0]);
    let b = vec_of(&[0.0, 1.0]);
    assert_eq!(a.cross_product(&b), Ok(vec_of(&[0.0, 0.0, 1.0])));
    let big = vec_of(&[1.0, 2.0, 3.0, 4.0]);
    assert!(big.cross_product(&big).is_err());
}

#[test]
fn vector_set_val_conforms_to_dimension() {
    let mut v = vec_of(&[1.0, 2.0, 3.0]);
    assert!(v.set_val(vec![Num(9.0)]).is_ok());
    assert_eq!(v, vec_of(&[9.0, 0.0, 0.0]));
    let mut w = vec_of(&[1.0, 2.0]);
    assert!(w.set_val(vec![Num(7.0), Num(8.0), Num(9.0)]).is_ok());
    assert_eq!(w, vec_of(&[7.0, 8.0]));
}

#[test]
fn dot_product_sums_products() {
    let a = vec_of(&[1.0, 2.0, 3.0]);
    let b = vec_of(&[4.0, 5.0, 6.0]);
    assert_eq!(a.dot_product(&b), Ok(Num(32.0)));
}

#[test]
fn matrix_mul_shapes_and_values() {
    let a = mat_of(&[&[1.0, 2.0], &[3.0, 4.0]]);
    let b = mat_of(&[&[5.0], &[6.0]]);
    let p = a.mul(&b).unwrap();
    assert_eq!(entries(&p), vec![vec![17.0], vec![39.0]]);
    assert!(b.mul(&a).is_err());
}

#[test]
fn matrix_transpose_and_augment() {
    let a = mat_of(&[&[1.0, 2.0, 3.0], &[4.0, 5.0, 6.0]]);
    let t = a.transpose();
    assert_eq!(entries(&t), vec![vec![1.0, 4.0], vec![2.0, 5.0], vec![3.0, 6.0]]);
    let b = mat_of(&[&[7.0], &[8.0]]);
    let aug = a.augment(&b).unwrap();
    assert_eq!(entries(&aug), vec![vec![1.0, 2.0, 3.0, 7.0], vec![4.0, 5.0, 6.0, 8.0]]);
}

#[test]
fn matrix_extract_takes_submatrix() {
    let a = mat_of(&[&[1.0, 2.0, 3.0], &[4.0, 5.0, 6.0], &[7.0, 8.0, 9.0]]);
    let s = a.extract(1..3, 0..2);
    assert_eq!(entries(&s), vec![vec![4.0, 5.0], vec![7.0, 8.0]]);
}

#[test]
fn determinant_of_zero_row_matrix_is_zero() {
    let a = mat_of(&[&[1.0, 2.0], &[0.0, 0.0]]);
    assert_eq!(a.determinant(), Some(Num(0.0)));
}

#[test]
fn determinant_row_swap_flips_sign() {
    let a = mat_of(&[&[0.0, 1.0], &[1.0, 0.0]]);
    assert_eq!(a.determinant(), Some(Num(-1.0)));
    let b = mat_of(&[&[2.0, 1.0], &[1.0, 3.0]]);
    assert_eq!(b.determinant(), Some(Num(5.0)));
}

#[test]
fn reduced_row_echelon_form_is_idempotent() {
    let mut a = mat_of(&[&[1.0, 2.0, 3.0], &[4.0, 5.0, 6.0], &[7.0, 8.0, 10.0]]);
    a.reduced_row_echelon_form();
    let once = a.duplicate();
    a.reduced_row_echelon_form();
    assert_eq!(a, once);
}

#[test]
fn invert_times_original_is_identity() {
    let a = mat_of(&[&[4.0, 7.0], &[2.0, 6.0]]);
    let inv = a.invert().expect("well-conditioned matrix inverts");
    let product = inv.mul(&a).unwrap();
    assert_eq!(rounded(&product, 6), vec![vec![1.0, 0.0], vec![0.0, 1.0]]);
}

#[test]
fn invert_refuses_singular_and_non_square() {
    let singular = mat_of(&[&[1.0, 2.0], &[2.0, 4.0]]);
    assert!(singular.invert().is_none());
    let zero_row = mat_of(&[&[1.0, 2.0], &[0.0, 0.0]]);
    assert!(zero_row.invert().is_none());
    let rect = mat_of(&[&[1.0, 2.0, 3.0], &[4.0, 5.0, 6.0]]);
    assert!(rect.invert().is_none());
}

#[test]
fn matrix_row_operations() {
    let mut a = mat_of(&[&[1.0, 2.0], &[3.0, 4.0]]);
    a.row_swap(0, 1);
    assert_eq!(entries(&a), vec![vec![3.0, 4.0], vec![1.0, 2.0]]);
    a.row_add(0, Num(2.0), 1);
    assert_eq!(entries(&a), vec![vec![3.0, 4.0], vec![7.0, 10.0]]);
    // a zero factor changes nothing
    a.row_add(0, Num(0.0), 1);
    assert_eq!(entries(&a), vec![vec![3.0, 4.0], vec![7.0, 10.0]]);
}

#[test]
fn codec_round_trip_scalar_vector_matrix() {
    let s = VariableType::Scalar(Scalar::new(Num(-2.25)));
    assert_eq!(VariableType::from_sterilize(&s.sterilize()), Ok(s));
    let v = VariableType::Vector(vec_of(&[1.0, -2.5, 0.125]));
    assert_eq!(VariableType::from_sterilize(&v.sterilize()), Ok(v));
    let m = VariableType::Matrix(mat_of(&[&[1.0, 2.0], &[3.0, 4.5]]));
    assert_eq!(VariableType::from_sterilize(&m.sterilize()), Ok(m));
}

#[test]
fn codec_round_trip_absent_and_error_forms() {
    let none: VariableType<Num> = VariableType::Absent;
    assert_eq!(none.sterilize(), "NAN");
    assert_eq!(VariableType::from_sterilize("NAN"), Ok(VariableType::<Num>::Absent));
    let ev: Vector<Num> = Vector::error_vector();
    let back = Vector::<Num>::from_sterilize(&ev.sterilize()).unwrap();
    assert_eq!(back, ev);
    let em: Matrix<Num> = Matrix::error_matrix();
    let back_m = Matrix::<Num>::from_sterilize(&em.sterilize()).unwrap();
    assert_eq!(back_m, em);
}

#[test]
fn codec_rejects_bad_payloads() {
    assert!(VariableType::<Num>::from_sterilize("XYZ 1").is_err());
    assert!(VariableType::<Num>::from_sterilize("SC").is_err());
    assert!(Vector::<Num>::from_sterilize("VEC 3 1 2").is_err());
    assert!(Vector::<Num>::from_sterilize("VEC x 1 2").is_err());
    assert!(Vector::<Num>::from_sterilize("VEC 1 abc").is_err());
    assert!(Matrix::<Num>::from_sterilize("MAT 2 2 1 2 3").is_err());
    assert!(Scalar::<Num>::from_sterilize("SCA abc").is_err());
}

#[test]
fn codec_tolerates_trailing_tokens() {
    let v = Vector::<Num>::from_sterilize("VEC 2 1 2 3 4 5").unwrap();
    assert_eq!(v, vec_of(&[1.0, 2.0]));
}

#[test]
fn variable_type_dispatch_table() {
    let s = VariableType::Scalar(Scalar::new(Num(6.0)));
    let t = VariableType::Scalar(Scalar::new(Num(3.0)));
    let v = VariableType::Vector(vec_of(&[1.0, 2.0]));
    assert_eq!(s.div(&t), Ok(VariableType::Scalar(Scalar::new(Num(2.0)))));
    assert_eq!(s.modulo(&t), Ok(VariableType::Scalar(Scalar::new(Num(0.0)))));
    assert_eq!(s.powf(&t), Ok(VariableType::Scalar(Scalar::new(Num(216.0)))));
    assert!(s.add(&v).is_err());
    assert!(v.div(&v).is_err());
    assert!(v.powf(&s).is_err());
    let none: VariableType<Num> = VariableType::Absent;
    assert!(none.add(&s).is_err());
    assert!(s.sub(&none).is_err());
    assert!(none.is_none());
    assert!(s.is_val());
}

#[test]
fn variable_storage_binds_and_drops() {
    let mut store: VarStorage<Num> = VarStorage::new();
    assert!(!store.variable_exists("x"));
    assert!(store.set_variable_value("x", VariableType::Scalar(Scalar::new(Num(2.0)))));
    assert!(store.variable_exists("x"));
    assert_eq!(
        store.get_variable_value("x"),
        Some(&VariableType::Scalar(Scalar::new(Num(2.0)))),
    );
    assert!(store.set_variable_value("x", VariableType::Scalar(Scalar::new(Num(9.0)))));
    assert_eq!(
        store.get_variable_value("x"),
        Some(&VariableType::Scalar(Scalar::new(Num(9.0)))),
    );
    assert!(store.reset_variable("x"));
    assert_eq!(store.get_variable_value("x"), Some(&VariableType::<Num>::Absent));
    assert!(store.pop_variable("x"));
    assert!(!store.variable_exists("x"));
    assert!(!store.pop_variable("x"));
    assert!(!store.set_variable_value("", VariableType::<Num>::Absent));
}

#[test]
fn pop_variable_removes_exactly_the_named_entry() {
    let mut store: VarStorage<Num> = VarStorage::new();
    store.set_variable_value("a", VariableType::Scalar(Scalar::new(Num(1.0))));
    store.set_variable_value("b", VariableType::Scalar(Scalar::new(Num(2.0))));
    store.set_variable_value("c", VariableType::Scalar(Scalar::new(Num(3.0))));
    assert!(store.pop_variable("b"));
    assert!(!store.variable_exists("b"));
    assert_eq!(
        store.get_variable_value("a"),
        Some(&VariableType::Scalar(Scalar::new(Num(1.0)))),
    );
    assert_eq!(
        store.get_variable_value("c"),
        Some(&VariableType::Scalar(Scalar::new(Num(3.0)))),
    );
}

#[test]
fn matrix_set_val_follows_the_new_rows() {
    let mut m = mat_of(&[&[1.0, 2.0], &[3.0, 4.0]]);
    let rows = vec![vec_of(&[5.0, 6.0, 7.0]), vec_of(&[8.0, 9.0, 10.0])];
    assert!(m.set_val(rows).is_ok());
    assert_eq!(entries(&m), vec![vec![5.0, 6.0, 7.0], vec![8.0, 9.0, 10.0]]);
    // mismatched row widths are refused and nothing changes
    let bad = vec![vec_of(&[1.0]), vec_of(&[1.0, 2.0])];
    assert!(m.set_val(bad).is_err());
    assert_eq!(entries(&m), vec![vec![5.0, 6.0, 7.0], vec![8.0, 9.0, 10.0]]);
    // empty data gives the error matrix
    assert!(m.set_val(Vec::new()).is_ok());
    assert_eq!(m.rows(), 0);
    assert_eq!(m.cols(), 0);
}

#[test]
fn variable_storage_ans_and_temporaries() {
    let mut store: VarStorage<Num> = VarStorage::new();
    assert_eq!(store.get_ans(), &VariableType::<Num>::Absent);
    assert!(store.set_ans(VariableType::Scalar(Scalar::new(Num(7.0)))));
    assert_eq!(store.get_ans(), &VariableType::Scalar(Scalar::new(Num(7.0))));
    // temporaries only update when they already exist
    assert!(!store.set_temporary_value("t", VariableType::Scalar(Scalar::new(Num(1.0)))));
    assert!(store.get_temporary_value("t").is_none());
    assert!(!store.drop_temporary("t"));
    // the persistence flag is plain state here
    assert!(store.is_saving_to_files());
    store.set_save_to_files(false);
    assert!(!store.is_saving_to_files());
}

#[test]
fn decimal_text_round_trip() {
    assert_eq!(fmt_usize(0), "0");
    assert_eq!(fmt_usize(407), "407");
    assert_eq!(parse_usize("407"), Some(407));
    assert_eq!(parse_usize(""), None);
    assert_eq!(parse_usize("4a"), None);
    assert_eq!(parse_usize(&fmt_usize(usize::MAX)), Some(usize::MAX));
}

#[test]
fn text_helpers_split_and_trim() {
    let pieces = split_spaces("VEC 2 1 2 ");
    assert_eq!(pieces, vec!["VEC", "2", "1", "2", ""]);
    assert_eq!(split_spaces(""), vec![""]);
    assert_eq!(trim_str("  ans \t"), "ans");
}
