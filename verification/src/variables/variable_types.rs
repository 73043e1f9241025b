use vstd::prelude::*;
use crate::math_types::matrix::Matrix;
use crate::math_types::scalar::Scalar;
use crate::math_types::vector::Vector;
use crate::numeric::Numeric;
use crate::text::{decimal_digits, fmt_usize};

verus! {

/// The value a calculation produces or a variable stores: one scalar, one
/// vector, one matrix, or nothing at all.
#[derive(Clone, Debug, PartialEq)]
pub enum VariableType<N: Numeric> {
    Scalar(Scalar<N>),
    Vector(Vector<N>),
    Matrix(Matrix<N>),
    Absent,
}

/// The shape of a value: the only part of it the dispatch rules read.
pub ghost enum ValShape {
    ScalarS,
    VectorS { d: nat },
    MatrixS { m: nat, n: nat },
    NoneS,
}

pub open spec fn shape_of<N: Numeric>(v: VariableType<N>) -> ValShape {
    match v {
        VariableType::Scalar(_) => ValShape::ScalarS,
        VariableType::Vector(x) => ValShape::VectorS { d: x@.len() },
        VariableType::Matrix(x) => ValShape::MatrixS { m: x@.len(), n: x.scols() },
        VariableType::Absent => ValShape::NoneS,
    }
}

/// The stored vectors and matrices are internally consistent.
pub open spec fn vt_wf<N: Numeric>(v: VariableType<N>) -> bool {
    match v {
        VariableType::Scalar(_) => true,
        VariableType::Vector(x) => x.wf(),
        VariableType::Matrix(x) => x.wf(),
        VariableType::Absent => true,
    }
}

/// Equality of the stored content at the view level: same kind, same
/// elements, same declared shape.
pub open spec fn vt_sim<N: Numeric>(a: VariableType<N>, b: VariableType<N>) -> bool {
    match (a, b) {
        (VariableType::Scalar(x), VariableType::Scalar(y)) => x@ == y@,
        (VariableType::Vector(x), VariableType::Vector(y)) => x@ == y@,
        (VariableType::Matrix(x), VariableType::Matrix(y)) => x@ == y@ && x.scols() == y.scols(),
        (VariableType::Absent, VariableType::Absent) => true,
        _ => false,
    }
}

/// What adding or subtracting two values gives, by shape alone: scalars
/// combine, vectors of one dimension combine, matrices of one shape
/// combine; everything else, absence included, is refused.
pub open spec fn add_shape(a: ValShape, b: ValShape) -> Option<ValShape> {
    match (a, b) {
        (ValShape::ScalarS, ValShape::ScalarS) => Some(ValShape::ScalarS),
        (ValShape::VectorS { d: d1 }, ValShape::VectorS { d: d2 }) => if d1 == d2 {
            Some(ValShape::VectorS { d: d1 })
        } else {
            None
        },
        (ValShape::MatrixS { m: m1, n: n1 }, ValShape::MatrixS { m: m2, n: n2 }) => if m1 == m2
            && n1 == n2 {
            Some(
                ValShape::MatrixS {
                    m: if m1 > 0 && n1 > 0 {
                        m1
                    } else {
                        0
                    },
                    n: n1,
                },
            )
        } else {
            None
        },
        _ => None,
    }
}

/// What multiplying two values gives, by shape alone: scalars multiply,
/// and matrices whose inner counts agree and that are not error matrices
/// give the product shape.
pub open spec fn mul_shape(a: ValShape, b: ValShape) -> Option<ValShape> {
    match (a, b) {
        (ValShape::ScalarS, ValShape::ScalarS) => Some(ValShape::ScalarS),
        (ValShape::MatrixS { m: m1, n: n1 }, ValShape::MatrixS { m: m2, n: n2 }) => if n1 == m2
            && m1 > 0 && n1 > 0 && m2 > 0 && n2 > 0 {
            Some(ValShape::MatrixS { m: m1, n: n2 })
        } else {
            None
        },
        _ => None,
    }
}

/// Division, remainder and raising to a power work on scalars alone.
pub open spec fn scalar_only_shape(a: ValShape, b: ValShape) -> Option<ValShape> {
    match (a, b) {
        (ValShape::ScalarS, ValShape::ScalarS) => Some(ValShape::ScalarS),
        _ => None,
    }
}

pub open spec fn display_type_text(s: ValShape) -> Seq<char> {
    match s {
        ValShape::ScalarS => "(Scalar)"@,
        ValShape::VectorS { d } => "(Vector: "@ + decimal_digits(d) + ")"@,
        ValShape::MatrixS { m, n } => "(Matrix: "@ + decimal_digits(m) + "x"@ + decimal_digits(n)
            + ")"@,
        ValShape::NoneS => "(None)"@,
    }
}

impl<N: Numeric> VariableType<N> {
    /// A short description of the value's kind and shape.
    pub fn display_type(&self) -> (r: String)
        requires
            vt_wf(*self),
        ensures
            r@ == display_type_text(shape_of(*self)),
    {
        proof {
            reveal_strlit("(Scalar)");
            reveal_strlit("(Vector: ");
            reveal_strlit("(Matrix: ");
            reveal_strlit("(None)");
            reveal_strlit("x");
            reveal_strlit(")");
        }
        match self {
            VariableType::Scalar(_) => String::from_str("(Scalar)"),
            VariableType::Vector(v) => {
                let mut out = String::from_str("(Vector: ");
                let d_text = fmt_usize(v.dim());
                out.append(d_text.as_str());
                out.append(")");
                out
            },
            VariableType::Matrix(m) => {
                let mut out = String::from_str("(Matrix: ");
                let m_text = fmt_usize(m.rows());
                out.append(m_text.as_str());
                out.append("x");
                let n_text = fmt_usize(m.cols());
                out.append(n_text.as_str());
                out.append(")");
                out
            },
            VariableType::Absent => String::from_str("(None)"),
        }
    }

    pub fn is_none(&self) -> (b: bool)
        ensures
            b == (shape_of(*self) == ValShape::NoneS),
    {
        match self {
            VariableType::Absent => true,
            _ => false,
        }
    }

    pub fn is_val(&self) -> (b: bool)
        ensures
            b == (shape_of(*self) != ValShape::NoneS),
    {
        match self {
            VariableType::Absent => false,
            _ => true,
        }
    }

    /// Structural equality with element equality as the element type
    /// defines it.
    pub fn val_eq(&self, other: &Self) -> (b: bool)
        requires
            vt_wf(*self),
            vt_wf(*other),
    {
        match (self, other) {
            (VariableType::Scalar(a), VariableType::Scalar(b)) => a.val_eq(b),
            (VariableType::Vector(a), VariableType::Vector(b)) => a.val_eq(b),
            (VariableType::Matrix(a), VariableType::Matrix(b)) => a.val_eq(b),
            (VariableType::Absent, VariableType::Absent) => true,
            _ => false,
        }
    }

    /// An exact copy: the same kind, elements and declared shape.
    pub fn duplicate(&self) -> (r: Self)
        requires
            vt_wf(*self),
        ensures
            vt_wf(r),
            shape_of(r) == shape_of(*self),
            vt_sim(r, *self),
    {
        match self {
            VariableType::Scalar(a) => VariableType::Scalar(*a),
            VariableType::Vector(a) => {
                let mut vals: Vec<N> = Vec::new();
                let n = a.dim();
                let mut i: usize = 0;
                while i < n
                    invariant
                        a.wf(),
                        n == a@.len(),
                        0 <= i <= n,
                        vals@.len() == i,
                        forall|k: int| 0 <= k < i ==> vals@[k] == a@[k],
                    decreases n - i,
                {
                    vals.push(a.get(i));
                    i = i + 1;
                }
                proof {
                    assert(vals@ =~= a@);
                }
                VariableType::Vector(Vector::from_list(vals))
            },
            VariableType::Matrix(a) => VariableType::Matrix(a.duplicate()),
            VariableType::Absent => VariableType::Absent,
        }
    }

    pub fn add(&self, rhs: &Self) -> (r: Result<Self, String>)
        requires
            vt_wf(*self),
            vt_wf(*rhs),
        ensures
            match add_shape(shape_of(*self), shape_of(*rhs)) {
                Some(s) => (r matches Ok(v) && vt_wf(v) && shape_of(v) == s),
                None => r is Err,
            },
    {
        match (self, rhs) {
            (VariableType::Scalar(x), VariableType::Scalar(y)) => Ok(
                VariableType::Scalar(x.add(y)),
            ),
            (VariableType::Vector(x), VariableType::Vector(y)) => match x.add(y) {
                Ok(v) => Ok(VariableType::Vector(v)),
                Err(e) => Err(e),
            },
            (VariableType::Matrix(x), VariableType::Matrix(y)) => match x.add(y) {
                Ok(v) => Ok(VariableType::Matrix(v)),
                Err(e) => Err(e),
            },
            (VariableType::Absent, _) | (_, VariableType::Absent) => Err(
                "Cannot add None".to_string(),
            ),
            _ => Err("Mismatched types.".to_string()),
        }
    }

    pub fn sub(&self, rhs: &Self) -> (r: Result<Self, String>)
        requires
            vt_wf(*self),
            vt_wf(*rhs),
        ensures
            match add_shape(shape_of(*self), shape_of(*rhs)) {
                Some(s) => (r matches Ok(v) && vt_wf(v) && shape_of(v) == s),
                None => r is Err,
            },
    {
        match (self, rhs) {
            (VariableType::Scalar(x), VariableType::Scalar(y)) => Ok(
                VariableType::Scalar(x.sub(y)),
            ),
            (VariableType::Vector(x), VariableType::Vector(y)) => match x.sub(y) {
                Ok(v) => Ok(VariableType::Vector(v)),
                Err(e) => Err(e),
            },
            (VariableType::Matrix(x), VariableType::Matrix(y)) => match x.sub(y) {
                Ok(v) => Ok(VariableType::Matrix(v)),
                Err(e) => Err(e),
            },
            (VariableType::Absent, _) | (_, VariableType::Absent) => Err(
                "Cannot subtract None".to_string(),
            ),
            _ => Err("Mismatched types.".to_string()),
        }
    }

    pub fn mul(&self, rhs: &Self) -> (r: Result<Self, String>)
        requires
            vt_wf(*self),
            vt_wf(*rhs),
        ensures
            match mul_shape(shape_of(*self), shape_of(*rhs)) {
                Some(s) => (r matches Ok(v) && vt_wf(v) && shape_of(v) == s),
                None => r is Err,
            },
    {
        match (self, rhs) {
            (VariableType::Scalar(x), VariableType::Scalar(y)) => Ok(
                VariableType::Scalar(x.mul(y)),
            ),
            (VariableType::Matrix(x), VariableType::Matrix(y)) => match x.mul(y) {
                Ok(v) => Ok(VariableType::Matrix(v)),
                Err(e) => Err(e),
            },
            (VariableType::Absent, _) | (_, VariableType::Absent) => Err(
                "Cannot multiply None".to_string(),
            ),
            _ => Err("Type does not support multiplication, or mismatched types.".to_string()),
        }
    }

    pub fn div(&self, rhs: &Self) -> (r: Result<Self, String>)
        requires
            vt_wf(*self),
            vt_wf(*rhs),
        ensures
            match scalar_only_shape(shape_of(*self), shape_of(*rhs)) {
                Some(s) => (r matches Ok(v) && vt_wf(v) && shape_of(v) == s),
                None => r is Err,
            },
    {
        match (self, rhs) {
            (VariableType::Scalar(x), VariableType::Scalar(y)) => Ok(
                VariableType::Scalar(x.div(y)),
            ),
            (VariableType::Absent, _) | (_, VariableType::Absent) => Err(
                "Cannot divide None".to_string(),
            ),
            _ => Err("Type does not support division.".to_string()),
        }
    }

    pub fn modulo(&self, rhs: &Self) -> (r: Result<Self, String>)
        requires
            vt_wf(*self),
            vt_wf(*rhs),
        ensures
            match scalar_only_shape(shape_of(*self), shape_of(*rhs)) {
                Some(s) => (r matches Ok(v) && vt_wf(v) && shape_of(v) == s),
                None => r is Err,
            },
    {
        match (self, rhs) {
            (VariableType::Scalar(x), VariableType::Scalar(y)) => Ok(
                VariableType::Scalar(x.modulo(y)),
            ),
            (VariableType::Absent, _) | (_, VariableType::Absent) => Err(
                "Cannot modulo None".to_string(),
            ),
            _ => Err("Type does not support modulo.".to_string()),
        }
    }

    /// Raising to a power: scalars only. Raising a matrix is not
    /// supported, with a message that tells a non-scalar exponent apart.
    pub fn powf(&self, rhs: &Self) -> (r: Result<Self, String>)
        requires
            vt_wf(*self),
            vt_wf(*rhs),
        ensures
            match scalar_only_shape(shape_of(*self), shape_of(*rhs)) {
                Some(s) => (r matches Ok(v) && vt_wf(v) && shape_of(v) == s),
                None => r is Err,
            },
    {
        match (self, rhs) {
            (VariableType::Scalar(x), VariableType::Scalar(y)) => Ok(
                VariableType::Scalar(x.pow(y)),
            ),
            (VariableType::Vector(_), _) | (_, VariableType::Vector(_)) => Err(
                "Vectors do not support power raising.".to_string(),
            ),
            (VariableType::Matrix(_), VariableType::Scalar(_)) => Err(
                "Raising a matrix to a power is not supported.".to_string(),
            ),
            (VariableType::Matrix(_), _) => Err(
                "Cannot raise a matrix to any object that is not a scalar.".to_string(),
            ),
            (VariableType::Absent, _) | (_, VariableType::Absent) => Err(
                "Cannot raise None to a power".to_string(),
            ),
            _ => Err("Type does not support pow.".to_string()),
        }
    }

    /// Writes the value in the storage encoding; absence is the bare
    /// absence tag.
    pub fn sterilize(&self) -> (r: String)
        requires
            vt_wf(*self),
        ensures
            shape_of(*self) is ScalarS ==> r@.len() >= 4 && r@.subrange(0, 4) == "SCA "@,
            shape_of(*self) is VectorS ==> r@.len() >= 4 && r@.subrange(0, 4) == "VEC "@,
            shape_of(*self) is MatrixS ==> r@.len() >= 4 && r@.subrange(0, 4) == "MAT "@,
            shape_of(*self) is NoneS ==> r@ == "NAN"@,
    {
        match self {
            VariableType::Scalar(s) => s.sterilize(),
            VariableType::Vector(v) => v.sterilize(),
            VariableType::Matrix(m) => m.sterilize(),
            VariableType::Absent => String::from_str("NAN"),
        }
    }

    /// Reads a value back from the storage encoding, dispatching on the
    /// three-character type tag; an unknown tag is refused.
    pub fn from_sterilize(input: &str) -> (r: Result<Self, String>)
        ensures
            input@.len() < 3 ==> r is Err,
            r matches Ok(v) ==> input@.len() >= 3 && vt_wf(v) && {
                ||| (input@.subrange(0, 3) == "SCA"@ && shape_of(v) is ScalarS)
                ||| (input@.subrange(0, 3) == "VEC"@ && shape_of(v) is VectorS)
                ||| (input@.subrange(0, 3) == "MAT"@ && shape_of(v) is MatrixS)
                ||| (input@.subrange(0, 3) == "NAN"@ && shape_of(v) is NoneS)
            },
            input@.len() >= 3 && input@.subrange(0, 3) != "SCA"@ && input@.subrange(0, 3) != "VEC"@
                && input@.subrange(0, 3) != "MAT"@ && input@.subrange(0, 3) != "NAN"@ ==> r is Err,
            input@.len() >= 3 && input@.subrange(0, 3) == "NAN"@ ==> r == Ok::<Self, String>(
                VariableType::Absent,
            ),
    {
        let n = input.unicode_len();
        if n < 3 {
            return Err("Not enough characters.".to_string());
        }
        proof {
            reveal_strlit("SCA");
            reveal_strlit("VEC");
            reveal_strlit("MAT");
            reveal_strlit("NAN");
            assert("SCA"@ != "NAN"@) by {
                assert("SCA"@[0] == 'S' && "NAN"@[0] == 'N');
            }
            assert("VEC"@ != "NAN"@) by {
                assert("VEC"@[0] == 'V' && "NAN"@[0] == 'N');
            }
            assert("MAT"@ != "NAN"@) by {
                assert("MAT"@[0] == 'M' && "NAN"@[0] == 'N');
            }
        }
        if has_tag_sca(input) {
            match Scalar::from_sterilize(input) {
                Ok(s) => Ok(VariableType::Scalar(s)),
                Err(e) => Err(e),
            }
        } else if has_tag_vec(input) {
            match Vector::from_sterilize(input) {
                Ok(v) => Ok(VariableType::Vector(v)),
                Err(e) => Err(e),
            }
        } else if has_tag_mat(input) {
            match Matrix::from_sterilize(input) {
                Ok(m) => Ok(VariableType::Matrix(m)),
                Err(e) => Err(e),
            }
        } else if has_tag_nan(input) {
            Ok(VariableType::Absent)
        } else {
            Err("Cannot deduce the type name.".to_string())
        }
    }
}

fn has_tag_sca(s: &str) -> (b: bool)
    requires
        s@.len() >= 3,
    ensures
        b == (s@.subrange(0, 3) == "SCA"@),
{
    proof {
        reveal_strlit("SCA");
        assert("SCA"@ =~= seq!['S', 'C', 'A']);
    }
    crate::text::has_tag3(s, 'S', 'C', 'A')
}

fn has_tag_vec(s: &str) -> (b: bool)
    requires
        s@.len() >= 3,
    ensures
        b == (s@.subrange(0, 3) == "VEC"@),
{
    proof {
        reveal_strlit("VEC");
        assert("VEC"@ =~= seq!['V', 'E', 'C']);
    }
    crate::text::has_tag3(s, 'V', 'E', 'C')
}

fn has_tag_mat(s: &str) -> (b: bool)
    requires
        s@.len() >= 3,
    ensures
        b == (s@.subrange(0, 3) == "MAT"@),
{
    proof {
        reveal_strlit("MAT");
        assert("MAT"@ =~= seq!['M', 'A', 'T']);
    }
    crate::text::has_tag3(s, 'M', 'A', 'T')
}

fn has_tag_nan(s: &str) -> (b: bool)
    requires
        s@.len() >= 3,
    ensures
        b == (s@.subrange(0, 3) == "NAN"@),
{
    proof {
        reveal_strlit("NAN");
        assert("NAN"@ =~= seq!['N', 'A', 'N']);
    }
    crate::text::has_tag3(s, 'N', 'A', 'N')
}

} // verus!
