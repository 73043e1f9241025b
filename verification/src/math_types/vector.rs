use vstd::prelude::*;
use crate::numeric::Numeric;
use crate::text::{decimal_digits, fmt_usize, has_tag3, parse_usize, split_sp, split_spaces, usize_of_text};

verus! {

/// An ordered run of elements with its declared dimension. The dimension
/// always equals the number of stored elements; dimension zero is the
/// distinguished error vector, an invalid value no operation computes with.
#[derive(Clone, Debug, PartialEq)]
pub struct Vector<N: Numeric> {
    val: Vec<N>,
    d: usize,
}

impl<N: Numeric> View for Vector<N> {
    type V = Seq<N>;

    closed spec fn view(&self) -> Seq<N> {
        self.val@
    }
}

impl<N: Numeric> Vector<N> {
    /// The declared dimension matches the stored elements.
    pub closed spec fn wf(&self) -> bool {
        self.val@.len() == self.d
    }

    /// A zero-filled vector of the given dimension.
    pub fn new(d: usize) -> (r: Self)
        ensures
            r.wf(),
            r@.len() == d,
    {
        let mut val: Vec<N> = Vec::new();
        let mut i: usize = 0;
        while i < d
            invariant
                0 <= i <= d,
                val@.len() == i,
            decreases d - i,
        {
            val.push(N::zero());
            i = i + 1;
        }
        Vector { val, d }
    }

    pub fn from_list(vals: Vec<N>) -> (r: Self)
        ensures
            r.wf(),
            r@ == vals@,
    {
        let d = vals.len();
        Vector { val: vals, d }
    }

    /// A vector of the given dimension with every component the given
    /// value; dimension zero gives the error vector.
    pub fn from_val(dim: usize, val: N) -> (r: Self)
        ensures
            r.wf(),
            r@.len() == dim,
            forall|i: int| 0 <= i < dim ==> r@[i] == val,
    {
        if dim == 0 {
            Self::error_vector()
        } else {
            let mut result: Vec<N> = Vec::new();
            let mut i: usize = 0;
            while i < dim
                invariant
                    0 <= i <= dim,
                    result@.len() == i,
                    forall|k: int| 0 <= k < i ==> result@[k] == val,
                decreases dim - i,
            {
                result.push(val);
                i = i + 1;
            }
            Vector { val: result, d: dim }
        }
    }

    /// A one-dimensional vector holding the given element.
    pub fn from_num(num: N) -> (r: Self)
        ensures
            r.wf(),
            r@ =~= seq![num],
    {
        let mut val: Vec<N> = Vec::new();
        val.push(num);
        Vector { val, d: 1 }
    }

    /// The distinguished invalid vector.
    pub fn error_vector() -> (r: Self)
        ensures
            r.wf(),
            r@.len() == 0,
    {
        Vector { val: Vec::new(), d: 0 }
    }

    pub fn zero_vector(dim: usize) -> (r: Self)
        ensures
            r.wf(),
            r@.len() == dim,
    {
        Self::from_val(dim, N::zero())
    }

    pub fn dim(&self) -> (n: usize)
        requires
            self.wf(),
        ensures
            n == self@.len(),
    {
        self.d
    }

    pub fn is_valid(&self) -> (b: bool)
        requires
            self.wf(),
        ensures
            b == (self@.len() != 0),
    {
        self.d != 0
    }

    pub fn get(&self, index: usize) -> (r: N)
        requires
            self.wf(),
            index < self@.len(),
        ensures
            r == self@[index as int],
    {
        self.val[index]
    }

    pub fn set(&mut self, index: usize, value: N)
        requires
            old(self).wf(),
            index < old(self)@.len(),
        ensures
            final(self).wf(),
            final(self)@ == old(self)@.update(index as int, value),
    {
        self.val[index] = value;
    }

    pub fn get_val(&self) -> (r: &Vec<N>)
        ensures
            r@ == self@,
    {
        &self.val
    }

    /// Equality of the stored elements, as the element type defines it;
    /// stops at the first difference.
    pub fn val_eq(&self, other: &Self) -> (b: bool)
        requires
            self.wf(),
            other.wf(),
        ensures
            b ==> self@.len() == other@.len(),
    {
        if self.val.len() != other.val.len() {
            return false;
        }
        let mut i: usize = 0;
        while i < self.val.len()
            invariant
                self.wf(),
                other.wf(),
                self@.len() == other@.len(),
                0 <= i <= self@.len(),
            decreases self@.len() - i,
        {
            if !self.val[i].eq_num(&other.val[i]) {
                return false;
            }
            i = i + 1;
        }
        true
    }

    /// Conforms new element data to the vector's own dimension: shorter
    /// data is padded with the zero element, longer data is cut. The
    /// dimension never changes.
    pub fn set_val(&mut self, new_data: Vec<N>) -> (r: Result<(), String>)
        requires
            old(self).wf(),
        ensures
            r is Ok,
            final(self).wf(),
            final(self)@.len() == old(self)@.len(),
            forall|i: int|
                0 <= i < old(self)@.len() && i < new_data@.len() ==> final(self)@[i]
                    == new_data@[i],
    {
        let d = self.d;
        let mut proper_data = new_data;
        if proper_data.len() < d {
            let ghost kept = proper_data@;
            let mut i: usize = proper_data.len();
            while i < d
                invariant
                    0 <= i <= d,
                    proper_data@.len() == i,
                    kept.len() <= i,
                    forall|k: int| 0 <= k < kept.len() ==> proper_data@[k] == kept[k],
                decreases d - i,
            {
                proper_data.push(N::zero());
                i = i + 1;
            }
        } else if proper_data.len() > d {
            proper_data.truncate(d);
        }
        self.val = proper_data;
        Ok(())
    }

    /// The Euclidean norm for dimension above one; for dimension one, the
    /// raw component itself, sign kept; refused for the error vector.
    pub fn magnitude(&self) -> (r: Result<N, String>)
        requires
            self.wf(),
        ensures
            self@.len() == 0 ==> r is Err,
            self@.len() == 1 ==> r == Ok::<N, String>(self@[0]),
            self@.len() > 1 ==> r is Ok,
    {
        if self.d == 0 {
            Err("Cannot get magnitude from an error vector.".to_string())
        } else if self.d == 1 {
            Ok(self.val[0])
        } else {
            let two = N::one().add(&N::one());
            let mut sum = N::zero();
            let mut i: usize = 0;
            while i < self.val.len()
                invariant
                    self.wf(),
                    0 <= i <= self@.len(),
                decreases self@.len() - i,
            {
                sum = sum.add(&self.val[i].pow(&two));
                i = i + 1;
            }
            Ok(sum.sqrt())
        }
    }

    /// The arc tangent of the magnitude; refused for the error vector and
    /// for dimension one.
    pub fn angle(&self) -> (r: Result<N, String>)
        requires
            self.wf(),
        ensures
            self@.len() == 0 ==> r is Err,
            self@.len() == 1 ==> r is Err,
            self@.len() > 1 ==> r is Ok,
    {
        if self.d == 0 {
            Err("Cannot get angle from an error vector.".to_string())
        } else if self.d == 1 {
            Err("Cannot evaluate the angle of a scalar.".to_string())
        } else {
            match self.magnitude() {
                Ok(m) => Ok(m.atan()),
                Err(e) => Err(e),
            }
        }
    }

    /// The cross product, defined for equal dimensions one, two and three:
    /// one-dimensional inputs give the one-dimensional product, plane
    /// vectors are read as space vectors with a zero third component, and
    /// space vectors follow the standard formula.
    pub fn cross_product(&self, obj: &Self) -> (r: Result<Self, String>)
        requires
            self.wf(),
            obj.wf(),
        ensures
            self@.len() != obj@.len() ==> r is Err,
            self@.len() == obj@.len() ==> match r {
                Ok(v) => v.wf() && (self@.len() == 1 ==> v@.len() == 1) && (self@.len() == 2
                    ==> v@.len() == 3) && (self@.len() == 3 ==> v@.len() == 3),
                Err(_) => self@.len() == 0 || self@.len() > 3,
            },
            r is Ok ==> self@.len() == obj@.len() && 1 <= self@.len() <= 3,
    {
        if self.d != obj.d {
            return Err("Dimension mismatch.".to_string());
        }
        if self.d == 1 {
            Ok(Vector::from_num(self.val[0].mul(&obj.val[0])))
        } else if self.d == 2 {
            let z = (self.val[0].mul(&obj.val[1])).sub(&self.val[1].mul(&obj.val[0]));
            Ok(Self::from_list(vec![N::zero(), N::zero(), z]))
        } else if self.d == 3 {
            let x = (self.val[1].mul(&obj.val[2])).sub(&self.val[2].mul(&obj.val[1]));
            let y = (self.val[2].mul(&obj.val[0])).sub(&self.val[0].mul(&obj.val[2]));
            let z = (self.val[0].mul(&obj.val[1])).sub(&self.val[1].mul(&obj.val[0]));
            Ok(Self::from_list(vec![x, y, z]))
        } else {
            Err("Cannot cross vectors of these dimensions.".to_string())
        }
    }

    /// The sum of componentwise products; refused for error vectors and
    /// mismatched dimensions.
    pub fn dot_product(&self, obj: &Self) -> (r: Result<N, String>)
        requires
            self.wf(),
            obj.wf(),
        ensures
            (self@.len() == 0 || obj@.len() == 0) ==> r is Err,
            self@.len() != obj@.len() && self@.len() != 0 && obj@.len() != 0 ==> r is Err,
            self@.len() == obj@.len() && self@.len() != 0 ==> r is Ok,
    {
        if !self.is_valid() || !obj.is_valid() {
            Err("Empty vectors.".to_string())
        } else if self.d != obj.d {
            Err("Dimension mismatch.".to_string())
        } else {
            let mut result = N::zero();
            let mut i: usize = 0;
            while i < self.d
                invariant
                    self.wf(),
                    obj.wf(),
                    self@.len() == obj@.len(),
                    0 <= i <= self@.len(),
                decreases self@.len() - i,
            {
                result = result.add(&self.val[i].mul(&obj.val[i]));
                i = i + 1;
            }
            Ok(result)
        }
    }

    /// Componentwise sum; the dimensions must agree.
    pub fn add(&self, rhs: &Self) -> (r: Result<Self, String>)
        requires
            self.wf(),
            rhs.wf(),
        ensures
            self@.len() != rhs@.len() ==> r is Err,
            self@.len() == rhs@.len() ==> (r matches Ok(v) && v.wf() && v@.len() == self@.len()),
    {
        if self.d != rhs.d {
            Err("Dimension mismatch.".to_string())
        } else {
            let mut vals: Vec<N> = Vec::new();
            let mut i: usize = 0;
            while i < self.d
                invariant
                    self.wf(),
                    rhs.wf(),
                    self@.len() == rhs@.len(),
                    0 <= i <= self@.len(),
                    vals@.len() == i,
                decreases self@.len() - i,
            {
                vals.push(self.val[i].add(&rhs.val[i]));
                i = i + 1;
            }
            Ok(Vector::from_list(vals))
        }
    }

    /// Componentwise difference; the dimensions must agree.
    pub fn sub(&self, rhs: &Self) -> (r: Result<Self, String>)
        requires
            self.wf(),
            rhs.wf(),
        ensures
            self@.len() != rhs@.len() ==> r is Err,
            self@.len() == rhs@.len() ==> (r matches Ok(v) && v.wf() && v@.len() == self@.len()),
    {
        if self.d != rhs.d {
            Err("Dimension mismatch.".to_string())
        } else {
            let mut vals: Vec<N> = Vec::new();
            let mut i: usize = 0;
            while i < self.d
                invariant
                    self.wf(),
                    rhs.wf(),
                    self@.len() == rhs@.len(),
                    0 <= i <= self@.len(),
                    vals@.len() == i,
                decreases self@.len() - i,
            {
                vals.push(self.val[i].sub(&rhs.val[i]));
                i = i + 1;
            }
            Ok(Vector::from_list(vals))
        }
    }

    /// Writes the value in the storage encoding: the type tag, the
    /// dimension, then each element's text, all space-separated with one
    /// trailing space.
    pub fn sterilize(&self) -> (r: String)
        requires
            self.wf(),
        ensures
            r@.len() >= 4,
            r@.subrange(0, 4) == "VEC "@,
            ({
                let p = "VEC "@ + decimal_digits(self@.len() as nat) + seq![' '];
                r@.len() >= p.len() && r@.subrange(0, p.len() as int) == p
            }),
    {
        let ghost p = "VEC "@ + decimal_digits(self@.len() as nat) + seq![' '];
        let mut out = String::from_str("VEC ");
        let dim_text = fmt_usize(self.d);
        out.append(dim_text.as_str());
        out.append(" ");
        proof {
            reveal_strlit("VEC ");
            reveal_strlit(" ");
            assert(out@ =~= p);
        }
        let mut i: usize = 0;
        while i < self.val.len()
            invariant
                self.wf(),
                0 <= i <= self@.len(),
                p == "VEC "@ + decimal_digits(self@.len() as nat) + seq![' '],
                out@.len() >= p.len(),
                out@.subrange(0, p.len() as int) == p,
            decreases self@.len() - i,
        {
            let ghost before = out@;
            let text = self.val[i].to_text();
            out.append(text.as_str());
            out.append(" ");
            proof {
                assert(out@.subrange(0, p.len() as int) =~= before.subrange(0, p.len() as int));
            }
            i = i + 1;
        }
        proof {
            reveal_strlit("VEC ");
            assert(p.len() >= 4);
            assert(out@.subrange(0, 4) =~= p.subrange(0, 4));
            assert(p.subrange(0, 4) =~= "VEC "@);
        }
        out
    }

    /// Reads a value back from the storage encoding. The text is split on
    /// spaces; the tag must be the vector one, the second token names the
    /// dimension, and that many element texts must follow, each accepted by
    /// the element type. A read value always carries as many elements as
    /// its declared dimension.
    pub fn from_sterilize(input_string: &str) -> (r: Result<Self, String>)
        ensures
            input_string@.len() < 3 ==> r is Err,
            input_string@.len() >= 3 && input_string@.subrange(0, 3) != "VEC"@ ==> r is Err,
            r matches Ok(v) ==> {
                &&& input_string@.len() >= 3
                &&& input_string@.subrange(0, 3) == "VEC"@
                &&& split_sp(input_string@).len() >= 3
                &&& usize_of_text(split_sp(input_string@)[1]) == Some(v@.len() as usize)
                &&& split_sp(input_string@).len() >= v@.len() + 2
                &&& v.wf()
            },
            input_string@.len() >= 3 && input_string@.subrange(0, 3) == "VEC"@ && split_sp(
                input_string@,
            ).len() < 3 ==> r is Err,
            input_string@.len() >= 3 && input_string@.subrange(0, 3) == "VEC"@ && split_sp(
                input_string@,
            ).len() >= 3 && usize_of_text(split_sp(input_string@)[1]) is None ==> r is Err,
            input_string@.len() >= 3 && input_string@.subrange(0, 3) == "VEC"@ && split_sp(
                input_string@,
            ).len() >= 3 && usize_of_text(split_sp(input_string@)[1]) == Some(0usize) ==> (
            r matches Ok(v) && v@.len() == 0),
    {
        let n = input_string.unicode_len();
        if n < 3 {
            return Err("Input string not long enough.".to_string());
        }
        proof {
            reveal_strlit("VEC");
            assert("VEC"@ =~= seq!['V', 'E', 'C']);
        }
        if !has_tag3(input_string, 'V', 'E', 'C') {
            return Err("Input string not long enough.".to_string());
        }
        let splits = split_spaces(input_string);
        if splits.len() < 3 {
            return Err(
                "the input string does not contain enough information to extract".to_string(),
            );
        }
        let d: usize = match parse_usize(splits[1]) {
            Some(new_d) => new_d,
            None => {
                return Err("The dimensions could not be resolved.".to_string());
            },
        };
        let mut val: Vec<N> = Vec::new();
        let mut i: usize = 0;
        while i < d
            invariant
                0 <= i <= d,
                val@.len() == i,
                input_string@.len() >= 3,
                input_string@.subrange(0, 3) == "VEC"@,
                splits@.len() == split_sp(input_string@).len(),
                splits@.len() >= 3,
                i + 2 <= splits@.len(),
                usize_of_text(split_sp(input_string@)[1]) == Some(d),
            decreases d - i,
        {
            if i >= splits.len() - 2 {
                return Err("There are more numbers expected, but not enough given.".to_string());
            }
            let target = splits[i + 2];
            match N::from_text(target) {
                Some(t) => val.push(t),
                None => {
                    return Err("A value is not of proper format and could not be converted.".to_string());
                },
            }
            i = i + 1;
        }
        Ok(Vector { val, d })
    }
}

} // verus!
