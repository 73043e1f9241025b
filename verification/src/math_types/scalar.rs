use vstd::prelude::*;
use crate::numeric::Numeric;
use crate::text::trim_str;

verus! {

/// One element wrapped as a calculator value. The element arithmetic is
/// whatever the element type computes; every structural promise (what is
/// stored, when the codec succeeds) is stated here.
#[derive(Clone, Copy, Debug, PartialEq)]
pub struct Scalar<N: Numeric> {
    val: N,
}

impl<N: Numeric> View for Scalar<N> {
    type V = N;

    closed spec fn view(&self) -> N {
        self.val
    }
}

impl<N: Numeric> Scalar<N> {
    pub fn new(val: N) -> (r: Self)
        ensures
            r@ == val,
    {
        Scalar { val }
    }

    pub fn get_val(&self) -> (r: &N)
        ensures
            *r == self@,
    {
        &self.val
    }

    pub fn set_val(&mut self, new_data: N) -> (r: Result<(), String>)
        ensures
            r is Ok,
            final(self)@ == new_data,
    {
        self.val = new_data;
        Ok(())
    }

    /// Equality as the element type defines it.
    pub fn val_eq(&self, other: &Self) -> bool {
        self.val.eq_num(&other.val)
    }

    pub fn add(&self, obj: &Self) -> Self {
        Scalar { val: self.val.add(&obj.val) }
    }

    pub fn sub(&self, obj: &Self) -> Self {
        Scalar { val: self.val.sub(&obj.val) }
    }

    pub fn mul(&self, obj: &Self) -> Self {
        Scalar { val: self.val.mul(&obj.val) }
    }

    pub fn div(&self, obj: &Self) -> Self {
        Scalar { val: self.val.div(&obj.val) }
    }

    pub fn modulo(&self, obj: &Self) -> Self {
        Scalar { val: self.val.modulo(&obj.val) }
    }

    pub fn pow(&self, obj: &Self) -> Self {
        Scalar { val: self.val.pow(&obj.val) }
    }

    /// Writes the value in the storage encoding: the type tag, a space, the
    /// element text.
    pub fn sterilize(&self) -> (r: String)
        ensures
            r@.len() >= 4,
            r@.subrange(0, 4) == "SCA "@,
    {
        let mut out = String::from_str("SCA ");
        let text = self.val.to_text();
        out.append(text.as_str());
        proof {
            reveal_strlit("SCA ");
            assert(out@.subrange(0, 4) =~= "SCA "@);
        }
        out
    }

    /// Reads a value back from the storage encoding: the tag must be the
    /// scalar one; text after the tag and its separator is trimmed and
    /// handed to the element type, whose reading decides between the value
    /// and the format refusal. Tag-only text gives the zero element.
    pub fn from_sterilize(input_string: &str) -> (r: Result<Self, String>)
        ensures
            input_string@.len() < 3 ==> r is Err,
            input_string@.len() >= 3 && input_string@.subrange(0, 3) != "SCA"@ ==> r is Err,
            input_string@.len() == 3 && input_string@.subrange(0, 3) == "SCA"@ ==> r is Ok,
            r is Ok ==> input_string@.len() >= 3 && input_string@.subrange(0, 3) == "SCA"@,
    {
        let n = input_string.unicode_len();
        if n < 3 {
            return Err(
                "Cannot resolve input string as the type specifier was not found.".to_string(),
            );
        }
        let tag_ok = input_string.get_char(0) == 'S' && input_string.get_char(1) == 'C'
            && input_string.get_char(2) == 'A';
        proof {
            reveal_strlit("SCA");
            assert(tag_ok ==> input_string@.subrange(0, 3) =~= "SCA"@);
            if input_string@.subrange(0, 3) == "SCA"@ {
                assert(input_string@[0] == input_string@.subrange(0, 3)[0]);
                assert(input_string@[1] == input_string@.subrange(0, 3)[1]);
                assert(input_string@[2] == input_string@.subrange(0, 3)[2]);
                assert(tag_ok);
            }
        }
        if !tag_ok {
            return Err("Cannot resolve input string as the type is not a scalar.".to_string());
        }
        if n < 4 {
            return Ok(Scalar::new(N::zero()));
        }
        let nums = input_string.substring_char(4, n);
        let trimmed = trim_str(nums);
        match N::from_text(trimmed) {
            Some(a) => Ok(Scalar::new(a)),
            None => Err("Value is not of proper numeric format.".to_string()),
        }
    }
}

} // verus!
