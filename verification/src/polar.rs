use vstd::prelude::*;

verus! {

/// Why a tabulated polar is refused.
pub enum PolarTableError {
    /// The angle, lift and drag columns differ in length.
    LengthMismatch,
    /// The table has no rows.
    Empty,
}

impl PolarTableError {
    /// The refusal as text.
    pub fn message(&self) -> (r: &'static str)
        ensures
            self is LengthMismatch ==> r@ == "alpha, cl, cd must have the same length"@,
            self is Empty ==> r@ == "polar table is empty"@,
    {
        match self {
            PolarTableError::LengthMismatch => "alpha, cl, cd must have the same length",
            PolarTableError::Empty => "polar table is empty",
        }
    }
}

/// Checks the column lengths of a tabulated polar: all three equal, then
/// at least one row.
pub fn check_polar_table(alpha_len: usize, cl_len: usize, cd_len: usize) -> (r: Result<
    (),
    PolarTableError,
>)
    ensures
        (alpha_len != cl_len || alpha_len != cd_len) ==> r matches Err(PolarTableError::LengthMismatch),
        (alpha_len == cl_len && alpha_len == cd_len && alpha_len == 0) ==> r matches Err(PolarTableError::Empty),
        r is Ok <==> (alpha_len == cl_len && alpha_len == cd_len && alpha_len > 0),
{
    if alpha_len != cl_len || alpha_len != cd_len {
        return Err(PolarTableError::LengthMismatch);
    }
    if alpha_len == 0 {
        return Err(PolarTableError::Empty);
    }
    Ok(())
}

} // verus!
