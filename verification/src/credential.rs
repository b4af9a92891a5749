use vstd::prelude::*;

verus! {

/// Mints the per-session bearer credential for one backend launch.
///
/// Relies on `uuid::Uuid::new_v4` and the hyphenated `Display` form
/// of `uuid::Uuid`: a fresh random version-4 UUID, printed as 36
/// characters (32 hexadecimal digits and 4 hyphens).  The value is
/// random, so nothing more than its shape is promised.
#[verifier::external_body]
pub fn fresh_token() -> (r: String)
    ensures
        r@.len() == 36,
{
    uuid::Uuid::new_v4().to_string()
}

} // verus!
