use vstd::prelude::*;

verus! {

/// A blade carries usable radial stations when it has at least two radii
/// and one chord and one twist value per radius.
pub open spec fn radial_stations_usable(r_len: nat, chord_len: nat, twist_len: nat) -> bool {
    r_len >= 2 && chord_len == r_len && twist_len == r_len
}

/// Whether a blade's radial-station tables (given by their lengths) are used
/// for chord and twist instead of the uniform values.
pub fn has_radial_stations(r_len: usize, chord_len: usize, twist_len: usize) -> (r: bool)
    ensures
        r == radial_stations_usable(r_len as nat, chord_len as nat, twist_len as nat),
{
    r_len >= 2 && chord_len == r_len && twist_len == r_len
}

} // verus!
