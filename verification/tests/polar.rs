use dynbem_rs::polar::{check_polar_table, PolarTableError};

#[test]
fn polar_table_lengths() {
    assert!(check_polar_table(3, 3, 3).is_ok());
    assert!(matches!(check_polar_table(3, 2, 3), Err(PolarTableError::LengthMismatch)));
    assert!(matches!(check_polar_table(3, 3, 4), Err(PolarTableError::LengthMismatch)));
    assert!(matches!(check_polar_table(0, 0, 0), Err(PolarTableError::Empty)));
    assert!(matches!(check_polar_table(0, 1, 0), Err(PolarTableError::LengthMismatch)));
}

#[test]
fn polar_table_messages() {
    assert_eq!(
        PolarTableError::LengthMismatch.message(),
        "alpha, cl, cd must have the same length"
    );
    assert_eq!(PolarTableError::Empty.message(), "polar table is empty");
}
