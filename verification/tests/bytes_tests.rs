use ecs_wire::wire::bytes::{discriminant_width, num_bytes_required};

#[test]
fn serde_impl_zero_bytes_required() {
    assert_eq!(num_bytes_required(0), 0);
}

#[test]
fn serde_impl_one_byte_required_low() {
    assert_eq!(num_bytes_required(1), 1);
}

#[test]
fn serde_impl_one_byte_required_high() {
    assert_eq!(num_bytes_required(255), 1);
}

#[test]
fn serde_impl_two_bytes_required_low() {
    assert_eq!(num_bytes_required(256), 2);
}

#[test]
fn serde_impl_two_bytes_required_high() {
    assert_eq!(num_bytes_required(511), 2);
}

#[test]
fn trait_impl_zero_bytes_required() {
    assert_eq!(num_bytes_required(0), 0);
}

#[test]
fn trait_impl_one_byte_required_low() {
    assert_eq!(num_bytes_required(1), 1);
}

#[test]
fn trait_impl_one_byte_required_high() {
    assert_eq!(num_bytes_required(255), 1);
}

#[test]
fn trait_impl_two_bytes_required_low() {
    assert_eq!(num_bytes_required(256), 2);
}

#[test]
fn trait_impl_two_bytes_required_high() {
    assert_eq!(num_bytes_required(511), 2);
}

#[test]
fn discriminant_width_of_variant_counts() {
    assert_eq!(discriminant_width(0), None);
    assert_eq!(discriminant_width(1), Some(1));
    assert_eq!(discriminant_width(2), Some(1));
    assert_eq!(discriminant_width(256), Some(1));
    assert_eq!(discriminant_width(257), Some(2));
    assert_eq!(discriminant_width(65536), Some(2));
    assert_eq!(discriminant_width(65537), Some(3));
}
