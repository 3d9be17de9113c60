use address_sync::utils::ExistsExtension;

#[test]
fn exists_with_tests_the_value_that_is_there() {
    assert!(Some(3).exists_with(|n| *n == 3));
    assert!(!Some(3).exists_with(|n| *n == 4));
}

#[test]
fn exists_with_finds_nothing_in_none() {
    assert!(!None::<u8>.exists_with(|_| true));
}
