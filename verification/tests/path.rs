use nca::path::Platform;

#[test]
fn the_platform_is_told_by_its_separator() {
    assert_eq!(Platform::current().is_unix(), std::path::MAIN_SEPARATOR == '/');
}
