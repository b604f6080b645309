#[test]
fn basic_math_still_works() {
    assert_eq!(2 + 2, 4);
}
