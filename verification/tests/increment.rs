use gaps::Inc;

#[test]
fn increment() {
    fn inc<T>(x: T) -> T
    where
        T: Inc,
    {
        x.inc()
    }

    assert_eq!(inc(1u8), 2);
    assert_eq!(inc(-1i16), 0);
    assert_eq!(inc(129_012u32), 129_013);
    assert_eq!(inc(42usize), 43);
}
