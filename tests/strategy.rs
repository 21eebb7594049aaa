use fmath::strategy::{Avg, Count, Sum};

#[test]
fn sum_adds_and_finishes_as_is() {
    assert_eq!(Sum::fold(5, 7), 12);
    assert_eq!(Sum::fold(5, -7), -2);
    assert_eq!(Sum::finish(-3), -3);
}

#[test]
fn count_ignores_the_value() {
    assert_eq!(Count::fold(0, 1000), 1);
    assert_eq!(Count::fold(4, -9), 5);
    assert_eq!(Count::finish(7), 7);
}

#[test]
fn avg_tracks_count_and_sum() {
    assert_eq!(Avg::fold((0, 0), 5), (1, 5));
    assert_eq!(Avg::fold((2, 10), -4), (3, 6));
}

#[test]
fn avg_truncates_toward_zero() {
    assert_eq!(Avg::finish((4, 10)), 2);
    assert_eq!(Avg::finish((4, -10)), -2);
    assert_eq!(Avg::finish((3, -7)), -2);
    assert_eq!(Avg::finish((3, 9)), 3);
    assert_eq!(Avg::finish((1, i64::MIN)), i64::MIN);
    assert_eq!(Avg::finish((2, i64::MIN)), i64::MIN / 2);
}

#[test]
fn avg_of_nothing_is_zero() {
    assert_eq!(Avg::finish((0, 0)), 0);
}
