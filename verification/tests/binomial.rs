use linestrip::binomial::BinomialTable;

fn row(degree: usize) -> Vec<u128> {
    let table = BinomialTable::new(degree);
    (0..=degree).map(|k| table.coefficient(k)).collect()
}

#[test]
fn rows_of_small_degree() {
    assert_eq!(row(0), vec![1]);
    assert_eq!(row(1), vec![1, 1]);
    assert_eq!(row(2), vec![1, 2, 1]);
    assert_eq!(row(4), vec![1, 4, 6, 4, 1]);
    assert_eq!(row(5), vec![1, 5, 10, 10, 5, 1]);
    assert_eq!(row(10)[3], 120);
}

#[test]
fn table_knows_its_degree() {
    assert_eq!(BinomialTable::new(0).degree(), 0);
    assert_eq!(BinomialTable::new(7).degree(), 7);
}

#[test]
fn rows_read_the_same_from_both_ends() {
    for degree in [3usize, 8, 33, 64, 131] {
        let table = BinomialTable::new(degree);
        for k in 0..=degree {
            assert_eq!(table.coefficient(k), table.coefficient(degree - k));
        }
    }
}

#[test]
fn neighbours_add_up_to_the_coefficient_below() {
    let above = BinomialTable::new(40);
    let below = BinomialTable::new(41);
    for k in 1..=40 {
        assert_eq!(above.coefficient(k - 1) + above.coefficient(k), below.coefficient(k));
    }
}

#[test]
fn large_coefficients_are_exact() {
    assert_eq!(BinomialTable::new(60).coefficient(30), 118264581564861424);
    assert_eq!(BinomialTable::new(67).coefficient(33), 14226520737620288370);
    assert_eq!(
        BinomialTable::new(128).coefficient(64),
        23951146041928082866135587776380551750
    );
    assert_eq!(
        BinomialTable::new(131).coefficient(65),
        188694833082770476622296176145946360850
    );
}

#[test]
fn coefficients_beyond_128_bits_are_the_largest_value() {
    let table = BinomialTable::new(132);
    assert_eq!(table.coefficient(66), u128::MAX);
    assert_eq!(table.coefficient(0), 1);
    assert_eq!(table.coefficient(1), 132);
    assert_eq!(table.coefficient(132), 1);
    let wide = BinomialTable::new(1000);
    assert_eq!(wide.coefficient(2), 499500);
    assert_eq!(wide.coefficient(500), u128::MAX);
    assert_eq!(wide.coefficient(998), 499500);
}

#[test]
fn coefficients_beyond_the_row_are_zero() {
    let table = BinomialTable::new(5);
    assert_eq!(table.coefficient(5), 1);
    assert_eq!(table.coefficient(6), 0);
    assert_eq!(table.coefficient(usize::MAX), 0);
    assert_eq!(BinomialTable::new(0).coefficient(1), 0);
}
