use judge::significance::contributing_cells;
use judge::Error;

fn bits(xs: &[f64]) -> Vec<u64> {
    xs.iter().map(|x| x.to_bits()).collect()
}

fn cells(observed: &[f64], expected: &[f64]) -> Result<Vec<usize>, Error> {
    contributing_cells(&bits(observed), &bits(expected))
}

#[test]
fn every_cell_with_an_expectation_contributes() {
    assert_eq!(cells(&[10.0, 20.0], &[10.0, 20.0]), Ok(vec![0, 1]));
}

#[test]
fn a_cell_that_expects_nothing_is_left_out() {
    assert_eq!(cells(&[10.0, 0.0], &[0.0, 10.0]), Ok(vec![1]));
    assert_eq!(cells(&[1.0, 2.0, 3.0, 4.0], &[0.0, 5.0, -0.0, 0.5]), Ok(vec![1, 3]));
    assert_eq!(cells(&[1.0, 2.0], &[0.0, 0.0]), Ok(vec![]));
}

#[test]
fn anything_but_zero_contributes() {
    assert_eq!(
        cells(&[1.0, 2.0, 3.0, 4.0], &[5e-324, f64::NAN, f64::INFINITY, -1.0]),
        Ok(vec![0, 1, 2, 3])
    );
}

#[test]
fn empty_tables_have_no_cells() {
    assert_eq!(cells(&[], &[]), Ok(vec![]));
}

#[test]
fn tables_of_different_lengths_are_refused() {
    assert_eq!(cells(&[10.0, 20.0], &[10.0]), Err(Error::ShapeMismatch));
    assert_eq!(cells(&[10.0], &[10.0, 20.0]), Err(Error::ShapeMismatch));
    assert_eq!(cells(&[], &[0.0]), Err(Error::ShapeMismatch));
}

#[test]
fn the_statistic_sums_over_the_cells() {
    let observed = [10.0_f64, 0.0, 12.0];
    let expected = [0.0_f64, 10.0, 8.0];
    let cells = cells(&observed, &expected).unwrap();
    let statistic: f64 =
        cells.iter().map(|&i| (observed[i] - expected[i]).powi(2) / expected[i]).sum();
    assert_eq!(statistic, 12.0);
}
