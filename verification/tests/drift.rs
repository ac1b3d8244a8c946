use judge::drift::common_dimension;
use judge::Error;

#[test]
fn equal_collections_share_their_dimension() {
    let a: [&[f32]; 1] = [&[1.0, 1.0]];
    let b: [&[f32]; 1] = [&[1.0, 1.0]];
    assert_eq!(common_dimension(&a, &b), Ok(Some(2)));
}

#[test]
fn an_empty_collection_leaves_nothing_to_compare() {
    let none: [&[f32]; 0] = [];
    let b: [&[f32]; 1] = [&[1.0, 1.0]];
    assert_eq!(common_dimension(&none, &b), Ok(None));
    assert_eq!(common_dimension(&b, &none), Ok(None));
    assert_eq!(common_dimension(&none, &none), Ok(None));
}

#[test]
fn an_empty_collection_is_seen_before_any_mismatch() {
    let none: [&[f32]; 0] = [];
    let ragged: [&[f32]; 2] = [&[1.0, 1.0], &[1.0]];
    assert_eq!(common_dimension(&none, &ragged), Ok(None));
    assert_eq!(common_dimension(&ragged, &none), Ok(None));
}

#[test]
fn vectors_of_different_dimensions_are_refused() {
    let two: [&[f32]; 2] = [&[1.0, 2.0], &[3.0, 4.0]];
    let three: [&[f32]; 1] = [&[1.0, 2.0, 3.0]];
    let ragged: [&[f32]; 3] = [&[1.0, 2.0], &[3.0, 4.0], &[5.0]];
    let longer: [&[f32]; 2] = [&[1.0, 2.0], &[3.0, 4.0, 5.0]];
    assert_eq!(common_dimension(&two, &three), Err(Error::DimensionMismatch));
    assert_eq!(common_dimension(&three, &two), Err(Error::DimensionMismatch));
    assert_eq!(common_dimension(&ragged, &two), Err(Error::DimensionMismatch));
    assert_eq!(common_dimension(&two, &ragged), Err(Error::DimensionMismatch));
    assert_eq!(common_dimension(&two, &longer), Err(Error::DimensionMismatch));
}

#[test]
fn collections_of_different_sizes_may_share_a_dimension() {
    let a: [&[f32]; 3] = [&[1.0, 2.0, 3.0], &[4.0, 5.0, 6.0], &[7.0, 8.0, 9.0]];
    let b: [&[f32]; 1] = [&[0.0, 0.0, 0.0]];
    assert_eq!(common_dimension(&a, &b), Ok(Some(3)));
    assert_eq!(common_dimension(&b, &a), Ok(Some(3)));
}

#[test]
fn vectors_without_components_have_dimension_zero() {
    let a: [&[f32]; 2] = [&[], &[]];
    let b: [&[f32]; 1] = [&[]];
    assert_eq!(common_dimension(&a, &b), Ok(Some(0)));
}

#[test]
fn the_shape_is_the_same_either_way_round() {
    let two: [&[f32]; 2] = [&[1.0, 2.0], &[3.0, 4.0]];
    let also_two: [&[f32]; 1] = [&[9.0, 9.0]];
    let three: [&[f32]; 1] = [&[1.0, 2.0, 3.0]];
    let none: [&[f32]; 0] = [];
    let all: [&[&[f32]]; 4] = [&two, &also_two, &three, &none];
    for a in all {
        for b in all {
            assert_eq!(common_dimension(a, b), common_dimension(b, a));
        }
    }
}
