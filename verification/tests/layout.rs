use toy_tensor::layout::{
    calculate_position, calculate_strides, checked_product, index_in_bounds,
};

#[test]
fn strides_of_ten_twenty_thirty() {
    assert_eq!(calculate_strides(&[10, 20, 30]), [600, 30, 1]);
}

#[test]
fn position_of_one_one_one() {
    let strides = calculate_strides(&[10, 20, 30]);
    assert_eq!(calculate_position(&strides, &[1, 1, 1]), 631);
}

#[test]
fn strides_of_other_ranks() {
    assert_eq!(calculate_strides(&[7]), [1]);
    assert_eq!(calculate_strides(&[2, 3]), [3, 1]);
    assert_eq!(calculate_strides(&[2, 3, 4, 5]), [60, 20, 5, 1]);
    assert_eq!(calculate_strides::<0>(&[]), []);
}

#[test]
fn last_extent_does_not_enter_the_first_stride_twice() {
    // the first extent never enters a stride, the last stride is always 1
    assert_eq!(calculate_strides(&[1000, 2, 3]), [6, 3, 1]);
    assert_eq!(calculate_strides(&[2, 3, 1000]), [3000, 1000, 1]);
}

#[test]
fn position_pairs_components_with_strides_in_order() {
    assert_eq!(calculate_position(&[600, 30, 1], &[1, 0, 0]), 600);
    assert_eq!(calculate_position(&[600, 30, 1], &[0, 1, 0]), 30);
    assert_eq!(calculate_position(&[600, 30, 1], &[0, 0, 1]), 1);
    assert_eq!(calculate_position(&[600, 30, 1], &[9, 19, 29]), 5999);
    assert_eq!(calculate_position(&[600, 30, 1], &[0, 0, 0]), 0);
    assert_eq!(calculate_position::<0>(&[], &[]), 0);
}

#[test]
fn positions_cover_the_buffer_exactly_once() {
    let shape = [3, 4, 5];
    let strides = calculate_strides(&shape);
    let mut seen = vec![false; 60];
    for i in 0..3 {
        for j in 0..4 {
            for k in 0..5 {
                let position = calculate_position(&strides, &[i, j, k]);
                assert!(position < 60);
                assert!(!seen[position]);
                seen[position] = true;
            }
        }
    }
    assert!(seen.iter().all(|&hit| hit));
}

#[test]
fn checked_product_multiplies_the_extents() {
    assert_eq!(checked_product(&[10, 20, 30]), Some(6000));
    assert_eq!(checked_product(&[200, 30]), Some(6000));
    assert_eq!(checked_product(&[7]), Some(7));
    assert_eq!(checked_product::<0>(&[]), Some(1));
    assert_eq!(checked_product(&[usize::MAX, 1]), Some(usize::MAX));
}

#[test]
fn checked_product_is_zero_with_a_zero_extent() {
    assert_eq!(checked_product(&[0]), Some(0));
    assert_eq!(checked_product(&[5, 0, 5]), Some(0));
    assert_eq!(checked_product(&[usize::MAX, usize::MAX, 0]), Some(0));
    assert_eq!(checked_product(&[0, usize::MAX, usize::MAX]), Some(0));
}

#[test]
fn checked_product_is_none_beyond_usize() {
    assert_eq!(checked_product(&[usize::MAX, 2]), None);
    assert_eq!(checked_product(&[2, usize::MAX]), None);
    assert_eq!(checked_product(&[1 << 20, 1 << 20, 1 << 20, 1 << 20]), None);
}

#[test]
fn index_in_bounds_compares_component_by_component() {
    assert!(index_in_bounds(&[10, 20, 30], &[0, 0, 0]));
    assert!(index_in_bounds(&[10, 20, 30], &[9, 19, 29]));
    assert!(!index_in_bounds(&[10, 20, 30], &[10, 0, 0]));
    assert!(!index_in_bounds(&[10, 20, 30], &[0, 20, 0]));
    assert!(!index_in_bounds(&[10, 20, 30], &[0, 0, 30]));
    assert!(!index_in_bounds(&[0], &[0]));
    assert!(index_in_bounds::<0>(&[], &[]));
}
