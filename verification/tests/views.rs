use toy_tensor::error::TensorError;
use toy_tensor::tensor::{InnerBuffer, Tensor};

#[test]
fn test() {
    let mut tensor = Tensor::new([10, 20, 30], 3);
    let tensor_view = tensor.as_unique();
    let mut tensor_reshaped = tensor_view.reshape([200, 30]).unwrap().to_owned();
    tensor_reshaped[[1, 1]] = 2;
}

#[test]
fn test_ci_cd() {
    let mut tensor = Tensor::new([10, 20, 30], 3);
    let mut tensor_view = tensor.as_unique();
    tensor_view[[1, 1, 1]] = 333;

    assert!(
        tensor[[1, 1, 1]] == 333,
        "because `tensor_view` is view above `tensor` data"
    );
}

#[test]
fn new_fills_every_cell() {
    let tensor = Tensor::new([2, 3, 4], 7u16);
    for i in 0..2 {
        for j in 0..3 {
            for k in 0..4 {
                assert_eq!(tensor[[i, j, k]], 7);
                assert_eq!(tensor.get([i, j, k]), Ok(7));
            }
        }
    }
}

#[test]
fn new_holds_one_cell_per_index() {
    let tensor = Tensor::new([2, 3, 4], 0u8);
    assert!(tensor.as_shared().reshape([24]).is_ok());
    assert_eq!(
        tensor.as_shared().reshape([25]).err(),
        Some(TensorError::ShapeMismatch { requested: 25, actual: 24 })
    );
    assert_eq!(
        tensor.as_shared().reshape([23]).err(),
        Some(TensorError::ShapeMismatch { requested: 23, actual: 24 })
    );
}

#[test]
fn single_cell_tensor() {
    let mut tensor = Tensor::new([1, 1, 1], 'a');
    assert_eq!(tensor[[0, 0, 0]], 'a');
    tensor[[0, 0, 0]] = 'b';
    assert_eq!(tensor[[0, 0, 0]], 'b');
    let flat = tensor.as_shared().reshape([1]).unwrap();
    assert_eq!(flat[[0]], 'b');
}

#[test]
fn rank_one_tensor() {
    let mut tensor = Tensor::new([5], 0i64);
    for i in 0..5 {
        tensor[[i]] = 10 * i as i64;
    }
    for i in 0..5 {
        assert_eq!(tensor[[i]], 10 * i as i64);
    }
    assert_eq!(
        tensor.get([5]),
        Err(TensorError::IndexOutOfBounds { index: vec![5], shape: vec![5] })
    );
}

#[test]
fn writes_touch_one_cell_only() {
    let mut tensor = Tensor::new([3, 4], 1u32);
    tensor[[2, 1]] = 50;
    for i in 0..3 {
        for j in 0..4 {
            let expected = if (i, j) == (2, 1) { 50 } else { 1 };
            assert_eq!(tensor[[i, j]], expected);
        }
    }
}

#[test]
fn distinct_indices_address_distinct_cells() {
    let mut tensor = Tensor::new([3, 4, 5], 0usize);
    for i in 0..3 {
        for j in 0..4 {
            for k in 0..5 {
                tensor[[i, j, k]] = 100 * i + 10 * j + k;
            }
        }
    }
    for i in 0..3 {
        for j in 0..4 {
            for k in 0..5 {
                assert_eq!(tensor[[i, j, k]], 100 * i + 10 * j + k);
            }
        }
    }
}

#[test]
fn unique_view_writes_reach_the_tensor() {
    let mut tensor = Tensor::new([10, 20, 30], 3);
    {
        let mut view = tensor.as_unique();
        assert_eq!(view[[1, 1, 1]], 3);
        assert_eq!(view.set([9, 19, 29], 77), Ok(()));
        assert_eq!(view.get([9, 19, 29]), Ok(77));
        view[[0, 0, 0]] = 11;
    }
    assert_eq!(tensor[[9, 19, 29]], 77);
    assert_eq!(tensor[[0, 0, 0]], 11);
    assert_eq!(tensor[[1, 1, 1]], 3);
}

#[test]
fn reshaped_unique_view_writes_reach_the_tensor() {
    let mut tensor = Tensor::new([2, 3], 0u8);
    {
        let mut view = tensor.as_unique().reshape([6]).unwrap();
        view[[4]] = 44;
    }
    // flat offset 4 is row 1, column 1 of a 2 x 3 tensor
    assert_eq!(tensor[[1, 1]], 44);
    assert_eq!(tensor[[1, 0]], 0);
    assert_eq!(tensor[[1, 2]], 0);
}

#[test]
fn reshape_keeps_every_cell_at_its_flat_offset() {
    let mut tensor = Tensor::new([10, 20, 30], 0usize);
    for i in 0..10 {
        for j in 0..20 {
            for k in 0..30 {
                tensor[[i, j, k]] = i * 600 + j * 30 + k;
            }
        }
    }
    let reshaped = tensor.as_shared().reshape([200, 30]).unwrap();
    for a in 0..200 {
        for b in 0..30 {
            let flat = a * 30 + b;
            assert_eq!(reshaped[[a, b]], flat);
            let (i, j, k) = (flat / 600, (flat / 30) % 20, flat % 30);
            assert_eq!(reshaped[[a, b]], tensor[[i, j, k]]);
        }
    }
}

#[test]
fn reshape_may_change_the_rank() {
    let mut tensor = Tensor::new([2, 2, 2], 0u8);
    tensor[[1, 0, 1]] = 5;
    let flat = tensor.as_shared().reshape([8]).unwrap();
    assert_eq!(flat[[5]], 5);
    let wide = flat.reshape([1, 2, 1, 4]).unwrap();
    assert_eq!(wide[[0, 1, 0, 1]], 5);
    assert_eq!(wide[[0, 1, 0, 0]], 0);
}

#[test]
fn reshape_leaves_the_tensor_shape_alone() {
    let mut tensor = Tensor::new([2, 3], 0u8);
    tensor[[1, 2]] = 9;
    {
        let view = tensor.as_shared().reshape([3, 2]).unwrap();
        assert_eq!(view[[2, 1]], 9);
    }
    assert_eq!(tensor[[1, 2]], 9);
    assert_eq!(
        tensor.get([2, 1]),
        Err(TensorError::IndexOutOfBounds { index: vec![2, 1], shape: vec![2, 3] })
    );
}

#[test]
fn scenario_two_by_three_to_three_by_two() {
    let mut tensor = Tensor::new([2, 3], 0);
    tensor[[1, 2]] = 9;
    assert_eq!(tensor.as_shared().reshape([3, 2]).unwrap()[[2, 1]], 9);
}

#[test]
fn reshape_rejects_another_cell_count() {
    let mut tensor = Tensor::new([10, 20, 30], 3u8);
    assert_eq!(
        tensor.as_shared().reshape([7, 9]).err(),
        Some(TensorError::ShapeMismatch { requested: 63, actual: 6000 })
    );
    assert_eq!(
        tensor.as_shared().reshape([6001]).err(),
        Some(TensorError::ShapeMismatch { requested: 6001, actual: 6000 })
    );
    assert_eq!(
        tensor.as_unique().reshape([10, 20, 29]).err(),
        Some(TensorError::ShapeMismatch { requested: 5800, actual: 6000 })
    );
    // the buffer was neither cut nor extended
    assert!(tensor.as_shared().reshape([6000]).is_ok());
    assert_eq!(tensor[[9, 19, 29]], 3);
}

#[test]
fn reshape_rejects_a_zero_extent() {
    let tensor = Tensor::new([2, 3], 0u8);
    assert_eq!(
        tensor.as_shared().reshape([0, 6]).err(),
        Some(TensorError::ShapeMismatch { requested: 0, actual: 6 })
    );
    assert_eq!(
        tensor.as_shared().reshape([usize::MAX, usize::MAX, 0]).err(),
        Some(TensorError::ShapeMismatch { requested: 0, actual: 6 })
    );
}

#[test]
fn reshape_rejects_a_count_beyond_usize() {
    let tensor = Tensor::new([2, 3], 0u8);
    assert_eq!(
        tensor.as_shared().reshape([usize::MAX, 2]).err(),
        Some(TensorError::ShapeMismatch { requested: usize::MAX, actual: 6 })
    );
    assert_eq!(
        tensor.as_shared().reshape([6, usize::MAX, usize::MAX]).err(),
        Some(TensorError::ShapeMismatch { requested: usize::MAX, actual: 6 })
    );
}

#[test]
fn to_owned_copy_ignores_later_writes_to_the_source() {
    let mut tensor = Tensor::new([2, 3], 1u8);
    let copy = tensor.as_shared().to_owned();
    tensor[[1, 1]] = 8;
    assert_eq!(tensor[[1, 1]], 8);
    assert_eq!(copy[[1, 1]], 1);
}

#[test]
fn source_ignores_later_writes_to_the_to_owned_copy() {
    let tensor = Tensor::new([2, 3], 1u8);
    let mut copy = tensor.as_shared().to_owned();
    copy[[0, 2]] = 6;
    assert_eq!(copy[[0, 2]], 6);
    assert_eq!(tensor[[0, 2]], 1);
}

#[test]
fn to_owned_of_a_unique_view_copies_and_keeps_the_view() {
    let mut tensor = Tensor::new([2, 3], 1u8);
    let mut view = tensor.as_unique();
    view[[0, 1]] = 4;
    let copy = view.to_owned();
    view[[0, 1]] = 5;
    assert_eq!(copy[[0, 1]], 4);
    assert_eq!(view[[0, 1]], 5);
    assert_eq!(tensor[[0, 1]], 5);
}

#[test]
fn to_owned_takes_the_shape_of_the_view() {
    let mut tensor = Tensor::new([2, 3], 0u8);
    tensor[[1, 2]] = 9;
    let owned = tensor.as_shared().reshape([3, 2]).unwrap().to_owned();
    assert_eq!(owned[[2, 1]], 9);
    assert_eq!(
        owned.get([1, 2]),
        Err(TensorError::IndexOutOfBounds { index: vec![1, 2], shape: vec![3, 2] })
    );
}

#[test]
fn get_reports_an_index_outside_the_shape() {
    let tensor = Tensor::new([10, 20, 30], 3u8);
    assert_eq!(tensor.get([9, 19, 29]), Ok(3));
    assert_eq!(
        tensor.get([10, 0, 0]),
        Err(TensorError::IndexOutOfBounds { index: vec![10, 0, 0], shape: vec![10, 20, 30] })
    );
    // flat offset 750 lies inside the buffer, the index does not lie inside the shape
    assert_eq!(
        tensor.get([0, 25, 0]),
        Err(TensorError::IndexOutOfBounds { index: vec![0, 25, 0], shape: vec![10, 20, 30] })
    );
    assert_eq!(
        tensor.as_shared().get([0, 0, 30]),
        Err(TensorError::IndexOutOfBounds { index: vec![0, 0, 30], shape: vec![10, 20, 30] })
    );
}

#[test]
fn set_reports_an_index_outside_the_shape_and_writes_nothing() {
    let mut tensor = Tensor::new([2, 2], 0u8);
    assert_eq!(
        tensor.set([0, 2], 9),
        Err(TensorError::IndexOutOfBounds { index: vec![0, 2], shape: vec![2, 2] })
    );
    {
        let mut view = tensor.as_unique();
        assert_eq!(
            view.set([2, 0], 9),
            Err(TensorError::IndexOutOfBounds { index: vec![2, 0], shape: vec![2, 2] })
        );
        assert_eq!(
            view.get([usize::MAX, usize::MAX]),
            Err(TensorError::IndexOutOfBounds {
                index: vec![usize::MAX, usize::MAX],
                shape: vec![2, 2]
            })
        );
    }
    for i in 0..2 {
        for j in 0..2 {
            assert_eq!(tensor[[i, j]], 0);
        }
    }
    assert_eq!(tensor.set([1, 1], 9), Ok(()));
    assert_eq!(tensor[[1, 1]], 9);
}

#[test]
fn shared_views_coexist_and_clone() {
    let mut tensor = Tensor::new([2, 2], 0u8);
    tensor[[1, 0]] = 3;
    let first = tensor.as_shared();
    let second = tensor.as_shared();
    let third = first.clone();
    assert_eq!(first[[1, 0]], 3);
    assert_eq!(second[[1, 0]], 3);
    assert_eq!(third[[1, 0]], 3);
    assert_eq!(third.reshape([4]).unwrap()[[2]], 3);
}

#[test]
fn inner_buffer_default_is_empty_and_clones() {
    let buffer: InnerBuffer<u8> = InnerBuffer::default();
    assert_eq!(format!("{:?}", buffer), "InnerBuffer { buffer: [], size: 0 }");
    assert_eq!(format!("{:?}", buffer.clone()), "InnerBuffer { buffer: [], size: 0 }");
}

#[test]
fn index_out_of_bounds_error_carries_index_and_shape() {
    assert_eq!(
        TensorError::index_out_of_bounds(&[4, 5], &[2, 3]),
        TensorError::IndexOutOfBounds { index: vec![4, 5], shape: vec![2, 3] }
    );
    assert_ne!(
        TensorError::index_out_of_bounds(&[4, 5], &[2, 3]),
        TensorError::IndexOutOfBounds { index: vec![2, 3], shape: vec![4, 5] }
    );
}
