use varstore::{Bound, Device, IndexError, Kind, NewAxis, Tensor, TensorIndexer};

fn iota(dims: Vec<i64>) -> Tensor {
    let n: i64 = dims.iter().product();
    let values: Vec<i64> = (0..n).collect();
    Tensor::from_shape_values(&dims, values, Kind::Int64, Device::Cpu)
}

#[test]
fn select_removes_the_axis() {
    let t = iota(vec![2, 3]);
    let r = t.i(TensorIndexer::Select(1)).unwrap();
    assert_eq!(r.size(), vec![3]);
    assert_eq!(r.values(), vec![3, 4, 5]);
}

#[test]
fn narrow_keeps_the_axis() {
    let t = iota(vec![4]);
    let r = t
        .i(TensorIndexer::Narrow(Bound::Included(1), Bound::Included(2)))
        .unwrap();
    assert_eq!(r.size(), vec![2]);
    assert_eq!(r.values(), vec![1, 2]);
}

#[test]
fn full_range_is_a_pass_through() {
    let t = iota(vec![2, 2]);
    let r = t
        .i(TensorIndexer::Narrow(Bound::Unbounded, Bound::Unbounded))
        .unwrap();
    assert_eq!(r.size(), vec![2, 2]);
    assert_eq!(r.values(), vec![0, 1, 2, 3]);
}

#[test]
fn excluded_lower_bound_starts_after_it() {
    let t = iota(vec![4]);
    let r = t
        .i(TensorIndexer::Narrow(Bound::Excluded(0), Bound::Unbounded))
        .unwrap();
    assert_eq!(r.values(), vec![1, 2, 3]);
}

#[test]
fn index_select_gathers_rows() {
    let t = iota(vec![3, 2]);
    let idx = Tensor::from_values(vec![2, 0, 2], Kind::Int64, Device::Cpu);
    let r = t.i(TensorIndexer::IndexSelect(idx)).unwrap();
    assert_eq!(r.size(), vec![3, 2]);
    assert_eq!(r.values(), vec![4, 5, 0, 1, 4, 5]);
}

#[test]
fn new_axis_inserts_a_unit_axis() {
    let t = iota(vec![2]);
    let r = t.i(TensorIndexer::from(NewAxis)).unwrap();
    assert_eq!(r.size(), vec![1, 2]);
    assert_eq!(r.values(), vec![0, 1]);
}

#[test]
fn from_i64_is_a_select() {
    let t = iota(vec![2]);
    let r = t.i(TensorIndexer::from(1i64)).unwrap();
    assert_eq!(r.size(), Vec::<i64>::new());
    assert_eq!(r.values(), vec![1]);
}

#[test]
fn from_slice_materializes_an_index_tensor() {
    let t = iota(vec![3]);
    let term = TensorIndexer::from_slice(vec![1, 0], Kind::Int64, Device::Cpu);
    let r = t.i(term).unwrap();
    assert_eq!(r.values(), vec![1, 0]);
}

#[test]
fn pipeline_tracks_the_moving_cursor() {
    // Select consumes axis 0 and holds the cursor, the inserted unit axis is
    // consumed as it is passed, and the axis that then sits at the cursor is
    // narrowed to length 2.
    let t = iota(vec![3, 9, 4]);
    let spec = vec![
        TensorIndexer::Select(2),
        TensorIndexer::from(NewAxis),
        TensorIndexer::Narrow(Bound::Included(0), Bound::Excluded(2)),
    ];
    let r = t.indexer(&spec).unwrap();
    assert_eq!(r.size(), vec![1, 2, 4]);
    assert_eq!(r.values(), (72..80).collect::<Vec<i64>>());
}

#[test]
fn narrow_observes_the_shape_left_by_prior_steps() {
    // After Select(2) and the inserted axis, the cursor sits on the original
    // length-1 axis, which a 0..2 narrow overruns: the step fails instead of
    // clamping.
    let t = iota(vec![3, 1, 4]);
    let spec = vec![
        TensorIndexer::Select(2),
        TensorIndexer::from(NewAxis),
        TensorIndexer::Narrow(Bound::Included(0), Bound::Excluded(2)),
    ];
    assert!(matches!(
        t.indexer(&spec),
        Err(IndexError::ViewOperationError(2))
    ));
}

#[test]
fn out_of_range_narrow_fails_instead_of_clamping() {
    let t = iota(vec![4]);
    let r = t.i(TensorIndexer::Narrow(Bound::Included(0), Bound::Included(10)));
    assert!(matches!(r, Err(IndexError::ViewOperationError(0))));
}

#[test]
fn out_of_range_select_fails() {
    let t = iota(vec![4]);
    assert!(matches!(
        t.i(TensorIndexer::Select(4)),
        Err(IndexError::ViewOperationError(0))
    ));
    assert!(matches!(
        t.i(TensorIndexer::Select(-1)),
        Err(IndexError::ViewOperationError(0))
    ));
}

#[test]
fn too_many_indices_fail_with_the_rank() {
    let t = iota(vec![2]);
    let spec = vec![TensorIndexer::Select(0), TensorIndexer::Select(0)];
    assert!(matches!(t.indexer(&spec), Err(IndexError::IndexArityError(1))));
}

#[test]
fn a_two_dimensional_index_tensor_is_rejected() {
    let idx = Tensor::from_shape_values(&vec![2, 2], vec![0, 1, 0, 1], Kind::Int64, Device::Cpu);
    assert!(matches!(
        TensorIndexer::from_tensor(&idx),
        Err(IndexError::UnsupportedIndexKind)
    ));
    // Handing such a tensor to the evaluator directly fails the same way,
    // before any view primitive runs.
    let t = iota(vec![3, 2]);
    let spec = vec![TensorIndexer::IndexSelect(idx)];
    assert!(matches!(
        t.indexer(&spec),
        Err(IndexError::UnsupportedIndexKind)
    ));
}

#[test]
fn a_non_integer_index_tensor_is_rejected() {
    let idx = Tensor::from_values(vec![0, 1], Kind::Float, Device::Cpu);
    assert!(matches!(
        TensorIndexer::from_tensor(&idx),
        Err(IndexError::UnsupportedIndexKind)
    ));
}

#[test]
fn from_tensor_accepts_integer_vectors() {
    let idx = Tensor::from_values(vec![0, 2], Kind::Int16, Device::Cpu);
    let term = TensorIndexer::from_tensor(&idx).unwrap();
    let t = iota(vec![3]);
    let r = t.i(term).unwrap();
    assert_eq!(r.values(), vec![0, 2]);
}

#[test]
fn out_of_range_gather_index_fails() {
    let t = iota(vec![3]);
    let idx = Tensor::from_values(vec![0, 3], Kind::Int64, Device::Cpu);
    assert!(matches!(
        t.i(TensorIndexer::IndexSelect(idx)),
        Err(IndexError::ViewOperationError(0))
    ));
}

#[test]
fn tensor_constructors_and_accessors() {
    let z = Tensor::zeros(&vec![2, 2], Kind::Float, Device::Cpu);
    assert_eq!(z.values(), vec![0, 0, 0, 0]);
    assert_eq!(z.numel(), 4);
    assert_eq!(z.dim(), 2);
    assert_eq!(z.kind(), Kind::Float);
    let o = Tensor::ones(&vec![3], Kind::Int64, Device::Cuda(0));
    assert_eq!(o.values(), vec![1, 1, 1]);
    assert_eq!(o.device(), Device::Cuda(0));
    let f = Tensor::full(&vec![2], 7, Kind::Int, Device::Cpu);
    assert_eq!(f.values(), vec![7, 7]);
    assert!(!f.requires_grad());
    assert!(f.set_requires_grad(true).requires_grad());
    assert_eq!(f.to_device(Device::Cuda(3)).device(), Device::Cuda(3));
    let c = f.copy();
    assert_eq!(c.values(), vec![7, 7]);
    assert_eq!(c.size(), vec![2]);
    let sh = f.shallow_clone();
    assert_eq!(sh.values(), vec![7, 7]);
}

#[test]
fn copy_into_overwrites_values_in_place() {
    let mut t = Tensor::zeros(&vec![3], Kind::Float, Device::Cpu);
    let src = Tensor::from_values(vec![4, 5, 6], Kind::Float, Device::Cpu);
    t.copy_(&src);
    assert_eq!(t.values(), vec![4, 5, 6]);
    assert_eq!(t.size(), vec![3]);
}

#[test]
fn view_primitives_compose_on_values() {
    let t = iota(vec![2, 3, 4]);
    let s = t.select(0, 1);
    assert_eq!(s.size(), vec![3, 4]);
    assert_eq!(s.values(), (12..24).collect::<Vec<i64>>());
    let n = s.narrow(1, 1, 2);
    assert_eq!(n.size(), vec![3, 2]);
    assert_eq!(n.values(), vec![13, 14, 17, 18, 21, 22]);
    let u = n.unsqueeze(2);
    assert_eq!(u.size(), vec![3, 2, 1]);
    assert_eq!(u.values(), vec![13, 14, 17, 18, 21, 22]);
    let idx = Tensor::from_values(vec![1], Kind::Int64, Device::Cpu);
    let g = u.index_select(0, &idx);
    assert_eq!(g.size(), vec![1, 2, 1]);
    assert_eq!(g.values(), vec![17, 18]);
}

#[test]
fn indexing_an_empty_axis() {
    let t = Tensor::zeros(&vec![0, 5], Kind::Float, Device::Cpu);
    let r = t
        .i(TensorIndexer::Narrow(Bound::Unbounded, Bound::Excluded(0)))
        .unwrap();
    assert_eq!(r.size(), vec![0, 5]);
    assert_eq!(r.values(), Vec::<i64>::new());
}
