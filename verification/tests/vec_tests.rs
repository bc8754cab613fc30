use sprs_core::csvec::CompressedStorage;
use sprs_core::csvec::CsVec;
use sprs_core::csvec::MatVecRoute;
use sprs_core::csvec::mat_vec_route;
use sprs_core::csvec::CsVecView;
use sprs_core::csvec::NnzEither;
use sprs_core::csvec::filter_both_nnz;
use sprs_core::errors::SprsError;

fn test_vec1() -> CsVec<f64> {
    let n = 8;
    let indices = vec![0, 1, 4, 5, 7];
    let data = vec![0., 1., 4., 5., 7.];

    return CsVec::new_owned(n, indices, data).unwrap();
}

fn test_vec2() -> CsVec<f64> {
    let n = 8;
    let indices = vec![0, 2, 4, 6, 7];
    let data = vec![0.5, 2.5, 4.5, 6.5, 7.5];

    return CsVec::new_owned(n, indices, data).unwrap();
}

#[test]
fn test_nnz_zip_iter() {
    let vec1 = test_vec1();
    let vec2 = test_vec2();
    let mut iter = vec1.iter().nnz_zip(vec2.iter());
    assert_eq!(iter.next().unwrap(), (0, 0., 0.5));
    assert_eq!(iter.next().unwrap(), (4, 4., 4.5));
    assert_eq!(iter.next().unwrap(), (7, 7., 7.5));
    assert!(iter.next().is_none());
}

#[test]
fn test_nnz_or_zip_iter() {
    let vec1 = test_vec1();
    let vec2 = test_vec2();
    let mut iter = vec1.iter().nnz_or_zip(vec2.iter());
    assert_eq!(iter.next().unwrap(), NnzEither::Both((0, 0., 0.5)));
    assert_eq!(iter.next().unwrap(), NnzEither::Left((1, 1.)));
    assert_eq!(iter.next().unwrap(), NnzEither::Right((2, 2.5)));
    assert_eq!(iter.next().unwrap(), NnzEither::Both((4, 4., 4.5)));
    assert_eq!(iter.next().unwrap(), NnzEither::Left((5, 5.)));
    assert_eq!(iter.next().unwrap(), NnzEither::Right((6, 6.5)));
    assert_eq!(iter.next().unwrap(), NnzEither::Both((7, 7., 7.5)));
}

#[test]
fn dot_product() {
    let vec1 = CsVec::new_owned(8, vec![0, 2, 4, 6], vec![1i64; 4]).unwrap();
    let vec2 = CsVec::new_owned(8, vec![1, 3, 5, 7], vec![2i64; 4]).unwrap();
    let vec3 = CsVec::new_owned(8, vec![1, 2, 5, 6], vec![3i64; 4]).unwrap();

    assert_eq!(0, vec1.dot(&vec2));
    assert_eq!(4, vec1.dot(&vec1));
    assert_eq!(16, vec2.dot(&vec2));
    assert_eq!(6, vec1.dot(&vec3));
    assert_eq!(12, vec2.dot(&vec3));
}

#[test]
fn round_trip_borrowed_to_owned() {
    let v = test_vec1();
    let view = v.borrowed();
    let copy = view.to_owned();
    assert_eq!(copy, v);
    assert_eq!(copy.dim(), v.dim());
    assert_eq!(copy.indices(), v.indices());
    assert_eq!(copy.data(), v.data());
}

#[test]
fn clear_resets_nnz_keeps_dim() {
    let mut v = test_vec1();
    assert_eq!(v.nnz(), 5);
    v.clear();
    assert_eq!(v.nnz(), 0);
    assert_eq!(v.dim(), 8);
    v.clear();
    assert_eq!(v.nnz(), 0);
    assert_eq!(v.dim(), 8);
}

#[test]
fn empty_intersection_dot_is_zero() {
    let a = CsVec::new_owned(8, vec![0, 2, 4, 6], vec![1.; 4]).unwrap();
    let b = CsVec::new_owned(8, vec![1, 3, 5, 7], vec![2.; 4]).unwrap();
    let mut zip = a.iter().nnz_zip(b.iter());
    assert!(zip.next().is_none());

    let ai = CsVec::new_owned(8, vec![0, 2, 4, 6], vec![1i64; 4]).unwrap();
    let bi = CsVec::new_owned(8, vec![1, 3, 5, 7], vec![2i64; 4]).unwrap();
    assert_eq!(ai.dot(&bi), 0);
}

#[test]
fn union_merge_example() {
    let v0 = CsVec::new_owned(5, vec![0, 2, 4], vec![1., 2., 3.]).unwrap();
    let v1 = CsVec::new_owned(5, vec![1, 2, 3], vec![-1., -2., -3.]).unwrap();
    let mut or_iter = v0.iter().nnz_or_zip(v1.iter());
    assert_eq!(or_iter.next().unwrap(), NnzEither::Left((0, 1.)));
    assert_eq!(or_iter.next().unwrap(), NnzEither::Right((1, -1.)));
    assert_eq!(or_iter.next().unwrap(), NnzEither::Both((2, 2., -2.)));
    assert_eq!(or_iter.next().unwrap(), NnzEither::Right((3, -3.)));
    assert_eq!(or_iter.next().unwrap(), NnzEither::Left((4, 3.)));
    assert!(or_iter.next().is_none());

    let mut zip_iter = v0.iter().nnz_zip(v1.iter());
    assert_eq!(zip_iter.next().unwrap(), (2, 2., -2.));
    assert!(zip_iter.next().is_none());
}

#[test]
fn addition_example() {
    let a = CsVec::new_owned(8, vec![0, 1, 4, 5, 7], vec![0, 2, 8, 10, 14i64]).unwrap();
    let b = CsVec::new_owned(8, vec![0, 2, 4, 6, 7], vec![1, 5, 9, 13, 15i64]).unwrap();
    let sum = a.add(&b);
    assert_eq!(sum.dim(), 8);
    assert_eq!(sum.indices(), &[0, 1, 2, 4, 5, 6, 7]);
    assert_eq!(sum.data(), &[1, 2, 5, 17, 10, 13, 29]);
    assert_eq!(sum.data()[0], 1);
    assert_eq!(*sum.data().last().unwrap(), 29);
}

#[test]
fn subtraction_example() {
    let a = CsVec::new_owned(8, vec![0, 1, 4, 5, 7], vec![0, 2, 8, 10, 14i64]).unwrap();
    let b = CsVec::new_owned(8, vec![0, 2, 4, 6, 7], vec![1, 5, 9, 13, 15i64]).unwrap();
    let diff = a.sub(&b);
    assert_eq!(diff.indices(), &[0, 1, 2, 4, 5, 6, 7]);
    assert_eq!(diff.data(), &[-1, 2, -5, -1, 10, -13, -1]);
}

#[test]
fn dot_commutes() {
    let a = CsVec::new_owned(10, vec![1, 3, 5, 9], vec![2, -3, 7, 11i64]).unwrap();
    let b = CsVec::new_owned(10, vec![0, 3, 5, 8, 9], vec![5, 4, -6, 2, 3i64]).unwrap();
    assert_eq!(a.dot(&b), b.dot(&a));
    assert_eq!(a.dot(&b), -12 - 42 + 33);
}

#[test]
fn out_of_bounds_construction() {
    let r = CsVec::new_owned(8, vec![0, 9], vec![1.4, 0.5]);
    assert_eq!(r.unwrap_err(), SprsError::OutOfBoundsIndex);
}

#[test]
fn unsorted_construction() {
    let r = CsVec::new_owned(8, vec![3, 1], vec![1.4, 0.5]);
    assert_eq!(r.unwrap_err(), SprsError::NonSortedIndices);
    let dup = CsVec::new_owned(8, vec![1, 1], vec![1.4, 0.5]);
    assert_eq!(dup.unwrap_err(), SprsError::NonSortedIndices);
}

#[test]
fn borrowed_construction_and_check() {
    let indices = [0usize, 2, 5];
    let data = [1.0, 2.0, 3.0];
    let view: CsVecView<f64> = CsVecView::new_borrowed(6, &indices, &data).unwrap();
    assert_eq!(view.dim(), 6);
    assert_eq!(view.nnz(), 3);
    assert_eq!(view.indices(), &indices);
    assert_eq!(view.data(), &data);
    assert!(view.check_structure().is_ok());

    let bad = [2usize, 1];
    let vals = [1.0, 2.0];
    let r = CsVecView::new_borrowed(6, &bad, &vals);
    assert_eq!(r.unwrap_err(), SprsError::NonSortedIndices);
    let oob = [0usize, 6];
    let r2 = CsVecView::new_borrowed(6, &oob, &vals);
    assert_eq!(r2.unwrap_err(), SprsError::OutOfBoundsIndex);

    let unchecked = CsVecView::_new_borrowed_unchecked(6, &indices, &data);
    assert_eq!(unchecked, view);
}

#[test]
fn incremental_append() {
    let mut v: CsVec<i64> = CsVec::empty(8);
    assert_eq!(v.nnz(), 0);
    assert_eq!(v.dim(), 8);
    v.append(2, 10);
    v.append(5, 20);
    v.append(7, 30);
    assert_eq!(v.indices(), &[2, 5, 7]);
    assert_eq!(v.data(), &[10, 20, 30]);
    assert_eq!(v.nnz(), 3);
    assert!(v.check_structure().is_ok());
}

#[test]
fn reserve_has_no_semantic_effect() {
    let mut v = test_vec1();
    let before = v.to_owned();
    v.reserve(16);
    v.reserve_exact(7);
    assert_eq!(v, before);
}

#[test]
fn iterators_are_restartable() {
    let v = test_vec1();
    let mut it1 = v.iter();
    assert_eq!(it1.next().unwrap(), (0, 0.));
    let mut it2 = v.iter();
    assert_eq!(it2.next().unwrap(), (0, 0.));
    assert_eq!(it2.next().unwrap(), (1, 1.));
    assert_eq!(it2.next().unwrap(), (4, 4.));
    assert_eq!(it2.next().unwrap(), (5, 5.));
    assert_eq!(it2.next().unwrap(), (7, 7.));
    assert!(it2.next().is_none());
    assert!(it2.next().is_none());
}

#[test]
fn size_hints() {
    let v1 = test_vec1();
    let v2 = test_vec2();
    let mut it = v1.iter();
    assert_eq!(it.size_hint(), (5, Some(5)));
    let _ = it.next();
    assert_eq!(it.size_hint(), (4, Some(4)));

    let or_zip = v1.iter().nnz_or_zip(v2.iter());
    assert_eq!(or_zip.size_hint(), (5, Some(10)));
}

#[test]
fn filter_both_nnz_keeps_both_only() {
    let both: NnzEither<f64, f64> = NnzEither::Both((3, 1.5, 2.5));
    assert_eq!(filter_both_nnz(both), Some((3, 1.5, 2.5)));
    let left: NnzEither<f64, f64> = NnzEither::Left((1, 1.5));
    assert_eq!(filter_both_nnz(left), None);
    let right: NnzEither<f64, f64> = NnzEither::Right((2, 2.5));
    assert_eq!(filter_both_nnz(right), None);
}

#[test]
fn dot_through_views() {
    let a = CsVec::new_owned(8, vec![0, 2, 4, 6], vec![1i64; 4]).unwrap();
    let b = CsVec::new_owned(8, vec![1, 2, 5, 6], vec![3i64; 4]).unwrap();
    assert_eq!(a.borrowed().dot(&b.borrowed()), 6);
    assert_eq!(a.borrowed().dot(&a.borrowed()), a.dot(&a));
}

#[test]
fn mat_vec_product_routing() {
    assert_eq!(mat_vec_route(CompressedStorage::CSR), MatVecRoute::DirectRowMajor);
    assert_eq!(mat_vec_route(CompressedStorage::CSC), MatVecRoute::ViaColView);
}

#[test]
fn matrix_views_share_storage_shape() {
    let v = test_vec1();
    let row = v.row_view();
    assert_eq!(row.storage(), CompressedStorage::CSR);
    assert_eq!(row.rows(), 1);
    assert_eq!(row.cols(), 8);
    assert_eq!(row.indptr(), (0, 5));
    assert_eq!(row.indices(), v.indices());
    assert_eq!(row.data(), v.data());

    let col = v.col_view();
    assert_eq!(col.storage(), CompressedStorage::CSC);
    assert_eq!(col.rows(), 8);
    assert_eq!(col.cols(), 1);
    assert_eq!(col.indptr(), (0, 5));
    assert_eq!(col.indices(), v.indices());
    assert_eq!(col.data(), v.data());
}
