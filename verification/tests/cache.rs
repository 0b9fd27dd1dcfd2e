use zkml::cache::{CacheError, CachingInfo, ConcatenationCache};
use zkml::shape::{PaddingMode, Shape};
use zkml::tensor::{Element, Tensor, TensorError};

fn vector(data: Vec<Element>) -> Tensor<Element> {
    Tensor::from_vec(data)
}

fn matrix(rows: usize, columns: usize, data: Vec<Element>) -> Tensor<Element> {
    Tensor::new(Shape::new(vec![rows, columns]), data).unwrap()
}

#[test]
fn concatenation_cache_can_be_temporarily_bypassed() {
    let mut cache = ConcatenationCache::<Element>::new(1, 0);
    let first = vector(vec![1, 2]);

    cache.set_disabled(true);
    let bypassed = cache.concatenate(first.clone()).unwrap();
    assert_eq!(*bypassed.get_data(), vec![1, 2]);
    assert!(!cache.is_initialized());
    assert_eq!(
        cache
            .next_shape(Shape::new(vec![2]), PaddingMode::NoPadding)
            .unwrap(),
        Shape::new(vec![2])
    );

    cache.set_disabled(false);
    cache.concatenate(first).unwrap();
    let concatenated = cache.concatenate(vector(vec![3])).unwrap();
    assert_eq!(*concatenated.get_data(), vec![1, 2, 3]);
}

#[test]
fn disabling_empties_the_cache() {
    let mut cache = ConcatenationCache::<Element>::new(1, 0);
    cache.concatenate(vector(vec![1])).unwrap();
    assert!(cache.is_initialized());
    cache.set_disabled(true);
    assert!(!cache.is_initialized());
    assert_eq!(cache.cache_info(), (1, 0));
}

#[test]
fn columns_are_joined_row_by_row() {
    let mut cache = ConcatenationCache::<Element>::new(2, 1);
    cache
        .concatenate(matrix(2, 2, vec![1, 2, 5, 6]))
        .unwrap();
    assert_eq!(cache.current_sequence_length(), 2);
    let joined = cache.concatenate(matrix(2, 1, vec![3, 7])).unwrap();
    assert_eq!(*joined.shape(), Shape::new(vec![2, 3]));
    assert_eq!(*joined.get_data(), vec![1, 2, 3, 5, 6, 7]);
    assert_eq!(cache.current_sequence_length(), 3);
    assert_eq!(*cache.get_cached().unwrap().get_data(), vec![1, 2, 3, 5, 6, 7]);
}

#[test]
fn next_shape_foretells_the_join() {
    let mut cache = ConcatenationCache::<Element>::new(2, 0);
    cache
        .concatenate(matrix(2, 3, vec![1, 2, 3, 4, 5, 6]))
        .unwrap();
    let next = cache
        .next_shape(Shape::new(vec![1, 3]), PaddingMode::NoPadding)
        .unwrap();
    assert_eq!(next, Shape::new(vec![3, 3]));
    let padded = cache
        .next_shape(Shape::new(vec![1, 3]), PaddingMode::Padding)
        .unwrap();
    assert_eq!(padded, Shape::new(vec![4, 4]));
    let joined = cache.concatenate(matrix(1, 3, vec![7, 8, 9])).unwrap();
    assert_eq!(*joined.shape(), next);
}

#[test]
fn reset_forgets_and_keeps_the_dimension() {
    let mut cache = ConcatenationCache::<Element>::new(2, 1);
    cache.concatenate(matrix(1, 1, vec![1])).unwrap();
    cache.reset();
    assert!(!cache.is_initialized());
    assert_eq!(cache.current_sequence_length(), 0);
    assert_eq!(cache.cache_info(), (2, 1));
    assert_eq!(cache.get_cached().unwrap_err(), CacheError::NotInitialized);
}

#[test]
fn negative_dimensions_count_from_the_last() {
    let cache = ConcatenationCache::<Element>::new_dynamic(-2);
    assert_eq!(cache.get_concatenation_dim(3), Ok(1));
    assert_eq!(cache.get_concatenation_dim(2), Ok(0));
    assert_eq!(
        cache.get_concatenation_dim(1),
        Err(CacheError::RankTooSmall {
            rank: 1,
            concatenation_dim: -2
        })
    );
    assert_eq!(CachingInfo::new_dynamic(1).get_concatenation_dim(2), Ok(1));
    assert_eq!(
        CachingInfo::new_dynamic(2).get_concatenation_dim(2),
        Err(CacheError::RankTooSmall {
            rank: 2,
            concatenation_dim: 2
        })
    );
    assert_eq!(CachingInfo::new_static(2, 1).get_concatenation_dim(7), Ok(1));
}

#[test]
fn shapes_that_do_not_match_are_refused() {
    let mut cache = ConcatenationCache::<Element>::new(2, 0);
    cache.concatenate(matrix(1, 2, vec![1, 2])).unwrap();
    assert_eq!(
        cache.concatenate(matrix(1, 3, vec![1, 2, 3])).unwrap_err(),
        CacheError::Tensor(TensorError::ShapeMismatch)
    );
    assert!(!cache.is_initialized());
    cache.concatenate(matrix(1, 2, vec![1, 2])).unwrap();
    assert_eq!(
        cache.concatenate(vector(vec![1, 2])).unwrap_err(),
        CacheError::Tensor(TensorError::RankMismatch)
    );
}

#[test]
fn tensors_need_as_many_elements_as_their_shape() {
    assert_eq!(
        Tensor::new(Shape::new(vec![2, 2]), vec![1, 2, 3]).unwrap_err(),
        TensorError::DataLength
    );
    assert_eq!(
        Tensor::cat(&vector(vec![1]), &vector(vec![2]), 1).unwrap_err(),
        TensorError::DimensionOutOfRange
    );
}

#[test]
fn joining_is_associative() {
    let a = matrix(2, 1, vec![1, 4]);
    let b = matrix(2, 2, vec![2, 3, 5, 6]);
    let c = matrix(2, 1, vec![7, 8]);
    let left = Tensor::cat(&Tensor::cat(&a, &b, 1).unwrap(), &c, 1).unwrap();
    let right = Tensor::cat(&a, &Tensor::cat(&b, &c, 1).unwrap(), 1).unwrap();
    assert_eq!(left.get_data(), right.get_data());
    assert_eq!(*left.get_data(), vec![1, 2, 3, 7, 4, 5, 6, 8]);
}

#[test]
fn requantised_tokens_are_the_requantised_history() {
    let requant = |x: Element| x / 4;
    let history = vec![vec![5, -9], vec![12, 3], vec![40, 41]];
    let mut pre = ConcatenationCache::<Element>::new(2, 0);
    let mut post = ConcatenationCache::<Element>::new(2, 0);
    for token in &history {
        pre.concatenate(matrix(1, 2, token.clone())).unwrap();
        post.concatenate(matrix(1, 2, token.iter().map(|x| requant(*x)).collect()))
            .unwrap();
    }
    let whole: Vec<Element> = pre
        .get_cached()
        .unwrap()
        .get_data()
        .iter()
        .map(|x| requant(*x))
        .collect();
    assert_eq!(whole, *post.get_cached().unwrap().get_data());
    assert_eq!(whole, vec![1, -2, 3, 0, 10, 10]);
    assert_eq!(post.current_sequence_length(), 3);
}

#[test]
fn slices_can_be_handed_over_together() {
    let mut apart = ConcatenationCache::<Element>::new(1, 0);
    let mut together = ConcatenationCache::<Element>::new(1, 0);
    for cache in [&mut apart, &mut together] {
        cache.concatenate(vector(vec![1])).unwrap();
    }
    apart.concatenate(vector(vec![2, 3])).unwrap();
    apart.concatenate(vector(vec![4])).unwrap();
    let merged = Tensor::cat(&vector(vec![2, 3]), &vector(vec![4]), 0).unwrap();
    together.concatenate(merged).unwrap();
    assert_eq!(
        apart.get_cached().unwrap().get_data(),
        together.get_cached().unwrap().get_data()
    );
    assert_eq!(apart.current_sequence_length(), 4);
}

#[test]
fn padding_twice_is_padding_once() {
    let shape = Shape::new(vec![1, 3, 5, 64, 65]);
    let padded = shape.next_power_of_two();
    assert_eq!(padded, Shape::new(vec![1, 4, 8, 64, 128]));
    assert_eq!(padded.next_power_of_two(), padded);
    assert_eq!(shape.under(PaddingMode::NoPadding), shape);
}

#[test]
fn a_copy_goes_on_alone() {
    let mut cache = ConcatenationCache::<Element>::new(1, 0);
    cache.concatenate(vector(vec![1])).unwrap();
    let mut copy = cache.clone();
    assert_eq!(*copy.concatenate(vector(vec![2])).unwrap().get_data(), vec![1, 2]);
    assert_eq!(*cache.concatenate(vector(vec![3])).unwrap().get_data(), vec![1, 3]);
}
