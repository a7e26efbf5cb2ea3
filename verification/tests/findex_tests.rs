use f90nmlrs::findex::{parse_index_string, FIndex, IndexBound};

#[test]
fn test_index_bound_creation() {
    let bound = IndexBound::range(1, 10);
    assert_eq!(bound.start, Some(1));
    assert_eq!(bound.end, Some(10));
    assert_eq!(bound.stride, None);

    let bound = IndexBound::single(5);
    assert_eq!(bound.start, Some(5));
    assert_eq!(bound.end, Some(5));

    let bound = IndexBound::implicit();
    assert_eq!(bound.start, None);
    assert_eq!(bound.end, None);
}

#[test]
fn test_index_bound_size() {
    let bound = IndexBound::range(1, 10);
    assert_eq!(bound.size(1, Some(10)), Some(10));

    let bound = IndexBound::new(Some(2), Some(10), Some(2));
    assert_eq!(bound.size(1, Some(10)), Some(5));

    let bound = IndexBound::single(5);
    assert_eq!(bound.size(1, Some(10)), Some(1));
}

#[test]
fn test_findex_simple() {
    let bounds = vec![IndexBound::range(1, 3)];
    let mut findex = FIndex::new(bounds, None);

    let mut indices: Vec<Vec<i32>> = Vec::new();
    while let Some(ix) = findex.advance() {
        indices.push(ix);
    }
    assert_eq!(indices, vec![vec![1], vec![2], vec![3]]);
}

#[test]
fn test_findex_2d() {
    let bounds = vec![IndexBound::range(1, 2), IndexBound::range(1, 3)];
    let mut findex = FIndex::new(bounds, None);

    let mut indices: Vec<Vec<i32>> = Vec::new();
    while let Some(ix) = findex.advance() {
        indices.push(ix);
    }
    assert_eq!(
        indices,
        vec![
            vec![1, 1],
            vec![2, 1],
            vec![1, 2],
            vec![2, 2],
            vec![1, 3],
            vec![2, 3],
        ]
    );
}

#[test]
fn test_parse_index_string() {
    assert_eq!(parse_index_string("5").unwrap(), IndexBound::single(5));
    assert_eq!(parse_index_string("1:10").unwrap(), IndexBound::range(1, 10));
    assert_eq!(parse_index_string(":").unwrap(), IndexBound::implicit());

    let bound = parse_index_string("1:10:2").unwrap();
    assert_eq!(bound.start, Some(1));
    assert_eq!(bound.end, Some(10));
    assert_eq!(bound.stride, Some(2));

    assert!(parse_index_string("1:10:0").is_err());
    assert!(parse_index_string("abc").is_err());
}

#[test]
fn test_linear_index_conversion() {
    let bounds = vec![IndexBound::range(1, 2), IndexBound::range(1, 3)];
    let findex = FIndex::new(bounds, None);
    let dimensions: Vec<usize> = vec![2, 3];

    assert_eq!(findex.to_linear_index(&vec![1, 1], &dimensions).unwrap(), 0);
    assert_eq!(findex.to_linear_index(&vec![2, 1], &dimensions).unwrap(), 1);
    assert_eq!(findex.to_linear_index(&vec![1, 2], &dimensions).unwrap(), 2);
    assert_eq!(findex.to_linear_index(&vec![2, 3], &dimensions).unwrap(), 5);

    assert_eq!(findex.from_linear_index(0, &dimensions), vec![1, 1]);
    assert_eq!(findex.from_linear_index(1, &dimensions), vec![2, 1]);
    assert_eq!(findex.from_linear_index(2, &dimensions), vec![1, 2]);
    assert_eq!(findex.from_linear_index(5, &dimensions), vec![2, 3]);
}

#[test]
fn test_linear_index_out_of_bounds() {
    let bounds = vec![IndexBound::range(1, 2), IndexBound::range(1, 3)];
    let findex = FIndex::new(bounds, None);
    let dimensions: Vec<usize> = vec![2, 3];

    assert!(findex.to_linear_index(&vec![0, 1], &dimensions).is_err());
    assert!(findex.to_linear_index(&vec![3, 1], &dimensions).is_err());
    assert!(findex.to_linear_index(&vec![1], &dimensions).is_err());
}

#[test]
fn test_findex_reset() {
    let bounds = vec![IndexBound::range(1, 2)];
    let mut findex = FIndex::new(bounds, None);
    assert_eq!(findex.advance(), Some(vec![1]));
    assert_eq!(findex.advance(), Some(vec![2]));
    assert_eq!(findex.advance(), None);
    assert!(findex.is_exhausted());
    findex.reset();
    assert!(!findex.is_exhausted());
    assert_eq!(findex.advance(), Some(vec![1]));
}
