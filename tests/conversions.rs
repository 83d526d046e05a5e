use iter_to_array::{Chunks, ChunksDefault, ToArray, ToArrayDefault, ToArrayError, ToArrayPad};

#[test]
fn to_array() {
    assert_eq!((0..5).to_array(), Ok([0, 1, 2, 3, 4]));
    assert_eq!((0..5).to_array::<10>(), Err(ToArrayError::TooShort(5, 10)));
    assert_eq!((0..0).to_array::<10>(), Err(ToArrayError::TooShort(0, 10)));
    assert_eq!((0..5).to_array::<4>(), Err(ToArrayError::TooLong(4)));

    let mut iter = 0..10;
    assert_eq!(iter.take_array(), Ok([0, 1, 2, 3, 4]));
    assert_eq!(iter.take_array(), Ok([5, 6, 7]));
    assert_eq!(iter.take_array::<5>(), Err(ToArrayError::TooShort(2, 5)));
}

#[test]
fn to_array_default() {
    assert_eq!((0..5).to_array_default(), Ok([0, 1, 2, 3, 4]));
    assert_eq!((0..5).to_array_default(), Ok([0, 1, 2, 3, 4, 0, 0]));
    assert_eq!((0..0).to_array_default(), Ok([0; 10]));
    assert_eq!((0..5).to_array_default::<4>(), Err(ToArrayError::TooLong(4)));

    let mut iter = 0..8;
    assert_eq!(iter.take_array_default(), [0, 1, 2, 3, 4]);
    assert_eq!(iter.take_array_default(), [5, 6, 7, 0, 0]);
    assert_eq!(iter.take_array_default(), [0, 0, 0, 0, 0]);
}

#[test]
fn to_array_pad() {
    assert_eq!((0..5).to_array_pad(4), Ok([0, 1, 2, 3, 4]));
    assert_eq!((0..5).to_array_pad(4), Ok([0, 1, 2, 3, 4, 4, 4]));
    assert_eq!((0..0).to_array_pad(4), Ok([4; 10]));
    assert_eq!((0..5).to_array_pad::<4>(4), Err(ToArrayError::TooLong(4)));

    let mut iter = 0..8;
    assert_eq!(iter.take_array_pad(4), [0, 1, 2, 3, 4]);
    assert_eq!(iter.take_array_pad(4), [5, 6, 7, 4, 4]);
    assert_eq!(iter.take_array_pad(4), [4, 4, 4, 4, 4]);
}

#[test]
fn array_of_vecs() {
    let v = vec![(1..5).collect::<Vec<i32>>(); 5];
    let arr = v.into_iter().to_array::<5>().unwrap();
    for x in &arr {
        assert_eq!(*x, vec![1i32, 2, 3, 4])
    }
}

#[test]
#[should_panic]
fn array_of_vecs_fail() {
    let v = vec![(1..5).collect::<Vec<i32>>(); 5];
    v.into_iter().to_array::<6>().unwrap();
}

#[test]
fn chunks_iter() {
    let mut cycled = (0..5).cycle().take(100).chunks_default::<5>();
    while let Some(chunk) = cycled.next() {
        assert_eq!(chunk, [0, 1, 2, 3, 4])
    }
    let vec: Vec<usize> = (0..30).collect();
    let chunks1: Vec<[usize; 6]> = vec.clone().chunks(6).map(|x| x.try_into().unwrap()).collect();
    let chunks2: Vec<[usize; 6]> = vec.into_iter().chunks_default().collect_chunks();
    assert_eq!(chunks1, chunks2);

    let vec: Vec<[i32; 4]> = (0..8).chunks(|| -1).collect_chunks();
    assert_eq!(vec, vec![[0, 1, 2, 3], [4, 5, 6, 7]]);

    let vec: Vec<[i32; 4]> = (0..9).chunks(|| -1).collect_chunks();
    assert_eq!(vec, vec![[0, 1, 2, 3], [4, 5, 6, 7], [8, -1, -1, -1]]);

    let vec: Vec<[i32; 4]> = (0..4).chunks(|| -1).collect_chunks();
    assert_eq!(vec, vec![[0, 1, 2, 3]]);

    let vec: Vec<[i32; 4]> = (0..0).chunks(|| -1).collect_chunks();
    assert_eq!(vec, Vec::<[i32; 4]>::new());
}
