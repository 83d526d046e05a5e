use iter_to_array::{
    Chunks, ChunksDefault, MaybePartial, ToArray, ToArrayDefault, ToArrayError, ToArrayPad,
};

fn words() -> Vec<String> {
    vec!["a".to_string(), "b".to_string(), "c".to_string()]
}

#[test]
fn exact_length_gives_items_in_order() {
    let mut it = words().into_iter();
    assert_eq!(
        it.take_array::<3>(),
        Ok(["a".to_string(), "b".to_string(), "c".to_string()])
    );
    assert_eq!(it.next(), None);
    assert_eq!(
        words().into_iter().to_array::<3>(),
        Ok(["a".to_string(), "b".to_string(), "c".to_string()])
    );
}

#[test]
fn short_source_is_too_short() {
    assert_eq!(words().into_iter().take_array::<7>(), Err(ToArrayError::TooShort(3, 7)));
    assert_eq!(words().into_iter().to_array::<4>(), Err(ToArrayError::TooShort(3, 4)));
}

#[test]
fn long_source_take_leaves_rest_and_to_is_too_long() {
    let mut it = 10..20u64;
    assert_eq!(it.take_array::<3>(), Ok([10, 11, 12]));
    assert_eq!(it.next(), Some(13));
    assert_eq!((10..20u64).to_array::<3>(), Err(ToArrayError::TooLong(3)));
    assert_eq!((0..4).to_array::<3>(), Err(ToArrayError::TooLong(3)));
}

#[test]
fn zero_size_array_takes_nothing() {
    let mut it = 1..3;
    assert_eq!(it.take_array::<0>(), Ok([]));
    assert_eq!(it.next(), Some(1));
    assert_eq!((0..0).to_array::<0>(), Ok([]));
    assert_eq!((0..1).to_array::<0>(), Err(ToArrayError::TooLong(0)));
}

#[test]
fn default_and_pad_never_too_short() {
    assert_eq!(
        words().into_iter().take_array_default::<5>(),
        ["a".to_string(), "b".to_string(), "c".to_string(), String::new(), String::new()]
    );
    assert_eq!(
        words().into_iter().to_array_pad::<4>("z".to_string()),
        Ok(["a".to_string(), "b".to_string(), "c".to_string(), "z".to_string()])
    );
    assert_eq!(
        words().into_iter().to_array_pad::<2>("z".to_string()),
        Err(ToArrayError::TooLong(2))
    );
    assert_eq!((1..3u8).to_array_default::<4>(), Ok([1, 2, 0, 0]));
}

#[test]
fn partial_on_empty_source_calls_no_padding() {
    let mut calls = 0;
    let r = (0..0).take_array_partial::<_, 3>(|| {
        calls += 1;
        -1
    });
    assert_eq!(r, MaybePartial::Empty);
    assert_eq!(calls, 0);
}

#[test]
fn partial_fills_rest_in_call_order() {
    let mut next = 100;
    let r = (1..3).take_array_partial::<_, 5>(|| {
        next += 1;
        next
    });
    assert_eq!(r, MaybePartial::Partial([1, 2, 101, 102, 103], 2));
    assert_eq!(next, 103);
}

#[test]
fn partial_on_long_source_is_full() {
    let mut calls = 0;
    let mut it = 0..6;
    let r = it.take_array_partial::<_, 4>(|| {
        calls += 1;
        -1
    });
    assert_eq!(r, MaybePartial::Full([0, 1, 2, 3]));
    assert_eq!(calls, 0);
    assert_eq!(it.next(), Some(4));
}

#[test]
fn chunk_count_is_length_over_size_rounded_up() {
    for len in 0..14i32 {
        let chunks: Vec<[i32; 4]> = (0..len).chunks(|| -1).collect_chunks();
        let expected = ((len + 3) / 4) as usize;
        assert_eq!(chunks.len(), expected);
        for (c, chunk) in chunks.iter().enumerate() {
            for (j, x) in chunk.iter().enumerate() {
                let k = (c * 4 + j) as i32;
                if k < len {
                    assert_eq!(*x, k);
                } else {
                    assert_eq!(*x, -1);
                }
            }
        }
    }
}

#[test]
fn chunks_next_ends_after_ragged_chunk() {
    let mut it = (0..5).chunks_default::<3>();
    assert_eq!(it.next(), Some([0, 1, 2]));
    assert_eq!(it.next(), Some([3, 4, 0]));
    assert_eq!(it.next(), None);
    assert_eq!(it.next(), None);
}

#[test]
fn chunks_default_pads_last_chunk() {
    let v: Vec<[i32; 4]> = (0..9).chunks_default().collect_chunks();
    assert_eq!(v, vec![[0, 1, 2, 3], [4, 5, 6, 7], [8, 0, 0, 0]]);
}
