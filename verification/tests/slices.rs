use hashbrown::Equivalent;
use rand::rngs::OsRng;
use rand::Rng;
use std::hash::BuildHasher;
use std::hash::Hash;
use std::hash::Hasher;
use std::iter::repeat;
use std::sync::Arc;
use string_pool::digest::hash_bytes;
use string_pool::pool::order_bytes;
use string_pool::pool::same_bytes;
use string_pool::pool::ByteOrder;
use string_pool::pool::SliceHashWrap;
use string_pool::pool::SlicesWrap;

fn rand_string() -> String {
    let mut vec = vec![' '; OsRng.gen_range(1..100)];
    OsRng.fill(&mut *vec);
    vec.into_iter().collect()
}

#[test]
fn slices_wrap_iter_hash_and_eq() {
    let hash_builder = hashbrown::hash_map::DefaultHashBuilder::default();

    let hash_item = |item: &dyn Fn(&mut dyn Hasher)| {
        let mut hasher = hash_builder.build_hasher();
        item(&mut hasher);
        hasher.finish()
    };

    for _ in 0..100 {
        // generate vec of random length 0-10, with strings 0-100 chars
        let strs = repeat(0u8)
            .take(OsRng.gen_range(1..10))
            .map(|_| rand_string())
            .collect::<Vec<_>>();

        // create instance of SliceHashWrap (joining strings)
        let pool_strs = strs.iter().map(|s| &**s).collect::<String>();
        let pool_strs = Arc::new(SliceHashWrap::new(pool_strs.into_bytes().into_boxed_slice()));

        // create instance of SlicesWrap
        let mut _slices = strs.iter().map(|s| s.as_bytes()).collect::<Vec<_>>();
        let slices = SlicesWrap(&_slices);

        let hash_pool = hash_item(&|mut hasher| pool_strs.hash(&mut hasher));
        let hash_slices = hash_item(&|mut hasher| slices.hash(&mut hasher));

        // test hash eq
        assert_eq!(hash_pool, hash_slices, "hashes should be equal");
        // test actual eq
        assert!(slices.equivalent(&pool_strs), "pool and slices should be equal");

        let last = _slices.last_mut().unwrap();
        let last_str = std::str::from_utf8(last).unwrap();
        *last = &last[..last.len() - last_str.chars().last().unwrap().len_utf8()];

        let slices = SlicesWrap(&_slices);
        let hash_slices = hash_item(&|mut hasher| slices.hash(&mut hasher));

        assert_ne!(hash_pool, hash_slices, "hashes should not be eq");
        assert!(!slices.equivalent(&pool_strs), "pool and slices should not be equal");
    }
}

#[test]
fn content_hash_is_the_hash_under_the_default_hasher() {
    let hash_builder = hashbrown::hash_map::DefaultHashBuilder::default();
    let parts: [&[u8]; 3] = [b"con", b"", "tent ✓".as_bytes()];
    let slices = SlicesWrap(&parts);
    let buffer = Arc::new(SliceHashWrap::new(slices.to_boxed_slice()));

    let mut hasher = hash_builder.build_hasher();
    slices.hash(&mut hasher);
    assert_eq!(hasher.finish(), slices.content_hash());

    let mut hasher = hash_builder.build_hasher();
    buffer.hash(&mut hasher);
    assert_eq!(hasher.finish(), buffer.content_hash());
    assert_eq!(slices.content_hash(), buffer.content_hash());

    // byte by byte, with no length and no end mark
    let mut hasher = hash_builder.build_hasher();
    for byte in "content ✓".bytes() {
        hasher.write_u8(byte);
    }
    assert_eq!(hasher.finish(), slices.content_hash());
}

#[test]
fn two_slices_hash_and_equal_as_one() {
    let split: [&[u8]; 2] = [b"ab", b"c"];
    let whole: [&[u8]; 1] = [b"abc"];
    let split = SlicesWrap(&split);
    let whole = SlicesWrap(&whole);
    let buffer = Arc::new(SliceHashWrap::new(b"abc".to_vec().into_boxed_slice()));

    assert_eq!(split.content_hash(), whole.content_hash());
    assert_eq!(split.content_hash(), buffer.content_hash());
    assert_eq!(split.content_hash(), hash_bytes(b"abc"));
    assert!(split.equivalent(&buffer));
    assert!(whole.equivalent(&buffer));
}

#[test]
fn every_partition_hashes_and_equals_alike() {
    let content = "grüße, мир! 🎉".as_bytes();
    let buffer = Arc::new(SliceHashWrap::new(content.to_vec().into_boxed_slice()));
    let expected = hash_bytes(content);
    for i in 0..=content.len() {
        for j in i..=content.len() {
            let parts: [&[u8]; 5] = [&content[..i], &[], &content[i..j], &content[j..], &[]];
            let slices = SlicesWrap(&parts);
            assert_eq!(slices.content_hash(), expected);
            assert!(slices.equivalent(&buffer));
            assert_eq!(&*slices.to_boxed_slice(), content);
        }
    }
}

#[test]
fn hash_tells_content_apart() {
    assert_ne!(hash_bytes(b"abc"), hash_bytes(b"abd"));
    assert_ne!(hash_bytes(b"abc"), hash_bytes(b"ab"));
    assert_ne!(hash_bytes(b""), hash_bytes(b"\0"));
}

#[test]
fn hash_is_the_same_on_every_call() {
    assert_eq!(hash_bytes(b"hello"), hash_bytes(b"hello"));
    let parts: [&[u8]; 2] = [b"hel", b"lo"];
    assert_eq!(SlicesWrap(&parts).content_hash(), SlicesWrap(&parts).content_hash());
}

#[test]
fn to_boxed_slice_joins_in_order() {
    let parts: [&[u8]; 4] = [b"foo", b"", b"bar", b"baz"];
    assert_eq!(&*SlicesWrap(&parts).to_boxed_slice(), b"foobarbaz");
}

#[test]
fn to_boxed_slice_of_nothing_is_empty() {
    let none: [&[u8]; 0] = [];
    assert_eq!(SlicesWrap(&none).to_boxed_slice().len(), 0);
    let empties: [&[u8]; 3] = [b"", b"", b""];
    assert_eq!(SlicesWrap(&empties).to_boxed_slice().len(), 0);
}

#[test]
fn iterator_yields_the_joined_bytes() {
    let parts: [&[u8]; 5] = [b"", b"ab", b"", b"c", b""];
    let mut iter = SlicesWrap(&parts).into_iter();
    assert_eq!(iter.size_hint(), (3, Some(3)));
    assert_eq!(iter.next(), Some(b'a'));
    assert_eq!(iter.size_hint(), (2, Some(2)));
    assert_eq!(iter.next(), Some(b'b'));
    assert_eq!(iter.next(), Some(b'c'));
    assert_eq!(iter.size_hint(), (0, Some(0)));
    assert_eq!(iter.next(), None);
    assert_eq!(iter.next(), None);
}

#[test]
fn iterator_of_nothing_ends_at_once() {
    let none: [&[u8]; 0] = [];
    let mut iter = SlicesWrap(&none).into_iter();
    assert_eq!(iter.size_hint(), (0, Some(0)));
    assert_eq!(iter.next(), None);
}

#[test]
fn equivalent_tells_length_and_content() {
    let buffer = Arc::new(SliceHashWrap::new(b"abc".to_vec().into_boxed_slice()));
    let shorter: [&[u8]; 2] = [b"a", b"b"];
    let longer: [&[u8]; 2] = [b"abc", b"d"];
    let other: [&[u8]; 2] = [b"ab", b"x"];
    let none: [&[u8]; 0] = [];
    assert!(!SlicesWrap(&shorter).equivalent(&buffer));
    assert!(!SlicesWrap(&longer).equivalent(&buffer));
    assert!(!SlicesWrap(&other).equivalent(&buffer));
    assert!(!SlicesWrap(&none).equivalent(&buffer));

    let empty = Arc::new(SliceHashWrap::new(Vec::new().into_boxed_slice()));
    assert!(SlicesWrap(&none).equivalent(&empty));
    assert!(!SlicesWrap(&shorter).equivalent(&empty));
}

#[test]
fn buffers_compare_by_content() {
    let a = SliceHashWrap::new(b"abc".to_vec().into_boxed_slice());
    let b = SliceHashWrap::new(b"abc".to_vec().into_boxed_slice());
    let c = SliceHashWrap::new(b"abd".to_vec().into_boxed_slice());
    let d = SliceHashWrap::new(b"ab".to_vec().into_boxed_slice());
    assert!(a == b);
    assert!(a != c);
    assert!(a != d);
    assert_eq!(a.as_bytes(), b"abc");
}

#[test]
fn bytes_are_ordered_lexicographically() {
    assert_eq!(order_bytes(b"", b""), ByteOrder::Same);
    assert_eq!(order_bytes(b"", b"a"), ByteOrder::Before);
    assert_eq!(order_bytes(b"a", b""), ByteOrder::After);
    assert_eq!(order_bytes(b"ab", b"abc"), ByteOrder::Before);
    assert_eq!(order_bytes(b"abd", b"abc"), ByteOrder::After);
    assert_eq!(order_bytes(b"b", b"abc"), ByteOrder::After);
    assert_eq!(order_bytes(b"abc", b"abc"), ByteOrder::Same);
    assert_eq!(order_bytes(&[0x7f], &[0x80]), ByteOrder::Before);
    assert!(same_bytes(b"abc", b"abc"));
    assert!(!same_bytes(b"abc", b"abd"));
    assert!(!same_bytes(b"abc", b"ab"));
    assert!(same_bytes(b"", b""));
}
