use rand::rngs::OsRng;
use rand::Rng;
use std::sync::Arc;
use string_pool::encoding::FromUtf16Error;
use string_pool::encoding::Utf8Error;
use string_pool::pool::GlobalPool;
use string_pool::pool::NoPool;
use string_pool::pool::Pool;
use string_pool::pool::SlicesWrap;
use string_pool::pool::StatsSnapshot;
use string_pool::String as PoolString;

fn pooled(text: &str, pool: &GlobalPool) -> PoolString {
    PoolString::from_str_in(text, pool.clone())
}

#[test]
fn push_str_yields_joined_content_in_the_pool() {
    let pool = GlobalPool::new();
    let mut s = pooled("foo", &pool);
    let foo = pool.raw_from_slice(b"foo");
    let bar = pool.raw_from_slice(b"bar");
    s.push_str("bar");
    assert_eq!(s.as_bytes(), b"foobar");
    assert_eq!(s.as_str(), "foobar");

    // the new buffer is one of its own, found by interning the same bytes
    let foobar = pool.raw_from_slice(b"foobar");
    assert!(!Arc::ptr_eq(&foobar, &foo));
    assert!(!Arc::ptr_eq(&foobar, &bar));
    assert_eq!(foobar.as_bytes().as_ptr(), s.as_bytes().as_ptr());
    // the string and the handle here, besides the store's own
    assert_eq!(Arc::strong_count(&foobar), 3);
    // the string has let go of "foo"
    assert_eq!(Arc::strong_count(&foo), 2);
}

#[test]
fn equal_strings_share_one_buffer() {
    let pool = GlobalPool::new();
    let a = pooled("same", &pool);
    let b = PoolString::from_utf8_in(b"same".to_vec(), pool.clone()).unwrap();
    let mut c = pooled("sa", &pool);
    c.push_str("me");
    assert_eq!(a.as_bytes().as_ptr(), b.as_bytes().as_ptr());
    assert_eq!(a.as_bytes().as_ptr(), c.as_bytes().as_ptr());
    assert_eq!(a.as_bytes(), b.as_bytes());
}

#[test]
fn mutation_replaces_the_handle_and_never_the_buffer() {
    let pool = GlobalPool::new();
    let mut a = pooled("abc", &pool);
    let b = pooled("abc", &pool);
    a.push('d');
    assert_eq!(a.as_str(), "abcd");
    assert_eq!(b.as_str(), "abc");
    a.truncate(1);
    assert_eq!(a.as_str(), "a");
    assert_eq!(b.as_str(), "abc");
}

#[test]
fn dropped_strings_are_reclaimed_only_on_request() {
    let pool = GlobalPool::new();
    let s = pooled("hello", &pool);
    let c1 = pooled("hello", &pool);
    let c2 = s.to_other_pool(pool.clone());
    let c3 = pooled("hello", &pool);
    drop(c1);
    drop(c2);
    assert_eq!(pool.remove_if_unreferenced(), 0);
    drop(s);
    assert_eq!(pool.remove_if_unreferenced(), 0);
    drop(c3);
    assert_eq!(pool.snapshot_stats(), StatsSnapshot::Stats {
        total: 1,
        referenced: 0,
        non_referenced: 1,
        max_ref_count: 0,
        min_ref_count: 0,
        max_byte_len: 5,
        min_byte_len: 5,
    });
    assert_eq!(pool.remove_if_unreferenced(), 1);
    assert_eq!(pool.snapshot_stats(), StatsSnapshot::Empty);
}

#[test]
fn new_in_is_empty() {
    let s = PoolString::new_in(NoPool);
    assert_eq!(s.as_bytes(), b"");
    assert_eq!(s.len(), 0);
    assert!(s.is_empty());
    assert_eq!(s.as_str(), "");
}

#[test]
fn from_utf8_takes_valid_bytes() {
    let s = PoolString::from_utf8_in("héllo".as_bytes().to_vec(), NoPool).unwrap();
    assert_eq!(s.as_str(), "héllo");
    assert_eq!(s.len(), 6);
    let s = PoolString::from_utf8_slice_in("日本".as_bytes(), NoPool).unwrap();
    assert_eq!(s.as_str(), "日本");
    let s = PoolString::from_utf8_slice_in(b"", NoPool).unwrap();
    assert!(s.is_empty());
}

#[test]
fn from_utf8_hands_back_invalid_bytes_with_the_reason() {
    let bytes = vec![b'a', b'b', 0xff, b'c'];
    let error = PoolString::from_utf8_in(bytes.clone(), NoPool).err().unwrap();
    assert_eq!(error.as_bytes(), &bytes[..]);
    assert_eq!(error.utf8_error(), Utf8Error { valid_up_to: 2, error_len: Some(1) });
    assert_eq!(error.utf8_error().valid_up_to(), 2);
    assert_eq!(error.utf8_error().error_len(), Some(1));
    assert_eq!(error.into_bytes(), bytes);
}

#[test]
fn from_utf8_slice_says_where_it_stops() {
    // cut in the middle of a character: the input ends too early
    let error = PoolString::from_utf8_slice_in(&"aé".as_bytes()[..2], NoPool).err().unwrap();
    assert_eq!(error, Utf8Error { valid_up_to: 1, error_len: None });
    // a surrogate, encoded: three bytes of which the first two are refused
    let error = PoolString::from_utf8_slice_in(&[0xed, 0xa0, 0x80], NoPool).err().unwrap();
    assert_eq!(error, Utf8Error { valid_up_to: 0, error_len: Some(1) });
    // an overlong encoding
    let error = PoolString::from_utf8_slice_in(&[b'x', 0xc0, 0x80], NoPool).err().unwrap();
    assert_eq!(error, Utf8Error { valid_up_to: 1, error_len: Some(1) });
    // a sequence that breaks off after two of its three bytes
    let error = PoolString::from_utf8_slice_in(&[0xe2, 0x82, b'a'], NoPool).err().unwrap();
    assert_eq!(error, Utf8Error { valid_up_to: 0, error_len: Some(2) });
}

#[test]
fn from_utf8_lossy_replaces_what_is_invalid() {
    let s = PoolString::from_utf8_lossy_in(b"Hello \xF0\x90\x80World", NoPool);
    assert_eq!(s.as_str(), "Hello \u{fffd}World");
    let s = PoolString::from_utf8_lossy_in("plain ✓".as_bytes(), NoPool);
    assert_eq!(s.as_str(), "plain ✓");
}

#[test]
fn from_utf16_decodes_pairs() {
    let units = [0xD834, 0xDD1E, 0x006d, 0x0075, 0x0073, 0x0069, 0x0063];
    let s = PoolString::from_utf16_in(&units, NoPool).unwrap();
    assert_eq!(s.as_str(), "𝄞music");
    let s = PoolString::from_utf16_lossy_in(&units, NoPool);
    assert_eq!(s.as_str(), "𝄞music");
}

#[test]
fn from_utf16_refuses_a_lone_surrogate() {
    let units = [0xD834, 0xDD1E, 0x006d, 0x0075, 0xD800, 0x0069, 0x0063];
    let error = PoolString::from_utf16_in(&units, NoPool).err().unwrap();
    assert_eq!(error, FromUtf16Error);
    let s = PoolString::from_utf16_lossy_in(&units, NoPool);
    assert_eq!(s.as_str(), "𝄞mu\u{fffd}ic");
}

#[test]
fn unchecked_constructors_take_valid_bytes_as_they_are() {
    let s = PoolString::from_utf8_unchecked_in("äb".as_bytes().to_vec(), NoPool);
    assert_eq!(s.as_str(), "äb");
    let s = PoolString::from_utf8_unchecked_slice_in("äb".as_bytes(), NoPool);
    assert_eq!(s.as_str(), "äb");
}

#[test]
fn content_moves_between_pools() {
    let pool = GlobalPool::new();
    let s = PoolString::from_str_in("move me", NoPool);
    let t = s.to_other_pool(pool.clone());
    let u = s.clone_to(pool.clone());
    assert_eq!(t.as_str(), "move me");
    assert_eq!(t.as_bytes().as_ptr(), u.as_bytes().as_ptr());
    let v = t.into_other_pool(NoPool);
    assert_eq!(v.as_str(), "move me");
    assert_eq!(v.into_bytes(), b"move me".to_vec());
    assert_eq!(s.as_str(), "move me");
}

#[test]
fn push_encodes_every_width() {
    let mut s = PoolString::new_in(NoPool);
    s.push('a');
    assert_eq!(s.as_bytes(), &[0x61]);
    s.push('ß');
    assert_eq!(s.as_bytes(), &[0x61, 0xc3, 0x9f]);
    s.push('€');
    assert_eq!(s.as_bytes(), &[0x61, 0xc3, 0x9f, 0xe2, 0x82, 0xac]);
    s.push('𝄞');
    assert_eq!(s.as_bytes(), &[0x61, 0xc3, 0x9f, 0xe2, 0x82, 0xac, 0xf0, 0x9d, 0x84, 0x9e]);
    assert_eq!(s.as_str(), "aß€𝄞");
}

#[test]
fn pop_takes_whole_characters() {
    let mut s = PoolString::from_str_in("aß€𝄞", NoPool);
    assert_eq!(s.pop(), Some('𝄞'));
    assert_eq!(s.as_str(), "aß€");
    assert_eq!(s.pop(), Some('€'));
    assert_eq!(s.pop(), Some('ß'));
    assert_eq!(s.as_str(), "a");
    assert_eq!(s.pop(), Some('a'));
    assert_eq!(s.as_str(), "");
    assert_eq!(s.pop(), None);
    assert_eq!(s.as_str(), "");
}

#[test]
fn truncate_cuts_on_a_boundary() {
    let mut s = PoolString::from_str_in("aß€", NoPool);
    s.truncate(10);
    assert_eq!(s.as_str(), "aß€");
    s.truncate(6);
    assert_eq!(s.as_str(), "aß€");
    s.truncate(3);
    assert_eq!(s.as_str(), "aß");
    s.truncate(0);
    assert_eq!(s.as_str(), "");
}

#[test]
fn remove_takes_the_character_at_the_index() {
    let mut s = PoolString::from_str_in("aß€𝄞z", NoPool);
    assert_eq!(s.remove(1), 'ß');
    assert_eq!(s.as_str(), "a€𝄞z");
    assert_eq!(s.remove(0), 'a');
    assert_eq!(s.as_str(), "€𝄞z");
    assert_eq!(s.remove(7), 'z');
    assert_eq!(s.as_str(), "€𝄞");
    assert_eq!(s.remove(3), '𝄞');
    assert_eq!(s.remove(0), '€');
    assert!(s.is_empty());
}

#[test]
fn insert_puts_text_at_the_index() {
    let mut s = PoolString::from_str_in("ad", NoPool);
    s.insert_str(1, "bc");
    assert_eq!(s.as_str(), "abcd");
    s.insert(0, '€');
    assert_eq!(s.as_str(), "€abcd");
    s.insert(7, '!');
    assert_eq!(s.as_str(), "€abcd!");
    s.insert_str(3, "");
    assert_eq!(s.as_str(), "€abcd!");
    s.insert(3, 'ß');
    assert_eq!(s.as_str(), "€ßabcd!");
}

#[test]
fn split_off_cuts_in_two() {
    let pool = GlobalPool::new();
    let mut s = pooled("hello, world", &pool);
    let rest = s.split_off(5);
    assert_eq!(s.as_str(), "hello");
    assert_eq!(rest.as_str(), ", world");
    // the rest lives in the same pool
    let raw = pool.raw_from_slice(b", world");
    assert_eq!(raw.as_bytes().as_ptr(), rest.as_bytes().as_ptr());

    let mut t = pooled("ab", &pool);
    let all = t.split_off_in(0, NoPool);
    assert_eq!(t.as_str(), "");
    assert_eq!(all.as_str(), "ab");
    let mut u = pooled("ab", &pool);
    let none = u.split_off(2);
    assert_eq!(u.as_str(), "ab");
    assert_eq!(none.as_str(), "");
}

#[test]
fn clear_empties() {
    let mut s = PoolString::from_str_in("gone", NoPool);
    s.clear();
    assert!(s.is_empty());
    s.clear();
    assert!(s.is_empty());
}

#[test]
fn retain_keeps_runs_of_characters() {
    let mut s = PoolString::from_str_in("f_o_o__bär_", NoPool);
    s.retain(|c| c != '_');
    assert_eq!(s.as_str(), "foobär");
    s.retain(|c| c.is_ascii());
    assert_eq!(s.as_str(), "foobr");
    s.retain(|_| true);
    assert_eq!(s.as_str(), "foobr");
    s.retain(|_| false);
    assert_eq!(s.as_str(), "");
    s.retain(|_| true);
    assert_eq!(s.as_str(), "");
}

#[test]
fn retain_interns_the_result() {
    let pool = GlobalPool::new();
    let mut s = pooled("a1b2c3", &pool);
    let abc = pool.raw_from_slice(b"abc");
    s.retain(|c| c.is_alphabetic());
    assert_eq!(s.as_bytes().as_ptr(), abc.as_bytes().as_ptr());
}

#[test]
fn is_char_boundary_agrees_with_std() {
    let text = "aß€𝄞z";
    let s = PoolString::from_str_in(text, NoPool);
    for i in 0..text.len() + 3 {
        assert_eq!(s.is_char_boundary(i), text.is_char_boundary(i));
    }
}

fn random_boundary(reference: &str) -> usize {
    loop {
        let i = OsRng.gen_range(0..=reference.len());
        if reference.is_char_boundary(i) {
            return i;
        }
    }
}

fn random_char() -> char {
    match OsRng.gen_range(0..4) {
        0 => OsRng.gen_range('a'..='z'),
        1 => OsRng.gen_range('\u{80}'..='\u{7ff}'),
        2 => OsRng.gen_range('\u{800}'..='\u{d7ff}'),
        _ => OsRng.gen_range('\u{10000}'..='\u{10ffff}'),
    }
}

#[test]
fn mutations_match_the_standard_string() {
    let pool = GlobalPool::new();
    for _ in 0..20 {
        let mut reference = String::new();
        let mut pooled = PoolString::new_in(pool.clone());
        for _ in 0..200 {
            match OsRng.gen_range(0..8) {
                0 => {
                    let ch = random_char();
                    reference.push(ch);
                    pooled.push(ch);
                }
                1 => {
                    let i = random_boundary(&reference);
                    let ch = random_char();
                    reference.insert(i, ch);
                    pooled.insert(i, ch);
                }
                2 => {
                    let i = random_boundary(&reference);
                    if i < reference.len() {
                        assert_eq!(pooled.remove(i), reference.remove(i));
                    }
                }
                3 => {
                    assert_eq!(pooled.pop(), reference.pop());
                }
                4 => {
                    let i = random_boundary(&reference);
                    reference.truncate(i);
                    pooled.truncate(i);
                }
                5 => {
                    let dropped = random_char();
                    reference.retain(|c| c != dropped && c as u32 % 7 != 0);
                    pooled.retain(|c| c != dropped && c as u32 % 7 != 0);
                }
                6 => {
                    let text: String = (0..OsRng.gen_range(0..5)).map(|_| random_char()).collect();
                    reference.push_str(&text);
                    pooled.push_str(&text);
                }
                _ => {
                    let i = random_boundary(&reference);
                    let text: String = (0..OsRng.gen_range(0..5)).map(|_| random_char()).collect();
                    reference.insert_str(i, &text);
                    pooled.insert_str(i, &text);
                }
            }
            assert_eq!(pooled.as_bytes(), reference.as_bytes());
            assert_eq!(pooled.as_str(), reference);
        }
    }
}

#[test]
fn mutations_probe_the_pool_with_slices() {
    let pool = GlobalPool::new();
    let target = pool.raw_from_slice("a€c".as_bytes());
    let mut s = pooled("ac", &pool);
    s.insert(1, '€');
    assert_eq!(s.as_bytes().as_ptr(), target.as_bytes().as_ptr());
    let parts: [&[u8]; 3] = [b"a", "€".as_bytes(), b"c"];
    let found = pool.get(SlicesWrap(&parts)).unwrap();
    assert!(Arc::ptr_eq(&found, &target));
}
