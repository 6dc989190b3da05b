use airline::server::queue::{Next, WorkQueue};
use airline::server::text::{
    bytes_eq, bytes_less, chars_of, push_decimal, push_signed_decimal, str_eq, string_of,
    string_of_latin1,
};

fn take(q: &mut WorkQueue<u32>) -> Option<u32> {
    match q.next() {
        Next::Work(w) => Some(w),
        _ => None,
    }
}

#[test]
fn units_come_out_once_and_in_order() {
    let mut q: WorkQueue<u32> = WorkQueue::new();
    assert!(q.is_open());
    assert_eq!(q.len(), 0);
    assert!(matches!(q.next(), Next::Wait));
    for unit in 0..100 {
        assert_eq!(q.add(unit), None);
    }
    assert_eq!(q.len(), 100);
    let mut seen = Vec::new();
    for _ in 0..40 {
        seen.push(take(&mut q).unwrap());
    }
    for unit in 100..120 {
        assert_eq!(q.add(unit), None);
    }
    while let Some(unit) = take(&mut q) {
        seen.push(unit);
    }
    assert_eq!(seen, (0..120).collect::<Vec<u32>>());
    assert_eq!(q.len(), 0);
    assert!(matches!(q.next(), Next::Wait));
}

#[test]
fn a_closed_queue_hands_out_what_waits_and_then_says_stop() {
    let mut q: WorkQueue<u32> = WorkQueue::new();
    assert_eq!(q.add(1), None);
    assert_eq!(q.add(2), None);
    q.close();
    assert!(!q.is_open());
    assert_eq!(q.add(3), Some(3));
    assert_eq!(q.len(), 2);
    assert!(matches!(q.next(), Next::Work(1)));
    assert!(matches!(q.next(), Next::Work(2)));
    assert!(matches!(q.next(), Next::Exit));
    assert!(matches!(q.next(), Next::Exit));
    q.close();
    assert!(matches!(q.next(), Next::Exit));
    let mut empty: WorkQueue<u32> = WorkQueue::new();
    empty.close();
    assert!(matches!(empty.next(), Next::Exit));
}

#[test]
fn decimal_numerals() {
    for n in [0u64, 1, 9, 10, 11, 99, 100, 101, 255, 1000, 404, u64::MAX] {
        let mut out = "n=".to_string();
        push_decimal(&mut out, n);
        assert_eq!(out, format!("n={}", n));
    }
    for n in [0i64, 1, -1, 10, -10, 2147483647, -2147483648, i64::MAX, i64::MIN] {
        let mut out = String::new();
        push_signed_decimal(&mut out, n);
        assert_eq!(out, n.to_string());
    }
}

#[test]
fn strings_and_bytes() {
    assert_eq!(chars_of("aé😀"), vec!['a', 'é', '😀']);
    assert_eq!(chars_of(""), Vec::<char>::new());
    let chars = vec!['a', 'é', '😀', 'b'];
    assert_eq!(string_of(&chars, 1, 3), "é😀");
    assert_eq!(string_of(&chars, 0, 4), "aé😀b");
    assert_eq!(string_of(&chars, 2, 2), "");
    assert_eq!(string_of_latin1(b"a\xe9\xff\x00b", 1, 4), "\u{e9}\u{ff}\u{0}");
    assert_eq!(string_of_latin1(b"abc", 0, 0), "");
    assert!(str_eq("", ""));
    assert!(str_eq("aé", "aé"));
    assert!(!str_eq("aé", "ae"));
    assert!(!str_eq("a", "ab"));
    assert!(!str_eq("ab", "a"));
    assert!(bytes_eq(b"", b""));
    assert!(bytes_eq(b"ab", b"ab"));
    assert!(!bytes_eq(b"ab", b"ac"));
    assert!(!bytes_eq(b"ab", b"abc"));
}

#[test]
fn byte_strings_are_ordered_as_words_in_a_dictionary() {
    let words: Vec<&[u8]> =
        vec![b"", b"/", b"/-", b"/B", b"/a", b"/a/", b"/a/b", b"/ab", b"/b", b"/\xc3\xa9"];
    for (i, a) in words.iter().enumerate() {
        for (j, b) in words.iter().enumerate() {
            assert_eq!(bytes_less(a, b), i < j, "{:?} {:?}", a, b);
            assert_eq!(bytes_less(a, b), a < b);
        }
    }
}
