use keylock::title::{set_title, TitleFilter, LOCK_PREFIX};

fn run(input: &[u8], locked: bool) -> Vec<u8> {
    TitleFilter::default().filter(input, locked)
}

#[test]
fn plain_output_passes_through() {
    let input = "hi \x1b[31mred\x1b[0m ✓ \x1bPq#0\x1b\\ \x1b]11;?\x07".as_bytes();
    assert_eq!(run(input, false), input);
    assert_eq!(run(input, true), input);
}

#[test]
fn titles_prefixed_only_while_locked() {
    assert_eq!(run(b"\x1b]2;build\x07", false), b"\x1b]2;build\x07");
    assert_eq!(
        run(b"\x1b]2;build\x07", true),
        "\x1b]2;🔒 build\x07".as_bytes()
    );
    assert_eq!(
        run(b"\x1b]0;build\x1b\\", true),
        "\x1b]0;🔒 build\x1b\\".as_bytes()
    );
}

#[test]
fn remembers_last_title_without_prefix() {
    let mut f = TitleFilter::default();
    assert_eq!(f.last_title(), None);
    f.filter(b"\x1b]2;one\x07x\x1b]0;two\x1b\\", true);
    assert_eq!(f.last_title(), Some(&b"two"[..]));
    f.filter(b"\x1b]11;rgb:0/0/0\x07", true);
    assert_eq!(f.last_title(), Some(&b"two"[..]));
}

#[test]
fn malformed_osc_is_passed_through() {
    assert_eq!(run(b"\x1b]2;abc\x1bXdef", true), b"\x1b]2;abc\x1bXdef");
}

#[test]
fn same_output_however_chunks_are_split() {
    let input = "a\x1b]2;tïtle\x07b\x1b[1;2Hc\x1bPdata\x1b\\d\x1b]0;x\x1b\\é".as_bytes();
    let whole = run(input, true);
    for at in 0..=input.len() {
        let mut f = TitleFilter::default();
        let (a, b) = input.split_at(at);
        let mut out = f.filter(a, true);
        out.extend(f.filter(b, true));
        assert_eq!(out, whole, "split at {at}");
    }
}

#[test]
fn tracks_whether_inside_a_sequence() {
    let mut f = TitleFilter::default();
    let steps: &[(&[u8], bool)] = &[
        (b"text", false),
        (b"\x1b", true),
        (b"[3", true),
        (b"1m", false),
        (b"\xe2\x94", true),
        (b"\x80", false),
        (b"\x1b]2;x", true),
        (b"\x07", false),
        (b"\x1bPq#0", true),
        (b"\x1b\\", false),
    ];
    for (chunk, inside) in steps {
        f.filter(chunk, false);
        assert_eq!(f.in_sequence(), *inside, "after {chunk:?}");
    }
}

#[test]
fn set_title_sequence() {
    assert_eq!(set_title(b"migrate"), b"\x1b]2;migrate\x07");
}

#[test]
fn lock_prefix_is_a_padlock_and_a_space() {
    assert_eq!(LOCK_PREFIX.as_bytes(), b"\xf0\x9f\x94\x92 ");
}

#[test]
fn memory_ignores_the_lock() {
    let input = b"\x1b]2;one\x07\x1b]1;icon\x07\x1b]0;two";
    let mut a = TitleFilter::default();
    let mut b = TitleFilter::default();
    let plain = a.filter(input, false);
    let marked = b.filter(input, true);
    assert_eq!(a.last_title(), Some(&b"one"[..]));
    assert_eq!(b.last_title(), Some(&b"one"[..]));
    assert_eq!(plain, b"\x1b]2;one\x07\x1b]1;icon\x07");
    assert_eq!(marked, "\x1b]2;🔒 one\x07\x1b]1;icon\x07".as_bytes());
    assert_eq!(a.filter(b"\x07", false), b"\x1b]0;two\x07");
    assert_eq!(b.filter(b"\x07", true), "\x1b]0;🔒 two\x07".as_bytes());
}

#[test]
fn overlong_osc_is_passed_through() {
    let mut input = b"\x1b]2;".to_vec();
    input.extend(vec![b'x'; 8190]);
    let mut f = TitleFilter::default();
    assert_eq!(f.filter(&input, true), b"");
    assert!(f.in_sequence());
    let out = f.filter(b"y\x07", true);
    let mut whole = input.clone();
    whole.extend_from_slice(b"y\x07");
    assert_eq!(out, whole);
    assert!(!f.in_sequence());
    assert_eq!(f.last_title(), None);
    // One byte shorter still is a title.
    let mut f = TitleFilter::default();
    f.filter(&input, false);
    f.filter(b"\x07", false);
    assert_eq!(f.last_title().map(|t| t.len()), Some(8190));
}

#[test]
fn broken_characters_and_escapes_recover() {
    let inputs: &[&[u8]] = &[
        b"\xe2x",
        b"\xf0\x9f\x94\x92z",
        b"\xc3\x1b[0m",
        b"\x1b\x1b[A",
        b"\x1b]2;a\x1b]2;b\x1b\x1b[m",
        b"\x1bX\x1b\x1b\\ok",
        b"\x80\xff",
        b"\x1b(B",
    ];
    for input in inputs {
        assert_eq!(run(input, false), *input, "{input:?}");
        assert_eq!(run(input, true), *input, "{input:?}");
    }
}

#[test]
fn empty_title_is_a_title() {
    let mut f = TitleFilter::default();
    assert_eq!(f.filter(b"\x1b]2;\x07", true), "\x1b]2;🔒 \x07".as_bytes());
    assert_eq!(f.last_title(), Some(&b""[..]));
    assert_eq!(f.filter(b"\x1b]2\x07", true), b"\x1b]2\x07");
}

#[test]
fn one_byte_outside_a_sequence() {
    for byte in 0..=255_u8 {
        let mut f = TitleFilter::default();
        let out = f.filter(&[byte], true);
        let expected = if byte == 0x1b { vec![] } else { vec![byte] };
        assert_eq!(out, expected, "{byte:#x}");
        let enters = byte == 0x1b || (0xc0..=0xf7).contains(&byte);
        assert_eq!(f.in_sequence(), enters, "{byte:#x}");
        assert_eq!(f.last_title(), None, "{byte:#x}");
    }
}

#[test]
fn locks_stand_in_front_of_titles() {
    assert_eq!(
        run(b"a\x1b]0;one\x07b\x1b]1;icon\x07\x1b]2;two\x1b\\c", true),
        "a\x1b]0;🔒 one\x07b\x1b]1;icon\x07\x1b]2;🔒 two\x1b\\c".as_bytes()
    );
}
