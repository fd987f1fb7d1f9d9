use keylock::gate::{Event, Gate, Output};

fn unlocked() -> Gate {
    Gate::new(false, true, Some("unlock".into()))
}

fn locked() -> Gate {
    Gate::new(true, true, Some("unlock".into()))
}

fn no_hotkey() -> Gate {
    Gate::new(false, false, Some("unlock".into()))
}

fn locked_no_phrase() -> Gate {
    Gate::new(true, true, None)
}

/// Feeds `parts` in order, then flushes. Returns forwarded bytes and
/// events without `DroppedInput` (its per-call dedup depends on splits).
fn drive(mut gate: Gate, parts: &[&[u8]]) -> (Vec<u8>, Vec<Event>) {
    let mut forward = Vec::new();
    let mut events = Vec::new();
    let mut collect = |out: Output| {
        forward.extend(out.forward);
        events.extend(out.events.into_iter().filter(|e| *e != Event::DroppedInput));
    };
    for part in parts {
        collect(gate.feed(part));
    }
    collect(gate.flush());
    (forward, events)
}

type Case = (fn() -> Gate, &'static [u8], &'static [u8], &'static [Event]);

const CASES: &[Case] = &[
    (unlocked, b"hello\x03\x1b[A", b"hello\x03\x1b[A", &[]),
    (unlocked, b"ab\x1dlcd", b"ab", &[Event::Lock]),
    (unlocked, b"\x1b[93;5ulcd", b"", &[Event::Lock]),
    (unlocked, b"\x1d\x1b[108u", b"", &[Event::Lock]),
    (unlocked, b"\x1d\x1d", b"\x1d", &[]),
    (unlocked, b"\x1b[93;5u\x1b[93;5u", b"\x1b[93;5u", &[]),
    (unlocked, b"\x1dx", b"\x1dx", &[]),
    (
        unlocked,
        b"\x1b[200~\x1dl\x1b[201~",
        b"\x1b[200~\x1dl\x1b[201~",
        &[],
    ),
    (no_hotkey, b"\x1dl", b"\x1dl", &[]),
    (locked, b"abc\x03\x1b[A\x1b[<0;3;4M\x1dl", b"", &[]),
    (locked, b"unlock\rhi", b"hi", &[Event::Unlock]),
    (locked, b"unlock\nhi", b"hi", &[Event::Unlock]),
    (locked, b"unl\x1b[Dock\r", b"", &[]),
    (locked, b"xunlock\r", b"", &[]),
    (locked, b"\x1b[200~unlock\r\x1b[201~", b"", &[]),
    (
        locked,
        b"\x1b[200~x\x1b[201~unlock\r",
        b"",
        &[Event::Unlock],
    ),
    (locked, b"\x1b[M !!unlock\r", b"", &[Event::Unlock]),
    (
        locked,
        b"\x1b]11;rgb:0/0/0\x07unlock\r",
        b"",
        &[Event::Unlock],
    ),
    (locked_no_phrase, b"unlock\r", b"", &[]),
];

#[test]
fn cases_in_one_read() {
    for (i, (gate, input, forward, events)) in CASES.iter().enumerate() {
        let (f, e) = drive(gate(), &[*input]);
        assert_eq!(f, *forward, "case {i}: forward");
        assert_eq!(e, *events, "case {i}: events");
    }
}

#[test]
fn cases_split_at_every_boundary() {
    for (i, (gate, input, forward, events)) in CASES.iter().enumerate() {
        for at in 0..=input.len() {
            let (a, b) = input.split_at(at);
            assert_eq!(
                drive(gate(), &[a, b]),
                (forward.to_vec(), events.to_vec()),
                "case {i} split at {at}"
            );
        }
        let bytes: Vec<&[u8]> = input.chunks(1).collect();
        assert_eq!(
            drive(gate(), &bytes),
            (forward.to_vec(), events.to_vec()),
            "case {i} byte by byte"
        );
    }
}

#[test]
fn dropped_input_reported_once_per_feed() {
    let mut gate = locked();
    assert_eq!(gate.feed(b"abc").events, vec![Event::DroppedInput]);
    assert_eq!(unlocked().feed(b"abc").events, vec![]);
}

#[test]
fn phrase_buffer_overflow() {
    let mut gate = locked();
    let mut input = vec![b'x'; 256];
    input.extend_from_slice(b"unlock\r");
    assert!(!gate.feed(&input).events.contains(&Event::Unlock));
    assert!(gate.feed(b"unlock\r").events.contains(&Event::Unlock));
}

#[test]
fn lone_escape_waits_for_flush() {
    let mut gate = unlocked();
    assert_eq!(gate.feed(b"\x1b").forward, b"");
    assert!(gate.has_partial());
    assert_eq!(gate.flush().forward, b"\x1b");
    assert!(!gate.has_partial());
}

#[test]
fn set_locked_reports_change_and_resets_state() {
    let mut gate = unlocked();
    assert_eq!(gate.feed(b"\x1d").forward, b"");
    assert!(gate.set_locked(true));
    assert!(!gate.set_locked(true));
    assert!(gate.is_locked());
    // The pending Ctrl+] was discarded, so this `l` is forwarded, not a lock.
    assert!(gate.set_locked(false));
    assert_eq!(gate.feed(b"l").forward, b"l");
    // Half-typed phrase is discarded on lock.
    gate.set_locked(true);
    gate.feed(b"unl");
    gate.set_locked(false);
    gate.set_locked(true);
    assert!(!gate.feed(b"ock\r").events.contains(&Event::Unlock));
}

#[test]
fn set_locked_discards_a_partial_escape() {
    // ESC typed while locked, then `keylock off` before the escape timeout.
    let mut gate = locked();
    gate.feed(b"\x1b");
    assert!(gate.set_locked(false));
    assert!(!gate.has_partial());
    assert_eq!(gate.flush(), Output::default());
    assert_eq!(gate.feed(b"x").forward, b"x");

    // And the other way: a half-typed sequence is not dropped as a key later.
    let mut gate = unlocked();
    gate.feed(b"\x1b[");
    assert!(gate.set_locked(true));
    assert!(!gate.has_partial());
    assert_eq!(gate.flush(), Output::default());
}

#[test]
fn longest_comparable_phrase_unlocks_and_a_longer_one_never_does() {
    let phrase = "p".repeat(256);
    let mut gate = Gate::new(true, true, Some(phrase.clone()));
    gate.feed(phrase.as_bytes());
    assert!(gate.is_locked());
    assert_eq!(gate.feed(b"\r").events, vec![Event::DroppedInput, Event::Unlock]);
    assert!(!gate.is_locked());

    let phrase = "p".repeat(257);
    let mut gate = Gate::new(true, true, Some(phrase.clone()));
    gate.feed(phrase.as_bytes());
    assert_eq!(gate.feed(b"\r").events, vec![Event::DroppedInput]);
    assert!(gate.is_locked());
}

#[test]
fn phrase_without_enter_stays_locked() {
    let mut gate = locked();
    assert_eq!(gate.feed(b"unlock").events, vec![Event::DroppedInput]);
    assert!(gate.is_locked());
    assert_eq!(gate.feed(b"ed\r").events, vec![Event::DroppedInput]);
    assert!(gate.is_locked());
}

#[test]
fn reads_can_be_split_anywhere() {
    let input = b"a\x1d\x1dl\x1b[200~x\x1b[201~\x1dlno\x03unlock\r!\x1bOA\x1b";
    let whole = drive(unlocked(), &[&input[..]]);
    assert_eq!(
        whole,
        (
            b"a\x1dl\x1b[200~x\x1b[201~!\x1bOA\x1b".to_vec(),
            vec![Event::Lock, Event::Unlock]
        )
    );
    for at in 0..=input.len() {
        let (a, b) = input.split_at(at);
        assert_eq!(drive(unlocked(), &[a, b]), whole, "split at {at}");
    }
}

#[test]
fn control_key_in_the_line_starts_it_again() {
    let mut gate = locked();
    gate.feed(b"no\x03unlock\r");
    assert!(!gate.is_locked());
}

#[test]
fn endless_sequence_is_cut() {
    let mut gate = unlocked();
    let mut input = b"\x1b]".to_vec();
    input.extend(vec![b'x'; 4093]);
    assert_eq!(gate.feed(&input).forward, b"");
    assert!(gate.has_partial());
    let out = gate.feed(b"y");
    assert!(!gate.has_partial());
    assert_eq!(out.forward.len(), 4096);
    assert!(out.forward.starts_with(b"\x1b]x") && out.forward.ends_with(b"xy"));
}

#[test]
fn sequences_end_where_terminals_end_them() {
    let whole: &[&[u8]] = &[
        b"\x1b[A",
        b"\x1b[1;5C",
        b"\x1bOP",
        b"\x1bx",
        b"\x1b[M !!",
        b"\x1b]0;t\x07",
        b"\x1b]0;t\x1b\\",
        b"\x1bPq\x07r\x1b\\",
        b"\x1b_a\x1b\\",
        b"\x1b^a\x1b\\",
    ];
    for seq in whole {
        let mut gate = unlocked();
        for byte in &seq[..seq.len() - 1] {
            assert_eq!(gate.feed(&[*byte]).forward, b"", "{seq:?}");
        }
        assert!(gate.has_partial(), "{seq:?}");
        assert_eq!(gate.feed(&seq[seq.len() - 1..]).forward, *seq);
        assert!(!gate.has_partial(), "{seq:?}");
    }
}

#[test]
fn paste_passes_unlocked_and_is_dropped_locked() {
    let mut gate = unlocked();
    let out = gate.feed(b"\x1b[200~\x1dl\r\n\x1b[201~");
    assert_eq!(out.forward, b"\x1b[200~\x1dl\r\n\x1b[201~");
    assert_eq!(out.events, vec![]);
    let mut gate = locked();
    gate.feed(b"unl");
    let out = gate.feed(b"\x1b[200~ock\r\x1b[201~");
    assert_eq!(out.forward, b"");
    assert_eq!(out.events, vec![Event::DroppedInput]);
    gate.feed(b"ock\r");
    assert!(gate.is_locked());
}

#[test]
fn waiting_hotkey_is_released_with_an_escape_sequence() {
    let mut gate = unlocked();
    assert_eq!(gate.feed(b"\x1d\x1b[A").forward, b"\x1d\x1b[A");
    assert_eq!(gate.feed(b"l").forward, b"l");
}

#[test]
fn only_the_phrase_typed_without_a_break_unlocks() {
    let attempts: &[&[u8]] = &[
        b"unloc\r",
        b"unlockk\r",
        b"Unlock\r",
        b"un\rlock\r",
        b"unlock\x1b[A\r",
        b"unlock\x7f\r",
        b"unlock \r",
        b"\r\n",
    ];
    for attempt in attempts {
        let mut gate = locked();
        let out = gate.feed(attempt);
        assert_eq!(out.forward, b"", "{attempt:?}");
        assert_eq!(out.events, vec![Event::DroppedInput], "{attempt:?}");
        assert!(gate.is_locked(), "{attempt:?}");
        assert!(gate.feed(b"unlock\r").events.contains(&Event::Unlock), "{attempt:?}");
    }
}

#[test]
fn flush_keeps_the_lock() {
    let mut gate = locked();
    gate.feed(b"unlock\x1b");
    assert_eq!(gate.flush().events, vec![Event::DroppedInput]);
    assert!(gate.is_locked());
    let mut gate = unlocked();
    gate.feed(b"\x1d\x1b[108");
    assert_eq!(gate.flush().forward, b"\x1d\x1b[108");
    assert!(!gate.is_locked());
}

#[test]
fn any_other_key_after_the_hotkey_is_forwarded() {
    let keys: &[&[u8]] = &[
        b"x",
        b"\r",
        b"\x1bOP",
        b"\x1bx",
        b"\x1b[A",
        b"\x1b[M !!",
        b"\x1b]11;rgb:0/0/0\x07",
        b"\x1bPq\x1b\\",
        b"\x1b[200~",
        b"\x1b[201~",
    ];
    for key in keys {
        for bracket in [&b"\x1d"[..], &b"\x1b[93;5u"[..]] {
            let mut gate = unlocked();
            let typed = [bracket, key].concat();
            let out = gate.feed(&typed);
            assert_eq!(out.forward, typed, "{key:?}");
            assert_eq!(out.events, vec![], "{key:?}");
            assert!(!gate.is_locked() && !gate.has_partial(), "{key:?}");
        }
    }
}

#[test]
fn paste_with_escape_sequences_changes_nothing() {
    let texts: &[&[u8]] = &[
        b"",
        b"unlock\r",
        b"\x1b[31mred\x1b[0m\x1dl",
        b"\x1bOP\x1bx\x1b]0;t\x07\x1b[200~",
    ];
    for text in texts {
        let paste = [&b"\x1b[200~"[..], text, &b"\x1b[201~"[..]].concat();
        let mut gate = unlocked();
        assert_eq!(gate.feed(b"\x1d").forward, b"");
        let out = gate.feed(&paste);
        assert_eq!(out.forward, [&b"\x1d"[..], &paste].concat(), "{text:?}");
        assert_eq!(out.events, vec![], "{text:?}");
        let mut gate = locked();
        gate.feed(b"unl");
        let out = gate.feed(&paste);
        assert_eq!(out.forward, b"", "{text:?}");
        assert_eq!(out.events, vec![Event::DroppedInput], "{text:?}");
        gate.feed(b"ock\r");
        assert!(gate.is_locked(), "{text:?}");
        gate.feed(b"unlock\r");
        assert!(!gate.is_locked(), "{text:?}");
    }
}

#[test]
fn changes_alternate() {
    let mut gate = locked();
    let out = gate.feed(b"unlock\r\x1dlunlock\rhi\x1dl");
    assert_eq!(
        out.events,
        vec![
            Event::DroppedInput,
            Event::Unlock,
            Event::Lock,
            Event::Unlock,
            Event::Lock,
        ]
    );
    assert_eq!(out.forward, b"hi");
    assert!(gate.is_locked());
}
