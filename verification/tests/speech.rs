use chameleon_voice::speech::{chunk_text, clean_text, normalize_and_chunk};

#[test]
fn sentences_become_chunks() {
    assert_eq!(
        normalize_and_chunk("Hello there. How are you?  Fine!", 220),
        ["Hello there", "How are you", "Fine"]
    );
    assert_eq!(
        normalize_and_chunk("\u{4f60}\u{597d}\u{3002}\u{518d}\u{89c1}\u{ff01}", 220),
        ["\u{4f60}\u{597d}", "\u{518d}\u{89c1}"]
    );
    assert_eq!(normalize_and_chunk("a\nb\u{ff0e}c\u{ff1f}d", 220), ["a", "b", "c", "d"]);
}

#[test]
fn text_is_composed_before_it_is_cut() {
    assert_eq!(normalize_and_chunk("e\u{301}te\u{301}", 220), ["\u{e9}t\u{e9}"]);
    assert_eq!(normalize_and_chunk("\u{1112}\u{1161}\u{11ab}", 220), ["\u{d55c}"]);
}

#[test]
fn control_codes_are_dropped_but_newlines_end_sentences() {
    assert_eq!(clean_text("\t a\u{7}b\r\nc \u{85}"), "ab\nc");
    assert_eq!(normalize_and_chunk("a\u{7}b\r\nc", 220), ["ab", "c"]);
}

#[test]
fn long_sentences_are_cut_by_bytes() {
    assert_eq!(chunk_text("abcdefgh", 3), ["abc", "def", "gh"]);
    assert_eq!(chunk_text("abcdef", 6), ["abcdef"]);
    assert_eq!(chunk_text("abcdef", 5), ["abcde", "f"]);
    assert_eq!(chunk_text("ab cd", 2), ["ab", " c", "d"]);
}

#[test]
fn slices_end_with_whole_characters() {
    assert_eq!(chunk_text("a\u{e9}\u{e9}b", 2), ["a\u{e9}", "\u{e9}", "b"]);
    assert_eq!(chunk_text("\u{1f600}\u{1f600}", 1), ["\u{1f600}", "\u{1f600}"]);
    assert_eq!(chunk_text("\u{4f60}\u{597d}\u{518d}", 4), ["\u{4f60}\u{597d}", "\u{518d}"]);
}

#[test]
fn chunks_keep_all_that_is_heard() {
    let text = "  One, two. Thr\u{e9}e!!! \u{4f60}\u{597d}\u{3002} \n five-six-seven-eight  ";
    let heard = |s: &str| -> String {
        s.chars()
            .filter(|c| !c.is_whitespace() && !"\u{3002}\u{ff0e}.?!\u{ff1f}\u{ff01}\n".contains(*c))
            .collect()
    };
    for max in 1..30 {
        let chunks = normalize_and_chunk(text, max);
        assert_eq!(heard(&chunks.concat()), heard(text));
        for c in &chunks {
            assert!(!c.is_empty());
            assert!(c.len() <= max + 3);
        }
    }
}

#[test]
fn a_text_of_marks_alone_is_one_chunk() {
    assert_eq!(normalize_and_chunk(" ?! ", 220), ["?!"]);
    assert_eq!(normalize_and_chunk("...", 1), ["..."]);
}

#[test]
fn an_empty_text_has_no_chunks() {
    assert!(normalize_and_chunk("", 220).is_empty());
    assert!(normalize_and_chunk(" \u{7}\t ", 220).is_empty());
    assert!(chunk_text("", 0).is_empty());
    assert_eq!(chunk_text("?", 0), ["?"]);
}

#[test]
fn a_text_is_cut_at_the_end_of_a_sentence() {
    let parts = ["a", " One, two. three ", "e\u{301}t\u{e9}", "\u{301}x", "\u{1112}\u{1161}", "?b?", "\u{4f60}\u{597d} "];
    for c in ["\u{3002}", "\u{ff0e}", ".", "?", "!", "\u{ff1f}", "\u{ff01}", "\n"] {
        for a in parts {
            for b in parts {
                for max in [1, 3, 220] {
                    let mut both = normalize_and_chunk(a, max);
                    both.extend(normalize_and_chunk(b, max));
                    assert_eq!(normalize_and_chunk(&[a, c, b].concat(), max), both);
                }
            }
        }
    }
}

#[test]
fn every_piece_is_short() {
    let text = "\u{4f60}\u{597d}e\u{301}\u{1f600} abc\u{1112}\u{1161}\u{11ab}. x\u{e9}\u{e9}\u{e9}";
    for max in 1..20 {
        let pieces = normalize_and_chunk(text, max);
        assert!(!pieces.is_empty());
        for p in pieces {
            let last = p.chars().last().unwrap();
            assert!(p.len() <= max + 3);
            assert!(p.len() - last.len_utf8() < max);
            assert!(!p.contains('.'));
        }
    }
}

#[test]
fn what_is_heard_is_still_heard_once_it_is_normalized() {
    for n in 0..=0x10ffffu32 {
        if let Some(c) = char::from_u32(n) {
            if !c.is_control() && !c.is_whitespace() && !".?!\u{3002}\u{ff0e}\u{ff1f}\u{ff01}".contains(c) {
                let pieces = normalize_and_chunk(&c.to_string(), 220);
                assert_eq!(pieces.len(), 1, "{:x}", n);
                assert!(!pieces[0].contains(|d: char| ".?!\u{3002}\u{ff0e}\u{ff1f}\u{ff01}".contains(d)));
            }
        }
    }
}
