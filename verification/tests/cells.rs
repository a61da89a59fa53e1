use uciengine::textbuf::{encode_char, starts_at, PvBuff, StrBuff, UciBuff};

#[test]
fn set_trim() {
    // a cell of ten bytes: room for two moves and their separators
    let mut x = StrBuff::<10>::new().set("e2e4");

    assert_eq!(x.len, 4);

    assert_eq!(x.text(), "e2e4".to_string());

    x.set_trim("e2e4 e7e5 g1f3 b8c6", ' ');

    assert_eq!(x.len, 9);

    assert_eq!(x.text(), "e2e4 e7e5".to_string());
}

#[test]
fn set_trim_with_capacity_nine() {
    let mut x = StrBuff::<9>::new();
    let copy = x.set_trim("e2e4 e7e5 g1f3 b8c6", ' ');
    assert_eq!(x.len, 9);
    assert_eq!(x.text(), "e2e4 e7e5");
    assert_eq!(copy.len, 9);
    assert_eq!(copy.text(), "e2e4 e7e5");
    assert!("e2e4 e7e5 g1f3 b8c6".starts_with(x.text().as_str()));
}

#[test]
fn set_trim_keeps_a_text_that_fits() {
    let mut x = PvBuff::new();
    x.set_trim("e2e4 e7e5 g1f3", ' ');
    assert_eq!(x.len, 14);
    assert_eq!(x.text(), "e2e4 e7e5 g1f3");
    x.set_trim("e2e4", ' ');
    assert_eq!(x.text(), "e2e4");
    x.set_trim("", ' ');
    assert_eq!(x.len, 0);
    assert_eq!(x.to_opt(), None);
}

#[test]
fn set_trim_cuts_before_a_separator() {
    let mut x = StrBuff::<4>::new();
    x.set_trim("e2e4 e7e5", ' ');
    assert_eq!(x.text(), "e2e4");
    let mut y = StrBuff::<8>::new();
    y.set_trim("e2e4 e7e5", ' ');
    assert_eq!(y.text(), "e2e4");
    let mut z = StrBuff::<5>::new();
    z.set_trim("e2e4  e7e5", ' ');
    assert_eq!(z.text(), "e2e4 ");
}

#[test]
fn set_trim_empties_the_cell_where_no_separator_is_in_reach() {
    let mut x = StrBuff::<3>::new();
    x.set("abc");
    x.set_trim("e2e4 e7e5", ' ');
    assert_eq!(x.len, 0);
    assert_eq!(x.to_opt(), None);
    let mut y = StrBuff::<4>::new();
    y.set_trim("e2e4e7e5", ' ');
    assert_eq!(y.len, 0);
}

#[test]
fn set_trim_with_a_separator_of_several_bytes() {
    let mut x = StrBuff::<5>::new();
    x.set_trim("a\u{2192}b\u{2192}c", '\u{2192}');
    assert_eq!(x.len, 5);
    assert_eq!(x.text(), "a\u{2192}b");
    let mut y = StrBuff::<4>::new();
    y.set_trim("a\u{2192}b\u{2192}c", '\u{2192}');
    assert_eq!(y.text(), "a");
}

#[test]
fn set_cuts_to_the_capacity() {
    let mut x = UciBuff::new();
    let copy = x.set("e7e8qxx");
    assert_eq!(x.len, 5);
    assert_eq!(x.text(), "e7e8q");
    assert_eq!(copy.text(), "e7e8q");
    x.set("a1");
    assert_eq!(x.len, 2);
    assert_eq!(x.text(), "a1");
}

#[test]
fn a_text_that_fits_comes_back_unchanged() {
    let mut x = UciBuff::new();
    for text in ["e2e4", "e7e8q", "a", "\u{e9}2", "\u{2192}ab"] {
        x.set(text);
        assert!(x.has_text());
        assert_eq!(x.text(), text);
        assert_eq!(x.to_opt(), Some(text.to_string()));
    }
    let mut y = PvBuff::new();
    y.set("e2e4 e7e5 g1f3 b8c6");
    assert_eq!(y.to_opt(), Some("e2e4 e7e5 g1f3 b8c6".to_string()));
}

#[test]
fn an_empty_cell_reads_as_none() {
    let x = UciBuff::new();
    assert_eq!(x.len, 0);
    assert_eq!(x.to_opt(), None);
    assert_eq!(x.text(), "");
    let mut y = UciBuff::of("e2e4");
    assert_eq!(y.to_opt(), Some("e2e4".to_string()));
    let copy = y.reset();
    assert_eq!(y.len, 0);
    assert_eq!(copy.len, 0);
    assert_eq!(y.to_opt(), None);
}

#[test]
fn a_cut_through_a_character_is_no_text() {
    let mut x = UciBuff::new();
    x.set("aaaa\u{e9}");
    assert_eq!(x.len, 5);
    assert!(!x.has_text());
    x.set("aaa\u{e9}");
    assert!(x.has_text());
    assert_eq!(x.text(), "aaa\u{e9}");
}

#[test]
fn of_opt_stores_the_text_or_nothing() {
    assert_eq!(UciBuff::of_opt(None).len, 0);
    assert_eq!(UciBuff::of_opt(Some("e2e4".to_string())).text(), "e2e4");
    assert_eq!(UciBuff::of_opt(Some("e2e4e7e5".to_string())).text(), "e2e4e");
    assert_eq!(UciBuff::of_opt(Some(String::new())).to_opt(), None);
}

#[test]
fn encode_char_agrees_with_std() {
    for c in ['\0', ' ', 'a', '\u{7f}', '\u{80}', '\u{e9}', '\u{7ff}', '\u{800}', '\u{2192}',
        '\u{d7ff}', '\u{e000}', '\u{ffff}', '\u{10000}', '\u{1f600}', '\u{10ffff}']
    {
        let mut block = [0u8; 4];
        let expected = c.encode_utf8(&mut block).as_bytes().to_vec();
        assert_eq!(encode_char(c), expected);
    }
    assert_eq!(encode_char('\u{e9}'), vec![0xc3, 0xa9]);
    assert_eq!(encode_char('\u{1f600}'), vec![0xf0, 0x9f, 0x98, 0x80]);
}

#[test]
fn starts_at_finds_a_pattern_in_place() {
    let bytes = "e2e4 e7e5".as_bytes();
    assert!(starts_at(bytes, 4, " ".as_bytes()));
    assert!(starts_at(bytes, 5, "e7e5".as_bytes()));
    assert!(!starts_at(bytes, 5, "e7e5 ".as_bytes()));
    assert!(!starts_at(bytes, 3, " ".as_bytes()));
    assert!(starts_at(bytes, 9, "".as_bytes()));
    assert!(!starts_at(bytes, 10, "".as_bytes()));
}

#[test]
fn a_cell_is_made_from_text() {
    let a = UciBuff::from("e2e4");
    assert_eq!(a.len, 4);
    assert_eq!(a.text(), "e2e4");
    assert_eq!(a.buff, [b'e', b'2', b'e', b'4', 0]);
    let b = UciBuff::from("e7e8queen".to_string());
    assert_eq!(b.text(), "e7e8q");
    let c = UciBuff::from(Some("g1f3".to_string()));
    assert_eq!(c.text(), "g1f3");
    let d = UciBuff::from(None);
    assert_eq!(d.len, 0);
    assert_eq!(d.buff, [0; 5]);
    let e: PvBuff = "e2e4 e7e5".into();
    assert_eq!(e.to_opt(), Some("e2e4 e7e5".to_string()));
}

#[test]
fn storing_leaves_the_storage_behind_the_text() {
    let mut x = UciBuff::from("e7e8q");
    x.set("a1");
    assert_eq!(x.len, 2);
    assert_eq!(x.buff, [b'a', b'1', b'e', b'8', b'q']);
    x.reset();
    assert_eq!(x.len, 0);
    assert_eq!(x.buff, [b'a', b'1', b'e', b'8', b'q']);
}
