use dictate_desktop::text::{
    byte_len, char_width, contains, contains_str, ends_with, find_char, find_cut, floor_cut,
    is_whitespace, join_list, parse_u64, same, show, split_on, split_whitespace, str_le, to_chars,
    trim,
};

fn owned(list: &[&str]) -> Vec<String> {
    list.iter().map(|s| s.to_string()).collect()
}

#[test]
fn white_space_is_that_of_unicode() {
    for c in '\0'..=char::MAX {
        assert_eq!(is_whitespace(c), c.is_whitespace(), "{:?}", c);
    }
}

#[test]
fn widths_are_those_of_utf8() {
    for c in ['a', '\u{7f}', '\u{80}', 'é', '\u{7ff}', '\u{800}', '…', '\u{ffff}', '\u{10000}', '😀'] {
        assert_eq!(char_width(c) as usize, c.len_utf8());
    }
    for s in ["", "plain", "größe", "日本語", "a😀b"] {
        assert_eq!(byte_len(s), s.len() as u128);
    }
}

#[test]
fn cuts_are_char_boundaries() {
    let s = "aé日😀b";
    for b in 0..=s.len() + 2 {
        let cut = find_cut(s, b as u128);
        if b <= s.len() && s.is_char_boundary(b) {
            assert_eq!(cut, Some(s[..b].chars().count()));
        } else {
            assert_eq!(cut, None);
        }
        let mut f = b.min(s.len());
        while !s.is_char_boundary(f) {
            f -= 1;
        }
        assert_eq!(floor_cut(&to_chars(s), b as u128), s[..f].chars().count());
    }
}

#[test]
fn strings_compare_as_in_the_standard_library() {
    let words = ["", "a", "ab", "b", "Z", "é", "日", "Français", "Fr"];
    for a in words {
        for b in words {
            assert_eq!(same(a, b), a == b);
            assert_eq!(str_le(a, b), a <= b);
            assert_eq!(contains_str(a, b), a.contains(b));
        }
    }
}

#[test]
fn splitting_and_trimming_agree_with_the_standard_library() {
    for s in ["", " ", "a,b", ",", "a,,b,", " a \u{3000} b\n", "\tx", "one two  three"] {
        assert_eq!(split_on(s, ','), owned(&s.split(',').collect::<Vec<_>>()));
        assert_eq!(split_whitespace(s), owned(&s.split_whitespace().collect::<Vec<_>>()));
        assert_eq!(trim(s), s.trim());
        assert_eq!(ends_with(s, 'b'), s.ends_with('b'));
        assert_eq!(find_char(s, 'b').is_some(), s.contains('b'));
    }
}

#[test]
fn splitting_undoes_joining() {
    let list = owned(&["", "two words", "x"]);
    assert_eq!(join_list(&list, "\n"), "\ntwo words\nx");
    assert_eq!(split_on(&join_list(&list, "\n"), '\n'), list);
    assert!(contains(&list, "two words"));
    assert!(!contains(&list, "two"));
}

#[test]
fn numbers_are_read_as_written() {
    for n in [0, 7, 10, 99, 2500, u64::MAX] {
        assert_eq!(show(n), n.to_string());
        assert_eq!(parse_u64(&show(n)), Some(n));
    }
    for s in ["", "+", "-1", "1 ", "0x1", "18446744073709551616", "+5", "007", "１"] {
        assert_eq!(parse_u64(s), s.parse::<u64>().ok(), "{:?}", s);
    }
}

#[test]
fn words_come_back_from_a_joined_list() {
    let list = owned(&["one", "two,", "drei"]);
    assert_eq!(split_whitespace(&join_list(&list, " ")), list);
}
