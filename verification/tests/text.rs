use ptbr_sources::sort::sort_by_key_stable;
use ptbr_sources::text::{
    after_last_chars, before_first_chars, chars_of, contains_str, lowercase_chars, push_int_decimal,
    replace_str, trim_chars, trim_end_char_chars, words_of, Separator,
};

fn v(x: &str) -> Vec<char> {
    x.chars().collect()
}

fn st(c: &[char]) -> String {
    c.iter().collect()
}

#[test]
fn trims_unicode_white_space() {
    let t = trim_chars(&v("\u{A0}\t abc d \u{3000}\n"));
    assert_eq!(st(&t), "abc d");
    assert_eq!(st(&trim_chars(&v("  "))), "");
    let all = "\u{9}\u{A}\u{B}\u{C}\u{D} \u{85}\u{A0}\u{1680}\u{2000}\u{200A}\u{2028}\u{2029}\u{202F}\u{205F}\u{3000}";
    assert_eq!(st(&trim_chars(&v(all))), all.trim());
    assert_eq!(st(&trim_chars(&v("\u{200B}x"))), "\u{200B}x".trim());
}

#[test]
fn path_pieces() {
    assert_eq!(st(&after_last_chars(&v("a/b/c"), '/')), "c");
    assert_eq!(st(&after_last_chars(&v("abc"), '/')), "abc");
    assert_eq!(st(&after_last_chars(&v("a/"), '/')), "");
    assert_eq!(st(&before_first_chars(&v("a?b?c"), '?')), "a");
    assert_eq!(st(&before_first_chars(&v("abc"), '?')), "abc");
    assert_eq!(st(&trim_end_char_chars(&v("a//"), '/')), "a");
}

#[test]
fn search_and_replace() {
    assert!(contains_str(&v("15 de março"), "março"));
    assert!(!contains_str(&v("ab"), "abc"));
    assert!(contains_str(&v("ab"), ""));
    assert_eq!(st(&replace_str(&v("aaa"), "aa", "b")), "aaa".replace("aa", "b"));
    assert_eq!(st(&replace_str(&v("15 de 01 de 2024"), "de ", "")), "15 01 2024");
}

#[test]
fn splits_into_words() {
    let w = words_of(&v(" 15, 01  2024 "), Separator::SpaceOrComma);
    let w: Vec<String> = w.iter().map(|x| st(x)).collect();
    assert_eq!(w, vec!["15", "01", "2024"]);
    let w = words_of(&v("a\u{A0}b,c"), Separator::WhitespaceOrComma);
    assert_eq!(w.len(), 3);
    let w = words_of(&v("Cap 1.5-2"), Separator::NotNumeral);
    let w: Vec<String> = w.iter().map(|x| st(x)).collect();
    assert_eq!(w, vec!["1.5", "2"]);
}

#[test]
fn lowercases() {
    assert_eq!(st(&lowercase_chars(&v("MARÇO Ωμέγα"))), "MARÇO Ωμέγα".to_lowercase());
    assert_eq!(st(&lowercase_chars(&v("ÊS"))), "ês");
}

#[test]
fn decimal_writing() {
    for n in [0, 7, 10, 123, -1, -45, i32::MAX, i32::MIN] {
        let mut out = Vec::new();
        push_int_decimal(&mut out, n);
        assert_eq!(st(&out), n.to_string());
    }
    let mut out = v("p=");
    push_int_decimal(&mut out, 42);
    assert_eq!(st(&out), "p=42");
    assert_eq!(chars_of("ação"), v("ação"));
}

#[test]
fn stable_sort() {
    let items = vec![(3, 'a'), (1, 'b'), (3, 'c'), (2, 'd'), (1, 'e')];
    let up = sort_by_key_stable(items.clone(), false);
    assert_eq!(up, vec![(1, 'b'), (1, 'e'), (2, 'd'), (3, 'a'), (3, 'c')]);
    let down = sort_by_key_stable(items, true);
    assert_eq!(down, vec![(3, 'a'), (3, 'c'), (2, 'd'), (1, 'b'), (1, 'e')]);
    assert!(sort_by_key_stable(Vec::<(i64, u8)>::new(), true).is_empty());
}
