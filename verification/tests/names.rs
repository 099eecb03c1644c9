use chai::names::{parse_element_name, same_chars, to_chars, write_compound_name};

fn chars(text: &str) -> Vec<char> {
    text.chars().collect()
}

#[test]
fn plain_name_reads_as_itself() {
    let parsed = parse_element_name("x");
    assert_eq!(parsed.base, chars("x"));
    assert!(!parsed.compound);
    assert_eq!(parsed.index, None);
}

#[test]
fn empty_name_is_plain() {
    let parsed = parse_element_name("");
    assert_eq!(parsed.base, chars(""));
    assert!(!parsed.compound);
    assert_eq!(parsed.index, None);
}

#[test]
fn compound_name_reads_as_base_and_index() {
    let parsed = parse_element_name("x.1");
    assert_eq!(parsed.base, chars("x"));
    assert!(parsed.compound);
    assert_eq!(parsed.index, Some(1));
}

#[test]
fn long_base_and_index_are_read_whole() {
    let parsed = parse_element_name("radical.4096");
    assert_eq!(parsed.base, chars("radical"));
    assert!(parsed.compound);
    assert_eq!(parsed.index, Some(4096));
}

#[test]
fn base_may_hold_characters_beyond_ascii() {
    let parsed = parse_element_name("木.2");
    assert_eq!(parsed.base, chars("木"));
    assert!(parsed.compound);
    assert_eq!(parsed.index, Some(2));
}

#[test]
fn only_the_second_segment_gives_the_index() {
    let parsed = parse_element_name("a.1.2");
    assert_eq!(parsed.base, chars("a"));
    assert!(parsed.compound);
    assert_eq!(parsed.index, Some(1));
}

#[test]
fn leading_zeros_and_a_plus_sign_are_read() {
    assert_eq!(parse_element_name("a.007").index, Some(7));
    assert_eq!(parse_element_name("a.+7").index, Some(7));
    assert_eq!(parse_element_name("a.0").index, Some(0));
}

#[test]
fn what_is_no_number_gives_no_index() {
    for name in ["a.", "a.b", "a.1b", "a.-1", "a.+", "a.++1", "a. 1", "a..1", "a.１"] {
        let parsed = parse_element_name(name);
        assert!(parsed.compound, "{}", name);
        assert_eq!(parsed.base, chars("a"), "{}", name);
        assert_eq!(parsed.index, None, "{}", name);
    }
}

#[test]
fn empty_base_is_kept() {
    let parsed = parse_element_name(".5");
    assert_eq!(parsed.base, chars(""));
    assert!(parsed.compound);
    assert_eq!(parsed.index, Some(5));
}

#[test]
fn largest_index_is_read_and_the_next_is_not() {
    let largest = format!("a.{}", usize::MAX);
    assert_eq!(parse_element_name(&largest).index, Some(usize::MAX));
    let beyond = format!("a.{}0", usize::MAX);
    assert_eq!(parse_element_name(&beyond).index, None);
    assert_eq!(parse_element_name("a.340282366920938463463374607431768211456").index, None);
    let mut next = format!("{}", usize::MAX).into_bytes();
    let last = next.len() - 1;
    next[last] += 1;
    let next = format!("a.{}", String::from_utf8(next).unwrap());
    assert_eq!(parse_element_name(&next).index, None);
}

#[test]
fn compound_names_are_written_in_decimal() {
    assert_eq!(write_compound_name("x", 0), "x.0");
    assert_eq!(write_compound_name("x", 1), "x.1");
    assert_eq!(write_compound_name("x", 9), "x.9");
    assert_eq!(write_compound_name("x", 10), "x.10");
    assert_eq!(write_compound_name("ab", 1234567890), "ab.1234567890");
    assert_eq!(write_compound_name("", 42), ".42");
    assert_eq!(write_compound_name("木", 305), "木.305");
    assert_eq!(write_compound_name("x", usize::MAX), format!("x.{}", usize::MAX));
}

#[test]
fn written_names_read_back() {
    for index in [0usize, 1, 7, 10, 99, 100, 65535, usize::MAX] {
        let name = write_compound_name("part", index);
        let parsed = parse_element_name(&name);
        assert_eq!(parsed.base, chars("part"));
        assert!(parsed.compound);
        assert_eq!(parsed.index, Some(index));
    }
}

#[test]
fn characters_are_listed_in_order() {
    assert_eq!(to_chars("a.b"), vec!['a', '.', 'b']);
    assert_eq!(to_chars(""), Vec::<char>::new());
    assert_eq!(to_chars("木1"), vec!['木', '1']);
}

#[test]
fn character_strings_are_compared_whole() {
    assert!(same_chars(&chars("abc"), &chars("abc")));
    assert!(same_chars(&chars(""), &chars("")));
    assert!(!same_chars(&chars("abc"), &chars("abd")));
    assert!(!same_chars(&chars("abc"), &chars("ab")));
    assert!(!same_chars(&chars("ab"), &chars("abc")));
}
