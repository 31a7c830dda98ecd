use perfo::rank::{lex_less, order_by_name};
use perfo::table::NameTable;
use perfo::text::{chars_of, lines_of, parse_u64, parse_unsigned, string_of, trim_chars, words_of};

fn strings(v: Vec<Vec<char>>) -> Vec<String> {
    v.into_iter().map(|w| w.into_iter().collect()).collect()
}

#[test]
fn lines_follow_str_lines() {
    for s in ["a\nb", "a\nb\n", "a\r\nb\r\n", "\n\nx", "", "x\r", "a\n\r\nb"] {
        let got = strings(lines_of(&chars_of(s)));
        let want: Vec<String> = s.lines().map(String::from).collect();
        assert_eq!(got, want, "{:?}", s);
    }
}

#[test]
fn words_follow_split_whitespace() {
    for s in ["  a  b\tc\n", "", "   ", "x\u{a0}y\u{3000}z", "one"] {
        let got = strings(words_of(&chars_of(s)));
        let want: Vec<String> = s.split_whitespace().map(String::from).collect();
        assert_eq!(got, want, "{:?}", s);
    }
}

#[test]
fn trim_follows_str_trim() {
    for s in ["  a b  ", "\u{2003}x\u{85}", "", "   ", "y"] {
        let got: String = trim_chars(&chars_of(s)).into_iter().collect();
        assert_eq!(got, s.trim());
    }
}

#[test]
fn numbers_follow_from_str_radix() {
    for s in ["0", "+12", "-1", "+", "", "18446744073709551615", "18446744073709551616", "1a", "007"] {
        assert_eq!(parse_u64(&chars_of(s)), s.parse::<u64>().ok(), "{:?}", s);
    }
    for s in ["ff", "FF", "+1f", "g", "ffffffffffffffff", "10000000000000000"] {
        assert_eq!(
            parse_unsigned(&chars_of(s), 16, u64::MAX),
            u64::from_str_radix(s, 16).ok(),
            "{:?}",
            s
        );
    }
    assert_eq!(string_of(&['h', 'é', '!']), "hé!");
}

#[test]
fn name_table_replaces_and_keeps_order() {
    let mut t: NameTable<u32> = NameTable::new();
    t.insert("b".to_string(), 1);
    t.insert("a".to_string(), 2);
    t.insert("b".to_string(), 3);
    assert_eq!(t.len(), 2);
    assert_eq!(t.get("b"), Some(&3));
    assert_eq!(t.get("a"), Some(&2));
    assert_eq!(t.get("c"), None);
    assert_eq!(t.name_at(0), "b");
    assert_eq!(*t.value_at(1), 2);
}

#[test]
fn names_are_ordered_like_a_stable_string_sort() {
    let names: Vec<String> = ["card1", "b", "card1", "a", "é", "Z", "", "card10"]
        .iter()
        .map(|s| s.to_string())
        .collect();
    let order = order_by_name(&names);
    let mut want: Vec<usize> = (0..names.len()).collect();
    want.sort_by(|&a, &b| names[a].cmp(&names[b]));
    assert_eq!(order, want);
    assert!(lex_less(&chars_of("ab"), &chars_of("b")));
    assert!(lex_less(&chars_of("a"), &chars_of("ab")));
    assert!(!lex_less(&chars_of("ab"), &chars_of("ab")));
    assert!(!lex_less(&chars_of("é"), &chars_of("z")));
}
