use tft_iq::order::sort_strings;
use tft_iq::seqs::{in_chunks, index_of_least};
use tft_iq::table::{count_names, distinct_names, name_set, Table};
use tft_iq::text::{
    after_first, contains, ends_with, has, join, parse_unsigned, replace, signed_to_string, split,
    starts_with, str_lt, unsigned_to_string,
};

fn strings(v: &[&str]) -> Vec<String> {
    v.iter().map(|s| s.to_string()).collect()
}

#[test]
fn splitting_and_joining() {
    assert_eq!(split("a,b,,c", ','), strings(&["a", "b", "", "c"]));
    assert_eq!(split("", ','), strings(&[""]));
    assert_eq!(join(&strings(&["a", "b", "c"]), " + "), "a + b + c");
    assert_eq!(join(&strings(&[]), ","), "");
    assert_eq!(after_first("a_b_c", '_'), Some("b_c".to_string()));
    assert_eq!(after_first("abc", '_'), None);
}

#[test]
fn finding_and_replacing() {
    assert!(contains("TFT_Augment_X", "_Augment_"));
    assert!(!contains("TFT", "_Augment_"));
    assert!(contains("x", ""));
    assert!(starts_with("DA_X", "DA_") && !starts_with("D", "DA_"));
    assert!(ends_with("FaeEmblemItem", "EmblemItem") && !ends_with("Item", "EmblemItem"));
    assert_eq!(replace("a.tex.tex", ".tex", ".png"), "a.png.png");
    assert_eq!(replace("aaa", "aa", "b"), "ba");
    assert!(has(&strings(&["x", "y"]), "y") && !has(&strings(&["x"]), "y"));
}

#[test]
fn numbers_as_text() {
    assert_eq!(unsigned_to_string(0), "0");
    assert_eq!(unsigned_to_string(u64::MAX), "18446744073709551615");
    assert_eq!(signed_to_string(-120), "-120");
    assert_eq!(signed_to_string(i64::MIN), "-9223372036854775808");
    assert_eq!(parse_unsigned("42", 100), Some(42));
    assert_eq!(parse_unsigned("+42", 100), Some(42));
    assert_eq!(parse_unsigned("0007", 100), Some(7));
    assert_eq!(parse_unsigned("101", 100), None);
    assert_eq!(parse_unsigned("18446744073709551616", u64::MAX), None);
    for s in ["", "+", "-1", " 1", "1 ", "1.0", "x"] {
        assert_eq!(parse_unsigned(s, u64::MAX), None);
        assert_eq!(s.parse::<u64>().ok(), None);
    }
}

#[test]
fn order_of_strings() {
    assert!(str_lt("a", "b") && str_lt("a", "aa") && !str_lt("b", "a") && !str_lt("a", "a"));
    assert_eq!(sort_strings(strings(&["b", "가", "a", "B"])), strings(&["B", "a", "b", "가"]));
}

#[test]
fn chunks_of_rows() {
    let v: Vec<i32> = (0..7).collect();
    assert_eq!(in_chunks(v, 3), vec![vec![0, 1, 2], vec![3, 4, 5], vec![6]]);
    assert_eq!(in_chunks(vec![1, 2], 2), vec![vec![1, 2]]);
    assert_eq!(in_chunks(Vec::<i32>::new(), 2), Vec::<Vec<i32>>::new());
}

#[test]
fn first_of_the_smallest() {
    assert_eq!(index_of_least(&vec![3, 1, 2, 1]), 1);
    assert_eq!(index_of_least(&vec![5]), 0);
}

#[test]
fn tables_keep_the_order_of_their_keys() {
    let t: Table<i32> = Table::new();
    let t = t.insert("b".to_string(), 1).insert("a".to_string(), 2).insert("b".to_string(), 3);
    assert_eq!(t.len(), 2);
    assert_eq!(t.key_at(0), "b");
    assert_eq!(t.value_at(0), &3);
    assert_eq!(t.get("a"), Some(&2));
    assert_eq!(t.get("c"), None);
    assert_eq!(t.position("a"), Some(1));
    let (t, old) = t.replace_at(1, 9);
    assert_eq!((old, t.get("a")), (2, Some(&9)));
    assert!(name_set(&strings(&["x"])).contains_key("x"));
}

#[test]
fn counting_names() {
    let v = strings(&["x", "y", "x", "z", "x"]);
    let t = count_names(&v);
    assert_eq!((t.get("x"), t.get("y"), t.get("q")), (Some(&3), Some(&1), None));
    assert_eq!(distinct_names(&v), strings(&["x", "y", "z"]));
}
