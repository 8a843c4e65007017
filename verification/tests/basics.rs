use mlm::ids::Ids;
use mlm::order::{insert_text, order_text, order_texts, remove_text, Order};
use mlm::path::{sort_paths, PathBuf};
use mlm::text::{
    ends_with, find_text, has_text, join, number_text, parse_usize, slice, split, starts_with,
    trim,
};

#[test]
fn texts_are_cut_and_joined() {
    assert_eq!(trim(" \u{a0}\t x y \n"), "x y");
    assert_eq!(trim("   "), "");
    assert_eq!(split("a,b,,c", ","), vec!["a", "b", "", "c"]);
    assert_eq!(split("", ","), vec![""]);
    assert_eq!(split("a, b", ", "), vec!["a", "b"]);
    assert_eq!(
        join(&vec!["a".to_string(), "b".to_string()], ", "),
        "a, b"
    );
    assert_eq!(join(&vec![], ", "), "");
    assert_eq!(slice("åäö", 1, 3), "äö");
}

#[test]
fn texts_are_searched() {
    assert_eq!(find_text("abcabc", "ca"), Some(2));
    assert_eq!(find_text("abc", ""), Some(0));
    assert_eq!(find_text("abc", "d"), None);
    assert!(has_text("status 403", "403"));
    assert!(starts_with("abc", "ab") && !starts_with("abc", "b"));
    assert!(ends_with("abc", "bc") && !ends_with("c", "bc"));
}

#[test]
fn numbers_are_read_back() {
    for n in [0u64, 9, 10, 205, 1_000_000, u32::MAX as u64] {
        assert_eq!(parse_usize(&number_text(n)), Some(n as usize));
    }
    assert_eq!(parse_usize("+7"), Some(7));
    assert_eq!(parse_usize("-7"), None);
    assert_eq!(parse_usize(" 7"), None);
    assert_eq!(parse_usize("18446744073709551615"), Some(usize::MAX));
    assert_eq!(parse_usize("18446744073709551616"), None);
}

#[test]
fn paths_are_read_by_components() {
    let parts = |t: &str| PathBuf::new(t).components();
    assert_eq!(parts("/a//b/./c/"), vec!["/", "a", "b", "c"]);
    assert_eq!(parts("./a/.."), vec![".", "a", ".."]);
    assert!(parts("").is_empty());
    assert_eq!(PathBuf::new("/a/b/"), PathBuf::new("/a//b"));
    assert_ne!(PathBuf::new("a/b"), PathBuf::new("/a/b"));
    assert!(PathBuf::new("/a/b").starts_with(&PathBuf::new("/a")));
    assert!(!PathBuf::new("/ab").starts_with(&PathBuf::new("/a")));
}

#[test]
fn paths_agree_with_the_standard_library() {
    let texts = [
        "/", "", ".", "..", "/a", "/a/", "a/b", "a//b/./c", "/a/..", "./x", "a/.", "//a",
    ];
    for a in texts {
        let ours = PathBuf::new(a);
        let theirs = std::path::Path::new(a);
        assert_eq!(
            ours.parent().map(|p| p.as_str().to_string()),
            theirs.parent().map(|p| p.to_str().unwrap().to_string()),
            "parent of {a:?}"
        );
        assert_eq!(
            ours.file_name(),
            theirs.file_name().map(|p| p.to_str().unwrap().to_string()),
            "file name of {a:?}"
        );
        for b in texts {
            assert_eq!(ours.join(b).as_str(), theirs.join(b).to_str().unwrap());
            assert_eq!(
                ours.starts_with(&PathBuf::new(b)),
                theirs.starts_with(b),
                "{a:?} under {b:?}"
            );
            let order = match theirs.cmp(std::path::Path::new(b)) {
                std::cmp::Ordering::Less => Order::Less,
                std::cmp::Ordering::Equal => Order::Equal,
                std::cmp::Ordering::Greater => Order::Greater,
            };
            assert_eq!(ours.order(&PathBuf::new(b)), order, "{a:?} and {b:?}");
        }
    }
}

#[test]
fn file_names_are_replaced() {
    let mut path = PathBuf::new("/a/b");
    path.set_file_name("c d");
    assert_eq!(path.as_str(), "/a/c d");
}

#[test]
fn paths_are_sorted() {
    let sorted = sort_paths(&vec![
        PathBuf::new("Disc 2/a"),
        PathBuf::new("Disc 1/b"),
        PathBuf::new("Disc 1/a"),
    ]);
    let texts: Vec<&str> = sorted.iter().map(|p| p.as_str()).collect();
    assert_eq!(texts, vec!["Disc 1/a", "Disc 1/b", "Disc 2/a"]);
}

#[test]
fn texts_are_ordered_by_their_characters() {
    assert_eq!(order_text("B", "a"), Order::Less);
    assert_eq!(order_text("ab", "a"), Order::Greater);
    assert_eq!(order_text("å", "å"), Order::Equal);
    assert_eq!(
        order_texts(&vec!["a".to_string()], &vec![]),
        Order::Greater
    );
    let mut list: Vec<String> = vec![];
    for t in ["b", "a", "b", "c"] {
        insert_text(&mut list, t.to_string());
    }
    assert_eq!(list, vec!["a", "b", "c"]);
    remove_text(&mut list, "b");
    assert_eq!(list, vec!["a", "c"]);
}

#[test]
fn identifiers_are_kept_by_service() {
    let mut ids = Ids::new();
    assert!(ids.is_empty());
    ids.insert("asin".to_string(), "1".to_string());
    ids.insert("asin".to_string(), "2".to_string());
    assert_eq!(ids.get("asin"), Some(&"2".to_string()));
    assert_eq!(ids.get("isbn"), None);
    let mut more = Ids::new();
    more.insert("isbn".to_string(), "3".to_string());
    more.insert("asin".to_string(), "4".to_string());
    ids.append(&more);
    assert_eq!(ids.get("asin"), Some(&"4".to_string()));
    assert!(ids.mentions("3") && ids.mentions("isbn") && !ids.mentions("2"));
    let mut other = Ids::new();
    other.insert("asin".to_string(), "4".to_string());
    other.insert("isbn".to_string(), "3".to_string());
    assert!(ids == other);
    assert!(ids == ids.clone());
}
