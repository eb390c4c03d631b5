use cosmic_comic::order::{natural_key, sort_by_name};

fn sorted(names: &[&str]) -> Vec<(String, usize)> {
    let items = names.iter().enumerate().map(|(i, n)| (n.to_string(), i)).collect();
    sort_by_name(items)
}

fn names(v: &[(String, usize)]) -> Vec<&str> {
    v.iter().map(|(n, _)| n.as_str()).collect()
}

#[test]
fn keys_split_digits_from_the_rest() {
    assert_eq!(
        natural_key("p10x2"),
        vec![
            ("p".to_string(), 0),
            (String::new(), 10),
            ("x".to_string(), 0),
            (String::new(), 2)
        ]
    );
    assert_eq!(natural_key(""), vec![]);
    assert_eq!(natural_key("99999999999999999999"), vec![(String::new(), 0)]);
    assert_eq!(natural_key("007"), vec![(String::new(), 7)]);
}

#[test]
fn numbers_count_by_their_value() {
    assert_eq!(
        names(&sorted(&["page10.jpg", "page2.jpg", "page1.jpg"])),
        vec!["page1.jpg", "page2.jpg", "page10.jpg"]
    );
    assert_eq!(names(&sorted(&["Ch 2", "Ch 10", "Ch 1"])), vec!["Ch 1", "Ch 2", "Ch 10"]);
    assert_eq!(names(&sorted(&["a 010 b", "a 9 b"])), vec!["a 9 b", "a 010 b"]);
}

#[test]
fn sorting_agrees_with_the_order_of_the_keys() {
    let list = [
        "b", "a", "a10", "a2", "", "10", "9", "a2b", "a2a", "A2", "é", "a02", "漫画2", "漫画10", "x1y2",
        "x1y10", "x01y3",
    ];
    let mut expected: Vec<(String, usize)> =
        list.iter().enumerate().map(|(i, n)| (n.to_string(), i)).collect();
    expected.sort_by(|(a, _), (b, _)| natural_key(a).cmp(&natural_key(b)));
    assert_eq!(sorted(&list), expected);
}

#[test]
fn equal_names_keep_their_order() {
    let r = sorted(&["p2", "p02", "p1", "p002"]);
    assert_eq!(r.iter().map(|(_, i)| *i).collect::<Vec<_>>(), vec![2, 0, 1, 3]);
}

#[test]
fn sorting_keeps_every_item() {
    let list = ["3", "1", "2", "1", "3"];
    let r = sorted(&list);
    assert_eq!(r.len(), list.len());
    let mut places: Vec<usize> = r.iter().map(|(_, i)| *i).collect();
    places.sort();
    assert_eq!(places, vec![0, 1, 2, 3, 4]);
}
