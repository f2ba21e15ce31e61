use shoutter_minifier::ident::{ident_string, MinifiedIdent};

fn take(g: &mut MinifiedIdent, n: usize) -> Vec<String> {
    let mut v = Vec::new();
    for _ in 0..n {
        v.push(g.next().unwrap());
    }
    v
}

#[test]
fn minified_ident() {
    assert_eq!(take(&mut MinifiedIdent::new(), 5).join(""), "abcde");
    let mut g = MinifiedIdent::new();
    let mut every_tenth = Vec::new();
    for _ in 0..10 {
        let v = take(&mut g, 10);
        every_tenth.push(v[0].clone());
    }
    assert_eq!(every_tenth.join(" "), "a k u E O Y ib sb Cb Mb");
}

#[test]
fn ident_digits() {
    assert_eq!(ident_string(0), "a");
    assert_eq!(ident_string(10), "k");
    assert_eq!(ident_string(25), "z");
    assert_eq!(ident_string(26), "A");
    assert_eq!(ident_string(51), "Z");
    assert_eq!(ident_string(52), "ab");
    assert_eq!(ident_string(62), "kb");
    assert_eq!(ident_string(520), "ak");
    assert_eq!(ident_string(2703), "ZZ");
    assert_eq!(ident_string(2704), "aab");
}

#[test]
fn generators_are_independent() {
    let mut a = MinifiedIdent::new();
    let mut b = MinifiedIdent::new();
    assert_eq!(a.next().unwrap(), "a");
    assert_eq!(a.next().unwrap(), "b");
    assert_eq!(b.next().unwrap(), "a");
    assert_eq!(a.next().unwrap(), "c");
}

#[test]
fn generator_ends_at_counter_limit() {
    let mut g = MinifiedIdent { n: usize::MAX };
    assert_eq!(g.next(), None);
    assert_eq!(g.n, usize::MAX);
}

#[test]
fn identifiers_are_distinct_letters() {
    let mut g = MinifiedIdent::new();
    let all = take(&mut g, 3000);
    let mut sorted = all.clone();
    sorted.sort();
    sorted.dedup();
    assert_eq!(sorted.len(), all.len());
    for s in &all {
        assert!(!s.is_empty());
        assert!(s.chars().all(|c| c.is_ascii_alphabetic()));
    }
}
