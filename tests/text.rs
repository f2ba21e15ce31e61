use shoutter_minifier::text::replace;

#[test]
fn replace_every_occurrence() {
    assert_eq!(replace("wasm.f(wasm.g)", "wasm.", "w."), "w.f(w.g)");
}

#[test]
fn replace_without_overlap() {
    assert_eq!(replace("aaaa", "aa", "b"), "bb");
    assert_eq!(replace("aaa", "aa", "b"), "ba");
}

#[test]
fn replace_empty_pattern_keeps_text() {
    assert_eq!(replace("abc", "", "x"), "abc");
}

#[test]
fn replace_with_unicode() {
    assert_eq!(replace("é→é", "é", "e"), "e→e");
}
