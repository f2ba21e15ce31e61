use shoutter_minifier::driver::{
    kind_of, name_column_width, pairs_with, plan_targets, process_stats, split_extension,
    FileKind, Target,
};

fn names(v: &[&str]) -> Vec<String> {
    v.iter().map(|x| x.to_string()).collect()
}

#[test]
fn kinds_by_extension() {
    assert_eq!(kind_of(&"index.html".to_string()), Some(FileKind::Html));
    assert_eq!(kind_of(&"style.css".to_string()), Some(FileKind::Css));
    assert_eq!(kind_of(&"app.js".to_string()), Some(FileKind::Js));
    assert_eq!(kind_of(&"app_bg.wasm".to_string()), Some(FileKind::Wasm));
    assert_eq!(kind_of(&"favicon.ico".to_string()), None);
    assert_eq!(kind_of(&".js".to_string()), None);
    assert_eq!(kind_of(&"README".to_string()), None);
}

#[test]
fn stems_and_extensions() {
    let (ext, stem) = split_extension(&"a.b.wasm".to_string());
    assert_eq!(ext.as_deref(), Some("wasm"));
    assert_eq!(stem, "a.b");
    let (ext, stem) = split_extension(&".hidden".to_string());
    assert_eq!(ext, None);
    assert_eq!(stem, ".hidden");
}

#[test]
fn glue_pairs_with_its_module() {
    assert!(pairs_with(&"app-1234.js".to_string(), &"app-1234_bg.wasm".to_string()));
    assert!(!pairs_with(&"app.js".to_string(), &"other_bg.wasm".to_string()));
    assert!(!pairs_with(&"app.js".to_string(), &"app.wasm".to_string()));
}

#[test]
fn plan_groups_files() {
    let files = names(&["index.html", "app.js", "notes.txt", "app_bg.wasm", "lone.js", "lone2_bg.wasm", "s.css"]);
    let plan = plan_targets(&files);
    assert_eq!(plan.len(), 5);
    assert!(plan.contains(&Target::Individual(0)));
    assert!(plan.contains(&Target::WasmBindgen { js: 1, wasm: 3 }));
    assert!(plan.contains(&Target::Individual(4)));
    assert!(plan.contains(&Target::Individual(5)));
    assert!(plan.contains(&Target::Individual(6)));
}

#[test]
fn plan_of_nothing() {
    assert!(plan_targets(&Vec::new()).is_empty());
}

#[test]
fn stats_leave_out_unchanged_size() {
    let same = process_stats(100, 100, 40);
    assert_eq!(same.minified_size, None);
    let smaller = process_stats(100, 60, 30);
    assert_eq!(smaller.minified_size, Some(60));
    assert_eq!(smaller.origin_size, 100);
    assert_eq!(smaller.brotlied_size, 30);
}

#[test]
fn column_width_counts_characters() {
    assert_eq!(name_column_width(&names(&["a.js", "ünïcode.css", "b.wasm"])), 11);
    assert_eq!(name_column_width(&Vec::new()), 0);
}
