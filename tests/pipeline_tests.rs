use jsonshape::category::Category;
use jsonshape::classify::{classify_line, categorize, Record};
use jsonshape::json::JsonField;
use jsonshape::numeric::is_numeric;
use jsonshape::pipeline::{distribute, summarize, summarize_chunk, Pipeline};
use jsonshape::summary::Summary;

fn strings(items: &[&str]) -> Vec<String> {
    items.iter().map(|s| s.to_string()).collect()
}

fn cats(summary: &Summary, key: &str) -> Option<Vec<Category>> {
    summary.get(&key.to_string())
}

#[test]
fn mixed_shapes_of_one_field() {
    let lines = strings(&[r#"{"a":1}"#, r#"{"a":"1.5"}"#, r#"{"a":"hi"}"#]);
    let keys = strings(&["a"]);
    let s = summarize(&lines, &keys);
    assert_eq!(
        cats(&s, "a"),
        Some(vec![Category::String, Category::Number, Category::NumericString])
    );
    assert_eq!(s.names(), strings(&["a"]));
}

#[test]
fn null_is_discarded() {
    let s = summarize(&strings(&[r#"{"a":null}"#]), &strings(&["a"]));
    assert_eq!(cats(&s, "a"), None);
    assert!(s.names().is_empty());
}

#[test]
fn malformed_line_is_skipped() {
    let lines = strings(&[r#"{"a":"#, r#"{"a":true}"#]);
    let s = summarize(&lines, &strings(&["a"]));
    assert_eq!(cats(&s, "a"), Some(vec![Category::Boolean]));
    let batches = distribute(&lines, &strings(&["a"]));
    assert_eq!(batches.len(), 2);
    assert!(batches[0].is_empty());
    assert_eq!(batches[1].len(), 1);
}

#[test]
fn name_never_present_has_no_key() {
    let lines = strings(&[r#"{"a":1}"#, r#"{"b":[1,2]}"#]);
    let s = summarize(&lines, &strings(&["a", "zzz"]));
    assert_eq!(cats(&s, "zzz"), None);
    assert_eq!(s.names(), strings(&["a"]));
}

#[test]
fn bounded_run_matches_unbounded_run() {
    let shapes = [
        r#"{"a":1,"b":"x"}"#,
        r#"{"a":"2.5e3","c":{"d":1}}"#,
        r#"{"a":[1],"b":false}"#,
        r#"not json"#,
        r#"{"b":null,"c":"-7"}"#,
    ];
    let lines: Vec<String> = (0..100_000).map(|i| shapes[i % shapes.len()].to_string()).collect();
    let keys = strings(&["a", "b", "c", "e"]);
    let whole = summarize(&lines, &keys);
    let mut p = Pipeline::new(keys.clone(), 64);
    for l in lines.iter() {
        p.submit(l.clone());
    }
    let bounded = p.finish();
    for k in ["a", "b", "c", "e"] {
        assert_eq!(cats(&whole, k), cats(&bounded, k));
    }
    assert_eq!(
        cats(&bounded, "a"),
        Some(vec![Category::Number, Category::NumericString, Category::Array])
    );
    assert_eq!(cats(&bounded, "b"), Some(vec![Category::String, Category::Boolean]));
    assert_eq!(cats(&bounded, "c"), Some(vec![Category::NumericString, Category::Object]));
    assert_eq!(cats(&bounded, "e"), None);
}

#[test]
fn arrival_order_does_not_change_summary() {
    let lines = strings(&[r#"{"a":1}"#, r#"{"a":"x","b":{}}"#, r#"{"b":true}"#]);
    let keys = strings(&["a", "b"]);
    let batches = distribute(&lines, &keys);
    let mut reversed = batches.clone();
    reversed.reverse();
    let s1 = Summary::aggregate(&batches);
    let s2 = Summary::aggregate(&reversed);
    for k in ["a", "b"] {
        assert_eq!(cats(&s1, k), cats(&s2, k));
    }
    assert_eq!(cats(&s1, "b"), Some(vec![Category::Boolean, Category::Object]));
}

#[test]
fn classification_is_repeatable() {
    let r = Record { line: r#"{"a":"12","b":[],"c":null}"#.to_string(), keys: strings(&["a", "b", "c", "d"]) };
    let first = r.classify();
    let second = r.classify();
    assert_eq!(first.len(), 4);
    assert_eq!(first.len(), second.len());
    for (x, y) in first.iter().zip(second.iter()) {
        assert_eq!(x.as_ref().map(|f| (f.key.clone(), f.category)), y.as_ref().map(|f| (f.key.clone(), f.category)));
    }
    assert_eq!(first[0].as_ref().map(|f| (f.key.as_str(), f.category)), Some(("a", Category::NumericString)));
    assert_eq!(first[1].as_ref().map(|f| (f.key.as_str(), f.category)), Some(("b", Category::Array)));
    assert!(first[2].is_none());
    assert!(first[3].is_none());
}

#[test]
fn one_batch_per_line() {
    let lines = strings(&[r#"{"a":1}"#, "", r#"[1,2]"#, r#"{"a":{}}"#, r#"{"a":1} trailing"#]);
    let keys = strings(&["a", "b"]);
    let batches = distribute(&lines, &keys);
    assert_eq!(batches.len(), lines.len());
    let lens: Vec<usize> = batches.iter().map(|b| b.len()).collect();
    assert_eq!(lens, vec![2, 0, 2, 2, 0]);
    assert!(batches[2].iter().all(|s| s.is_none()));
    assert_eq!(batches[3][0].as_ref().map(|f| f.category), Some(Category::Object));
}

#[test]
fn every_category_from_one_record() {
    let line = r#"{"s":"hi","n":3.5,"ns":"-1e5","arr":[],"b":true,"o":{"x":1},"z":null}"#;
    let keys = strings(&["s", "n", "ns", "arr", "b", "o", "z", "missing"]);
    let got: Vec<Option<Category>> = classify_line(line, &keys).iter().map(|o| o.as_ref().map(|f| f.category)).collect();
    assert_eq!(
        got,
        vec![
            Some(Category::String),
            Some(Category::Number),
            Some(Category::NumericString),
            Some(Category::Array),
            Some(Category::Boolean),
            Some(Category::Object),
            None,
            None
        ]
    );
}

#[test]
fn duplicate_requested_names_share_one_entry() {
    let s = summarize(&strings(&[r#"{"a":1}"#]), &strings(&["a", "a"]));
    assert_eq!(s.names(), strings(&["a"]));
    assert_eq!(cats(&s, "a"), Some(vec![Category::Number]));
}

#[test]
fn empty_input_gives_empty_summary() {
    let s = summarize(&Vec::new(), &strings(&["a"]));
    assert!(s.names().is_empty());
    let p = Pipeline::new(strings(&["a"]), 1);
    assert!(p.finish().names().is_empty());
}

#[test]
fn chunks_merge_into_one_summary() {
    let keys = strings(&["a"]);
    let mut s = Summary::new();
    summarize_chunk(&mut s, &strings(&[r#"{"a":1}"#]), &keys);
    summarize_chunk(&mut s, &strings(&[r#"{"a":"x"}"#]), &keys);
    assert_eq!(cats(&s, "a"), Some(vec![Category::String, Category::Number]));
}

#[test]
fn insert_adds_one_pair() {
    let mut s = Summary::new();
    s.insert(&"k".to_string(), Category::Array);
    s.insert(&"k".to_string(), Category::Array);
    s.insert(&"j".to_string(), Category::Object);
    assert_eq!(cats(&s, "k"), Some(vec![Category::Array]));
    assert_eq!(cats(&s, "j"), Some(vec![Category::Object]));
    assert_eq!(s.names(), strings(&["k", "j"]));
}

#[test]
fn numeric_literals() {
    for s in ["0", "1.5", "-2", "+3", ".5", "5.", "1e10", "1E-3", "-4.2e+7", "007"] {
        assert!(is_numeric(s), "{s}");
    }
    for s in ["", "hi", ".", "-", "e5", "1e", "1e+", " 1", "1 ", "1.2.3", "inf", "NaN", "0x10", "1_000", "\u{661}"] {
        assert!(!is_numeric(s), "{s}");
    }
}

#[test]
fn categorize_member_values() {
    assert_eq!(categorize(&JsonField::Missing), Category::Absent);
    assert_eq!(categorize(&JsonField::Null), Category::Absent);
    assert_eq!(categorize(&JsonField::Str("12.0".to_string())), Category::NumericString);
    assert_eq!(categorize(&JsonField::Str("twelve".to_string())), Category::String);
    assert_eq!(categorize(&JsonField::Bool), Category::Boolean);
}

#[test]
fn category_labels() {
    assert_eq!(Category::String.label(), "String");
    assert_eq!(Category::NumericString.label(), "CastableStringToNumber");
    assert_eq!(Category::Boolean.label(), "Bool");
    assert_eq!(Category::Object.label(), "JSON");
    assert_eq!(Category::Absent.label(), "Does not exist");
}
