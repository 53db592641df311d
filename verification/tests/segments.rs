use std::collections::BTreeMap;
use xfyun_rtasr::merge_segments;
use xfyun_rtasr::segments::ordered_segments;

fn strings(texts: &[&str]) -> Vec<String> {
    texts.iter().map(|text| text.to_string()).collect()
}

#[test]
fn merge_segments_dedupes_overlap() {
    let segments = vec!["你好吗".to_string(), "好吗我们".to_string()];
    assert_eq!(merge_segments(&segments), "你好吗我们");
}

#[test]
fn merge_segments_no_overlap() {
    let segments = vec!["今天".to_string(), "天气真好".to_string()];
    assert_eq!(merge_segments(&segments), "今天天气真好");
}

#[test]
fn merge_segments_single_segment() {
    let segments = vec!["仅一段".to_string()];
    assert_eq!(merge_segments(&segments), "仅一段");
}

#[test]
fn merge_segments_empty_input() {
    let segments: Vec<String> = vec![];
    assert_eq!(merge_segments(&segments), "");
}

#[test]
fn longest_overlap_is_taken() {
    assert_eq!(merge_segments(&strings(&["xabab", "ababy"])), "xababy");
}

#[test]
fn overlap_may_be_a_whole_text() {
    assert_eq!(merge_segments(&strings(&["abc", "bc"])), "abc");
    assert_eq!(merge_segments(&strings(&["bc", "bcd"])), "bcd");
}

#[test]
fn one_common_character_is_kept_twice() {
    assert_eq!(merge_segments(&strings(&["ab", "bc"])), "abbc");
    assert_eq!(merge_segments(&strings(&["a", "a"])), "aa");
}

#[test]
fn repeated_segment_adds_nothing() {
    assert_eq!(merge_segments(&strings(&["hello", "hello", "hello"])), "hello");
}

#[test]
fn empty_segments_are_passed_over() {
    assert_eq!(merge_segments(&strings(&["", "ab", "", "bcd"])), "abbcd");
}

#[test]
fn every_segment_occurs_in_the_merged_text() {
    let segments = strings(&["the quick", "quick brown", "fox", "ox jumps"]);
    let text = merge_segments(&segments);
    assert_eq!(text, "the quick brownfox jumps");
    for segment in &segments {
        assert!(text.contains(segment.as_str()));
    }
}

#[test]
fn segments_are_ordered_by_id_and_final_ones_win() {
    let mut finals = BTreeMap::new();
    finals.insert(3, "three".to_string());
    finals.insert(-1, "minus".to_string());
    let mut partials = BTreeMap::new();
    partials.insert(2, "two".to_string());
    partials.insert(3, "interim".to_string());
    partials.insert(i64::MAX, "last".to_string());
    assert_eq!(
        ordered_segments(&finals, &partials),
        vec!["minus", "two", "three", "last"]
    );
    assert!(ordered_segments(&BTreeMap::new(), &BTreeMap::new()).is_empty());
}
