use git_tools::repo::{
    abbreviate_id, blob_text, conflict_from_entry, merge_commit_message, order_by_path, plan_merge,
    split_commit_message, strip_nul, strip_nul_bytes, MergePlan,
};

#[test]
fn entry_with_both_sides_qualifies() {
    let c = conflict_from_entry(
        &b"dir/a.txt".to_vec(),
        Some(b"ours\0 text".to_vec()),
        Some(b"theirs".to_vec()),
        Some(b"base".to_vec()),
    )
    .unwrap();
    assert_eq!(c.path, "dir/a.txt");
    assert_eq!(c.our_content, "ours text");
    assert_eq!(c.their_content, "theirs");
    assert_eq!(c.base_content.as_deref(), Some("base"));
}

#[test]
fn entry_missing_a_side_or_not_text_is_excluded() {
    assert!(conflict_from_entry(&b"a".to_vec(), None, Some(b"t".to_vec()), None).is_none());
    assert!(conflict_from_entry(&b"a".to_vec(), Some(b"o".to_vec()), None, None).is_none());
    assert!(conflict_from_entry(&b"a".to_vec(), Some(vec![0xff, 0xfe]), Some(b"t".to_vec()), None)
        .is_none());
    assert!(conflict_from_entry(&vec![0xc3], Some(b"o".to_vec()), Some(b"t".to_vec()), None).is_none());
}

#[test]
fn unreadable_base_is_left_out() {
    let c = conflict_from_entry(
        &b"a\0b".to_vec(),
        Some(b"o".to_vec()),
        Some("thé".as_bytes().to_vec()),
        Some(vec![0xed, 0xa0, 0x80]),
    )
    .unwrap();
    assert_eq!(c.path, "ab");
    assert_eq!(c.their_content, "thé");
    assert!(c.base_content.is_none());
}

#[test]
fn nul_bytes_and_characters_are_removed() {
    assert_eq!(strip_nul_bytes(&vec![0, 1, 0, 2, 0]), vec![1, 2]);
    assert_eq!(strip_nul("a\0b\0"), "ab");
    assert_eq!(blob_text(&b"x\0y".to_vec()).as_deref(), Some("xy"));
    assert!(blob_text(&vec![0x80]).is_none());
}

#[test]
fn merge_analysis_precedence() {
    assert_eq!(plan_merge(false, true, false), Some(MergePlan::UpToDate));
    assert_eq!(plan_merge(true, true, true), Some(MergePlan::UpToDate));
    // a merge that can fast-forward is reported as normal and fast-forward together
    assert_eq!(plan_merge(true, false, true), Some(MergePlan::FastForward));
    assert_eq!(plan_merge(false, false, true), Some(MergePlan::FastForward));
    assert_eq!(plan_merge(true, false, false), Some(MergePlan::Normal));
    assert_eq!(plan_merge(false, false, false), None);
}

#[test]
fn merge_commit_message_names_both_branches() {
    assert_eq!(merge_commit_message("feature", "main"), "Merge branch 'feature' into 'main'");
    assert_eq!(merge_commit_message("fe\0at", "ma\0in"), "Merge branch 'feat' into 'main'");
}

#[test]
fn commit_message_title_and_details() {
    let (t, d) = split_commit_message("Add feature1\n\nLonger text\nmore");
    assert_eq!(t, "Add feature1");
    assert_eq!(d, "\nLonger text\nmore");
    let (t, d) = split_commit_message("Only a title");
    assert_eq!(t, "Only a title");
    assert_eq!(d, "");
    let (t, d) = split_commit_message("");
    assert_eq!((t.as_str(), d.as_str()), ("", ""));
}

#[test]
fn commit_ids_are_abbreviated() {
    assert_eq!(abbreviate_id("0123456789abcdef"), "0123456");
    assert_eq!(abbreviate_id("abc"), "abc");
}

fn named(path: &str) -> git_tools::model::ConflictFile {
    git_tools::model::ConflictFile {
        path: path.to_string(),
        our_content: format!("ours of {}", path),
        their_content: String::new(),
        base_content: None,
    }
}

#[test]
fn conflicts_are_ordered_by_path() {
    let files = vec![named("c.txt"), named("a/b.txt"), named("B.txt"), named("a"), named("é.txt")];
    let ordered = order_by_path(files);
    let paths: Vec<&str> = ordered.iter().map(|c| c.path.as_str()).collect();
    assert_eq!(paths, vec!["B.txt", "a", "a/b.txt", "c.txt", "é.txt"]);
    assert_eq!(ordered[3].our_content, "ours of c.txt");
    assert!(order_by_path(Vec::new()).is_empty());
}
