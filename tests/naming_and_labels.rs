use imagefolder_arrow::collect::{collect_items, label_for_path, shuffled_items};
use imagefolder_arrow::naming::shard_filename;

#[test]
fn filename_is_zero_padded() {
    assert_eq!(shard_filename(3, 4, "arrow"), "data-00003-of-00004.arrow");
    assert_eq!(shard_filename(0, 1, "arrow"), "data-00000-of-00001.arrow");
    assert_eq!(shard_filename(12345, 99999, "arrow"), "data-12345-of-99999.arrow");
}

#[test]
fn filename_wider_than_padding_is_kept_whole() {
    assert_eq!(shard_filename(123456, 1234567, "bin"), "data-123456-of-1234567.bin");
}

#[test]
fn filename_is_the_same_when_made_again() {
    let a = shard_filename(7, 42, "arrow");
    let b = shard_filename(7, 42, "arrow");
    assert_eq!(a, b);
    assert_eq!(a, "data-00007-of-00042.arrow");
}

#[test]
fn label_is_parent_directory() {
    assert_eq!(label_for_path("root/train/cat/img1.webp", "webp"), Some("cat".to_string()));
    assert_eq!(label_for_path("/data/train/dog/a.b.webp", "webp"), Some("dog".to_string()));
    assert_eq!(label_for_path("bird/x.webp", "webp"), Some("bird".to_string()));
}

#[test]
fn label_keeps_non_ascii_characters() {
    assert_eq!(label_for_path("root/train/猫/img.webp", "webp"), Some("猫".to_string()));
    assert_eq!(label_for_path("root/train/café crème/img.webp", "webp"), Some("café crème".to_string()));
}

#[test]
fn files_without_the_extension_are_skipped() {
    assert_eq!(label_for_path("root/train/cat/img1.png", "webp"), None);
    assert_eq!(label_for_path("root/train/cat/img1", "webp"), None);
    assert_eq!(label_for_path("root/train/cat/.webp", "webp"), None);
    assert_eq!(label_for_path("root/train/cat/img1.webp.bak", "webp"), None);
}

#[test]
fn files_without_a_named_parent_are_skipped() {
    assert_eq!(label_for_path("img1.webp", "webp"), None);
    assert_eq!(label_for_path("/img1.webp", "webp"), None);
    assert_eq!(label_for_path("root//img1.webp", "webp"), None);
}

#[test]
fn collect_keeps_matching_files_in_order() {
    let paths = vec![
        "r/cat/1.webp".to_string(),
        "r/cat/notes.txt".to_string(),
        "r/dog/2.webp".to_string(),
        "noparent.webp".to_string(),
    ];
    let items = collect_items(&paths, "webp");
    assert_eq!(items.len(), 2);
    assert_eq!(items[0].path, "r/cat/1.webp");
    assert_eq!(items[0].label, "cat");
    assert_eq!(items[1].path, "r/dog/2.webp");
    assert_eq!(items[1].label, "dog");
}

#[test]
fn shuffle_is_a_permutation() {
    let mut paths = Vec::new();
    for i in 0..50 {
        paths.push(format!("r/c{}/{}.webp", i % 3, i));
    }
    let items = shuffled_items(&paths, "webp");
    let mut got: Vec<(String, String)> = items.iter().map(|i| (i.path.clone(), i.label.clone())).collect();
    let mut want: Vec<(String, String)> = collect_items(&paths, "webp")
        .iter()
        .map(|i| (i.path.clone(), i.label.clone()))
        .collect();
    got.sort();
    want.sort();
    assert_eq!(got, want);
}

#[test]
fn dot_components_are_not_normalised() {
    assert_eq!(label_for_path("x/./a.webp", "webp"), Some(".".to_string()));
    assert_eq!(label_for_path("x/../a.webp", "webp"), Some("..".to_string()));
}
