use imagefolder_arrow::admission::{Admission, Step};
use imagefolder_arrow::item::Item;
use imagefolder_arrow::manifest::{dataset_info, shard_manifest};
use imagefolder_arrow::partition::{partition, plan_split};

fn items(n: usize) -> Vec<Item> {
    (0..n)
        .map(|i| Item { path: format!("r/l/{}.webp", i), label: "l".to_string() })
        .collect()
}

#[test]
fn partition_counts_and_order() {
    let v = items(15);
    let shards = partition(&v, 4);
    let sizes: Vec<usize> = shards.iter().map(|s| s.items.len()).collect();
    assert_eq!(sizes, vec![4, 4, 4, 3]);
    let mut again = Vec::new();
    for (i, s) in shards.iter().enumerate() {
        assert_eq!(s.index, i);
        assert_eq!(s.total_shards, 4);
        for it in &s.items {
            again.push(it.path.clone());
        }
    }
    let want: Vec<String> = v.iter().map(|i| i.path.clone()).collect();
    assert_eq!(again, want);
}

#[test]
fn partition_exact_multiple_and_empty() {
    let shards = partition(&items(8), 4);
    assert_eq!(shards.len(), 2);
    assert_eq!(shards[1].items.len(), 4);
    assert!(partition(&items(0), 4).is_empty());
    let one = partition(&items(3), 10);
    assert_eq!(one.len(), 1);
    assert_eq!(one[0].items.len(), 3);
}

#[test]
fn three_labels_fifteen_items_four_shards() {
    let mut paths = Vec::new();
    for label in ["cat", "dog", "bird"] {
        for i in 0..5 {
            paths.push(format!("root/train/{}/{}.webp", label, i));
        }
    }
    let plan = plan_split(&paths, "webp", 4);
    assert_eq!(plan.num_samples, 15);
    let sizes: Vec<usize> = plan.shards.iter().map(|s| s.items.len()).collect();
    assert_eq!(sizes, vec![4, 4, 4, 3]);
    let manifest = shard_manifest(plan.shards.len(), "arrow");
    assert_eq!(
        manifest.data_files,
        vec![
            "data-00000-of-00004.arrow",
            "data-00001-of-00004.arrow",
            "data-00002-of-00004.arrow",
            "data-00003-of-00004.arrow",
        ]
    );
    assert_eq!(manifest.format, "arrow");
    let info = dataset_info("imagenet-train", plan.num_samples);
    assert_eq!(info.num_samples, 15);
    assert_eq!(info.dataset_name, "imagenet-train");
    assert_eq!(info.dataset_type, "imagefolder");
    assert_eq!(info.format, "arrow");
}

#[test]
fn empty_manifest() {
    let m = shard_manifest(0, "arrow");
    assert!(m.data_files.is_empty());
}

#[test]
fn admission_never_exceeds_limit() {
    let mut a = Admission::new(10, 3);
    let mut running: Vec<usize> = Vec::new();
    let mut started = Vec::new();
    loop {
        match a.next_step() {
            Step::Start(i) => {
                started.push(i);
                running.push(i);
                assert!(a.active() <= 3);
                assert_eq!(a.active(), running.len());
            }
            Step::Wait => {
                assert!(running.len() == 3 || started.len() == 10);
                assert!(!running.is_empty());
                // Finish the oldest task.
                running.remove(0);
                a.task_finished();
            }
            Step::AllDone => break,
        }
    }
    assert_eq!(started, (0..10).collect::<Vec<usize>>());
    assert_eq!(a.active(), 0);
}

#[test]
fn admission_with_no_shards_is_done_at_once() {
    let mut a = Admission::new(0, 8);
    assert_eq!(a.next_step(), Step::AllDone);
}

#[test]
fn admission_waits_until_a_task_finishes() {
    let mut a = Admission::new(3, 1);
    assert_eq!(a.next_step(), Step::Start(0));
    assert_eq!(a.next_step(), Step::Wait);
    a.task_finished();
    assert_eq!(a.next_step(), Step::Start(1));
    a.task_finished();
    assert_eq!(a.next_step(), Step::Start(2));
    assert_eq!(a.next_step(), Step::Wait);
    a.task_finished();
    assert_eq!(a.next_step(), Step::AllDone);
    assert_eq!(a.limit(), 1);
    assert_eq!(a.total(), 3);
}

#[test]
fn manifest_names_are_distinct() {
    let m = shard_manifest(1200, "arrow");
    let mut names = m.data_files.clone();
    names.sort();
    names.dedup();
    assert_eq!(names.len(), 1200);
    assert_eq!(m.data_files[1199], "data-01199-of-01200.arrow");
}
