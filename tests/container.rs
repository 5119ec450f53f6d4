use std::io::Cursor;

use arrow::array::{Array, BinaryArray, StringArray};
use arrow::ipc::reader::FileReader;
use imagefolder_arrow::item::Item;
use imagefolder_arrow::partition::partition;
use imagefolder_arrow::shard::{assemble_columns, build_shard_file, encode_columns, Columns, ShardError};

fn read_back(bytes: &[u8]) -> (Vec<Vec<u8>>, Vec<String>) {
    let reader = FileReader::try_new(Cursor::new(bytes.to_vec()), None).unwrap();
    let schema = reader.schema();
    assert_eq!(schema.field(0).name(), "image");
    assert_eq!(schema.field(1).name(), "label");
    assert!(!schema.field(0).is_nullable());
    assert!(!schema.field(1).is_nullable());
    let mut images = Vec::new();
    let mut labels = Vec::new();
    for batch in reader {
        let batch = batch.unwrap();
        let img = batch.column(0).as_any().downcast_ref::<BinaryArray>().unwrap();
        let lab = batch.column(1).as_any().downcast_ref::<StringArray>().unwrap();
        assert_eq!(img.len(), lab.len());
        for i in 0..img.len() {
            images.push(img.value(i).to_vec());
            labels.push(lab.value(i).to_string());
        }
    }
    (images, labels)
}

fn item(path: &str, label: &str) -> Item {
    Item { path: path.to_string(), label: label.to_string() }
}

#[test]
fn container_round_trip() {
    let c = Columns {
        images: vec![vec![0u8, 1, 2, 255], vec![], vec![9u8; 1000]],
        labels: vec!["cat".to_string(), "猫".to_string(), "dog".to_string()],
    };
    let bytes = encode_columns(&c).unwrap();
    assert_eq!(&bytes[0..6], b"ARROW1");
    let (images, labels) = read_back(&bytes);
    assert_eq!(images, c.images);
    assert_eq!(labels, c.labels);
}

#[test]
fn empty_batch_round_trip() {
    let c = Columns { images: vec![], labels: vec![] };
    let bytes = encode_columns(&c).unwrap();
    let (images, labels) = read_back(&bytes);
    assert!(images.is_empty());
    assert!(labels.is_empty());
}

#[test]
fn unreadable_items_are_dropped() {
    let items = vec![item("a/x/1.webp", "x"), item("a/y/2.webp", "y"), item("a/z/3.webp", "z")];
    let reads = vec![Some(vec![1u8]), None, Some(vec![3u8, 3])];
    let c = assemble_columns(&items, &reads);
    assert_eq!(c.images, vec![vec![1u8], vec![3u8, 3]]);
    assert_eq!(c.labels, vec!["x".to_string(), "z".to_string()]);
}

#[test]
fn deleted_file_leaves_one_fewer_record() {
    let items: Vec<Item> = (0..4).map(|i| item(&format!("r/l{}/{}.webp", i, i), &format!("l{}", i))).collect();
    let shards = partition(&items, 4);
    let reads = vec![Some(vec![0u8]), Some(vec![1u8]), None, Some(vec![3u8])];
    let f = build_shard_file(&shards[0], &reads, "arrow").unwrap();
    assert_eq!(f.filename, "data-00000-of-00001.arrow");
    assert_eq!(f.rows, 3);
    let (images, labels) = read_back(&f.bytes);
    assert_eq!(images, vec![vec![0u8], vec![1u8], vec![3u8]]);
    assert_eq!(labels, vec!["l0", "l1", "l3"]);
}

#[test]
fn labels_too_long_for_offsets_are_refused() {
    let long = "a".repeat(536_870_912);
    let c = Columns { images: vec![vec![1u8]], labels: vec![long] };
    assert_eq!(encode_columns(&c), Err(ShardError::TooLarge));
}
