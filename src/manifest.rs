//! The dataset descriptor and the list of shard files of one split.
use vstd::prelude::*;
use crate::collect::string_views;
use crate::naming::{lemma_filename_injective, shard_filename, shard_filename_spec};
use crate::partition::{Shard, is_partition};
use crate::item::Item;

verus! {

/// Kind of dataset recorded in the descriptor.
pub const DATASET_TYPE: &'static str = "imagefolder";

/// Storage format recorded in the descriptor and the shard manifest.
pub const STORAGE_FORMAT: &'static str = "arrow";

/// Describes one split of the dataset.
pub struct DatasetInfo {
    pub dataset_name: String,
    pub dataset_type: String,
    pub num_samples: usize,
    pub format: String,
}

/// The shard files of one split, in index order, and their format.
pub struct ShardManifest {
    pub data_files: Vec<String>,
    pub format: String,
}

/// The file names of shards `0..total`, in index order.
pub open spec fn manifest_names(total: nat, ext: Seq<char>) -> Seq<Seq<char>> {
    Seq::new(total, |i: int| shard_filename_spec(i as nat, total, ext))
}

/// The file names that the given shards are written under.
pub open spec fn shard_names(shards: Seq<Shard>, ext: Seq<char>) -> Seq<Seq<char>> {
    shards.map_values(|s: Shard| shard_filename_spec(s.index as nat, s.total_shards as nat, ext))
}

/// The descriptor of a split named `name` that was cut from `num_samples` items.
pub fn dataset_info(name: &str, num_samples: usize) -> (r: DatasetInfo)
    ensures
        r.dataset_name@ == name@,
        r.dataset_type@ == DATASET_TYPE@,
        r.num_samples == num_samples,
        r.format@ == STORAGE_FORMAT@,
{
    DatasetInfo {
        dataset_name: name.to_owned(),
        dataset_type: DATASET_TYPE.to_owned(),
        num_samples,
        format: STORAGE_FORMAT.to_owned(),
    }
}

/// The manifest of a split with `total` shards stored with extension `ext`.
pub fn shard_manifest(total: usize, ext: &str) -> (r: ShardManifest)
    ensures
        string_views(r.data_files@) == manifest_names(total as nat, ext@),
        r.format@ == STORAGE_FORMAT@,
{
    let mut files: Vec<String> = Vec::new();
    let mut i: usize = 0;
    while i < total
        invariant
            i <= total,
            string_views(files@) == Seq::new(i as nat, |j: int| shard_filename_spec(j as nat, total as nat, ext@)),
        decreases total - i,
    {
        let name = shard_filename(i, total, ext);
        let ghost before = files@;
        files.push(name);
        assert(string_views(files@) =~= string_views(before).push(name@));
        i = i + 1;
        assert(Seq::new(i as nat, |j: int| shard_filename_spec(j as nat, total as nat, ext@))
            =~= string_views(files@));
    }
    assert(string_views(files@) =~= manifest_names(total as nat, ext@));
    ShardManifest { data_files: files, format: STORAGE_FORMAT.to_owned() }
}

/// For the shards of a partition, the manifest lists exactly the files that the
/// shards are written under: one entry per shard, in index order, none other,
/// and no two entries alike.
pub proof fn lemma_manifest_complete(shards: Seq<Shard>, items: Seq<Item>, size: nat, ext: Seq<char>)
    requires
        size > 0,
        is_partition(shards, items, size),
    ensures
        manifest_names(shards.len(), ext) == shard_names(shards, ext),
        manifest_names(shards.len(), ext).len() == shards.len(),
        forall|i: int, j: int|
            0 <= i < j < shards.len() ==> #[trigger] manifest_names(shards.len(), ext)[i]
                != #[trigger] manifest_names(shards.len(), ext)[j],
{
    assert forall|i: int, j: int| 0 <= i < j < shards.len() implies
        #[trigger] manifest_names(shards.len(), ext)[i] != #[trigger] manifest_names(shards.len(), ext)[j] by {
        if manifest_names(shards.len(), ext)[i] == manifest_names(shards.len(), ext)[j] {
            lemma_filename_injective(i as nat, j as nat, shards.len(), ext);
        }
    }
    assert forall|i: int| 0 <= i < shards.len() implies
        #[trigger] manifest_names(shards.len(), ext)[i] == shard_names(shards, ext)[i] by {
        assert(shards[i].index == i);
    }
    assert(manifest_names(shards.len(), ext) =~= shard_names(shards, ext));
}

} // verus!
