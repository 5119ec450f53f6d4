//! Turning file paths into labelled items, and shuffling them.
//!
//! Paths use `/` between components. The label of a file is the name of the
//! directory that holds it.
//!
//! Paths are taken as a directory walk from a plain root gives them: no `.`,
//! `..` or empty components. Such components are not normalised away as
//! `std::path::Path` would do: `x/./a.webp` is labelled `.`, `x/../a.webp` is
//! labelled `..`, and `root//a.webp` gets no label.
use vstd::prelude::*;
use rand::seq::SliceRandom;
use crate::item::Item;
use crate::text::{chars_of, push_chars};

verus! {

/// Index of the last `c` in `s`, or -1 when there is none.
pub open spec fn last_index_of(s: Seq<char>, c: char) -> int
    decreases s.len(),
{
    if s.len() == 0 {
        -1
    } else if s.last() == c {
        s.len() - 1
    } else {
        last_index_of(s.drop_last(), c)
    }
}

/// The last component of a path.
pub open spec fn file_part(p: Seq<char>) -> Seq<char> {
    p.subrange(last_index_of(p, '/') + 1, p.len() as int)
}

/// Everything before the last `/` of a path (empty when there is none).
pub open spec fn parent_part(p: Seq<char>) -> Seq<char> {
    if last_index_of(p, '/') < 0 {
        Seq::empty()
    } else {
        p.subrange(0, last_index_of(p, '/'))
    }
}

/// The file name has a non-empty stem and, after its last `.`, exactly `ext`.
pub open spec fn has_extension(file: Seq<char>, ext: Seq<char>) -> bool {
    let d = last_index_of(file, '.');
    d > 0 && file.subrange(d + 1, file.len() as int) == ext
}

/// The label of the file at path `p`: the name of its parent directory, when
/// the file carries extension `ext` and that name is not empty.
pub open spec fn label_of(p: Seq<char>, ext: Seq<char>) -> Option<Seq<char>> {
    let label = file_part(parent_part(p));
    if last_index_of(p, '/') >= 0 && has_extension(file_part(p), ext) && label.len() > 0 {
        Some(label)
    } else {
        None
    }
}

pub open spec fn opt_view(o: Option<String>) -> Option<Seq<char>> {
    match o {
        Some(s) => Some(s@),
        None => None,
    }
}

pub open spec fn item_views(s: Seq<Item>) -> Seq<(Seq<char>, Seq<char>)> {
    s.map_values(|i: Item| i@)
}

pub open spec fn string_views(s: Seq<String>) -> Seq<Seq<char>> {
    s.map_values(|x: String| x@)
}

/// The items that `paths` give for extension `ext`, in the order of `paths`.
pub open spec fn collected(paths: Seq<Seq<char>>, ext: Seq<char>) -> Seq<(Seq<char>, Seq<char>)>
    decreases paths.len(),
{
    if paths.len() == 0 {
        Seq::empty()
    } else {
        let rest = collected(paths.drop_last(), ext);
        match label_of(paths.last(), ext) {
            Some(l) => rest.push((paths.last(), l)),
            None => rest,
        }
    }
}

proof fn lemma_last_index_prefix(s: Seq<char>, c: char, k: int, end: int)
    requires
        0 <= k <= end <= s.len(),
        forall|j: int| k <= j < end ==> s[j] != c,
    ensures
        last_index_of(s.subrange(0, end), c) == last_index_of(s.subrange(0, k), c),
    decreases end - k,
{
    if end > k {
        assert(s.subrange(0, end).drop_last() =~= s.subrange(0, end - 1));
        lemma_last_index_prefix(s, c, k, end - 1);
    }
}

proof fn lemma_last_index_bounds(s: Seq<char>, c: char)
    ensures
        -1 <= last_index_of(s, c) < s.len(),
        last_index_of(s, c) >= 0 ==> s[last_index_of(s, c)] == c,
    decreases s.len(),
{
    if s.len() > 0 && s.last() != c {
        lemma_last_index_bounds(s.drop_last(), c);
    }
}

/// Finds the last `c` in `v[0..end]`.
fn find_last(v: &Vec<char>, c: char, end: usize) -> (r: Option<usize>)
    requires
        end <= v@.len(),
    ensures
        match r {
            Some(i) => i as int == last_index_of(v@.subrange(0, end as int), c),
            None => last_index_of(v@.subrange(0, end as int), c) == -1,
        },
{
    let mut k: usize = end;
    while k > 0
        invariant
            k <= end <= v@.len(),
            forall|j: int| k <= j < end ==> v@[j] != c,
        decreases k,
    {
        if v[k - 1] == c {
            proof {
                lemma_last_index_prefix(v@, c, k as int, end as int);
                assert(v@.subrange(0, k as int).last() == c);
            }
            return Some(k - 1);
        }
        k = k - 1;
    }
    proof {
        lemma_last_index_prefix(v@, c, 0, end as int);
    }
    None
}

/// Whether `a[from..to]` equals `b`.
fn chars_equal(a: &Vec<char>, from: usize, to: usize, b: &Vec<char>) -> (r: bool)
    requires
        from <= to <= a@.len(),
    ensures
        r == (a@.subrange(from as int, to as int) == b@),
{
    if to - from != b.len() {
        return false;
    }
    let mut i: usize = 0;
    while i < b.len()
        invariant
            from <= to <= a@.len(),
            to - from == b@.len(),
            i <= b@.len(),
            forall|j: int| 0 <= j < i ==> a@[from + j] == b@[j],
        decreases b@.len() - i,
    {
        if a[from + i] != b[i] {
            assert(a@.subrange(from as int, to as int)[i as int] != b@[i as int]);
            return false;
        }
        i = i + 1;
    }
    assert(a@.subrange(from as int, to as int) =~= b@);
    true
}

/// The label of the file at `path` if it carries extension `ext`: the name of
/// the directory that holds it. `None` for other files and for files with no
/// named parent directory.
pub fn label_for_path(path: &str, ext: &str) -> (r: Option<String>)
    ensures
        opt_view(r) == label_of(path@, ext@),
{
    let p = chars_of(path);
    let e = chars_of(ext);
    let ghost ps = p@;
    assert(ps.subrange(0, ps.len() as int) =~= ps);
    let slash = match find_last(&p, '/', p.len()) {
        Some(i) => i,
        None => return None,
    };
    proof { lemma_last_index_bounds(ps, '/'); }
    let ghost file = file_part(ps);
    let ghost parent = parent_part(ps);
    // The extension is what follows the last `.` after the last `/`.
    let mut dot: usize = p.len();
    let mut found = false;
    while dot > slash + 1 && !found
        invariant
            slash + 1 <= dot <= p@.len(),
            forall|j: int| dot <= j < p@.len() ==> p@[j] != '.',
            found ==> dot > slash + 1 && p@[dot - 1] == '.',
        decreases dot, if found { 0int } else { 1int },
    {
        if p[dot - 1] == '.' {
            found = true;
        } else {
            dot = dot - 1;
        }
    }
    proof {
        let f = file;
        assert(f =~= p@.subrange(slash + 1, p@.len() as int));
        if found {
            lemma_last_index_prefix(f, '.', (dot - slash - 1) as int, f.len() as int);
            assert(f.subrange(0, f.len() as int) =~= f);
            assert(f.subrange(0, (dot - slash - 1) as int).last() == '.');
            assert(last_index_of(f, '.') == dot - slash - 2);
            assert(f.subrange(dot - slash - 1, f.len() as int) =~= p@.subrange(dot as int, p@.len() as int));
        } else {
            lemma_last_index_prefix(f, '.', 0, f.len() as int);
            assert(f.subrange(0, f.len() as int) =~= f);
            assert(f.subrange(0, 0) =~= Seq::<char>::empty());
        }
    }
    // A stem must precede the dot.
    if !found || dot - 1 <= slash + 1 {
        return None;
    }
    if !chars_equal(&p, dot, p.len(), &e) {
        return None;
    }
    proof {
        assert(parent =~= p@.subrange(0, slash as int));
        assert(parent.subrange(0, parent.len() as int) =~= parent);
        lemma_last_index_bounds(parent, '/');
    }
    let start = match find_last(&p, '/', slash) {
        Some(i) => i + 1,
        None => 0,
    };
    if start == slash {
        return None;
    }
    let mut label = String::new();
    push_chars(&mut label, p.as_slice(), start, slash);
    proof {
        assert(file_part(parent) =~= p@.subrange(start as int, slash as int));
        assert(label@ =~= file_part(parent));
    }
    Some(label)
}

/// The items for the regular files at `paths` that carry extension `ext`, in
/// the order of `paths`, each labelled with the name of its parent directory.
pub fn collect_items(paths: &Vec<String>, ext: &str) -> (r: Vec<Item>)
    ensures
        item_views(r@) == collected(string_views(paths@), ext@),
{
    let mut items: Vec<Item> = Vec::new();
    let mut i: usize = 0;
    while i < paths.len()
        invariant
            i <= paths@.len(),
            item_views(items@) == collected(string_views(paths@.subrange(0, i as int)), ext@),
        decreases paths@.len() - i,
    {
        let ghost before = items@;
        let label = label_for_path(paths[i].as_str(), ext);
        let ghost sub = string_views(paths@.subrange(0, i + 1));
        assert(sub.drop_last() =~= string_views(paths@.subrange(0, i as int)));
        assert(sub.last() == paths@[i as int]@);
        match label {
            Some(l) => {
                items.push(Item { path: paths[i].clone(), label: l });
                assert(item_views(items@) =~= item_views(before).push(items@.last()@));
            },
            None => {},
        }
        i = i + 1;
    }
    assert(paths@.subrange(0, paths@.len() as int) =~= paths@);
    items
}

/// Relies on rand's `SliceRandom::shuffle` with the thread-local generator,
/// which only swaps elements: the result is a permutation of the input.
#[verifier::external_body]
fn shuffle_in_place(items: &mut Vec<Item>)
    ensures
        item_views(final(items)@).to_multiset() == item_views(old(items)@).to_multiset(),
        final(items)@.len() == old(items)@.len(),
{
    items.shuffle(&mut rand::rng());
}

/// The items of `paths` for extension `ext` (see `collect_items`), in a random order.
pub fn shuffled_items(paths: &Vec<String>, ext: &str) -> (r: Vec<Item>)
    ensures
        item_views(r@).to_multiset() == collected(string_views(paths@), ext@).to_multiset(),
{
    let mut items = collect_items(paths, ext);
    shuffle_in_place(&mut items);
    items
}

proof fn lemma_last_index_append(a: Seq<char>, b: Seq<char>, c: char)
    requires
        !b.contains(c),
    ensures
        last_index_of(a + b, c) == last_index_of(a, c),
    decreases b.len(),
{
    if b.len() > 0 {
        assert((a + b).drop_last() =~= a + b.drop_last());
        assert(b.last() == b[b.len() - 1]);
        assert(!b.drop_last().contains(c)) by {
            if b.drop_last().contains(c) {
                let j = choose|j: int| 0 <= j < b.drop_last().len() && b.drop_last()[j] == c;
                assert(b[j] == c);
            }
        }
        lemma_last_index_append(a, b.drop_last(), c);
    } else {
        assert(a + b =~= a);
    }
}

/// A file at `<prefix>/<label>/<stem>.<ext>` is labelled `<label>`, character
/// for character, whatever characters the label holds besides `/`.
pub proof fn lemma_label_of_path(prefix: Seq<char>, label: Seq<char>, stem: Seq<char>, ext: Seq<char>)
    requires
        label.len() > 0,
        stem.len() > 0,
        !label.contains('/'),
        !stem.contains('/'),
        !ext.contains('/'),
        !ext.contains('.'),
    ensures
        label_of(prefix + seq!['/'] + label + seq!['/'] + stem + seq!['.'] + ext, ext) == Some(label),
{
    let dir = prefix + seq!['/'] + label;
    let file = stem + seq!['.'] + ext;
    let p = dir + seq!['/'] + file;
    assert(prefix + seq!['/'] + label + seq!['/'] + stem + seq!['.'] + ext =~= p);
    assert(!file.contains('/')) by {
        if file.contains('/') {
            let j = choose|j: int| 0 <= j < file.len() && file[j] == '/';
            if j < stem.len() {
                assert(stem[j] == '/');
            } else if j > stem.len() {
                assert(ext[j - stem.len() - 1] == '/');
            }
        }
    }
    lemma_last_index_append(dir + seq!['/'], file, '/');
    assert((dir + seq!['/']).drop_last() =~= dir);
    let s = dir.len() as int;
    assert(last_index_of(p, '/') == s);
    assert(file_part(p) =~= file);
    assert(parent_part(p) =~= dir);
    lemma_last_index_append(stem + seq!['.'], ext, '.');
    assert((stem + seq!['.']).drop_last() =~= stem);
    assert(last_index_of(file, '.') == stem.len());
    assert(file.subrange(stem.len() + 1int, file.len() as int) =~= ext);
    lemma_last_index_append(prefix + seq!['/'], label, '/');
    assert((prefix + seq!['/']).drop_last() =~= prefix);
    assert(last_index_of(dir, '/') == prefix.len());
    assert(file_part(dir) =~= label);
}

} // verus!
