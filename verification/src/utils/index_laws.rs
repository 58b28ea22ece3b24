//! What holds of every index, whatever the scan it was built from.

use crate::utils::filename::is_image;
use crate::utils::indexed_images::{
    build_outcome, category_names, category_of, entry_failed, holds_image, image_name, images_in,
    index_of, is_category, listing_failed,
};
use crate::utils::scan::{DirScan, FileScan, RootEntry, RootScan};
use vstd::prelude::*;

verus! {

/// The images among `files` are the names of its regular files with a
/// recognised extension, and nothing else.
pub proof fn lemma_images_in_members(files: Seq<FileScan>, name: Seq<char>)
    ensures
        images_in(files).contains(name) <==> exists|j: int|
            0 <= j < files.len() && image_name(#[trigger] files[j]) == Some(name),
    decreases files.len(),
{
    if files.len() == 0 {
    } else {
        let rest = files.drop_last();
        lemma_images_in_members(rest, name);
        let found = images_in(rest);
        match image_name(files.last()) {
            Some(last) => {
                assert(images_in(files) == found + seq![last]);
                if images_in(files).contains(name) {
                    let p = choose|p: int|
                        0 <= p < images_in(files).len() && images_in(files)[p] == name;
                    if p < found.len() {
                        assert(found[p] == name);
                        let j = choose|j: int|
                            0 <= j < rest.len() && image_name(#[trigger] rest[j]) == Some(name);
                        assert(files[j] == rest[j]);
                    } else {
                        assert(image_name(files[files.len() - 1]) == Some(name));
                    }
                }
                if exists|j: int|
                    0 <= j < files.len() && image_name(#[trigger] files[j]) == Some(name) {
                    let j = choose|j: int|
                        0 <= j < files.len() && image_name(#[trigger] files[j]) == Some(name);
                    if j < rest.len() {
                        assert(rest[j] == files[j]);
                        let p = choose|p: int| 0 <= p < found.len() && found[p] == name;
                        assert(images_in(files)[p] == name);
                    } else {
                        assert(images_in(files)[found.len() as int] == name);
                    }
                }
            },
            None => {
                assert(images_in(files) == found);
                if exists|j: int|
                    0 <= j < files.len() && image_name(#[trigger] files[j]) == Some(name) {
                    let j = choose|j: int|
                        0 <= j < files.len() && image_name(#[trigger] files[j]) == Some(name);
                    assert(rest[j] == files[j]);
                }
                if images_in(files).contains(name) {
                    let j = choose|j: int|
                        0 <= j < rest.len() && image_name(#[trigger] rest[j]) == Some(name);
                    assert(files[j] == rest[j]);
                }
            },
        }
    }
}

/// A listing gives at least one image exactly when it holds one.
pub proof fn lemma_images_in_nonempty(files: Seq<FileScan>)
    ensures
        images_in(files).len() > 0 <==> holds_image(files),
{
    if images_in(files).len() > 0 {
        let name = images_in(files)[0];
        assert(images_in(files).contains(name));
        lemma_images_in_members(files, name);
    }
    if holds_image(files) {
        let j = choose|j: int| 0 <= j < files.len() && image_name(#[trigger] files[j]) is Some;
        let name = image_name(files[j])->0;
        lemma_images_in_members(files, name);
        assert(images_in(files).contains(name));
    }
}

/// A root entry contributes the category `name` exactly when it is a listed
/// sub-directory of that name which holds an image.
pub proof fn lemma_category_of(entry: RootEntry, name: Seq<char>)
    ensures
        is_category(entry, name) <==> (category_of(entry) matches Some((own, _)) && own == name),
{
    match entry {
        RootEntry::Directory { name: own, listing: DirScan::Listed(files) } => {
            lemma_images_in_nonempty(files@);
        },
        _ => {},
    }
}

/// The categories of the index are the names of the sub-directories that hold
/// at least one image, and no others.
pub proof fn lemma_index_keys(entries: Seq<RootEntry>, name: Seq<char>)
    ensures
        index_of(entries).contains_key(name) <==> exists|i: int|
            0 <= i < entries.len() && is_category(#[trigger] entries[i], name),
    decreases entries.len(),
{
    if entries.len() > 0 {
        let rest = entries.drop_last();
        lemma_index_keys(rest, name);
        lemma_category_of(entries.last(), name);
        if exists|i: int| 0 <= i < rest.len() && is_category(#[trigger] rest[i], name) {
            let i = choose|i: int| 0 <= i < rest.len() && is_category(#[trigger] rest[i], name);
            assert(entries[i] == rest[i]);
        }
        if exists|i: int| 0 <= i < entries.len() && is_category(#[trigger] entries[i], name) {
            let i = choose|i: int|
                0 <= i < entries.len() && is_category(#[trigger] entries[i], name);
            if i < rest.len() {
                assert(rest[i] == entries[i]);
            }
        }
    }
}

/// The categories of the index, as a set, are the names of the sub-directories
/// that hold at least one image.
pub proof fn lemma_index_dom(entries: Seq<RootEntry>)
    ensures
        index_of(entries).dom() == category_names(entries),
{
    assert forall|name: Seq<char>|
        index_of(entries).dom().contains(name) == category_names(entries).contains(name) by {
        lemma_index_keys(entries, name);
    }
    assert(index_of(entries).dom() =~= category_names(entries));
}

/// An index is built exactly from a root that was listed without a failure
/// and holds at least one sub-directory with an image.
pub proof fn lemma_index_is_built(scan: RootScan)
    ensures
        build_outcome(scan) is Ok <==> (scan matches RootScan::Listed(entries) && !listing_failed(
            entries@,
        ) && exists|name: Seq<char>| category_names(entries@).contains(name)),
{
    match scan {
        RootScan::Listed(entries) => {
            lemma_index_dom(entries@);
            if index_of(entries@) =~= Map::empty() {
                assert forall|name: Seq<char>| !category_names(entries@).contains(name) by {
                    assert(!index_of(entries@).dom().contains(name));
                }
            } else {
                let name = choose|name: Seq<char>| index_of(entries@).dom().contains(name);
                if !index_of(entries@).dom().contains(name) {
                    assert(index_of(entries@).dom() =~= Set::empty());
                    assert(index_of(entries@) =~= Map::empty());
                }
                assert(category_names(entries@).contains(name));
            }
        },
        _ => {},
    }
}

/// The images of a category are those of the last sub-directory of its name
/// that holds an image.
pub proof fn lemma_index_images(entries: Seq<RootEntry>, name: Seq<char>)
    requires
        index_of(entries).contains_key(name),
    ensures
        exists|i: int|
            {
                &&& 0 <= i < entries.len()
                &&& category_of(#[trigger] entries[i]) == Some((name, index_of(entries)[name]))
                &&& forall|j: int| i < j < entries.len() ==> !is_category(#[trigger] entries[j], name)
            },
    decreases entries.len(),
{
    let rest = entries.drop_last();
    let last = entries.len() - 1;
    lemma_category_of(entries.last(), name);
    if is_category(entries.last(), name) {
        assert(category_of(entries[last]) == Some((name, index_of(entries)[name])));
    } else {
        lemma_index_images(rest, name);
        let i = choose|i: int|
            {
                &&& 0 <= i < rest.len()
                &&& category_of(#[trigger] rest[i]) == Some((name, index_of(rest)[name]))
                &&& forall|j: int| i < j < rest.len() ==> !is_category(#[trigger] rest[j], name)
            };
        assert(entries[i] == rest[i]);
        assert forall|j: int| i < j < entries.len() implies !is_category(
            #[trigger] entries[j],
            name,
        ) by {
            if j < rest.len() {
                assert(rest[j] == entries[j]);
            }
        }
    }
}

/// Every category of an index holds at least one image, and every name in it
/// is the name of an image.
pub proof fn lemma_index_categories_hold_images(entries: Seq<RootEntry>, name: Seq<char>)
    requires
        index_of(entries).contains_key(name),
    ensures
        index_of(entries)[name].len() > 0,
        forall|p: int|
            0 <= p < index_of(entries)[name].len() ==> is_image(
                #[trigger] index_of(entries)[name][p],
            ),
{
    lemma_index_images(entries, name);
    let i = choose|i: int|
        0 <= i < entries.len() && category_of(#[trigger] entries[i]) == Some(
            (name, index_of(entries)[name]),
        );
    let images = index_of(entries)[name];
    match entries[i] {
        RootEntry::Directory { name: own, listing: DirScan::Listed(files) } => {
            assert forall|p: int| 0 <= p < images.len() implies is_image(
                #[trigger] images[p],
            ) by {
                assert(images.contains(images[p]));
                lemma_images_in_members(files@, images[p]);
            }
        },
        _ => {},
    }
}

/// Whether two entries of a category directory stand for the same entry of the
/// file system.
pub open spec fn same_file(a: FileScan, b: FileScan) -> bool {
    match (a, b) {
        (FileScan::Unreadable, FileScan::Unreadable) => true,
        (FileScan::File(x), FileScan::File(y)) => x@ == y@,
        (FileScan::Other, FileScan::Other) => true,
        _ => false,
    }
}

/// Whether `file` is met among `files`.
pub open spec fn file_met(file: FileScan, files: Seq<FileScan>) -> bool {
    exists|j: int| 0 <= j < files.len() && same_file(file, #[trigger] files[j])
}

/// Whether every entry of `a` is met again in `b`.
pub open spec fn files_within(a: Seq<FileScan>, b: Seq<FileScan>) -> bool {
    forall|i: int| 0 <= i < a.len() ==> #[trigger] file_met(a[i], b)
}

/// Whether two entries of the root stand for the same entry of the file system:
/// the same kind and name, and for a directory the same entries in any order.
pub open spec fn same_entry(a: RootEntry, b: RootEntry) -> bool {
    match (a, b) {
        (RootEntry::Unreadable, RootEntry::Unreadable) => true,
        (RootEntry::Other, RootEntry::Other) => true,
        (
            RootEntry::Directory { name: x, listing: DirScan::Failed },
            RootEntry::Directory { name: y, listing: DirScan::Failed },
        ) => x@ == y@,
        (
            RootEntry::Directory { name: x, listing: DirScan::Listed(f) },
            RootEntry::Directory { name: y, listing: DirScan::Listed(g) },
        ) => x@ == y@ && files_within(f@, g@) && files_within(g@, f@),
        _ => false,
    }
}

/// Whether `entry` is met among `entries`.
pub open spec fn entry_met(entry: RootEntry, entries: Seq<RootEntry>) -> bool {
    exists|j: int| 0 <= j < entries.len() && same_entry(entry, #[trigger] entries[j])
}

/// Whether every entry of `a` is met again in `b`.
pub open spec fn entries_within(a: Seq<RootEntry>, b: Seq<RootEntry>) -> bool {
    forall|i: int| 0 <= i < a.len() ==> #[trigger] entry_met(a[i], b)
}

/// The name of a root entry that is a directory.
pub open spec fn directory_name(entry: RootEntry) -> Option<Seq<char>> {
    match entry {
        RootEntry::Directory { name, listing } => Some(name@),
        _ => None,
    }
}

/// Whether no two directories of a listing share a name, as in any listing
/// that a file system gives.
pub open spec fn distinct_directories(entries: Seq<RootEntry>) -> bool {
    forall|i: int, j: int|
        0 <= i < j < entries.len() && directory_name(#[trigger] entries[i]) is Some
            ==> directory_name(entries[i]) != directory_name(#[trigger] entries[j])
}

/// Whether two scans saw the same tree: the same state of the root, and where
/// it was listed the same entries, in any order.
pub open spec fn same_tree(a: RootScan, b: RootScan) -> bool {
    match (a, b) {
        (RootScan::Missing, RootScan::Missing) => true,
        (RootScan::NotADirectory, RootScan::NotADirectory) => true,
        (RootScan::Failed, RootScan::Failed) => true,
        (RootScan::Listed(x), RootScan::Listed(y)) => {
            &&& entries_within(x@, y@)
            &&& entries_within(y@, x@)
            &&& distinct_directories(x@)
            &&& distinct_directories(y@)
        },
        _ => false,
    }
}

/// Two directories with the same entries give the same images, as sets.
proof fn lemma_same_files_same_images(f: Seq<FileScan>, g: Seq<FileScan>, name: Seq<char>)
    requires
        files_within(f, g),
        images_in(f).contains(name),
    ensures
        images_in(g).contains(name),
{
    lemma_images_in_members(f, name);
    lemma_images_in_members(g, name);
    let i = choose|i: int| 0 <= i < f.len() && image_name(#[trigger] f[i]) == Some(name);
    assert(file_met(f[i], g));
    let j = choose|j: int| 0 <= j < g.len() && same_file(f[i], #[trigger] g[j]);
    assert(image_name(g[j]) == Some(name));
}

/// A category of one scan is a category of every scan that met its directory.
proof fn lemma_category_carries_over(a: Seq<RootEntry>, b: Seq<RootEntry>, name: Seq<char>)
    requires
        entries_within(a, b),
        index_of(a).contains_key(name),
    ensures
        index_of(b).contains_key(name),
{
    lemma_index_keys(a, name);
    lemma_index_keys(b, name);
    let i = choose|i: int| 0 <= i < a.len() && is_category(#[trigger] a[i], name);
    assert(entry_met(a[i], b));
    let j = choose|j: int| 0 <= j < b.len() && same_entry(a[i], #[trigger] b[j]);
    match (a[i], b[j]) {
        (
            RootEntry::Directory { name: x, listing: DirScan::Listed(f) },
            RootEntry::Directory { name: y, listing: DirScan::Listed(g) },
        ) => {
            let p = choose|p: int| 0 <= p < f@.len() && image_name(#[trigger] f@[p]) is Some;
            assert(file_met(f@[p], g@));
            let q = choose|q: int| 0 <= q < g@.len() && same_file(f@[p], #[trigger] g@[q]);
            assert(image_name(g@[q]) is Some);
            assert(is_category(b[j], name));
        },
        _ => {},
    }
}

/// The images that one scan gives for a category are among those that any
/// other scan of the same tree gives for it.
proof fn lemma_images_carry_over(
    a: Seq<RootEntry>,
    b: Seq<RootEntry>,
    name: Seq<char>,
    image: Seq<char>,
)
    requires
        entries_within(a, b),
        distinct_directories(b),
        index_of(a).contains_key(name),
        index_of(a)[name].contains(image),
    ensures
        index_of(b).contains_key(name),
        index_of(b)[name].contains(image),
{
    lemma_category_carries_over(a, b, name);
    lemma_index_images(a, name);
    lemma_index_images(b, name);
    let i = choose|i: int|
        0 <= i < a.len() && category_of(#[trigger] a[i]) == Some((name, index_of(a)[name]));
    let k = choose|k: int|
        0 <= k < b.len() && category_of(#[trigger] b[k]) == Some((name, index_of(b)[name]));
    assert(entry_met(a[i], b));
    let j = choose|j: int| 0 <= j < b.len() && same_entry(a[i], #[trigger] b[j]);
    assert(directory_name(b[j]) == Some(name));
    assert(directory_name(b[k]) == Some(name));
    assert(j == k);
    match (a[i], b[j]) {
        (
            RootEntry::Directory { name: x, listing: DirScan::Listed(f) },
            RootEntry::Directory { name: y, listing: DirScan::Listed(g) },
        ) => {
            lemma_same_files_same_images(f@, g@, image);
        },
        _ => {},
    }
}

/// A failure that one scan met is met by every scan of the same tree.
proof fn lemma_failure_carries_over(a: Seq<RootEntry>, b: Seq<RootEntry>)
    requires
        entries_within(a, b),
        listing_failed(a),
    ensures
        listing_failed(b),
{
    let i = choose|i: int| 0 <= i < a.len() && entry_failed(#[trigger] a[i]);
    assert(entry_met(a[i], b));
    let j = choose|j: int| 0 <= j < b.len() && same_entry(a[i], #[trigger] b[j]);
    assert(entry_failed(b[j]));
}

/// Building the index again from an unchanged tree gives the same index: two
/// scans of one tree, which may list its entries in different orders, fail in
/// the same way or give the same categories with the same set of images each.
pub proof fn lemma_rescan_gives_same_index(a: RootScan, b: RootScan)
    requires
        same_tree(a, b),
    ensures
        match (build_outcome(a), build_outcome(b)) {
            (Ok(x), Ok(y)) => {
                &&& x.dom() == y.dom()
                &&& forall|name: Seq<char>| #[trigger]
                    x.contains_key(name) ==> x[name].to_set() == y[name].to_set()
            },
            (Err(e), Err(f)) => e == f,
            _ => false,
        },
{
    match (a, b) {
        (RootScan::Listed(x), RootScan::Listed(y)) => {
            let (x, y) = (x@, y@);
            if listing_failed(x) {
                lemma_failure_carries_over(x, y);
            }
            if listing_failed(y) {
                lemma_failure_carries_over(y, x);
            }
            assert forall|name: Seq<char>|
                index_of(x).contains_key(name) == index_of(y).contains_key(name) by {
                if index_of(x).contains_key(name) {
                    lemma_category_carries_over(x, y, name);
                }
                if index_of(y).contains_key(name) {
                    lemma_category_carries_over(y, x, name);
                }
            }
            assert(index_of(x).dom() =~= index_of(y).dom());
            assert forall|name: Seq<char>| #[trigger] index_of(x).contains_key(name) implies index_of(
                x,
            )[name].to_set() == index_of(y)[name].to_set() by {
                assert forall|image: Seq<char>|
                    index_of(x)[name].contains(image) == index_of(y)[name].contains(image) by {
                    if index_of(x)[name].contains(image) {
                        lemma_images_carry_over(x, y, name, image);
                    }
                    if index_of(y)[name].contains(image) {
                        lemma_images_carry_over(y, x, name, image);
                    }
                }
                assert(index_of(x)[name].to_set() =~= index_of(y)[name].to_set());
            }
            if index_of(x) =~= Map::empty() {
                assert(index_of(y) =~= Map::empty());
            }
            if index_of(y) =~= Map::empty() {
                assert(index_of(x) =~= Map::empty());
            }
        },
        _ => {},
    }
}

} // verus!
