//! The index of images by category, and how it is built from a scan.

use crate::utils::filename::{is_image, is_image_name};
use crate::utils::index_laws::lemma_index_dom;
use crate::utils::scan::{DirScan, FileScan, RootEntry, RootScan};
use vstd::hash_map::StringHashMap;
use vstd::prelude::*;

verus! {

/// Why no index could be built.
#[derive(Clone, Copy, Debug, PartialEq, Eq, Structural)]
pub enum IndexError {
    /// The root directory is missing, is no directory, or could not be read in
    /// full. An index built from part of the tree would hide real categories.
    ConfigurationError,
    /// The scan went through, and no category holds an image.
    EmptyIndexError,
}

/// The name under which a file enters the index, if it does: the file must be a
/// regular file with a recognised image extension.
pub open spec fn image_name(file: FileScan) -> Option<Seq<char>> {
    match file {
        FileScan::File(name) => if is_image(name@) {
            Some(name@)
        } else {
            None
        },
        _ => None,
    }
}

/// [`image_name`] as a value, for use with `filter_map`.
pub open spec fn image_name_fn() -> spec_fn(FileScan) -> Option<Seq<char>> {
    |file: FileScan| image_name(file)
}

/// The images among `files`, in listing order. Entries that could not be read
/// are passed over.
pub open spec fn images_in(files: Seq<FileScan>) -> Seq<Seq<char>> {
    files.filter_map(image_name_fn())
}

/// The category that a root entry contributes, with its images: the entry must
/// be a directory that was listed and holds at least one image.
pub open spec fn category_of(entry: RootEntry) -> Option<(Seq<char>, Seq<Seq<char>>)> {
    match entry {
        RootEntry::Directory { name, listing: DirScan::Listed(files) } => if images_in(
            files@,
        ).len() > 0 {
            Some((name@, images_in(files@)))
        } else {
            None
        },
        _ => None,
    }
}

/// Whether `files` holds at least one image.
pub open spec fn holds_image(files: Seq<FileScan>) -> bool {
    exists|j: int| 0 <= j < files.len() && image_name(#[trigger] files[j]) is Some
}

/// Whether `entry` is a sub-directory called `name` that was listed and holds at
/// least one image.
pub open spec fn is_category(entry: RootEntry, name: Seq<char>) -> bool {
    match entry {
        RootEntry::Directory { name: own, listing: DirScan::Listed(files) } => own@ == name
            && holds_image(files@),
        _ => false,
    }
}

/// The names of the sub-directories among `entries` that hold at least one image.
pub open spec fn category_names(entries: Seq<RootEntry>) -> Set<Seq<char>> {
    Set::new(
        |name: Seq<char>|
            exists|i: int| 0 <= i < entries.len() && is_category(#[trigger] entries[i], name),
    )
}

/// The index that a listing of the root gives: each category is entered in
/// listing order, so of two directories with one name the later one stays.
pub open spec fn index_of(entries: Seq<RootEntry>) -> Map<Seq<char>, Seq<Seq<char>>>
    decreases entries.len(),
{
    if entries.len() == 0 {
        Map::empty()
    } else {
        let rest = index_of(entries.drop_last());
        match category_of(entries.last()) {
            Some((name, images)) => rest.insert(name, images),
            None => rest,
        }
    }
}

/// Whether a root entry stands for a failure of the scan: the entry itself, or
/// the listing of the directory it names, could not be read.
pub open spec fn entry_failed(entry: RootEntry) -> bool {
    match entry {
        RootEntry::Unreadable => true,
        RootEntry::Directory { name, listing: DirScan::Failed } => true,
        _ => false,
    }
}

/// Whether any entry of the root stands for a failure of the scan.
pub open spec fn listing_failed(entries: Seq<RootEntry>) -> bool {
    exists|i: int| 0 <= i < entries.len() && entry_failed(#[trigger] entries[i])
}

/// What building the index from `scan` gives.
pub open spec fn build_outcome(scan: RootScan) -> Result<Map<Seq<char>, Seq<Seq<char>>>, IndexError> {
    match scan {
        RootScan::Listed(entries) => if listing_failed(entries@) {
            Err(IndexError::ConfigurationError)
        } else if index_of(entries@) =~= Map::empty() {
            Err(IndexError::EmptyIndexError)
        } else {
            Ok(index_of(entries@))
        },
        _ => Err(IndexError::ConfigurationError),
    }
}

/// The names that a vector of strings holds.
pub open spec fn names_of(strings: Seq<String>) -> Seq<Seq<char>> {
    strings.map_values(|s: String| s@)
}

/// Picks the images out of the listing of one category directory.
pub fn collect_images(files: &Vec<FileScan>) -> (images: Vec<String>)
    ensures
        names_of(images@) == images_in(files@),
{
    let mut images: Vec<String> = Vec::new();
    assert(files@.take(0).filter_map(image_name_fn()) =~= Seq::empty());
    for i in 0..files.len()
        invariant
            names_of(images@) == images_in(files@.take(i as int)),
    {
        proof {
            files@.lemma_filter_map_take_succ(image_name_fn(), i as int);
        }
        match &files[i] {
            FileScan::File(name) => {
                if is_image_name(name.as_str()) {
                    let ghost before = images@;
                    images.push(name.clone());
                    assert(names_of(images@) =~= names_of(before) + seq![name@]);
                }
            },
            _ => {},
        }
    }
    assert(files@.take(files.len() as int) =~= files@);
    images
}

/// The index as a map from category to image names, given the stored lists.
spec fn listed(images: Map<Seq<char>, Vec<String>>) -> Map<Seq<char>, Seq<Seq<char>>> {
    images.map_values(|files: Vec<String>| names_of(files@))
}

/// Whether `categories` lists the keys of `images` once each, and every key has
/// at least one image.
pub open spec fn tracks(images: Map<Seq<char>, Vec<String>>, categories: Seq<String>) -> bool {
    &&& forall|i: int, j: int|
        0 <= i < j < categories.len() ==> (#[trigger] categories[i])@ != (#[trigger] categories[j])@
    &&& forall|i: int|
        0 <= i < categories.len() ==> images.contains_key((#[trigger] categories[i])@)
    &&& forall|k: Seq<char>| #[trigger]
        images.contains_key(k) ==> exists|i: int|
            0 <= i < categories.len() && (#[trigger] categories[i])@ == k
    &&& forall|k: Seq<char>| #[trigger] images.contains_key(k) ==> images[k]@.len() > 0
}

/// Entering a category keeps the list of categories in step with the map: the
/// list grows by the name exactly when the name is new.
proof fn lemma_tracks_insert(
    before: Map<Seq<char>, Vec<String>>,
    known: Seq<String>,
    after: Map<Seq<char>, Vec<String>>,
    categories: Seq<String>,
    name: Seq<char>,
)
    requires
        tracks(before, known),
        after.dom() =~= before.dom().insert(name),
        forall|k: Seq<char>| before.contains_key(k) && k != name ==> after[k] == before[k],
        after[name]@.len() > 0,
        if before.contains_key(name) {
            categories =~= known
        } else {
            categories.len() == known.len() + 1 && categories.last()@ == name
                && categories.drop_last() =~= known
        },
    ensures
        tracks(after, categories),
{
    assert forall|i: int| 0 <= i < known.len() implies (#[trigger] categories[i]) == known[i] by {
        if !before.contains_key(name) {
            assert(categories.drop_last()[i] == categories[i]);
        }
    }
    assert forall|k: Seq<char>| #[trigger] after.contains_key(k) implies exists|i: int|
        0 <= i < categories.len() && (#[trigger] categories[i])@ == k by {
        if before.contains_key(k) {
            let w = choose|i: int| 0 <= i < known.len() && (#[trigger] known[i])@ == k;
            assert(categories[w]@ == k);
        } else {
            assert(k == name);
            assert(categories[categories.len() - 1]@ == k);
        }
    }
    assert forall|i: int, j: int| 0 <= i < j < categories.len() implies (#[trigger] categories[i])@
        != (#[trigger] categories[j])@ by {
        if j == known.len() {
            assert(before.contains_key(known[i]@));
        }
    }
}

/// The images of the service by category.
///
/// An index is built once, by [`index_image_sizes`], and only read afterwards.
/// It always holds at least one category, and every category in it holds at
/// least one image.
pub struct AssetIndex {
    images: StringHashMap<Vec<String>>,
    categories: Vec<String>,
}

impl View for AssetIndex {
    type V = Map<Seq<char>, Seq<Seq<char>>>;

    closed spec fn view(&self) -> Self::V {
        listed(self.images@)
    }
}

impl AssetIndex {
    #[verifier::type_invariant]
    closed spec fn well_formed(&self) -> bool {
        self.categories@.len() > 0 && tracks(self.images@, self.categories@)
    }

    /// The number of categories, which is never zero.
    pub fn len(&self) -> (n: usize)
        ensures
            n > 0,
            self@.dom().finite(),
            n == self@.dom().len(),
    {
        proof {
            use_type_invariant(self);
            let names = names_of(self.categories@);
            assert(names.to_set() =~= self@.dom()) by {
                assert forall|k: Seq<char>| names.contains(k) implies self@.dom().contains(k) by {
                    let i = choose|i: int| 0 <= i < names.len() && names[i] == k;
                    assert(self.images@.contains_key(self.categories@[i]@));
                }
                assert forall|k: Seq<char>| self@.dom().contains(k) implies names.contains(k) by {
                    assert(self.images@.contains_key(k));
                    let i = choose|i: int|
                        0 <= i < self.categories@.len() && (#[trigger] self.categories@[i])@ == k;
                    assert(names[i] == k);
                }
            }
            names.unique_seq_to_set();
            vstd::seq_lib::seq_to_set_is_finite(names);
        }
        self.categories.len()
    }

    /// Tells whether `category` is in the index.
    pub fn contains(&self, category: &str) -> (present: bool)
        ensures
            present == self@.contains_key(category@),
    {
        self.images.contains_key(category)
    }

    /// The images of `category`, in listing order, if the category is in the index.
    pub fn images(&self, category: &str) -> (found: Option<&Vec<String>>)
        ensures
            match found {
                Some(files) => self@.contains_key(category@) && names_of(files@)
                    == self@[category@] && files@.len() > 0,
                None => !self@.contains_key(category@),
            },
    {
        proof {
            use_type_invariant(self);
        }
        self.images.get(category)
    }

    /// The categories of the index, each once, in the order in which they were
    /// first met.
    pub fn categories(&self) -> (names: &Vec<String>)
        ensures
            names@.len() > 0,
            names_of(names@).no_duplicates(),
            forall|k: Seq<char>| self@.contains_key(k) <==> names_of(names@).contains(k),
    {
        proof {
            use_type_invariant(self);
            let listed = names_of(self.categories@);
            assert forall|k: Seq<char>| self@.contains_key(k) implies listed.contains(k) by {
                assert(self.images@.contains_key(k));
                let i = choose|i: int|
                    0 <= i < self.categories@.len() && (#[trigger] self.categories@[i])@ == k;
                assert(listed[i] == k);
            }
            assert forall|k: Seq<char>| listed.contains(k) implies self@.contains_key(k) by {
                let i = choose|i: int| 0 <= i < listed.len() && listed[i] == k;
                assert(self.images@.contains_key(self.categories@[i]@));
            }
        }
        &self.categories
    }
}

/// Builds the index from what a scan of the asset directory found.
///
/// A root that is missing, is no directory or could not be listed, a root entry
/// that could not be read, and a sub-directory that could not be listed each
/// give [`IndexError::ConfigurationError`]. Otherwise every sub-directory of the
/// root that holds at least one image becomes a category under its own name,
/// with its images in listing order; entries inside a sub-directory that could
/// not be read are passed over. If no category is left, the result is
/// [`IndexError::EmptyIndexError`].
pub fn index_image_sizes(scan: &RootScan) -> (result: Result<AssetIndex, IndexError>)
    ensures
        match result {
            Ok(index) => build_outcome(*scan) == Ok::<Map<Seq<char>, Seq<Seq<char>>>, IndexError>(
                index@,
            ),
            Err(e) => build_outcome(*scan) == Err::<Map<Seq<char>, Seq<Seq<char>>>, IndexError>(e),
        },
        result matches Ok(index) ==> {
            &&& scan matches RootScan::Listed(entries) && index@.dom() == category_names(entries@)
            &&& exists|name: Seq<char>| index@.contains_key(name)
            &&& forall|name: Seq<char>| #[trigger]
                index@.contains_key(name) ==> index@[name].len() > 0
        },
{
    let entries = match scan {
        RootScan::Listed(entries) => entries,
        _ => {
            return Err(IndexError::ConfigurationError);
        },
    };
    let mut images: StringHashMap<Vec<String>> = StringHashMap::new();
    let mut categories: Vec<String> = Vec::new();
    assert(listed(images@) =~= index_of(entries@.take(0)));
    for i in 0..entries.len()
        invariant
            *scan == RootScan::Listed(*entries),
            listed(images@) == index_of(entries@.take(i as int)),
            forall|j: int| 0 <= j < i ==> !entry_failed(#[trigger] entries@[j]),
            tracks(images@, categories@),
    {
        assert(entries@.take(i + 1).drop_last() =~= entries@.take(i as int));
        match &entries[i] {
            RootEntry::Unreadable => {
                assert(entry_failed(entries@[i as int]));
                return Err(IndexError::ConfigurationError);
            },
            RootEntry::Directory { name, listing } => {
                match listing {
                    DirScan::Failed => {
                        assert(entry_failed(entries@[i as int]));
                        return Err(IndexError::ConfigurationError);
                    },
                    DirScan::Listed(files) => {
                        let found = collect_images(files);
                        if found.len() > 0 {
                            let ghost before = images@;
                            let ghost known = categories@;
                            if !images.contains_key(name.as_str()) {
                                categories.push(name.clone());
                            }
                            images.insert(name.clone(), found);
                            proof {
                                assert(listed(images@) =~= listed(before).insert(
                                    name@,
                                    images_in(files@),
                                ));
                                lemma_tracks_insert(before, known, images@, categories@, name@);
                            }
                        }
                    },
                }
            },
            RootEntry::Other => {},
        }
    }
    assert(entries@.take(entries.len() as int) =~= entries@);
    if categories.len() == 0 {
        assert(listed(images@) =~= Map::empty());
        return Err(IndexError::EmptyIndexError);
    }
    proof {
        assert(listed(images@).contains_key(categories@[0]@));
        lemma_index_dom(entries@);
    }
    Ok(AssetIndex { images, categories })
}

} // verus!
