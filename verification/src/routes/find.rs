//! The lookup of a random image of one category.

use crate::utils::domain::DomainConfig;
use crate::utils::indexed_images::{names_of, AssetIndex};
use crate::utils::random::random_index;
use crate::utils::response::UrlResponse;
use vstd::prelude::*;

verus! {

/// The requested category is not in the index.
#[derive(Clone, Copy, Debug, PartialEq, Eq, Structural)]
pub struct NotFoundError;

/// The address of the image `filename` of `category`: the service root, then
/// `/assets/`, the category, `/`, and the file name.
pub open spec fn image_url(config: DomainConfig, category: Seq<char>, filename: Seq<char>) -> Seq<
    char,
> {
    config.base() + seq!['/', 'a', 's', 's', 'e', 't', 's', '/'] + category + seq!['/'] + filename
}

/// Builds the address of the image `filename` of `category`.
pub fn compose_url(config: &DomainConfig, category: &str, filename: &str) -> (url: String)
    ensures
        url@ == image_url(*config, category@, filename@),
{
    let mut url = config.base_url();
    url.append("/assets/");
    url.append(category);
    url.append("/");
    url.append(filename);
    proof {
        reveal_strlit("/assets/");
        reveal_strlit("/");
        assert(url@ =~= image_url(*config, category@, filename@));
    }
    url
}

/// The address that a lookup of `animal` is answered with when the draw is
/// `draw`, or `None` where the category is not in the index.
pub open spec fn answer(
    index: Map<Seq<char>, Seq<Seq<char>>>,
    config: DomainConfig,
    animal: Seq<char>,
    draw: int,
) -> Option<Seq<char>> {
    if index.contains_key(animal) {
        Some(image_url(config, animal, index[animal][draw]))
    } else {
        None
    }
}

/// Answers a lookup of `animal` once the draw is made: the image at position
/// `draw` of the category's list.
pub fn find_at(
    animal: &str,
    indexes: &AssetIndex,
    domain_config: &DomainConfig,
    draw: usize,
) -> (result: Result<UrlResponse<'static>, NotFoundError>)
    requires
        indexes@.contains_key(animal@) ==> draw < indexes@[animal@].len(),
    ensures
        match result {
            Ok(response) => {
                &&& indexes@.contains_key(animal@)
                &&& response.status@ == "200"@
                &&& answer(indexes@, *domain_config, animal@, draw as int) == Some(response.url@)
            },
            Err(_) => !indexes@.contains_key(animal@),
        },
{
    match indexes.images(animal) {
        Some(files) => {
            assert(names_of(files@)[draw as int] == files@[draw as int]@);
            let url = compose_url(domain_config, animal, files[draw].as_str());
            Ok(UrlResponse { status: "200", url })
        },
        None => Err(NotFoundError),
    }
}

/// Answers a lookup of `animal` with the address of one of its images, each
/// being as likely as the others; a category that is not in the index gives
/// [`NotFoundError`].
pub fn find(animal: &str, indexes: &AssetIndex, domain_config: &DomainConfig) -> (result: Result<
    UrlResponse<'static>,
    NotFoundError,
>)
    ensures
        match result {
            Ok(response) => {
                &&& indexes@.contains_key(animal@)
                &&& response.status@ == "200"@
                &&& exists|draw: int|
                    0 <= draw < indexes@[animal@].len() && #[trigger] answer(
                        indexes@,
                        *domain_config,
                        animal@,
                        draw,
                    ) == Some(response.url@)
            },
            Err(_) => !indexes@.contains_key(animal@),
        },
{
    match indexes.images(animal) {
        Some(files) => {
            let draw = random_index(files.len());
            find_at(animal, indexes, domain_config, draw)
        },
        None => Err(NotFoundError),
    }
}

/// Two texts that give the same text behind one prefix are the same.
proof fn lemma_same_prefix(prefix: Seq<char>, a: Seq<char>, b: Seq<char>)
    requires
        prefix + a == prefix + b,
    ensures
        a == b,
{
    assert((prefix + a).len() == prefix.len() + a.len());
    assert((prefix + b).len() == prefix.len() + b.len());
    assert(a.len() == b.len());
    assert forall|i: int| 0 <= i < a.len() implies a[i] == b[i] by {
        assert((prefix + a)[prefix.len() + i] == a[i]);
        assert((prefix + b)[prefix.len() + i] == b[i]);
    }
    assert(a =~= b);
}

/// An address names one category and one image: two addresses under one
/// configuration are the same only for the same category and file name, as
/// long as category names hold no `/`, which no directory name does.
pub proof fn lemma_address_names_its_image(
    config: DomainConfig,
    category: Seq<char>,
    filename: Seq<char>,
    other_category: Seq<char>,
    other_filename: Seq<char>,
)
    requires
        !category.contains('/'),
        !other_category.contains('/'),
        image_url(config, category, filename) == image_url(config, other_category, other_filename),
    ensures
        category == other_category,
        filename == other_filename,
{
    let prefix = config.base() + seq!['/', 'a', 's', 's', 'e', 't', 's', '/'];
    let a = category + seq!['/'] + filename;
    let b = other_category + seq!['/'] + other_filename;
    assert(image_url(config, category, filename) =~= prefix + a);
    assert(image_url(config, other_category, other_filename) =~= prefix + b);
    lemma_same_prefix(prefix, a, b);
    let n = category.len() as int;
    let m = other_category.len() as int;
    assert(a[n] == '/');
    assert(b[m] == '/');
    if n < m {
        assert(b[n] == other_category[n]);
        assert(other_category.contains(other_category[n]));
    }
    if m < n {
        assert(a[m] == category[m]);
        assert(category.contains(category[m]));
    }
    assert forall|i: int| 0 <= i < n implies category[i] == other_category[i] by {
        assert(a[i] == category[i]);
        assert(b[i] == other_category[i]);
    }
    assert(category =~= other_category);
    assert forall|i: int| 0 <= i < filename.len() implies filename[i] == other_filename[i] by {
        assert(a[n + 1 + i] == filename[i]);
        assert(b[n + 1 + i] == other_filename[i]);
    }
    assert(a.len() == b.len());
    assert(filename =~= other_filename);
}

/// No image of a category is out of reach: for every image in its list there
/// is a draw that a lookup answers with the address of that image.
pub proof fn lemma_every_image_has_a_draw(
    index: Map<Seq<char>, Seq<Seq<char>>>,
    config: DomainConfig,
    animal: Seq<char>,
    image: Seq<char>,
)
    requires
        index.contains_key(animal),
        index[animal].contains(image),
    ensures
        exists|draw: int|
            0 <= draw < index[animal].len() && #[trigger] answer(index, config, animal, draw)
                == Some(image_url(config, animal, image)),
{
    let draw = choose|draw: int| 0 <= draw < index[animal].len() && index[animal][draw] == image;
    assert(answer(index, config, animal, draw) == Some(image_url(config, animal, image)));
}

/// A lookup never answers with an image of another category: whatever the
/// draw, the address is that of an image in the list of the category asked for.
pub proof fn lemma_answer_stays_in_category(
    index: Map<Seq<char>, Seq<Seq<char>>>,
    config: DomainConfig,
    animal: Seq<char>,
    draw: int,
)
    requires
        index.contains_key(animal),
        0 <= draw < index[animal].len(),
    ensures
        exists|image: Seq<char>| #[trigger]
            index[animal].contains(image) && answer(index, config, animal, draw) == Some(
                image_url(config, animal, image),
            ),
{
    let image = index[animal][draw];
    assert(index[animal].contains(image));
}

} // verus!
