use lacabra_image_api::utils::filename::is_image_name;
use lacabra_image_api::utils::indexed_images::{index_image_sizes, IndexError};
use lacabra_image_api::utils::scan::{DirScan, FileScan, RootEntry, RootScan};

fn file(name: &str) -> FileScan {
    FileScan::File(name.to_string())
}

fn directory(name: &str, files: Vec<FileScan>) -> RootEntry {
    RootEntry::Directory { name: name.to_string(), listing: DirScan::Listed(files) }
}

fn names(files: &[String]) -> Vec<&str> {
    files.iter().map(|s| s.as_str()).collect()
}

#[test]
fn image_files_are_indexed_and_other_files_are_not() {
    let scan = RootScan::Listed(vec![directory(
        "foxes",
        vec![file("a.jpg"), file("b.PNG"), file("notes.txt")],
    )]);
    let index = index_image_sizes(&scan).unwrap();
    assert_eq!(index.len(), 1);
    assert!(index.contains("foxes"));
    assert_eq!(names(index.images("foxes").unwrap()), vec!["a.jpg", "b.PNG"]);
}

#[test]
fn a_directory_without_files_is_no_category() {
    let scan = RootScan::Listed(vec![
        directory("empty_dir", vec![]),
        directory("foxes", vec![file("a.jpg")]),
    ]);
    let index = index_image_sizes(&scan).unwrap();
    assert!(!index.contains("empty_dir"));
    assert!(index.images("empty_dir").is_none());
    assert_eq!(names(index.categories()), vec!["foxes"]);
}

#[test]
fn a_directory_without_images_is_no_category() {
    let scan = RootScan::Listed(vec![
        directory("docs", vec![file("readme.md"), file("notes.txt"), FileScan::Other]),
        directory("ducks", vec![file("d.gif")]),
    ]);
    let index = index_image_sizes(&scan).unwrap();
    assert!(!index.contains("docs"));
    assert_eq!(index.len(), 1);
}

#[test]
fn a_missing_root_is_a_configuration_error() {
    assert_eq!(index_image_sizes(&RootScan::Missing).err(), Some(IndexError::ConfigurationError));
}

#[test]
fn a_root_that_is_no_directory_is_a_configuration_error() {
    assert_eq!(
        index_image_sizes(&RootScan::NotADirectory).err(),
        Some(IndexError::ConfigurationError)
    );
}

#[test]
fn a_root_that_cannot_be_listed_is_a_configuration_error() {
    assert_eq!(index_image_sizes(&RootScan::Failed).err(), Some(IndexError::ConfigurationError));
}

#[test]
fn an_unreadable_root_entry_is_a_configuration_error() {
    let scan = RootScan::Listed(vec![
        directory("foxes", vec![file("a.jpg")]),
        RootEntry::Unreadable,
    ]);
    assert_eq!(index_image_sizes(&scan).err(), Some(IndexError::ConfigurationError));
}

#[test]
fn a_directory_that_cannot_be_listed_is_a_configuration_error() {
    let scan = RootScan::Listed(vec![
        RootEntry::Directory { name: "locked".to_string(), listing: DirScan::Failed },
        directory("foxes", vec![file("a.jpg")]),
    ]);
    assert_eq!(index_image_sizes(&scan).err(), Some(IndexError::ConfigurationError));
}

#[test]
fn a_failure_counts_even_when_nothing_else_is_found() {
    let scan = RootScan::Listed(vec![RootEntry::Unreadable]);
    assert_eq!(index_image_sizes(&scan).err(), Some(IndexError::ConfigurationError));
}

#[test]
fn a_tree_without_images_is_an_empty_index_error() {
    let scan = RootScan::Listed(vec![
        directory("foxes", vec![]),
        directory("ducks", vec![file("notes.txt"), file("README")]),
        RootEntry::Other,
    ]);
    assert_eq!(index_image_sizes(&scan).err(), Some(IndexError::EmptyIndexError));
}

#[test]
fn an_empty_root_is_an_empty_index_error() {
    assert_eq!(
        index_image_sizes(&RootScan::Listed(vec![])).err(),
        Some(IndexError::EmptyIndexError)
    );
}

#[test]
fn an_unreadable_file_entry_is_passed_over() {
    let scan = RootScan::Listed(vec![directory(
        "foxes",
        vec![FileScan::Unreadable, file("a.jpg"), FileScan::Unreadable, file("b.webp")],
    )]);
    let index = index_image_sizes(&scan).unwrap();
    assert_eq!(names(index.images("foxes").unwrap()), vec!["a.jpg", "b.webp"]);
}

#[test]
fn only_unreadable_file_entries_leave_no_category() {
    let scan = RootScan::Listed(vec![directory("foxes", vec![FileScan::Unreadable])]);
    assert_eq!(index_image_sizes(&scan).err(), Some(IndexError::EmptyIndexError));
}

#[test]
fn nested_directories_and_root_files_are_ignored() {
    let scan = RootScan::Listed(vec![
        RootEntry::Other,
        directory("cats", vec![FileScan::Other, file("c.jpeg"), FileScan::Other]),
    ]);
    let index = index_image_sizes(&scan).unwrap();
    assert_eq!(names(index.categories()), vec!["cats"]);
    assert_eq!(names(index.images("cats").unwrap()), vec!["c.jpeg"]);
}

#[test]
fn every_category_with_an_image_is_a_key() {
    let scan = RootScan::Listed(vec![
        directory("foxes", vec![file("a.jpg")]),
        directory("none", vec![file("a.txt")]),
        directory("ducks", vec![file("d.GIF"), file("e.WebP")]),
        directory("cats", vec![file("c.JPEG")]),
    ]);
    let index = index_image_sizes(&scan).unwrap();
    assert_eq!(index.len(), 3);
    assert_eq!(names(index.categories()), vec!["foxes", "ducks", "cats"]);
    for category in index.categories() {
        assert!(!index.images(category).unwrap().is_empty());
    }
    assert!(!index.contains("none"));
}

#[test]
fn of_two_directories_with_one_name_the_later_stays() {
    let scan = RootScan::Listed(vec![
        directory("foxes", vec![file("a.jpg")]),
        directory("foxes", vec![file("b.jpg"), file("c.jpg")]),
        directory("foxes", vec![]),
    ]);
    let index = index_image_sizes(&scan).unwrap();
    assert_eq!(index.len(), 1);
    assert_eq!(names(index.categories()), vec!["foxes"]);
    assert_eq!(names(index.images("foxes").unwrap()), vec!["b.jpg", "c.jpg"]);
}

#[test]
fn indexing_twice_gives_the_same_index() {
    let first = RootScan::Listed(vec![
        directory("foxes", vec![file("a.jpg"), file("b.PNG"), file("notes.txt")]),
        directory("ducks", vec![file("d.gif")]),
        RootEntry::Other,
    ]);
    let second = RootScan::Listed(vec![
        RootEntry::Other,
        directory("ducks", vec![file("d.gif")]),
        directory("foxes", vec![file("notes.txt"), file("b.PNG"), file("a.jpg")]),
    ]);
    let one = index_image_sizes(&first).unwrap();
    let two = index_image_sizes(&second).unwrap();
    let mut keys_one = names(one.categories());
    let mut keys_two = names(two.categories());
    keys_one.sort();
    keys_two.sort();
    assert_eq!(keys_one, keys_two);
    for key in keys_one {
        let mut a = names(one.images(key).unwrap());
        let mut b = names(two.images(key).unwrap());
        a.sort();
        b.sort();
        assert_eq!(a, b);
    }
}

#[test]
fn recognised_extensions_in_any_case() {
    for name in [
        "a.png", "a.jpg", "a.jpeg", "a.gif", "a.webp", "a.PNG", "a.Jpg", "a.JPEG", "a.GiF",
        "a.WEBP", "archive.tar.png", "with space.jpg", "a..gif",
    ] {
        assert!(is_image_name(name), "{}", name);
    }
}

#[test]
fn names_that_are_no_images() {
    for name in [
        "", "png", "a", "a.", "a.txt", "a.pngx", "a.pn", "a.jpe", "a.png.txt", ".png", ".gif",
        "..", "a.jpg ", "a.p ng", "a.svg", "a.bmp", "jpeg", "a.jpegg", "a.\u{212a}ng",
    ] {
        assert!(!is_image_name(name), "{}", name);
    }
}

#[test]
fn a_hidden_file_with_a_second_dot_has_an_extension() {
    assert!(is_image_name(".hidden.png"));
    assert!(is_image_name("..png"));
}
