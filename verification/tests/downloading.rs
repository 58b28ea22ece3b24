use lacabra_image_api::downloader::{
    check_request, find_highest_number, generate_random_string, get_extension,
    get_filename_from_url, is_blank, is_valid_windows_folder_name, random_string_from, Progress,
    RequestError,
};
use std::path::Path;

fn strings(names: &[&str]) -> Vec<String> {
    names.iter().map(|s| s.to_string()).collect()
}

#[test]
fn the_file_name_is_what_follows_the_last_slash() {
    assert_eq!(
        get_filename_from_url("https://randomfox.ca/images/12.jpg"),
        Some("12.jpg".to_string())
    );
    assert_eq!(get_filename_from_url("12.jpg"), Some("12.jpg".to_string()));
    assert_eq!(get_filename_from_url("/12.jpg"), Some("12.jpg".to_string()));
    assert_eq!(get_filename_from_url("a/b/"), Some(String::new()));
    assert_eq!(get_filename_from_url(""), Some(String::new()));
    assert_eq!(get_filename_from_url("/"), Some(String::new()));
    assert_eq!(get_filename_from_url("a//b"), Some("b".to_string()));
    assert_eq!(get_filename_from_url("h\u{e9}/\u{e9}t\u{e9}.png"), Some("\u{e9}t\u{e9}.png".to_string()));
}

#[test]
fn the_extension_comes_with_its_dot() {
    assert_eq!(get_extension("12.jpg"), ".jpg");
    assert_eq!(get_extension("a.tar.gz"), ".gz");
    assert_eq!(get_extension("a.PNG"), ".PNG");
    assert_eq!(get_extension("a."), ".");
    assert_eq!(get_extension("\u{e9}t\u{e9}.\u{e9}"), ".\u{e9}");
}

#[test]
fn a_name_without_extension_gives_the_empty_text() {
    assert_eq!(get_extension(""), "");
    assert_eq!(get_extension("a"), "");
    assert_eq!(get_extension(".hidden"), "");
    assert_eq!(get_extension("."), "");
    assert_eq!(get_extension(".."), "");
    assert_eq!(get_extension("/"), "");
}

#[test]
fn the_extension_is_that_of_the_last_path_component() {
    assert_eq!(get_extension("dir.d/file"), "");
    assert_eq!(get_extension("dir/file.png"), ".png");
    assert_eq!(get_extension("dir/file.png/"), ".png");
    assert_eq!(get_extension("dir/file.png/."), ".png");
    assert_eq!(get_extension("dir/file.png//./"), ".png");
    assert_eq!(get_extension("dir/file.png/.."), "");
    assert_eq!(get_extension("./.."), "");
    assert_eq!(get_extension("a.b/.hidden"), "");
    assert_eq!(get_extension("a.b/..c"), ".c");
}

#[test]
fn the_extension_is_the_one_that_a_path_has() {
    let inputs = [
        "", "a", "a.b", ".a", "..", ".", "a.", "a..", "..a", "a.b.c", "/", "//", "a/", "a/b",
        "a.b/c", "a/b.c", "a/b.c/", "a/b.c//", "a/b.c/.", "a/b.c/./", "a/b.c/..", "a/./b.d",
        "./a.b", "./", "../", "../a.b", "a.b/././/", "/a.b", "/.", "/..", "a /b. c", "...",
        "a/...", ".../", "x.y/.z", "x/.y.z", "\u{e9}.\u{e9}/", "a.b/.//.",
    ];
    for input in inputs {
        let expected = Path::new(input)
            .extension()
            .and_then(|ext| ext.to_str())
            .map(|ext| format!(".{}", ext))
            .unwrap_or_default();
        assert_eq!(get_extension(input), expected, "{:?}", input);
    }
}

#[test]
fn folder_names_with_forbidden_characters_are_refused() {
    assert!(is_valid_windows_folder_name("foxes"));
    assert!(is_valid_windows_folder_name(""));
    assert!(is_valid_windows_folder_name("my folder (1)"));
    assert!(is_valid_windows_folder_name("a/b\\c"));
    assert!(is_valid_windows_folder_name("\u{e9}t\u{e9}"));
    for bad in ["a<b", "a>b", "a:b", "a\"b", "a|b", "a?b", "a*b", "a\tb", "a\nb", "\u{0}", "ab\u{1f}", "*"] {
        assert!(!is_valid_windows_folder_name(bad), "{:?}", bad);
    }
    assert!(is_valid_windows_folder_name(" "));
    assert!(is_valid_windows_folder_name("\u{7f}"));
}

#[test]
fn draws_spell_characters_of_the_alphabet() {
    assert_eq!(random_string_from(&vec![0, 9, 10, 35, 36, 61]), "09AZaz");
    assert_eq!(random_string_from(&vec![]), "");
    assert_eq!(random_string_from(&vec![1, 1, 1]), "111");
}

#[test]
fn a_random_text_has_the_length_asked_for() {
    assert_eq!(generate_random_string(0), "");
    for length in [1usize, 16, 100] {
        let text = generate_random_string(length);
        assert_eq!(text.chars().count(), length);
        assert!(text.chars().all(|c| c.is_ascii_alphanumeric()), "{}", text);
    }
}

#[test]
fn random_texts_differ() {
    let first = generate_random_string(32);
    let mut differs = false;
    for _ in 0..20 {
        if generate_random_string(32) != first {
            differs = true;
        }
    }
    assert!(differs);
}

#[test]
fn the_highest_number_is_found() {
    assert_eq!(find_highest_number(&strings(&["1.jpg", "12.png", "7", "abc.jpg"])), 12);
    assert_eq!(find_highest_number(&strings(&["3.tar.gz", "2.jpg"])), 3);
    assert_eq!(find_highest_number(&strings(&["007.jpg"])), 7);
    assert_eq!(find_highest_number(&strings(&["+9.jpg", "8.jpg"])), 9);
    assert_eq!(find_highest_number(&strings(&["2147483647.jpg"])), 2147483647);
}

#[test]
fn without_numbered_files_the_highest_number_is_zero() {
    assert_eq!(find_highest_number(&strings(&[])), 0);
    assert_eq!(find_highest_number(&strings(&["abc.jpg", "", "x1.png", "1a.jpg", "1 .jpg"])), 0);
    assert_eq!(find_highest_number(&strings(&["-5.jpg", "-0.jpg", "0.jpg"])), 0);
    assert_eq!(find_highest_number(&strings(&["2147483648.jpg", "99999999999999999999.jpg"])), 0);
    assert_eq!(find_highest_number(&strings(&["+", "-", "+-1", "++1", ".jpg"])), 0);
}

#[test]
fn hidden_files_carry_no_number() {
    assert_eq!(find_highest_number(&strings(&[".downloaded_images.txt", ".5.jpg", "4.jpg"])), 4);
    assert_eq!(find_highest_number(&strings(&[".9"])), 0);
}

#[test]
fn numbers_are_read_as_a_32_bit_parse_reads_them() {
    let names = [
        "0", "1", "-1", "+1", "00012", "2147483647", "2147483648", "-2147483648", "-2147483649",
        "4294967296", "12345678901234567890", "", "+", "-", "1_000", "1e3", " 1", "1 ", "0x10",
        "\u{661}", "12.5", "+0", "-0", "000000000000000000000000000005",
    ];
    for name in names {
        let expected = match name.split('.').next().and_then(|s| s.parse::<i32>().ok()) {
            Some(n) if n > 0 && !name.starts_with('.') => n,
            _ => 0,
        };
        assert_eq!(find_highest_number(&strings(&[name])), expected, "{:?}", name);
    }
}

#[test]
fn blank_lines_hold_white_space_alone() {
    assert!(is_blank(""));
    assert!(is_blank(" \t\r\n"));
    assert!(is_blank("\u{a0}\u{3000}\u{2028}"));
    assert!(!is_blank("a"));
    assert!(!is_blank("  12.jpg  "));
    assert!(!is_blank("\u{200b}"));
}

#[test]
fn white_space_is_what_trimming_removes() {
    for code in 0..=0x10ffffu32 {
        if let Some(c) = char::from_u32(code) {
            let text = c.to_string();
            assert_eq!(is_blank(&text), text.trim().is_empty(), "{:x}", code);
        }
    }
}

#[test]
fn a_request_is_checked_rule_by_rule() {
    assert_eq!(check_request(5, "foxes"), Ok(()));
    assert_eq!(check_request(1, "my folder"), Ok(()));
    assert_eq!(check_request(0, "foxes"), Err(RequestError::NoImages));
    assert_eq!(check_request(-3, "foxes"), Err(RequestError::NoImages));
    assert_eq!(check_request(0, ""), Err(RequestError::NoImages));
    assert_eq!(check_request(0, "a*b"), Err(RequestError::NoImages));
    assert_eq!(check_request(5, ""), Err(RequestError::NoFolder));
    assert_eq!(check_request(5, "a*b"), Err(RequestError::InvalidFolderName));
    assert_eq!(check_request(5, "what?"), Err(RequestError::InvalidFolderName));
}

#[test]
fn a_run_ends_when_all_images_are_stored() {
    let mut progress = Progress::new(2).unwrap();
    assert_eq!(progress.images_wanted(), 2);
    assert_eq!((progress.images_done(), progress.attempts_made()), (0, 0));
    assert!(progress.may_try());
    progress.record(true);
    assert_eq!((progress.images_done(), progress.attempts_made()), (1, 1));
    assert!(progress.may_try());
    progress.record(false);
    assert_eq!((progress.images_done(), progress.attempts_made()), (1, 2));
    assert!(progress.may_try());
    progress.record(true);
    assert_eq!((progress.images_done(), progress.attempts_made()), (2, 3));
    assert!(!progress.may_try());
}

#[test]
fn a_run_ends_after_three_attempts_for_each_image() {
    let mut progress = Progress::new(2).unwrap();
    let mut attempts = 0;
    while progress.may_try() {
        progress.record(attempts == 4);
        attempts += 1;
    }
    assert_eq!(attempts, 6);
    assert_eq!(progress.attempts_made(), 6);
    assert_eq!(progress.images_done(), 1);
}

#[test]
fn there_is_no_run_for_no_images_or_too_many() {
    assert!(Progress::new(0).is_none());
    assert!(Progress::new(-1).is_none());
    assert!(Progress::new(i32::MAX).is_none());
    assert!(Progress::new(715_827_883).is_none());
    assert!(Progress::new(715_827_882).is_some());
    assert!(Progress::new(1).is_some());
}
