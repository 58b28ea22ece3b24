//! Naming rules of the bulk image downloader.
//!
//! The downloader fetches images one by one, stores each under a random
//! temporary name and gives the files running numbers at the end. The rules by
//! which it names and numbers files are here; fetching and storing are not.

use crate::utils::filename::{chars_of, extension, find_extension_dot};
use crate::utils::random::random_index;
use vstd::prelude::*;

verus! {

/// Whether the last `/` of `text` stands at position `i`.
pub open spec fn is_last_slash(text: Seq<char>, i: int) -> bool {
    &&& 0 <= i < text.len()
    &&& text[i] == '/'
    &&& forall|j: int| i < j < text.len() ==> text[j] != '/'
}

/// Where the last segment of `text` starts: behind its last `/`, or at the
/// start where it holds none.
pub open spec fn segment_start(text: Seq<char>) -> int {
    if exists|i: int| #[trigger] is_last_slash(text, i) {
        (choose|i: int| #[trigger] is_last_slash(text, i)) + 1
    } else {
        0
    }
}

/// The last segment of `text`: what follows its last `/`, or all of it where
/// it holds none.
pub open spec fn last_segment(text: Seq<char>) -> Seq<char> {
    text.subrange(segment_start(text), text.len() as int)
}

/// A text has at most one last `/`.
pub proof fn lemma_last_slash_unique(text: Seq<char>, i: int, j: int)
    requires
        is_last_slash(text, i),
        is_last_slash(text, j),
    ensures
        i == j,
{
}

/// Finds where the last segment of the first `end` characters of `text` starts.
fn find_segment_start(text: &Vec<char>, end: usize) -> (start: usize)
    requires
        end <= text.len(),
    ensures
        start <= end,
        start == segment_start(text@.take(end as int)),
{
    let ghost cut = text@.take(end as int);
    let mut start = end;
    while start > 0 && text[start - 1] != '/'
        invariant
            start <= end <= text.len(),
            cut == text@.take(end as int),
            forall|j: int| start <= j < end ==> text@[j] != '/',
        decreases start,
    {
        start -= 1;
    }
    proof {
        if start > 0 {
            assert(is_last_slash(cut, start - 1));
            lemma_last_slash_unique(cut, start - 1, choose|i: int| #[trigger] is_last_slash(cut, i));
        } else {
            assert forall|i: int| !#[trigger] is_last_slash(cut, i) by {}
        }
    }
    start
}

/// Takes the file name off the end of an address: what follows its last `/`.
/// An address without a `/` is a file name as it stands, so a name is always
/// found.
pub fn get_filename_from_url(url: &str) -> (name: Option<String>)
    ensures
        name matches Some(text) && text@ == last_segment(url@),
{
    let chars = chars_of(url);
    let start = find_segment_start(&chars, chars.len());
    assert(chars@.take(chars.len() as int) =~= url@);
    Some(String::from_str(url.substring_char(start, chars.len())))
}

/// The file name that a path ends in, as a Unix path has it: the last segment
/// that is neither empty nor `.`. A path that ends in `..`, and one without
/// such a segment, has none.
pub open spec fn file_name(path: Seq<char>) -> Option<Seq<char>>
    decreases path.len(),
{
    if path.len() == 0 {
        None
    } else {
        let start = segment_start(path);
        let segment = last_segment(path);
        if segment.len() == 0 || segment =~= seq!['.'] {
            if 0 < start <= path.len() {
                file_name(path.subrange(0, start - 1))
            } else {
                None
            }
        } else if segment =~= seq!['.', '.'] {
            None
        } else {
            Some(segment)
        }
    }
}

/// Finds the file name that `path` ends in, as the positions where it starts
/// and ends.
fn find_file_name(path: &Vec<char>) -> (bounds: Option<(usize, usize)>)
    ensures
        match bounds {
            Some((start, end)) => start <= end <= path.len() && file_name(path@) == Some(
                path@.subrange(start as int, end as int),
            ),
            None => file_name(path@) is None,
        },
{
    let mut end = path.len();
    assert(path@.take(end as int) =~= path@);
    while end > 0
        invariant
            end <= path.len(),
            file_name(path@) == file_name(path@.take(end as int)),
        decreases end,
    {
        let ghost cut = path@.take(end as int);
        let start = find_segment_start(path, end);
        let len = end - start;
        assert(last_segment(cut) =~= path@.subrange(start as int, end as int));
        if len == 0 || (len == 1 && path[start] == '.') {
            if start == 0 {
                return None;
            }
            assert(cut.subrange(0, start - 1) =~= path@.take(start - 1));
            end = start - 1;
        } else if len == 2 && path[start] == '.' && path[start + 1] == '.' {
            return None;
        } else {
            proof {
                let segment = last_segment(cut);
                let dot = seq!['.'];
                let dots = seq!['.', '.'];
                assert(dot.len() == 1 && dot[0] == '.');
                assert(dots.len() == 2 && dots[0] == '.' && dots[1] == '.');
                assert(segment[0] == path@[start as int]);
                if len == 2 {
                    assert(segment[1] == path@[start + 1]);
                }
            }
            return Some((start, end));
        }
    }
    None
}

/// The extension of the file that `path` names, with the `.` in front, or
/// nothing where the file name has no extension or the path names no file.
pub open spec fn dotted_extension(path: Seq<char>) -> Seq<char> {
    match file_name(path) {
        Some(name) => match extension(name) {
            Some(ext) => seq!['.'] + ext,
            None => Seq::empty(),
        },
        None => Seq::empty(),
    }
}

/// The extension of a file name with the `.` in front, or the empty text
/// where the name has none.
pub fn get_extension(filename: &str) -> (text: String)
    ensures
        text@ == dotted_extension(filename@),
{
    let chars = chars_of(filename);
    match find_file_name(&chars) {
        Some((start, end)) => {
            let name = filename.substring_char(start, end);
            let name_chars = chars_of(name);
            match find_extension_dot(&name_chars) {
                Some(dot) => {
                    let text = String::from_str(name.substring_char(dot, name_chars.len()));
                    assert(text@ =~= seq!['.'] + extension(name@)->0);
                    text
                },
                None => String::new(),
            }
        },
        None => String::new(),
    }
}

/// Whether Windows refuses `c` in the name of a folder: one of `< > : " | ? *`,
/// or a control character below the blank.
pub open spec fn is_forbidden(c: char) -> bool {
    c == '<' || c == '>' || c == ':' || c == '"' || c == '|' || c == '?' || c == '*' || (c as u32)
        < 32
}

/// Tells whether Windows refuses `c` in the name of a folder.
fn forbidden(c: char) -> (refused: bool)
    ensures
        refused == is_forbidden(c),
{
    let control = (c as u32) < 32;
    control || c == '<' || c == '>' || c == ':' || c == '"' || c == '|' || c == '?' || c == '*'
}

/// Tells whether `name` can be the name of a folder on Windows: none of its
/// characters is forbidden there.
pub fn is_valid_windows_folder_name(name: &str) -> (valid: bool)
    ensures
        valid == forall|i: int| 0 <= i < name@.len() ==> !is_forbidden(#[trigger] name@[i]),
{
    let chars = chars_of(name);
    for i in 0..chars.len()
        invariant
            chars@ == name@,
            forall|j: int| 0 <= j < i ==> !is_forbidden(#[trigger] name@[j]),
    {
        if forbidden(chars[i]) {
            assert(is_forbidden(name@[i as int]));
            return false;
        }
    }
    true
}

/// The characters that temporary file names are made of: the digits, the
/// capitals and the small letters.
pub open spec fn alphabet() -> Seq<char> {
    "0123456789ABCDEFGHIJKLMNOPQRSTUVWXYZabcdefghijklmnopqrstuvwxyz"@
}

/// The alphabet as text.
fn alphabet_text() -> (text: &'static str)
    ensures
        text@ == alphabet(),
        text@.len() == 62,
{
    proof {
        reveal_strlit("0123456789ABCDEFGHIJKLMNOPQRSTUVWXYZabcdefghijklmnopqrstuvwxyz");
    }
    "0123456789ABCDEFGHIJKLMNOPQRSTUVWXYZabcdefghijklmnopqrstuvwxyz"
}

/// The text that a run of draws spells: each draw picks the character at its
/// position in the alphabet.
pub open spec fn spelled(draws: Seq<usize>) -> Seq<char> {
    Seq::new(draws.len(), |i: int| alphabet()[draws[i] as int])
}

/// Spells the text of a run of draws from the alphabet.
pub fn random_string_from(draws: &Vec<usize>) -> (text: String)
    requires
        forall|i: int| 0 <= i < draws.len() ==> draws[i] < 62,
    ensures
        text@ == spelled(draws@),
{
    let letters = alphabet_text();
    let mut text = String::new();
    for i in 0..draws.len()
        invariant
            letters@ == alphabet(),
            letters@.len() == 62,
            forall|j: int| 0 <= j < draws.len() ==> draws[j] < 62,
            text@ == spelled(draws@.take(i as int)),
    {
        let draw = draws[i];
        text.append(letters.substring_char(draw, draw + 1));
        assert(text@ =~= spelled(draws@.take(i + 1)));
    }
    assert(draws@.take(draws.len() as int) =~= draws@);
    text
}

/// Makes a random text of `length` characters of the alphabet, for a temporary
/// file name.
pub fn generate_random_string(length: usize) -> (text: String)
    ensures
        text@.len() == length,
        forall|i: int| 0 <= i < length ==> alphabet().contains(#[trigger] text@[i]),
{
    let mut draws: Vec<usize> = Vec::new();
    for i in 0..length
        invariant
            draws.len() == i,
            forall|j: int| 0 <= j < i ==> draws[j] < 62,
    {
        draws.push(random_index(62));
    }
    let text = random_string_from(&draws);
    proof {
        reveal_strlit("0123456789ABCDEFGHIJKLMNOPQRSTUVWXYZabcdefghijklmnopqrstuvwxyz");
        assert forall|i: int| 0 <= i < length implies alphabet().contains(#[trigger] text@[i]) by {
            assert(text@[i] == alphabet()[draws[i] as int]);
        }
    }
    text
}

/// Whether `c` is a decimal digit.
pub open spec fn is_digit(c: char) -> bool {
    '0' <= c && c <= '9'
}

/// Whether `text` is made of decimal digits alone.
pub open spec fn all_digits(text: Seq<char>) -> bool {
    forall|i: int| 0 <= i < text.len() ==> is_digit(#[trigger] text[i])
}

/// The number that a run of decimal digits writes.
pub open spec fn digits_value(digits: Seq<char>) -> int
    decreases digits.len(),
{
    if digits.len() == 0 {
        0
    } else {
        digits_value(digits.drop_last()) * 10 + (digits.last() as int - '0' as int)
    }
}

/// The number that `text` writes, where it writes one that a 32-bit signed
/// integer holds: a run of at least one decimal digit, with or without one
/// `+` or `-` in front.
pub open spec fn parsed_number(text: Seq<char>) -> Option<int> {
    let negative = text.len() > 0 && text[0] == '-';
    let signed = text.len() > 0 && (text[0] == '-' || text[0] == '+');
    let digits = if signed {
        text.drop_first()
    } else {
        text
    };
    let value = if negative {
        -digits_value(digits)
    } else {
        digits_value(digits)
    };
    if digits.len() > 0 && all_digits(digits) && i32::MIN <= value <= i32::MAX {
        Some(value)
    } else {
        None
    }
}

/// Whether the part of `name` before its first `.` is `n` characters long.
pub open spec fn is_stem_len(name: Seq<char>, n: int) -> bool {
    &&& 0 <= n <= name.len()
    &&& n == name.len() || name[n] == '.'
    &&& forall|j: int| 0 <= j < n ==> name[j] != '.'
}

/// The part of `name` before its first `.`, or all of it where it holds none.
pub open spec fn stem(name: Seq<char>) -> Seq<char> {
    name.take(choose|n: int| #[trigger] is_stem_len(name, n))
}

/// The running number that a file name carries: the number that its part
/// before the first `.` writes. Hidden files, whose names start with a `.`,
/// carry none.
pub open spec fn number_of(name: Seq<char>) -> Option<int> {
    if name.len() > 0 && name[0] == '.' {
        None
    } else {
        parsed_number(stem(name))
    }
}

/// A run of digits writes no smaller number than any of its beginnings.
proof fn lemma_digits_value_grows(digits: Seq<char>, k: int)
    requires
        all_digits(digits),
        0 <= k <= digits.len(),
    ensures
        0 <= digits_value(digits.take(k)) <= digits_value(digits),
    decreases digits.len(),
{
    if digits.len() == 0 {
        assert(digits.take(k) =~= digits);
    } else if k == digits.len() {
        assert(digits.take(k) =~= digits);
        lemma_digits_value_grows(digits.drop_last(), k - 1);
        assert(is_digit(digits[digits.len() - 1]));
    } else {
        lemma_digits_value_grows(digits.drop_last(), k);
        assert(digits.drop_last().take(k) =~= digits.take(k));
        assert(is_digit(digits[digits.len() - 1]));
    }
}

/// Reads the number that the first `end` characters of `text` write.
fn parse_number(text: &Vec<char>, end: usize) -> (number: Option<i32>)
    requires
        end <= text.len(),
    ensures
        match number {
            Some(n) => parsed_number(text@.take(end as int)) == Some(n as int),
            None => parsed_number(text@.take(end as int)) is None,
        },
{
    let ghost cut = text@.take(end as int);
    let negative = end > 0 && text[0] == '-';
    let signed = end > 0 && (text[0] == '-' || text[0] == '+');
    let first: usize = if signed {
        1
    } else {
        0
    };
    let ghost digits = cut.subrange(first as int, end as int);
    assert(digits =~= if signed {
        cut.drop_first()
    } else {
        cut
    });
    let mut value: i64 = 0;
    let mut i = first;
    assert(digits.take(0) =~= Seq::<char>::empty());
    while i < end
        invariant
            first <= i <= end <= text.len(),
            cut == text@.take(end as int),
            digits == cut.subrange(first as int, end as int),
            signed == (cut.len() > 0 && (cut[0] == '-' || cut[0] == '+')),
            digits == (if signed {
                cut.drop_first()
            } else {
                cut
            }),
            all_digits(digits.take(i - first)),
            value == digits_value(digits.take(i - first)),
            0 <= value <= 0x8000_0000,
        decreases end - i,
    {
        let c = text[i];
        assert(digits[i - first] == c);
        if c < '0' || c > '9' {
            assert(!is_digit(digits[i - first]));
            return None;
        }
        let digit = (c as u32 - '0' as u32) as i64;
        proof {
            assert(digits.take(i + 1 - first).drop_last() =~= digits.take(i - first));
            assert(digits.take(i + 1 - first).last() == c);
            assert forall|j: int| 0 <= j < i + 1 - first implies is_digit(
                #[trigger] digits.take(i + 1 - first)[j],
            ) by {
                if j < i - first {
                    assert(digits.take(i - first)[j] == digits[j]);
                }
            }
        }
        value = value * 10 + digit;
        i += 1;
        if value > 0x8000_0000 {
            proof {
                if all_digits(digits) {
                    lemma_digits_value_grows(digits, i - first);
                }
            }
            return None;
        }
    }
    assert(digits.take(end - first) =~= digits);
    if i == first {
        None
    } else if negative {
        Some((-value) as i32)
    } else if value > 0x7fff_ffff {
        None
    } else {
        Some(value as i32)
    }
}

/// Finds how long the part of `name` before its first `.` is.
fn find_stem_len(name: &Vec<char>) -> (n: usize)
    ensures
        n <= name.len(),
        name@.take(n as int) == stem(name@),
{
    let mut n: usize = 0;
    while n < name.len() && name[n] != '.'
        invariant
            n <= name.len(),
            forall|j: int| 0 <= j < n ==> name@[j] != '.',
        decreases name.len() - n,
    {
        n += 1;
    }
    proof {
        assert(is_stem_len(name@, n as int));
        let chosen = choose|m: int| #[trigger] is_stem_len(name@, m);
        assert(chosen == n);
    }
    n
}

/// Finds the highest running number among the names of the files of a
/// folder, or 0 where no file carries a number above it.
pub fn find_highest_number(names: &Vec<String>) -> (highest: i32)
    ensures
        highest >= 0,
        forall|i: int|
            0 <= i < names.len() ==> (number_of(#[trigger] names[i]@) matches Some(n) ==> n
                <= highest),
        highest == 0 || exists|i: int|
            0 <= i < names.len() && number_of(#[trigger] names[i]@) == Some(highest as int),
{
    let mut highest: i32 = 0;
    for k in 0..names.len()
        invariant
            highest >= 0,
            forall|i: int|
                0 <= i < k ==> (number_of(#[trigger] names[i]@) matches Some(n) ==> n <= highest),
            highest == 0 || exists|i: int|
                0 <= i < k && number_of(#[trigger] names[i]@) == Some(highest as int),
    {
        let chars = chars_of(names[k].as_str());
        if !(chars.len() > 0 && chars[0] == '.') {
            let n = find_stem_len(&chars);
            match parse_number(&chars, n) {
                Some(number) => {
                    if number > highest {
                        highest = number;
                    }
                },
                None => {},
            }
        }
    }
    highest
}

/// Whether `c` is white space, as Unicode lists it.
pub open spec fn is_space(c: char) -> bool {
    let u = c as u32;
    ||| 0x09 <= u <= 0x0d
    ||| u == 0x20
    ||| u == 0x85
    ||| u == 0xa0
    ||| u == 0x1680
    ||| 0x2000 <= u <= 0x200a
    ||| u == 0x2028
    ||| u == 0x2029
    ||| u == 0x202f
    ||| u == 0x205f
    ||| u == 0x3000
}

/// Tells whether `c` is white space.
fn space(c: char) -> (white: bool)
    ensures
        white == is_space(c),
{
    let u = c as u32;
    let narrow = (0x09 <= u && u <= 0x0d) || u == 0x20 || u == 0x85 || u == 0xa0;
    let wide = u == 0x1680 || (0x2000 <= u && u <= 0x200a) || u == 0x2028 || u == 0x2029;
    narrow || wide || u == 0x202f || u == 0x205f || u == 0x3000
}

/// Tells whether a line of the list of downloaded images is blank: it holds
/// nothing but white space. Blank lines name no image.
pub fn is_blank(line: &str) -> (blank: bool)
    ensures
        blank == forall|i: int| 0 <= i < line@.len() ==> is_space(#[trigger] line@[i]),
{
    let chars = chars_of(line);
    for i in 0..chars.len()
        invariant
            chars@ == line@,
            forall|j: int| 0 <= j < i ==> is_space(#[trigger] line@[j]),
    {
        if !space(chars[i]) {
            assert(!is_space(line@[i as int]));
            return false;
        }
    }
    true
}

/// Why a request to download is refused.
#[derive(Clone, Copy, Debug, PartialEq, Eq, Structural)]
pub enum RequestError {
    /// The number of images is not above zero.
    NoImages,
    /// The name of the destination folder is empty.
    NoFolder,
    /// The name of the destination folder holds a character that Windows
    /// refuses.
    InvalidFolderName,
}

/// What checking a request gives: the first rule that it breaks, in the order
/// number of images, empty folder name, forbidden character.
pub open spec fn request_outcome(num_images: int, dest_folder: Seq<char>) -> Result<
    (),
    RequestError,
> {
    if num_images <= 0 {
        Err(RequestError::NoImages)
    } else if dest_folder.len() == 0 {
        Err(RequestError::NoFolder)
    } else if exists|i: int| 0 <= i < dest_folder.len() && is_forbidden(#[trigger] dest_folder[i]) {
        Err(RequestError::InvalidFolderName)
    } else {
        Ok(())
    }
}

/// Checks a request to download `num_images` images into `dest_folder`.
pub fn check_request(num_images: i32, dest_folder: &str) -> (checked: Result<(), RequestError>)
    ensures
        checked == request_outcome(num_images as int, dest_folder@),
{
    if num_images <= 0 {
        Err(RequestError::NoImages)
    } else if dest_folder.is_empty() {
        Err(RequestError::NoFolder)
    } else if !is_valid_windows_folder_name(dest_folder) {
        Err(RequestError::InvalidFolderName)
    } else {
        Ok(())
    }
}

/// How far a run of the downloader has come: how many images are wanted, how
/// many are stored, and how many attempts were made. A run makes at most three
/// attempts for each image wanted.
pub struct Progress {
    wanted: i32,
    done: i32,
    attempts: i32,
}

impl Progress {
    #[verifier::type_invariant]
    closed spec fn well_formed(&self) -> bool {
        &&& 0 < self.wanted
        &&& 3 * self.wanted <= i32::MAX
        &&& 0 <= self.done <= self.wanted
        &&& self.done <= self.attempts <= 3 * self.wanted
    }

    /// The number of images wanted.
    pub closed spec fn wanted(&self) -> int {
        self.wanted as int
    }

    /// The number of images stored so far.
    pub closed spec fn done(&self) -> int {
        self.done as int
    }

    /// The number of attempts made so far.
    pub closed spec fn attempts(&self) -> int {
        self.attempts as int
    }

    /// Whether the run goes on: images are still missing and attempts are left.
    pub open spec fn goes_on(&self) -> bool {
        self.done() < self.wanted() && self.attempts() < 3 * self.wanted()
    }

    /// Starts a run for `wanted` images. There is no run for no images, nor for
    /// so many that three attempts each cannot be counted.
    pub fn new(wanted: i32) -> (progress: Option<Progress>)
        ensures
            match progress {
                Some(p) => 0 < wanted && 3 * wanted <= i32::MAX && p.wanted() == wanted && p.done()
                    == 0 && p.attempts() == 0,
                None => wanted <= 0 || 3 * wanted > i32::MAX,
            },
    {
        if wanted <= 0 || wanted > i32::MAX / 3 {
            None
        } else {
            Some(Progress { wanted, done: 0, attempts: 0 })
        }
    }

    /// The number of images wanted.
    pub fn images_wanted(&self) -> (n: i32)
        ensures
            n == self.wanted(),
            0 < n,
    {
        proof {
            use_type_invariant(self);
        }
        self.wanted
    }

    /// The number of images stored so far, which is never above the number
    /// wanted.
    pub fn images_done(&self) -> (n: i32)
        ensures
            n == self.done(),
            0 <= n <= self.wanted(),
    {
        proof {
            use_type_invariant(self);
        }
        self.done
    }

    /// The number of attempts made so far, which is never above three for each
    /// image wanted.
    pub fn attempts_made(&self) -> (n: i32)
        ensures
            n == self.attempts(),
            self.done() <= n <= 3 * self.wanted(),
    {
        proof {
            use_type_invariant(self);
        }
        self.attempts
    }

    /// Tells whether the run goes on with another attempt.
    pub fn may_try(&self) -> (more: bool)
        ensures
            more == self.goes_on(),
    {
        proof {
            use_type_invariant(self);
        }
        self.done < self.wanted && self.attempts < self.wanted * 3
    }

    /// Counts one attempt, and one more image where the attempt stored one.
    pub fn record(&mut self, stored: bool)
        requires
            old(self).goes_on(),
        ensures
            final(self).wanted() == old(self).wanted(),
            final(self).attempts() == old(self).attempts() + 1,
            final(self).done() == old(self).done() + if stored {
                1int
            } else {
                0int
            },
    {
        proof {
            use_type_invariant(&*self);
        }
        self.attempts = self.attempts + 1;
        if stored {
            self.done = self.done + 1;
        }
    }
}

} // verus!
