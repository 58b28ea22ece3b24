//! File names, their extensions, and which of them name an image.

use vstd::prelude::*;

verus! {

/// Whether the last `.` of `name` stands at position `i`.
pub open spec fn is_last_dot(name: Seq<char>, i: int) -> bool {
    &&& 0 <= i < name.len()
    &&& name[i] == '.'
    &&& forall|j: int| i < j < name.len() ==> name[j] != '.'
}

/// Whether `name` has an extension: it holds a `.` that is not its first character,
/// and it is not the parent directory `..`. A name such as `.profile`, whose only
/// `.` leads it, is a hidden file without an extension.
pub open spec fn has_extension(name: Seq<char>) -> bool {
    &&& name != seq!['.', '.']
    &&& exists|i: int| 0 < i && #[trigger] is_last_dot(name, i)
}

/// The position of the `.` that starts the extension of a name that has one.
pub open spec fn extension_dot(name: Seq<char>) -> int {
    choose|i: int| 0 < i && #[trigger] is_last_dot(name, i)
}

/// The extension of `name`: what follows its last `.`, without the `.` itself.
pub open spec fn extension(name: Seq<char>) -> Option<Seq<char>> {
    if has_extension(name) {
        Some(name.subrange(extension_dot(name) + 1, name.len() as int))
    } else {
        None
    }
}

/// `c` with an ASCII capital turned into its small letter.
pub open spec fn lower(c: char) -> char {
    if 'A' <= c && c <= 'Z' {
        ((c as u8) + 32) as char
    } else {
        c
    }
}

/// Whether `ext` is one of `png`, `jpg`, `jpeg`, `gif`, `webp`, in any mix of
/// capitals and small letters.
pub open spec fn is_image_extension(ext: Seq<char>) -> bool {
    let low = ext.map_values(|c: char| lower(c));
    ||| low =~= seq!['p', 'n', 'g']
    ||| low =~= seq!['j', 'p', 'g']
    ||| low =~= seq!['j', 'p', 'e', 'g']
    ||| low =~= seq!['g', 'i', 'f']
    ||| low =~= seq!['w', 'e', 'b', 'p']
}

/// Whether `name` is the name of an image: it has an extension, and that
/// extension is a recognised one.
pub open spec fn is_image(name: Seq<char>) -> bool {
    match extension(name) {
        Some(ext) => is_image_extension(ext),
        None => false,
    }
}

/// A name has at most one last `.`.
pub proof fn lemma_last_dot_unique(name: Seq<char>, i: int, j: int)
    requires
        is_last_dot(name, i),
        is_last_dot(name, j),
    ensures
        i == j,
{
}

/// The characters of `s`, one by one.
pub fn chars_of(s: &str) -> (v: Vec<char>)
    ensures
        v@ == s@,
{
    let mut v: Vec<char> = Vec::new();
    for c in it: s.chars()
        invariant
            it.seq() == s@,
            v@ == s@.take(it.index()),
    {
        v.push(c);
    }
    v
}

/// Turns an ASCII capital into its small letter and leaves every other character.
fn to_lower(c: char) -> (r: char)
    ensures
        r == lower(c),
{
    if c >= 'A' && c <= 'Z' {
        ((c as u8) + 32) as char
    } else {
        c
    }
}

/// Finds the `.` that starts the extension of `name`, given as its characters.
pub fn find_extension_dot(name: &Vec<char>) -> (r: Option<usize>)
    ensures
        match r {
            Some(i) => has_extension(name@) && i == extension_dot(name@),
            None => !has_extension(name@),
        },
{
    let n = name.len();
    if n == 2 && name[0] == '.' && name[1] == '.' {
        assert(name@ =~= seq!['.', '.']);
        return None;
    }
    let mut i = n;
    while i > 1
        invariant
            i <= n,
            n == name.len(),
            !(n == 2 && name@[0] == '.' && name@[1] == '.'),
            forall|j: int| i <= j < n ==> name@[j] != '.',
        decreases i,
    {
        i -= 1;
        if name[i] == '.' {
            proof {
                assert(is_last_dot(name@, i as int));
                assert(name@ != seq!['.', '.']) by {
                    let parent = seq!['.', '.'];
                    assert(parent.len() == 2 && parent[0] == '.' && parent[1] == '.');
                }
                lemma_last_dot_unique(name@, i as int, extension_dot(name@));
            }
            return Some(i);
        }
    }
    proof {
        assert forall|k: int| 0 < k implies !#[trigger] is_last_dot(name@, k) by {}
    }
    None
}

/// Tells whether the characters of `name` from position `start` on spell a
/// recognised image extension.
fn is_image_extension_at(name: &Vec<char>, start: usize) -> (b: bool)
    requires
        start <= name.len(),
    ensures
        b == is_image_extension(name@.subrange(start as int, name.len() as int)),
{
    let n = name.len() - start;
    let ghost ext = name@.subrange(start as int, name.len() as int);
    let ghost low = ext.map_values(|c: char| lower(c));
    if n == 3 {
        let a = to_lower(name[start]);
        let b = to_lower(name[start + 1]);
        let c = to_lower(name[start + 2]);
        assert(low[0] == a && low[1] == b && low[2] == c);
        (a == 'p' && b == 'n' && c == 'g') || (a == 'j' && b == 'p' && c == 'g') || (a == 'g' && b
            == 'i' && c == 'f')
    } else if n == 4 {
        let a = to_lower(name[start]);
        let b = to_lower(name[start + 1]);
        let c = to_lower(name[start + 2]);
        let d = to_lower(name[start + 3]);
        assert(low[0] == a && low[1] == b && low[2] == c && low[3] == d);
        (a == 'j' && b == 'p' && c == 'e' && d == 'g') || (a == 'w' && b == 'e' && c == 'b' && d
            == 'p')
    } else {
        assert(low.len() == n);
        false
    }
}

/// Tells whether `name` is the name of an image.
pub fn is_image_name(name: &str) -> (b: bool)
    ensures
        b == is_image(name@),
{
    let chars = chars_of(name);
    match find_extension_dot(&chars) {
        Some(dot) => is_image_extension_at(&chars, dot + 1),
        None => false,
    }
}

} // verus!
