//! How the command line names what it reads and writes: which files in a
//! bank directory are questions, what a bank is called, what a quiz's output
//! files are called, and which seed a draw uses.
//!
//! Paths are `/`-separated text here, read the way `std::path::Path` reads
//! them: empty and `.` components are skipped, and a final `..` names no file.
use vstd::prelude::*;

use std::hash::BuildHasher;

use crate::text::{chars_eq, has_prefix, split_chars, split_spec, str_chars, string_from_chars, trim_start_spec};

verus! {

broadcast use vstd::string::to_string_from_display_ensures_for_str;

/// The last component of `path` that names a file, scanning `pieces` (the
/// `/`-separated pieces of the path) from the end: empty and `.` pieces are
/// skipped, and a `..` names none.
pub open spec fn last_name(pieces: Seq<Seq<char>>) -> Option<Seq<char>>
    decreases pieces.len(),
{
    if pieces.len() == 0 {
        None
    } else if pieces.last().len() == 0 || pieces.last() == "."@ {
        last_name(pieces.drop_last())
    } else if pieces.last() == ".."@ {
        None
    } else {
        Some(pieces.last())
    }
}

/// The final component of `path`, as `Path::file_name` gives it.
pub open spec fn file_name_spec(path: Seq<char>) -> Option<Seq<char>> {
    last_name(split_spec(path, '/'))
}

/// The final component of `path`, if it names a file.
pub fn file_name(path: &str) -> (res: Option<String>)
    ensures
        match file_name_spec(path@) {
            Some(n) => res matches Some(s) && s@ == n,
            None => res is None,
        },
{
    proof {
        reveal_strlit(".");
        reveal_strlit("..");
    }
    let chars = str_chars(path);
    let pieces = split_chars(&chars, '/');
    let ghost all = split_spec(path@, '/');
    let dot = str_chars(".");
    let dots = str_chars("..");
    let mut n: usize = pieces.len();
    assert(all.take(n as int) =~= all);
    while n > 0
        invariant
            n <= pieces@.len(),
            all == split_spec(path@, '/'),
            pieces@.len() == all.len(),
            forall|k: int| 0 <= k < pieces@.len() ==> #[trigger] pieces@[k]@ == all[k],
            dot@ == "."@,
            dots@ == ".."@,
            last_name(all) == last_name(all.take(n as int)),
        decreases n,
    {
        let piece = &pieces[n - 1];
        assert(all.take(n as int).last() == piece@);
        assert(all.take(n as int).drop_last() =~= all.take(n - 1));
        if piece.len() == 0 || chars_eq(piece, &dot) {
            n = n - 1;
        } else if chars_eq(piece, &dots) {
            return None;
        } else {
            return Some(string_from_chars(piece));
        }
    }
    None
}

/// Where the last `.` in `name` is, if any.
pub open spec fn last_dot(name: Seq<char>) -> Option<nat>
    decreases name.len(),
{
    if name.len() == 0 {
        None
    } else if name.last() == '.' {
        Some((name.len() - 1) as nat)
    } else {
        last_dot(name.drop_last())
    }
}

/// A file name without its extension, as `Path::file_stem` gives it: all
/// before the last `.`, unless that dot opens the name (or there is none).
pub open spec fn stem_spec(name: Seq<char>) -> Seq<char> {
    match last_dot(name) {
        Some(i) => if i == 0 { name } else { name.take(i as int) },
        None => name,
    }
}

/// The extension of a file name, as `Path::extension` gives it: all after
/// the last `.`, unless that dot opens the name (or there is none).
pub open spec fn extension_spec(name: Seq<char>) -> Option<Seq<char>> {
    match last_dot(name) {
        Some(i) => if i == 0 { None } else { Some(name.skip(i as int + 1)) },
        None => None,
    }
}

/// Where the last `.` in `name` is.
fn find_last_dot(name: &Vec<char>) -> (res: Option<usize>)
    ensures
        res matches Some(i) ==> i < name@.len() && name@[i as int] == '.' && last_dot(name@) == Some(i as nat),
        res is None <==> last_dot(name@) is None,
{
    let mut n: usize = name.len();
    assert(name@.take(n as int) =~= name@);
    while n > 0
        invariant
            n <= name@.len(),
            last_dot(name@) == last_dot(name@.take(n as int)),
        decreases n,
    {
        assert(name@.take(n as int).last() == name@[n - 1]);
        assert(name@.take(n as int).drop_last() =~= name@.take(n - 1));
        if name[n - 1] == '.' {
            return Some(n - 1);
        }
        n = n - 1;
    }
    None
}

/// The stem of a file name.
pub fn stem(name: &str) -> (res: String)
    ensures
        res@ == stem_spec(name@),
{
    let chars = str_chars(name);
    match find_last_dot(&chars) {
        Some(i) => {
            if i == 0 {
                let whole = name.to_string();
                assert(whole@ == name@);
                whole
            } else {
                let mut out: Vec<char> = Vec::new();
                let mut k: usize = 0;
                while k < i
                    invariant
                        k <= i < chars@.len(),
                        out@ == chars@.take(k as int),
                    decreases i - k,
                {
                    out.push(chars[k]);
                    assert(out@ =~= chars@.take(k + 1));
                    k = k + 1;
                }
                string_from_chars(&out)
            }
        },
        None => name.to_string(),
    }
}

/// The bank name: the explicit `name`, else the directory's own name, else
/// a fixed label.
pub open spec fn bank_name_spec(dir: Seq<char>, name: Option<Seq<char>>) -> Seq<char> {
    match name {
        Some(n) => n,
        None => match file_name_spec(dir) {
            Some(d) => d,
            None => "item-bank"@,
        },
    }
}

/// Choose the bank name: the `--name` override, else the directory's own
/// name, else `item-bank` when the path names no directory.
pub fn bank_name(dir: &str, name: Option<String>) -> (res: String)
    ensures
        res@ == bank_name_spec(dir@, match name {
            Some(n) => Some(n@),
            None => None,
        }),
{
    match name {
        Some(n) => n,
        None => match file_name(dir) {
            Some(d) => d,
            None => "item-bank".to_string(),
        },
    }
}

/// The base name of a quiz's output files: the spec file's stem, else
/// `quiz` when the path names no file.
pub open spec fn spec_stem_spec(spec_path: Seq<char>) -> Seq<char> {
    match file_name_spec(spec_path) {
        Some(n) => stem_spec(n),
        None => "quiz"@,
    }
}

/// The base name for a spec's output files: the spec file's own stem.
pub fn spec_stem(spec_path: &str) -> (res: String)
    ensures
        res@ == spec_stem_spec(spec_path@),
{
    match file_name(spec_path) {
        Some(n) => stem(n.as_str()),
        None => "quiz".to_string(),
    }
}

/// The code of `c` with ASCII capitals lowered.
pub open spec fn ascii_lower(c: char) -> int {
    let u = c as u32;
    if 65 <= u <= 90 { u + 32 } else { u as int }
}

/// Whether two names are equal ignoring ASCII case.
pub open spec fn same_ignoring_case(a: Seq<char>, b: Seq<char>) -> bool {
    a.len() == b.len() && forall|i: int| 0 <= i < a.len() ==> ascii_lower(a[i]) == ascii_lower(b[i])
}

/// The code of `c` with ASCII capitals lowered.
fn lower(c: char) -> (res: u32)
    ensures
        res == ascii_lower(c),
{
    let u = c as u32;
    if 65 <= u && u <= 90 {
        u + 32
    } else {
        u
    }
}

/// Whether a file named `name` is a candidate question: a `*.md` that is not
/// a `README.md` (in any case).
pub open spec fn question_file_spec(name: Seq<char>) -> bool {
    extension_spec(name) == Some("md"@) && !same_ignoring_case(name, "readme.md"@)
}

/// Whether a file named `name` is a candidate question file.
pub fn is_question_file(name: &str) -> (res: bool)
    ensures
        res == question_file_spec(name@),
{
    proof {
        reveal_strlit("md");
        reveal_strlit("readme.md");
    }
    let chars = str_chars(name);
    let is_md = match find_last_dot(&chars) {
        Some(i) => {
            let md = i > 0 && chars.len() - i == 3 && chars[i + 1] == 'm' && chars[i + 2] == 'd';
            proof {
                let tail = name@.skip(i as int + 1);
                if md {
                    assert(tail =~= "md"@);
                } else if i > 0 && tail == "md"@ {
                    assert(tail.len() == 2);
                    assert(tail[0] == name@[i as int + 1]);
                    assert(tail[1] == name@[i as int + 2]);
                }
            }
            md
        },
        None => false,
    };
    if !is_md {
        return false;
    }
    let readme = str_chars("readme.md");
    if chars.len() != readme.len() {
        return true;
    }
    let mut k: usize = 0;
    while k < chars.len()
        invariant
            k <= chars@.len(),
            chars@.len() == readme@.len(),
            chars@ == name@,
            readme@ == "readme.md"@,
            extension_spec(name@) == Some("md"@),
            forall|j: int| 0 <= j < k ==> ascii_lower(chars@[j]) == ascii_lower(readme@[j]),
        decreases chars@.len() - k,
    {
        if lower(chars[k]) != lower(readme[k]) {
            assert(ascii_lower(name@[k as int]) != ascii_lower("readme.md"@[k as int]));
            return true;
        }
        k = k + 1;
    }
    false
}

/// Whether `content` opens with a YAML front-matter block, marking it a
/// question rather than a partial or other prose.
pub open spec fn looks_like_question_spec(content: Seq<char>) -> bool {
    has_prefix(trim_start_spec(content), "---"@)
}

/// Whether `content` opens (after whitespace) with `---`.
pub fn looks_like_question(content: &str) -> (res: bool)
    ensures
        res == looks_like_question_spec(content@),
{
    let chars = str_chars(content);
    let skip = crate::text::leading_ws(&chars);
    let rest = crate::text::slice_chars(&chars, skip, chars.len());
    assert(rest@ =~= chars@.skip(skip as int));
    crate::text::starts_with(&rest, &str_chars("---"))
}

/// A seed drawn from operating-system entropy mixed with the current time:
/// `std`'s randomly keyed `RandomState` hashing `SystemTime::now()`. Nothing
/// is claimed of the value.
#[verifier::external_body]
fn entropy() -> u64 {
    std::collections::hash_map::RandomState::new().hash_one(std::time::SystemTime::now())
}

/// The seed a draw uses: the one given, else a fresh one from entropy, so
/// a run is reproducible exactly when a seed is given.
pub fn seed_or_entropy(seed: Option<u64>) -> (res: u64)
    ensures
        seed matches Some(s) ==> res == s,
{
    match seed {
        Some(s) => s,
        None => entropy(),
    }
}

/// A fresh seed from entropy.
pub fn entropy_seed() -> u64 {
    seed_or_entropy(None)
}

} // verus!
