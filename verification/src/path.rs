//! Path policy for authored, bank-relative paths: `file:` partials and local
//! images are resolved against a base directory and must not reach outside
//! it. The parser, the exporters and the command line all apply these rules.
//!
//! Paths are read by the Unix reading that `std::path::Path::components`
//! documents: `/` separates, repeated separators and `.` name nothing, a
//! leading `/` is the root and `..` the parent.
use vstd::prelude::*;

use crate::text::{
    chars_eq, extend_chars, extend_str, find_from, first_occurrence, lemma_first_occurrence,
    occurs_at, split_chars, has_prefix, split_spec, str_chars, string_from_chars, starts_with,
};

verus! {

/// Whether `path`, joined to a base directory, would resolve outside it: it
/// is absolute, or one of its components is `..`.
pub open spec fn escapes_dir_spec(path: Seq<char>) -> bool {
    (path.len() > 0 && path[0] == '/') || split_spec(path, '/').contains(".."@)
}

/// Whether `path` would resolve outside the base directory it is joined to.
///
/// A path is safe only when every component is an ordinary name (`.` is
/// tolerated). That rejects `..` components and absolute paths — an absolute
/// one escapes too, because joining one discards the base entirely.
pub fn escapes_dir(path: &str) -> (res: bool)
    ensures
        res == escapes_dir_spec(path@),
{
    let chars = str_chars(path);
    if chars.len() > 0 && chars[0] == '/' {
        return true;
    }
    let pieces = split_chars(&chars, '/');
    let parent = str_chars("..");
    let mut i: usize = 0;
    while i < pieces.len()
        invariant
            i <= pieces.len(),
            chars@ == path@,
            parent@ == ".."@,
            pieces@.len() == split_spec(chars@, '/').len(),
            forall|k: int| 0 <= k < pieces@.len() ==> #[trigger] pieces@[k]@ == split_spec(chars@, '/')[k],
            forall|k: int| 0 <= k < i ==> split_spec(chars@, '/')[k] != ".."@,
        decreases pieces.len() - i,
    {
        if chars_eq(&pieces[i], &parent) {
            assert(split_spec(chars@, '/')[i as int] == ".."@);
            return true;
        }
        i = i + 1;
    }
    assert(!split_spec(chars@, '/').contains(".."@)) by {
        if split_spec(chars@, '/').contains(".."@) {
            let k = choose|k: int| 0 <= k < split_spec(chars@, '/').len() && split_spec(chars@, '/')[k] == ".."@;
            assert(split_spec(chars@, '/')[k] != ".."@);
        }
    }
    false
}

/// Where the `/`-separated `pieces` of a relative path lead from the folder
/// whose name components are `at`, read lexically: an empty piece or `.`
/// stays put, `..` climbs one folder, and any other piece enters it.
pub open spec fn walk(at: Seq<Seq<char>>, pieces: Seq<Seq<char>>) -> Seq<Seq<char>>
    decreases pieces.len(),
{
    if pieces.len() == 0 {
        at
    } else {
        let before = walk(at, pieces.drop_last());
        let piece = pieces.last();
        if piece.len() == 0 || piece == "."@ {
            before
        } else if piece == ".."@ {
            if before.len() > 0 { before.drop_last() } else { before }
        } else {
            before.push(piece)
        }
    }
}

/// Walking pieces none of which is `..` never leaves the folder started from.
proof fn lemma_walk_stays_below(at: Seq<Seq<char>>, pieces: Seq<Seq<char>>)
    requires
        !pieces.contains(".."@),
    ensures
        parts_prefix(at, walk(at, pieces)),
    decreases pieces.len(),
{
    if pieces.len() > 0 {
        let rest = pieces.drop_last();
        assert(!rest.contains(".."@)) by {
            if rest.contains(".."@) {
                let k = choose|k: int| 0 <= k < rest.len() && rest[k] == ".."@;
                assert(pieces[k] == ".."@);
            }
        }
        assert(pieces.last() != ".."@) by {
            assert(pieces[pieces.len() - 1] == pieces.last());
        }
        lemma_walk_stays_below(at, rest);
    }
}

/// A path that does not escape stays inside any folder it is joined to: it
/// is not absolute, so joining keeps the folder, and walking its pieces from
/// the folder never climbs above it.
pub proof fn a_safe_path_stays_inside(base: Seq<Seq<char>>, path: Seq<char>)
    requires
        !escapes_dir_spec(path),
    ensures
        !(path.len() > 0 && path[0] == '/'),
        parts_prefix(base, walk(base, split_spec(path, '/'))),
{
    lemma_walk_stays_below(base, split_spec(path, '/'));
}

/// Whether one separator-free piece of a path names a folder: not empty, not
/// `.` and not `..`.
pub open spec fn is_name_piece(piece: Seq<char>) -> bool {
    piece.len() > 0 && piece != "."@ && piece != ".."@
}

/// The pieces of `pieces` that name a folder, in order.
pub open spec fn name_pieces(pieces: Seq<Seq<char>>) -> Seq<Seq<char>>
    decreases pieces.len(),
{
    if pieces.len() == 0 {
        Seq::empty()
    } else if is_name_piece(pieces.last()) {
        name_pieces(pieces.drop_last()).push(pieces.last())
    } else {
        name_pieces(pieces.drop_last())
    }
}

/// The meaningful name components of a bank-relative directory: `.`, empty
/// pieces and any root are dropped, so two spellings of one folder agree.
pub open spec fn dir_parts_spec(dir: Seq<char>) -> Seq<Seq<char>> {
    name_pieces(split_spec(dir, '/'))
}

/// The name components of `dir`.
fn dir_parts(dir: &str) -> (res: Vec<Vec<char>>)
    ensures
        res@.len() == dir_parts_spec(dir@).len(),
        forall|k: int| 0 <= k < res@.len() ==> #[trigger] res@[k]@ == dir_parts_spec(dir@)[k],
{
    let chars = str_chars(dir);
    let pieces = split_chars(&chars, '/');
    let dot = str_chars(".");
    let dotdot = str_chars("..");
    let mut out: Vec<Vec<char>> = Vec::new();
    let mut i: usize = 0;
    let ghost all = split_spec(chars@, '/');
    assert(all.subrange(0, 0) =~= Seq::<Seq<char>>::empty());
    while i < pieces.len()
        invariant
            i <= pieces.len(),
            chars@ == dir@,
            dot@ == "."@,
            dotdot@ == ".."@,
            all == split_spec(chars@, '/'),
            pieces@.len() == all.len(),
            forall|k: int| 0 <= k < pieces@.len() ==> #[trigger] pieces@[k]@ == all[k],
            out@.len() == name_pieces(all.subrange(0, i as int)).len(),
            forall|k: int| 0 <= k < out@.len() ==> #[trigger] out@[k]@ == name_pieces(all.subrange(0, i as int))[k],
        decreases pieces.len() - i,
    {
        let piece = &pieces[i];
        assert(all.subrange(0, i + 1).drop_last() =~= all.subrange(0, i as int));
        assert(all.subrange(0, i + 1).last() == all[i as int]);
        if piece.len() > 0 && !chars_eq(piece, &dot) && !chars_eq(piece, &dotdot) {
            let mut copy: Vec<char> = Vec::new();
            extend_chars(&mut copy, piece);
            assert(copy@ =~= piece@);
            out.push(copy);
        }
        i = i + 1;
    }
    assert(all.subrange(0, all.len() as int) =~= all);
    out
}

/// Whether `a` is a prefix of `b`, piece by piece.
pub open spec fn parts_prefix(a: Seq<Seq<char>>, b: Seq<Seq<char>>) -> bool {
    a.len() <= b.len() && forall|k: int| 0 <= k < a.len() ==> a[k] == b[k]
}

/// Whether two directories would draw from the same files: the same folder,
/// or one nested inside the other, compared by name component.
pub open spec fn nests_spec(one: Seq<char>, other: Seq<char>) -> bool {
    parts_prefix(dir_parts_spec(one), dir_parts_spec(other)) || parts_prefix(
        dir_parts_spec(other),
        dir_parts_spec(one),
    )
}

/// Whether the parts `a` are a prefix of the parts `b`.
fn is_parts_prefix(a: &Vec<Vec<char>>, b: &Vec<Vec<char>>) -> (res: bool)
    ensures
        res == (a@.len() <= b@.len() && forall|k: int| 0 <= k < a@.len() ==> a@[k]@ == b@[k]@),
{
    if a.len() > b.len() {
        return false;
    }
    let mut i: usize = 0;
    while i < a.len()
        invariant
            i <= a.len() <= b.len(),
            forall|k: int| 0 <= k < i ==> a@[k]@ == b@[k]@,
        decreases a.len() - i,
    {
        if !chars_eq(&a[i], &b[i]) {
            return false;
        }
        i = i + 1;
    }
    true
}

/// Whether two directories would draw from the same files: the same folder,
/// or one nested inside the other.
///
/// Compared by path component, not by string prefix, so `./topics`,
/// `topics//trees` and `topics/./trees` are recognised as the folders they
/// name. Two empty paths nest.
pub fn nests(one: &str, other: &str) -> (res: bool)
    ensures
        res == nests_spec(one@, other@),
{
    let a = dir_parts(one);
    let b = dir_parts(other);
    let ab = is_parts_prefix(&a, &b);
    let ba = is_parts_prefix(&b, &a);
    proof {
        if ab {
            assert forall|k: int| 0 <= k < dir_parts_spec(one@).len() implies dir_parts_spec(one@)[k] == dir_parts_spec(other@)[k] by {
                assert(a@[k]@ == b@[k]@);
            }
        }
        if ba {
            assert forall|k: int| 0 <= k < dir_parts_spec(other@).len() implies dir_parts_spec(other@)[k] == dir_parts_spec(one@)[k] by {
                assert(b@[k]@ == a@[k]@);
            }
        }
        if parts_prefix(dir_parts_spec(one@), dir_parts_spec(other@)) {
            assert forall|k: int| 0 <= k < a@.len() implies a@[k]@ == b@[k]@ by {
                assert(dir_parts_spec(one@)[k] == dir_parts_spec(other@)[k]);
            }
        }
        if parts_prefix(dir_parts_spec(other@), dir_parts_spec(one@)) {
            assert forall|k: int| 0 <= k < b@.len() implies b@[k]@ == a@[k]@ by {
                assert(dir_parts_spec(other@)[k] == dir_parts_spec(one@)[k]);
            }
        }
    }
    ab || ba
}

/// The position of the last `/` in `s`, if there is one.
pub open spec fn last_slash(s: Seq<char>) -> Option<nat>
    decreases s.len(),
{
    if s.len() == 0 {
        None
    } else if s.last() == '/' {
        Some((s.len() - 1) as nat)
    } else {
        last_slash(s.drop_last())
    }
}

/// The directory part of a bank-relative path: everything before its last
/// `/`, or nothing for a top-level file.
pub open spec fn parent_dir_spec(path: Seq<char>) -> Seq<char> {
    match last_slash(path) {
        Some(i) => path.subrange(0, i as int),
        None => Seq::empty(),
    }
}

/// The directory part of a bank-relative `path`, or `""` for a top-level file.
///
/// Bank-relative paths always use `/`, whatever the host platform, because
/// they are built from directory walks.
pub fn parent_dir(path: &str) -> (res: String)
    ensures
        res@ == parent_dir_spec(path@),
{
    let chars = str_chars(path);
    let mut end: usize = chars.len();
    assert(chars@.subrange(0, end as int) =~= chars@);
    while end > 0 && chars[end - 1] != '/'
        invariant
            end <= chars.len(),
            chars@ == path@,
            last_slash(chars@) == last_slash(chars@.subrange(0, end as int)),
        decreases end,
    {
        assert(chars@.subrange(0, end as int).drop_last() =~= chars@.subrange(0, end - 1));
        end = end - 1;
    }
    assert(chars@.subrange(0, chars.len() as int) =~= chars@);
    let mut out: Vec<char> = Vec::new();
    if end > 0 {
        let mut i: usize = 0;
        while i < end - 1
            invariant
                0 < end <= chars.len(),
                i <= end - 1,
                out@ == chars@.subrange(0, i as int),
            decreases end - 1 - i,
        {
            out.push(chars[i]);
            i = i + 1;
            assert(out@ =~= chars@.subrange(0, i as int));
        }
    }
    string_from_chars(&out)
}

/// `s` with every trailing `/` removed.
pub open spec fn trim_slashes_end(s: Seq<char>) -> Seq<char>
    decreases s.len(),
{
    if s.len() > 0 && s.last() == '/' {
        trim_slashes_end(s.drop_last())
    } else {
        s
    }
}

/// A bank-relative directory joined with a path inside it.
pub open spec fn join_dir_spec(dir: Seq<char>, path: Seq<char>) -> Seq<char> {
    let dir = trim_slashes_end(dir);
    if dir.len() == 0 || dir == "."@ {
        path
    } else {
        dir + "/"@ + path
    }
}

/// Join a bank-relative directory and a path inside it.
///
/// A `.` or empty directory yields the path unchanged, so `./topics` and
/// `topics` name the same place — the same rule [`nests`] compares by.
pub fn join_dir(dir: &str, path: &str) -> (res: String)
    ensures
        res@ == join_dir_spec(dir@, path@),
{
    let chars = str_chars(dir);
    let mut end: usize = chars.len();
    assert(chars@.subrange(0, end as int) =~= chars@);
    while end > 0 && chars[end - 1] == '/'
        invariant
            end <= chars.len(),
            chars@ == dir@,
            trim_slashes_end(chars@) == trim_slashes_end(chars@.subrange(0, end as int)),
        decreases end,
    {
        assert(chars@.subrange(0, end as int).drop_last() =~= chars@.subrange(0, end - 1));
        end = end - 1;
    }
    let mut out: Vec<char> = Vec::new();
    let mut i: usize = 0;
    while i < end
        invariant
            end <= chars.len(),
            i <= end,
            out@ == chars@.subrange(0, i as int),
        decreases end - i,
    {
        out.push(chars[i]);
        i = i + 1;
        assert(out@ =~= chars@.subrange(0, i as int));
    }
    assert(trim_slashes_end(chars@) == chars@.subrange(0, end as int));
    let dot = str_chars(".");
    if out.len() == 0 || chars_eq(&out, &dot) {
        let mut plain: Vec<char> = Vec::new();
        extend_str(&mut plain, path);
        assert(plain@ =~= path@);
        return string_from_chars(&plain);
    }
    extend_str(&mut out, "/");
    extend_str(&mut out, path);
    string_from_chars(&out)
}

/// Appending text with no `/` in it leaves the last `/` where it was.
proof fn lemma_last_slash_after(prefix: Seq<char>, name: Seq<char>)
    requires
        !name.contains('/'),
    ensures
        last_slash(prefix + name) == last_slash(prefix),
    decreases name.len(),
{
    if name.len() > 0 {
        let shorter = name.drop_last();
        assert(!shorter.contains('/')) by {
            if shorter.contains('/') {
                let k = choose|k: int| 0 <= k < shorter.len() && shorter[k] == '/';
                assert(name[k] == '/');
            }
        }
        assert(name[name.len() - 1] != '/');
        assert((prefix + name).drop_last() =~= prefix + shorter);
        lemma_last_slash_after(prefix, shorter);
    } else {
        assert(prefix + name =~= prefix);
    }
}

/// Taking the parent of a file name joined onto a directory gives the
/// directory back, less its trailing slashes, for any directory that is not
/// empty or `.` once they are trimmed and any name with no `/` in it.
pub proof fn parent_dir_undoes_join_dir(dir: Seq<char>, name: Seq<char>)
    requires
        trim_slashes_end(dir).len() > 0,
        trim_slashes_end(dir) != "."@,
        !name.contains('/'),
    ensures
        parent_dir_spec(join_dir_spec(dir, name)) == trim_slashes_end(dir),
{
    reveal_strlit("/");
    let d = trim_slashes_end(dir);
    let head = d + "/"@;
    assert(join_dir_spec(dir, name) == head + name);
    lemma_last_slash_after(head, name);
    assert(head.last() == '/');
    assert(last_slash(head) == Some(d.len()));
    assert((head + name).subrange(0, d.len() as int) =~= d);
}

/// Whether an image URL is a local file path rather than an absolute URL:
/// not `scheme://`, not protocol-relative `//`, not root-relative `/` and not
/// `data:`.
pub open spec fn is_local_image_spec(url: Seq<char>) -> bool {
    !(first_occurrence(url, "://"@) is Some || (url.len() > 0 && url[0] == '/')
        || has_prefix(url, "data:"@))
}

/// Whether an image URL is a local file path (rather than an absolute URL).
pub fn is_local_image(url: &str) -> (res: bool)
    ensures
        res == is_local_image_spec(url@),
{
    let chars = str_chars(url);
    let scheme = str_chars("://");
    let data = str_chars("data:");
    let found = find_from(&chars, &scheme, 0);
    proof {
        lemma_first_occurrence(chars@, scheme@);
        match first_occurrence(chars@, scheme@) {
            Some(i) => { assert(found is Some); },
            None => { assert(found is None); },
        }
    }
    let slash = chars.len() > 0 && chars[0] == '/';
    let is_data = starts_with(&chars, &data);
    !(found.is_some() || slash || is_data)
}

/// The last `/` of `prefix`, a slash, then a name without one, is that
/// slash.
proof fn lemma_last_slash_before_name(prefix: Seq<char>, name: Seq<char>)
    requires
        forall|i: int| 0 <= i < name.len() ==> name[i] != '/',
    ensures
        last_slash(prefix + "/"@ + name) == Some(prefix.len()),
    decreases name.len(),
{
    reveal_strlit("/");
    let whole = prefix + "/"@ + name;
    if name.len() == 0 {
        assert(whole =~= prefix.push('/'));
    } else {
        assert(whole.last() == name.last());
        assert(whole.drop_last() =~= prefix + "/"@ + name.drop_last());
        lemma_last_slash_before_name(prefix, name.drop_last());
    }
}

/// A file joined into a directory has that directory as its parent (a `.`
/// or empty directory being the bank root, and trailing slashes not
/// counting), so the directory a walk found a question in is the one its
/// partials and images are read from.
pub proof fn a_joined_file_lives_in_its_directory(dir: Seq<char>, name: Seq<char>)
    requires
        forall|i: int| 0 <= i < name.len() ==> name[i] != '/',
    ensures
        parent_dir_spec(join_dir_spec(dir, name)) == ({
            let d = trim_slashes_end(dir);
            if d.len() == 0 || d == "."@ { Seq::<char>::empty() } else { d }
        }),
{
    let d = trim_slashes_end(dir);
    if d.len() == 0 || d == "."@ {
        lemma_no_slash(name);
    } else {
        lemma_last_slash_before_name(d, name);
        assert((d + "/"@ + name).subrange(0, d.len() as int) =~= d);
    }
}

/// A name without a slash has no last slash.
proof fn lemma_no_slash(name: Seq<char>)
    requires
        forall|i: int| 0 <= i < name.len() ==> name[i] != '/',
    ensures
        last_slash(name) is None,
    decreases name.len(),
{
    if name.len() > 0 {
        lemma_no_slash(name.drop_last());
    }
}

/// Nesting is symmetric and every directory nests with itself: two folders
/// draw from the same files whichever is named first.
pub proof fn nesting_is_symmetric(one: Seq<char>, other: Seq<char>)
    ensures
        nests_spec(one, other) == nests_spec(other, one),
        nests_spec(one, one),
{
}

} // verus!
