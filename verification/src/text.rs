//! Character-level building blocks shared by every writer: decimal numbers,
//! string assembly from characters, and the whitespace rules `trim` uses.
use vstd::prelude::*;

verus! {

/// The decimal digit character for `d` (`0`–`9`).
pub open spec fn digit_char(d: nat) -> char {
    ((d + 48) as u8) as char
}

/// The decimal spelling of `n`, most significant digit first, no sign.
pub open spec fn decimal_spec(n: nat) -> Seq<char>
    decreases n,
{
    if n < 10 {
        seq![digit_char(n)]
    } else {
        decimal_spec(n / 10).push(digit_char(n % 10))
    }
}

/// A decimal spelling has a digit for every power of ten below the number:
/// one digit below ten, more from ten on.
pub proof fn decimal_length(n: nat)
    ensures
        decimal_spec(n).len() >= 1,
        n >= 10 ==> decimal_spec(n).len() >= 2,
    decreases n,
{
    if n >= 10 {
        decimal_length(n / 10);
    }
}

/// Different numbers are spelled differently: the decimal spelling is
/// one-to-one.
pub proof fn decimal_is_one_to_one(a: nat, b: nat)
    requires
        decimal_spec(a) == decimal_spec(b),
    ensures
        a == b,
    decreases a,
{
    decimal_length(a);
    decimal_length(b);
    if a < 10 && b < 10 {
        assert(decimal_spec(a)[0] == digit_char(a));
        assert(decimal_spec(b)[0] == digit_char(b));
    } else if a >= 10 && b >= 10 {
        let (pa, pb) = (decimal_spec(a / 10), decimal_spec(b / 10));
        assert(decimal_spec(a).drop_last() =~= pa);
        assert(decimal_spec(b).drop_last() =~= pb);
        assert(decimal_spec(a).last() == digit_char(a % 10));
        assert(decimal_spec(b).last() == digit_char(b % 10));
        decimal_is_one_to_one(a / 10, b / 10);
    }
}

/// A `String` holding exactly the characters of `chars`.
#[verifier::external_body]
pub fn string_from_chars(chars: &Vec<char>) -> (res: String)
    ensures
        res@ == chars@,
{
    chars.iter().collect()
}

/// The characters of `text`, in order.
#[verifier::external_body]
pub fn str_chars(text: &str) -> (res: Vec<char>)
    ensures
        res@ == text@,
{
    text.chars().collect()
}

/// Append one character to `text`.
#[verifier::external_body]
pub fn push_char(text: &mut String, ch: char)
    ensures
        final(text)@ == old(text)@.push(ch),
{
    text.push(ch);
}

/// The decimal digits of `n`, pushed onto `out`.
pub fn push_decimal(out: &mut Vec<char>, n: u64)
    ensures
        final(out)@ == old(out)@ + decimal_spec(n as nat),
    decreases n,
{
    if n >= 10 {
        push_decimal(out, n / 10);
    }
    let d: u8 = (n % 10) as u8;
    out.push((d + 48) as char);
}

/// The decimal spelling of `n`.
pub fn decimal(n: u64) -> (res: String)
    ensures
        res@ == decimal_spec(n as nat),
{
    let mut chars: Vec<char> = Vec::new();
    push_decimal(&mut chars, n);
    assert(chars@ =~= decimal_spec(n as nat));
    string_from_chars(&chars)
}

} // verus!

verus! {

/// Whether `pat` occurs in `s` starting at position `i`.
pub open spec fn occurs_at(s: Seq<char>, pat: Seq<char>, i: int) -> bool {
    0 <= i && i + pat.len() <= s.len() && s.subrange(i, i + pat.len()) == pat
}

/// Whether `pat` occurs somewhere in `s`.
pub open spec fn appears_in(pat: Seq<char>, s: Seq<char>) -> bool {
    exists|i: int| occurs_at(s, pat, i)
}

/// What occurs in `a` occurs in `a` followed by anything, at the same place.
pub proof fn lemma_occurs_before(a: Seq<char>, b: Seq<char>, pat: Seq<char>, i: int)
    requires
        occurs_at(a, pat, i),
    ensures
        occurs_at(a + b, pat, i),
        appears_in(pat, a + b),
{
    assert((a + b).subrange(i, i + pat.len()) =~= a.subrange(i, i + pat.len()));
}

/// What occurs in `b` occurs in anything followed by `b`, shifted past it.
pub proof fn lemma_occurs_after(a: Seq<char>, b: Seq<char>, pat: Seq<char>, i: int)
    requires
        occurs_at(b, pat, i),
    ensures
        occurs_at(a + b, pat, a.len() + i),
        appears_in(pat, a + b),
{
    assert((a + b).subrange(a.len() + i, a.len() + i + pat.len()) =~= b.subrange(i, i + pat.len()));
}

/// What appears in `a` appears in `a` followed by anything, and in anything
/// followed by `a`.
pub proof fn lemma_appears_around(a: Seq<char>, b: Seq<char>, pat: Seq<char>)
    requires
        appears_in(pat, a),
    ensures
        appears_in(pat, a + b),
        appears_in(pat, b + a),
{
    let i = choose|i: int| occurs_at(a, pat, i);
    lemma_occurs_before(a, b, pat, i);
    lemma_occurs_after(b, a, pat, i);
}

/// A text appears in itself.
pub proof fn lemma_appears_whole(s: Seq<char>)
    ensures
        appears_in(s, s),
{
    assert(s.subrange(0, s.len() as int) =~= s);
    assert(occurs_at(s, s, 0));
}

/// The position of the first occurrence of `pat` in `s`, if any.
pub open spec fn first_occurrence(s: Seq<char>, pat: Seq<char>) -> Option<nat>
    decreases s.len(),
{
    if s.len() < pat.len() {
        None
    } else if s.subrange(0, pat.len() as int) == pat {
        Some(0)
    } else if s.len() == 0 {
        None
    } else {
        match first_occurrence(s.skip(1), pat) {
            Some(i) => Some(i + 1),
            None => None,
        }
    }
}

/// `first_occurrence` finds the earliest match, and none before it.
pub proof fn lemma_first_occurrence(s: Seq<char>, pat: Seq<char>)
    ensures
        match first_occurrence(s, pat) {
            Some(i) => occurs_at(s, pat, i as int) && forall|j: int|
                0 <= j < i ==> !occurs_at(s, pat, j),
            None => forall|j: int| !occurs_at(s, pat, j),
        },
    decreases s.len(),
{
    if s.len() < pat.len() {
    } else if s.subrange(0, pat.len() as int) == pat {
    } else if s.len() == 0 {
    } else {
        lemma_first_occurrence(s.skip(1), pat);
        assert forall|j: int| 1 <= j && occurs_at(s, pat, j) implies occurs_at(s.skip(1), pat, j - 1) by {
            assert(s.skip(1).subrange(j - 1, j - 1 + pat.len()) =~= s.subrange(j, j + pat.len()));
        }
        assert forall|j: int| 1 <= j && occurs_at(s.skip(1), pat, j - 1) implies occurs_at(s, pat, j) by {
            assert(s.skip(1).subrange(j - 1, j - 1 + pat.len()) =~= s.subrange(j, j + pat.len()));
        }
    }
}

/// Whether `pat` matches `s` at `i`, decided character by character.
pub fn matches_at(s: &Vec<char>, pat: &Vec<char>, i: usize) -> (res: bool)
    ensures
        res == occurs_at(s@, pat@, i as int),
{
    if i > s.len() || pat.len() > s.len() - i {
        return false;
    }
    let mut k: usize = 0;
    while k < pat.len()
        invariant
            i + pat.len() <= s.len(),
            k <= pat.len(),
            forall|m: int| 0 <= m < k ==> s@[i + m] == pat@[m],
        decreases pat.len() - k,
    {
        if s[i + k] != pat[k] {
            assert(s@.subrange(i as int, i + pat.len())[k as int] != pat@[k as int]);
            return false;
        }
        k = k + 1;
    }
    assert(s@.subrange(i as int, i + pat.len()) =~= pat@);
    true
}

/// The first position at or after `from` where `pat` occurs in `s`.
pub fn find_from(s: &Vec<char>, pat: &Vec<char>, from: usize) -> (res: Option<usize>)
    ensures
        match res {
            Some(i) => from <= i && occurs_at(s@, pat@, i as int) && forall|j: int|
                from <= j < i ==> !occurs_at(s@, pat@, j),
            None => forall|j: int| from <= j ==> !occurs_at(s@, pat@, j),
        },
{
    let mut i: usize = from;
    while i < s.len()
        invariant
            from <= i,
            forall|j: int| from <= j < i ==> !occurs_at(s@, pat@, j),
        decreases s.len() - i,
    {
        if matches_at(s, pat, i) {
            return Some(i);
        }
        i = i + 1;
    }
    if i == s.len() && matches_at(s, pat, i) {
        return Some(i);
    }
    None
}

/// The characters `s[from..to]`.
pub fn slice_chars(s: &Vec<char>, from: usize, to: usize) -> (res: Vec<char>)
    requires
        from <= to <= s.len(),
    ensures
        res@ == s@.subrange(from as int, to as int),
{
    let mut out: Vec<char> = Vec::new();
    let mut i: usize = from;
    while i < to
        invariant
            from <= i <= to <= s.len(),
            out@ == s@.subrange(from as int, i as int),
        decreases to - i,
    {
        out.push(s[i]);
        i = i + 1;
        assert(out@ =~= s@.subrange(from as int, i as int));
    }
    out
}

/// Append every character of `tail` to `out`.
pub fn extend_chars(out: &mut Vec<char>, tail: &Vec<char>)
    ensures
        final(out)@ == old(out)@ + tail@,
{
    let mut i: usize = 0;
    while i < tail.len()
        invariant
            i <= tail.len(),
            out@ == old(out)@ + tail@.subrange(0, i as int),
        decreases tail.len() - i,
    {
        out.push(tail[i]);
        i = i + 1;
        assert(out@ =~= old(out)@ + tail@.subrange(0, i as int));
    }
    assert(tail@.subrange(0, tail.len() as int) =~= tail@);
}

/// Append the characters of `tail` to `out`.
pub fn extend_str(out: &mut Vec<char>, tail: &str)
    ensures
        final(out)@ == old(out)@ + tail@,
{
    let chars = str_chars(tail);
    extend_chars(out, &chars);
}

/// Whether two character sequences are equal.
pub fn chars_eq(a: &Vec<char>, b: &Vec<char>) -> (res: bool)
    ensures
        res == (a@ == b@),
{
    if a.len() != b.len() {
        return false;
    }
    let res = matches_at(a, b, 0);
    assert(a@.subrange(0, b.len() as int) =~= a@);
    res
}

/// Whether two strings hold the same text.
pub fn str_eq(a: &str, b: &str) -> (res: bool)
    ensures
        res == (a@ == b@),
{
    let x = str_chars(a);
    let y = str_chars(b);
    chars_eq(&x, &y)
}

} // verus!

verus! {

/// Unicode `White_Space`, the set Rust's `char::is_whitespace` and `str::trim`
/// go by.
pub open spec fn is_ws(c: char) -> bool {
    let u = c as u32;
    (9 <= u <= 13) || u == 32 || u == 0x85 || u == 0xA0 || u == 0x1680 || (0x2000 <= u
        <= 0x200A) || u == 0x2028 || u == 0x2029 || u == 0x202F || u == 0x205F || u == 0x3000
}

/// Whether `c` is whitespace.
pub fn is_whitespace(c: char) -> (res: bool)
    ensures
        res == is_ws(c),
{
    let u = c as u32;
    (9 <= u && u <= 13) || u == 32 || u == 0x85 || u == 0xA0 || u == 0x1680 || (0x2000 <= u
        && u <= 0x200A) || u == 0x2028 || u == 0x2029 || u == 0x202F || u == 0x205F || u
        == 0x3000
}

/// `s` without its leading whitespace.
pub open spec fn trim_start_spec(s: Seq<char>) -> Seq<char>
    decreases s.len(),
{
    if s.len() > 0 && is_ws(s[0]) {
        trim_start_spec(s.skip(1))
    } else {
        s
    }
}

/// `s` without its trailing whitespace.
pub open spec fn trim_end_spec(s: Seq<char>) -> Seq<char>
    decreases s.len(),
{
    if s.len() > 0 && is_ws(s.last()) {
        trim_end_spec(s.drop_last())
    } else {
        s
    }
}

/// `s` without leading or trailing whitespace.
pub open spec fn trim_spec(s: Seq<char>) -> Seq<char> {
    trim_end_spec(trim_start_spec(s))
}

/// How many leading characters of `s` are whitespace.
pub fn leading_ws(s: &Vec<char>) -> (n: usize)
    ensures
        n <= s.len(),
        trim_start_spec(s@) == s@.skip(n as int),
{
    let mut n: usize = 0;
    assert(s@.skip(0) =~= s@);
    while n < s.len() && is_whitespace(s[n])
        invariant
            n <= s.len(),
            trim_start_spec(s@) == trim_start_spec(s@.skip(n as int)),
        decreases s.len() - n,
    {
        assert(s@.skip(n as int).skip(1) =~= s@.skip(n + 1));
        assert(s@.skip(n as int)[0] == s@[n as int]);
        n = n + 1;
    }
    n
}

/// Where the text of `s[..end]` stops once trailing whitespace is dropped.
pub fn trailing_ws_end(s: &Vec<char>, end: usize) -> (e: usize)
    requires
        end <= s.len(),
    ensures
        e <= end,
        trim_end_spec(s@.subrange(0, end as int)) == s@.subrange(0, e as int),
{
    let mut e: usize = end;
    while e > 0 && is_whitespace(s[e - 1])
        invariant
            e <= end <= s.len(),
            trim_end_spec(s@.subrange(0, end as int)) == trim_end_spec(s@.subrange(0, e as int)),
        decreases e,
    {
        assert(s@.subrange(0, e as int).drop_last() =~= s@.subrange(0, e - 1));
        e = e - 1;
    }
    e
}

/// `s[from..to]` with surrounding whitespace removed.
pub fn trim_range(s: &Vec<char>, from: usize, to: usize) -> (res: Vec<char>)
    requires
        from <= to <= s.len(),
    ensures
        res@ == trim_spec(s@.subrange(from as int, to as int)),
{
    let piece = slice_chars(s, from, to);
    let start = leading_ws(&piece);
    let tail = slice_chars(&piece, start, piece.len());
    let end = trailing_ws_end(&tail, tail.len());
    assert(tail@.subrange(0, tail.len() as int) =~= tail@);
    let res = slice_chars(&tail, 0, end);
    res
}

/// `s` with surrounding whitespace removed.
pub fn trim_chars(s: &Vec<char>) -> (res: Vec<char>)
    ensures
        res@ == trim_spec(s@),
{
    let res = trim_range(s, 0, s.len());
    assert(s@.subrange(0, s.len() as int) =~= s@);
    res
}

/// `text` with surrounding whitespace removed, as a `String`.
pub fn trim_str(text: &str) -> (res: String)
    ensures
        res@ == trim_spec(text@),
{
    let chars = str_chars(text);
    let trimmed = trim_chars(&chars);
    string_from_chars(&trimmed)
}

/// Whether `text` is empty once trimmed.
pub fn is_blank(text: &str) -> (res: bool)
    ensures
        res == (trim_spec(text@).len() == 0),
{
    let trimmed = trim_str(text);
    let chars = str_chars(trimmed.as_str());
    chars.len() == 0
}

/// Whether `s` begins with `prefix`.
pub open spec fn has_prefix(s: Seq<char>, prefix: Seq<char>) -> bool {
    prefix.len() <= s.len() && s.subrange(0, prefix.len() as int) == prefix
}

/// Whether `s` starts with `prefix`.
pub fn starts_with(s: &Vec<char>, prefix: &Vec<char>) -> (res: bool)
    ensures
        res == has_prefix(s@, prefix@),
{
    matches_at(s, prefix, 0)
}

} // verus!

verus! {

/// `s` with every occurrence of `pat` replaced by `rep`, scanning left to
/// right without overlap, as `str::replace` does for a non-empty pattern.
pub open spec fn replace_spec(s: Seq<char>, pat: Seq<char>, rep: Seq<char>) -> Seq<char>
    decreases s.len(),
{
    if pat.len() == 0 || s.len() < pat.len() {
        s
    } else if s.subrange(0, pat.len() as int) == pat {
        rep + replace_spec(s.skip(pat.len() as int), pat, rep)
    } else {
        seq![s[0]] + replace_spec(s.skip(1), pat, rep)
    }
}

/// Every occurrence of `pat` in `s` replaced by `rep`.
pub fn replace_chars(s: &Vec<char>, pat: &Vec<char>, rep: &Vec<char>) -> (res: Vec<char>)
    ensures
        res@ == replace_spec(s@, pat@, rep@),
{
    if pat.len() == 0 {
        let mut out: Vec<char> = Vec::new();
        extend_chars(&mut out, s);
        assert(out@ =~= s@);
        return out;
    }
    let mut out: Vec<char> = Vec::new();
    let mut i: usize = 0;
    assert(s@.skip(0) =~= s@);
    while i < s.len()
        invariant
            pat.len() > 0,
            i <= s.len(),
            replace_spec(s@, pat@, rep@) == out@ + replace_spec(s@.skip(i as int), pat@, rep@),
        decreases s.len() - i,
    {
        let ghost rest = s@.skip(i as int);
        if matches_at(s, pat, i) {
            assert(rest.subrange(0, pat.len() as int) =~= s@.subrange(i as int, i + pat.len()));
            assert(rest.skip(pat.len() as int) =~= s@.skip(i + pat.len()));
            extend_chars(&mut out, rep);
            i = i + pat.len();
        } else {
            if s.len() - i >= pat.len() {
                assert(rest.subrange(0, pat.len() as int) =~= s@.subrange(i as int, i + pat.len()));
                assert(rest.skip(1) =~= s@.skip(i + 1));
                assert(rest[0] == s@[i as int]);
                out.push(s[i]);
                i = i + 1;
            } else {
                assert(replace_spec(rest, pat@, rep@) == rest);
                extend_chars(&mut out, &slice_chars(s, i, s.len()));
                assert(rest =~= s@.subrange(i as int, s.len() as int));
                i = s.len();
                assert(s@.skip(i as int).len() == 0);
            }
        }
    }
    assert(s@.skip(i as int) =~= Seq::<char>::empty());
    assert(out@ + Seq::<char>::empty() =~= out@);
    out
}

/// `text` with every occurrence of `pat` replaced by `rep`.
pub fn replace_str(text: &str, pat: &str, rep: &str) -> (res: String)
    ensures
        res@ == replace_spec(text@, pat@, rep@),
{
    let s = str_chars(text);
    let p = str_chars(pat);
    let r = str_chars(rep);
    let out = replace_chars(&s, &p, &r);
    string_from_chars(&out)
}

/// The pieces of `s` between occurrences of `sep`: `split` on one character.
pub open spec fn split_spec(s: Seq<char>, sep: char) -> Seq<Seq<char>>
    decreases s.len(),
{
    if s.len() == 0 {
        seq![Seq::<char>::empty()]
    } else {
        let pieces = split_spec(s.drop_last(), sep);
        if s.last() == sep {
            pieces.push(Seq::<char>::empty())
        } else {
            pieces.update(pieces.len() - 1, pieces.last().push(s.last()))
        }
    }
}

/// `split_spec` always yields at least one piece.
pub proof fn lemma_split_nonempty(s: Seq<char>, sep: char)
    ensures
        split_spec(s, sep).len() >= 1,
    decreases s.len(),
{
    if s.len() > 0 {
        lemma_split_nonempty(s.drop_last(), sep);
    }
}

/// The pieces of `s` between occurrences of `sep`.
pub fn split_chars(s: &Vec<char>, sep: char) -> (res: Vec<Vec<char>>)
    ensures
        res@.len() == split_spec(s@, sep).len(),
        forall|k: int| 0 <= k < res@.len() ==> #[trigger] res@[k]@ == split_spec(s@, sep)[k],
{
    let mut done: Vec<Vec<char>> = Vec::new();
    let mut current: Vec<char> = Vec::new();
    let mut i: usize = 0;
    assert(s@.subrange(0, 0) =~= Seq::<char>::empty());
    while i < s.len()
        invariant
            i <= s.len(),
            split_spec(s@.subrange(0, i as int), sep).len() == done@.len() + 1,
            forall|k: int| 0 <= k < done@.len() ==> #[trigger] done@[k]@ == split_spec(s@.subrange(0, i as int), sep)[k],
            current@ == split_spec(s@.subrange(0, i as int), sep).last(),
        decreases s.len() - i,
    {
        let ghost prefix = s@.subrange(0, i + 1);
        assert(prefix.drop_last() =~= s@.subrange(0, i as int));
        assert(prefix.last() == s@[i as int]);
        proof { lemma_split_nonempty(s@.subrange(0, i as int), sep); }
        if s[i] == sep {
            done.push(current);
            current = Vec::new();
        } else {
            current.push(s[i]);
        }
        i = i + 1;
    }
    assert(s@.subrange(0, s.len() as int) =~= s@);
    done.push(current);
    done
}

} // verus!

verus! {

/// Matching in a suffix is matching in the whole, shifted.
pub proof fn lemma_occurs_skip(s: Seq<char>, pat: Seq<char>, from: int, j: int)
    requires
        0 <= from <= s.len(),
    ensures
        occurs_at(s.skip(from), pat, j) <==> (0 <= j && occurs_at(s, pat, j + from)),
{
    if 0 <= j && j + pat.len() <= s.len() - from {
        assert(s.skip(from).subrange(j, j + pat.len()) =~= s.subrange(j + from, j + from + pat.len()));
    }
}

/// The first occurrence of `pat` in `s[from..]`, as a position in `s`.
pub fn find_next(s: &Vec<char>, pat: &Vec<char>, from: usize) -> (res: Option<usize>)
    requires
        from <= s.len(),
    ensures
        match first_occurrence(s@.skip(from as int), pat@) {
            Some(i) => res == Some((from + i) as usize),
            None => res is None,
        },
{
    let found = find_from(s, pat, from);
    proof {
        let rest = s@.skip(from as int);
        lemma_first_occurrence(rest, pat@);
        match first_occurrence(rest, pat@) {
            Some(i) => {
                lemma_occurs_skip(s@, pat@, from as int, i as int);
                match found {
                    Some(k) => {
                        lemma_occurs_skip(s@, pat@, from as int, k - from);
                        if k < from + i {
                            assert(!occurs_at(rest, pat@, k - from));
                        }
                        if k > from + i {
                            assert(!occurs_at(s@, pat@, (from + i) as int));
                        }
                    },
                    None => {
                        assert(!occurs_at(s@, pat@, (from + i) as int));
                    },
                }
            },
            None => {
                match found {
                    Some(k) => {
                        lemma_occurs_skip(s@, pat@, from as int, k - from);
                    },
                    None => {},
                }
            },
        }
    }
    found
}

} // verus!

verus! {

/// Whether `a` sorts before `b`, comparing character codes left to right
/// (for `str` this is the byte order `Ord` uses, since UTF-8 preserves it).
pub open spec fn text_lt(a: Seq<char>, b: Seq<char>) -> bool
    decreases a.len(),
{
    if a.len() == 0 {
        b.len() > 0
    } else if b.len() == 0 {
        false
    } else if a[0] != b[0] {
        (a[0] as int) < (b[0] as int)
    } else {
        text_lt(a.skip(1), b.skip(1))
    }
}

/// `text_lt` is a strict total order on character sequences.
pub proof fn lemma_text_lt_order(a: Seq<char>, b: Seq<char>, c: Seq<char>)
    ensures
        !text_lt(a, a),
        text_lt(a, b) ==> !text_lt(b, a),
        a != b ==> text_lt(a, b) || text_lt(b, a),
        text_lt(a, b) && text_lt(b, c) ==> text_lt(a, c),
    decreases a.len(),
{
    if a.len() > 0 {
        lemma_text_lt_order(a.skip(1), a.skip(1), a.skip(1));
    }
    if a.len() > 0 && b.len() > 0 {
        lemma_text_lt_order(a.skip(1), b.skip(1), b.skip(1));
        if a[0] != b[0] {
            assert((a[0] as int) != (b[0] as int));
        }
        if a[0] == b[0] && a != b {
            assert(a.skip(1) != b.skip(1)) by {
                if a.skip(1) == b.skip(1) {
                    assert(a =~= seq![a[0]] + a.skip(1));
                    assert(b =~= seq![b[0]] + b.skip(1));
                }
            }
        }
        if c.len() > 0 {
            lemma_text_lt_order(a.skip(1), b.skip(1), c.skip(1));
        }
    }
    if a.len() == 0 && b.len() == 0 {
        assert(a =~= b);
    }
}

/// Whether `a` sorts before `b`.
pub fn chars_lt(a: &Vec<char>, b: &Vec<char>) -> (res: bool)
    ensures
        res == text_lt(a@, b@),
{
    let mut i: usize = 0;
    assert(a@.skip(0) =~= a@);
    assert(b@.skip(0) =~= b@);
    while i < a.len() && i < b.len() && a[i] == b[i]
        invariant
            i <= a.len(),
            i <= b.len(),
            text_lt(a@, b@) == text_lt(a@.skip(i as int), b@.skip(i as int)),
        decreases a.len() - i,
    {
        assert(a@.skip(i as int).skip(1) =~= a@.skip(i + 1));
        assert(b@.skip(i as int).skip(1) =~= b@.skip(i + 1));
        i = i + 1;
    }
    if i == a.len() {
        i < b.len()
    } else if i == b.len() {
        false
    } else {
        assert(a@.skip(i as int)[0] == a@[i as int]);
        assert(b@.skip(i as int)[0] == b@[i as int]);
        a[i] < b[i]
    }
}

} // verus!
