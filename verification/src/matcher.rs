//! Content matcher: the pure text predicates that classify a file as
//! license-related, either by its path or by the lines it contains.
//!
//! All matching is case-insensitive substring containment over ASCII case
//! folding: an upper-case ASCII letter and its lower-case form compare equal,
//! every other character only to itself.

use vstd::prelude::*;

verus! {

/// ASCII case folding of a single character, as a code point: upper-case
/// ASCII letters map to their lower-case form, everything else to itself.
pub open spec fn fold_ci(c: char) -> int {
    if 65 <= c as u32 <= 90 {
        c as u32 + 32
    } else {
        c as u32 as int
    }
}

/// Two characters are equal up to ASCII case.
pub open spec fn chars_eq_ci(a: char, b: char) -> bool {
    fold_ci(a) == fold_ci(b)
}

/// `pat` occurs in `text` at position `i`, up to ASCII case.
pub open spec fn matches_at(text: Seq<char>, pat: Seq<char>, i: int) -> bool {
    &&& 0 <= i
    &&& i + pat.len() <= text.len()
    &&& forall|j: int| 0 <= j < pat.len() ==> chars_eq_ci(text[i + j], pat[j])
}

/// `pat` occurs somewhere in `text`, up to ASCII case.
pub open spec fn contains_ci(text: Seq<char>, pat: Seq<char>) -> bool {
    exists|i: int| matches_at(text, pat, i)
}

/// The filename heuristic: the path text contains one of the license-related
/// keywords, anywhere and in any case.
pub open spec fn filename_selected(path: Seq<char>) -> bool {
    ||| contains_ci(path, "LICENSE"@)
    ||| contains_ci(path, "COPYRIGHT"@)
    ||| contains_ci(path, "NOTICE"@)
    ||| contains_ci(path, "AUTHORS"@)
    ||| contains_ci(path, "CONTRIBUTORS"@)
    ||| contains_ci(path, "COPYING"@)
    ||| contains_ci(path, "PATENT"@)
}

/// A path whose text suggests prose documentation: only such files have
/// their contents inspected.
pub open spec fn content_eligible(path: Seq<char>) -> bool {
    ||| contains_ci(path, ".html"@)
    ||| contains_ci(path, ".txt"@)
    ||| contains_ci(path, ".md"@)
    ||| contains_ci(path, "README"@)
}

/// The content heuristic on one line: a narrower keyword set than the
/// filename heuristic, so that prose which merely names its authors or
/// contributors does not count as a license.
pub open spec fn line_indicates_license(line: Seq<char>) -> bool {
    ||| contains_ci(line, "LICENSE"@)
    ||| contains_ci(line, "COPYRIGHT"@)
    ||| contains_ci(line, "COPYING"@)
    ||| contains_ci(line, "PATENT"@)
}

/// The content heuristic on a whole file: some line indicates a license.
pub open spec fn any_line_indicates(lines: Seq<Seq<char>>) -> bool {
    exists|i: int| 0 <= i < lines.len() && line_indicates_license(lines[i])
}

fn fold_char(c: char) -> (r: u32)
    ensures
        r as int == fold_ci(c),
{
    let u = c as u32;
    if 65 <= u && u <= 90 {
        u + 32
    } else {
        u
    }
}

/// The characters of `s`, in order, as a vector.
fn chars_vec(s: &str) -> (v: Vec<char>)
    ensures
        v@ == s@,
{
    let n = s.unicode_len();
    let mut v: Vec<char> = Vec::new();
    let mut i: usize = 0;
    while i < n
        invariant
            n == s@.len(),
            i <= n,
            v@ == s@.subrange(0, i as int),
        decreases n - i,
    {
        v.push(s.get_char(i));
        assert(v@ =~= s@.subrange(0, i as int + 1));
        i += 1;
    }
    assert(v@ =~= s@);
    v
}

/// Whether `pat` occurs in `text` up to ASCII case, by direct search.
fn contains_chars_ci(text: &Vec<char>, pat: &Vec<char>) -> (b: bool)
    ensures
        b == contains_ci(text@, pat@),
{
    let n = text.len();
    let m = pat.len();
    if m > n {
        assert(forall|i: int| !matches_at(text@, pat@, i));
        return false;
    }
    let mut i: usize = 0;
    while i <= n - m
        invariant
            m <= n,
            n == text@.len(),
            m == pat@.len(),
            i <= n - m + 1,
            forall|i2: int| 0 <= i2 < i ==> !matches_at(text@, pat@, i2),
        decreases n - m - i + 1,
    {
        let mut j: usize = 0;
        let mut ok = true;
        while j < m && ok
            invariant
                m <= n,
                n == text@.len(),
                m == pat@.len(),
                i + m <= n,
                j <= m,
                ok ==> forall|j2: int| 0 <= j2 < j ==> chars_eq_ci(text@[i + j2], pat@[j2]),
                !ok ==> !matches_at(text@, pat@, i as int),
            decreases m - j, (if ok { 1int } else { 0int }),
        {
            if fold_char(text[i + j]) != fold_char(pat[j]) {
                assert(!chars_eq_ci(text@[i as int + j as int], pat@[j as int]));
                ok = false;
            } else {
                j += 1;
            }
        }
        if ok {
            assert(matches_at(text@, pat@, i as int));
            return true;
        }
        i += 1;
    }
    assert(forall|i2: int| matches_at(text@, pat@, i2) ==> 0 <= i2 <= n - m);
    false
}

/// Whether the filename heuristic selects this path text.
pub fn is_license_path(path: &str) -> (b: bool)
    ensures
        b == filename_selected(path@),
{
    let cs = chars_vec(path);
    let found = contains_chars_ci(&cs, &chars_vec("LICENSE"))
        || contains_chars_ci(&cs, &chars_vec("COPYRIGHT"))
        || contains_chars_ci(&cs, &chars_vec("NOTICE"))
        || contains_chars_ci(&cs, &chars_vec("AUTHORS"))
        || contains_chars_ci(&cs, &chars_vec("CONTRIBUTORS"))
        || contains_chars_ci(&cs, &chars_vec("COPYING"))
        || contains_chars_ci(&cs, &chars_vec("PATENT"));
    found
}

/// Whether this path text makes the file's contents worth inspecting.
pub fn is_content_candidate(path: &str) -> (b: bool)
    ensures
        b == content_eligible(path@),
{
    let cs = chars_vec(path);
    let found = contains_chars_ci(&cs, &chars_vec(".html"))
        || contains_chars_ci(&cs, &chars_vec(".txt"))
        || contains_chars_ci(&cs, &chars_vec(".md"))
        || contains_chars_ci(&cs, &chars_vec("README"));
    found
}

/// Whether one line of text indicates a license.
pub fn is_license_line(line: &str) -> (b: bool)
    ensures
        b == line_indicates_license(line@),
{
    let cs = chars_vec(line);
    let found = contains_chars_ci(&cs, &chars_vec("LICENSE"))
        || contains_chars_ci(&cs, &chars_vec("COPYRIGHT"))
        || contains_chars_ci(&cs, &chars_vec("COPYING"))
        || contains_chars_ci(&cs, &chars_vec("PATENT"));
    found
}

/// Whether any of the given lines indicates a license.
pub fn matches_any_line(lines: &Vec<String>) -> (b: bool)
    ensures
        b == any_line_indicates(lines.deep_view()),
{
    let n = lines.len();
    let mut k: usize = 0;
    while k < n
        invariant
            n == lines@.len(),
            k <= n,
            forall|k2: int| 0 <= k2 < k ==> !line_indicates_license(lines.deep_view()[k2]),
        decreases n - k,
    {
        if is_license_line(lines[k].as_str()) {
            assert(lines.deep_view()[k as int] == lines@[k as int]@);
            return true;
        }
        assert(lines.deep_view()[k as int] == lines@[k as int]@);
        k += 1;
    }
    false
}

} // verus!
