//! Path relativizer and the path arithmetic of the engine.
//!
//! Paths are plain text with `/` as the separator, taken as written: no
//! normalization and no symbolic-link resolution happens here.  A caller that
//! wants canonical paths canonicalizes them before handing them in.

use vstd::prelude::*;

verus! {

/// Index of the last `/` in `p`, or `-1` if `p` holds none.
pub open spec fn last_slash(p: Seq<char>) -> int
    decreases p.len(),
{
    if p.len() == 0 {
        -1
    } else if p.last() == '/' {
        p.len() - 1
    } else {
        last_slash(p.drop_last())
    }
}

/// The parent of a path: the text before its last separator, where the
/// parent of a top-level entry such as `/name` is the root `/` itself.
/// A path without a separator, and the bare root `/`, have no parent.
pub open spec fn parent_of(p: Seq<char>) -> Option<Seq<char>> {
    let k = last_slash(p);
    if k < 0 {
        None
    } else if k == 0 {
        if p.len() == 1 {
            None
        } else {
            Some(seq!['/'])
        }
    } else {
        Some(p.subrange(0, k))
    }
}

/// `path` relative to `root`: the remainder after the root and the
/// separator that follows it.  `None` when `path` does not lie under
/// `root`; the root itself yields the empty remainder.
pub open spec fn relative_to(root: Seq<char>, path: Seq<char>) -> Option<Seq<char>> {
    if path == root {
        Some(Seq::empty())
    } else if root.len() > 0 && root.last() == '/' && path.len() > root.len() && path.subrange(
        0,
        root.len() as int,
    ) == root {
        Some(path.subrange(root.len() as int, path.len() as int))
    } else if path.len() > root.len() && path.subrange(0, root.len() as int) == root && path[root.len() as int]
        == '/' {
        Some(path.subrange(root.len() as int + 1, path.len() as int))
    } else {
        None
    }
}

/// The destination of one candidate: the destination root, the dependency's
/// name and the candidate's relative path, joined with separators.
pub open spec fn joined_under(destination: Seq<char>, name: Seq<char>, relative: Seq<char>) -> Seq<
    char,
> {
    destination + seq!['/'] + name + seq!['/'] + relative
}

proof fn lemma_last_slash_bounds(p: Seq<char>)
    ensures
        -1 <= last_slash(p) < p.len(),
        last_slash(p) >= 0 ==> p[last_slash(p)] == '/',
        forall|j: int| last_slash(p) < j < p.len() ==> p[j] != '/',
    decreases p.len(),
{
    if p.len() == 0 {
    } else if p.last() == '/' {
    } else {
        lemma_last_slash_bounds(p.drop_last());
        assert(forall|j: int| 0 <= j < p.len() - 1 ==> p.drop_last()[j] == p[j]);
    }
}

proof fn lemma_last_slash_at_least(p: Seq<char>, k: int)
    requires
        0 <= k < p.len(),
        p[k] == '/',
    ensures
        last_slash(p) >= k,
    decreases p.len(),
{
    if p.last() == '/' {
    } else {
        assert(k < p.len() - 1);
        assert(p.drop_last()[k] == p[k]);
        lemma_last_slash_at_least(p.drop_last(), k);
    }
}

/// The parent of a path, or `None` where it has none.
pub fn parent_path(p: &str) -> (r: Option<String>)
    ensures
        r is Some <==> parent_of(p@) is Some,
        r matches Some(s) ==> Some(s@) == parent_of(p@),
{
    let n = p.unicode_len();
    let mut i: usize = n;
    let mut found = false;
    let mut k: usize = 0;
    while i > 0 && !found
        invariant
            n == p@.len(),
            i <= n,
            !found ==> forall|j: int| i <= j < n ==> p@[j] != '/',
            found ==> k < n && p@[k as int] == '/' && forall|j: int| k < j < n ==> p@[j] != '/',
        decreases (if found { 0int } else { 1int }), i,
    {
        if p.get_char(i - 1) == '/' {
            found = true;
            k = i - 1;
        } else {
            i -= 1;
        }
    }
    proof {
        lemma_last_slash_bounds(p@);
        if found {
            lemma_last_slash_at_least(p@, k as int);
            assert(last_slash(p@) == k);
        } else {
            assert(last_slash(p@) == -1) by {
                if last_slash(p@) >= 0 {
                    assert(p@[last_slash(p@)] == '/');
                }
            }
        }
    }
    if !found {
        None
    } else if k == 0 {
        if n == 1 {
            None
        } else {
            proof {
                reveal_strlit("/");
            }
            let s = "/".to_owned();
            assert(s@ =~= seq!['/']);
            Some(s)
        }
    } else {
        let sub = p.substring_char(0, k);
        Some(sub.to_owned())
    }
}

/// `path` made relative to `root`, or `None` where `path` is not under
/// `root`.
pub fn strip_path_prefix(root: &str, path: &str) -> (r: Option<String>)
    ensures
        r is Some <==> relative_to(root@, path@) is Some,
        r matches Some(s) ==> Some(s@) == relative_to(root@, path@),
{
    let rl = root.unicode_len();
    let pl = path.unicode_len();
    if pl < rl {
        return None;
    }
    let mut j: usize = 0;
    while j < rl
        invariant
            rl == root@.len(),
            pl == path@.len(),
            rl <= pl,
            j <= rl,
            forall|j2: int| 0 <= j2 < j ==> path@[j2] == root@[j2],
        decreases rl - j,
    {
        if root.get_char(j) != path.get_char(j) {
            assert(relative_to(root@, path@) is None) by {
                assert(path@[j as int] != root@[j as int]);
                if path@ == root@ {
                    assert(false);
                }
                if path@.len() > root@.len() && path@.subrange(0, root@.len() as int) == root@ {
                    assert(path@.subrange(0, root@.len() as int)[j as int] == path@[j as int]);
                }
            }
            return None;
        }
        j += 1;
    }
    assert(path@.subrange(0, rl as int) =~= root@);
    if pl == rl {
        assert(path@ =~= root@);
        let s = String::new();
        assert(Some(s@) == relative_to(root@, path@));
        Some(s)
    } else {
        assert(pl > rl && path@ != root@);
        if rl > 0 && root.get_char(rl - 1) == '/' {
            let sub = path.substring_char(rl, pl);
            Some(sub.to_owned())
        } else if path.get_char(rl) == '/' {
            let sub = path.substring_char(rl + 1, pl);
            Some(sub.to_owned())
        } else {
            None
        }
    }
}

/// Every path of `paths` made relative to `root_path`, in order; an error
/// names the first path that is not under the root.
pub fn make_paths_relative(root_path: &String, paths: &Vec<String>) -> (r: Result<
    Vec<String>,
    String,
>)
    ensures
        r is Ok <==> (forall|i: int|
            0 <= i < paths@.len() ==> relative_to(root_path@, paths@[i]@) is Some),
        r matches Ok(v) ==> v@.len() == paths@.len() && (forall|i: int|
            0 <= i < paths@.len() ==> Some(v@[i]@) == relative_to(root_path@, paths@[i]@)),
{
    let mut out: Vec<String> = Vec::new();
    let mut i: usize = 0;
    while i < paths.len()
        invariant
            i <= paths@.len(),
            out@.len() == i,
            forall|i2: int| 0 <= i2 < i ==> relative_to(root_path@, paths@[i2]@) is Some,
            forall|i2: int| 0 <= i2 < i ==> Some(out@[i2]@) == relative_to(root_path@, paths@[i2]@),
        decreases paths@.len() - i,
    {
        match strip_path_prefix(root_path.as_str(), paths[i].as_str()) {
            Some(s) => {
                out.push(s);
            },
            None => {
                let mut m = paths[i].clone();
                m.append(" is not under ");
                m.append(root_path.as_str());
                return Err(m);
            },
        }
        i += 1;
    }
    Ok(out)
}

/// As [`make_paths_relative`], only that each relative path is paired with
/// the full path it came from.
pub fn with_relative_paths(root_path: &String, paths: &Vec<String>) -> (r: Result<
    Vec<(String, String)>,
    String,
>)
    ensures
        r is Ok <==> (forall|i: int|
            0 <= i < paths@.len() ==> relative_to(root_path@, paths@[i]@) is Some),
        r matches Ok(v) ==> v@.len() == paths@.len() && (forall|i: int|
            0 <= i < paths@.len() ==> v@[i].0 == paths@[i] && Some(v@[i].1@) == relative_to(
                root_path@,
                paths@[i]@,
            )),
{
    let mut out: Vec<(String, String)> = Vec::new();
    let mut i: usize = 0;
    while i < paths.len()
        invariant
            i <= paths@.len(),
            out@.len() == i,
            forall|i2: int| 0 <= i2 < i ==> relative_to(root_path@, paths@[i2]@) is Some,
            forall|i2: int|
                0 <= i2 < i ==> out@[i2].0 == paths@[i2] && Some(out@[i2].1@) == relative_to(
                    root_path@,
                    paths@[i2]@,
                ),
        decreases paths@.len() - i,
    {
        match strip_path_prefix(root_path.as_str(), paths[i].as_str()) {
            Some(s) => {
                out.push((paths[i].clone(), s));
            },
            None => {
                let mut m = paths[i].clone();
                m.append(" is not under ");
                m.append(root_path.as_str());
                return Err(m);
            },
        }
        i += 1;
    }
    Ok(out)
}

/// The destination path for one candidate.
pub fn join_under(destination: &str, name: &str, relative: &str) -> (r: String)
    ensures
        r@ == joined_under(destination@, name@, relative@),
{
    proof {
        reveal_strlit("/");
    }
    let mut s = destination.to_owned();
    s.append("/");
    s.append(name);
    s.append("/");
    s.append(relative);
    assert(s@ =~= joined_under(destination@, name@, relative@));
    s
}

} // verus!
