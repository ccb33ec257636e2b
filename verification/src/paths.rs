use vstd::prelude::*;
use vstd::string::*;

verus! {

/// A name is hidden when its first character is `.`.
pub open spec fn hidden_seq(s: Seq<char>) -> bool {
    s.len() > 0 && s[0] == '.'
}

/// Whether `name` starts with `.` (a hidden file or directory name).
pub fn is_hidden_name(name: &str) -> (b: bool)
    ensures
        b == hidden_seq(name@),
{
    let n: usize = name.unicode_len();
    n > 0 && name.get_char(0) == '.'
}

/// Whether the walk should keep an entry with this name: everything but
/// hidden names is kept.
pub fn keep_name(name: &str) -> (b: bool)
    ensures
        b == !hidden_seq(name@),
{
    !is_hidden_name(name)
}

/// Position `i` starts a path segment beginning with `.`.
pub open spec fn hidden_at(s: Seq<char>, i: int) -> bool {
    0 <= i < s.len() && s[i] == '.' && (i == 0 || s[i - 1] == '/')
}

/// Some segment of the path starts with `.`.
pub open spec fn hidden_segment_seq(s: Seq<char>) -> bool {
    exists|i: int| hidden_at(s, i)
}

/// Whether any `/`-separated segment of `path` starts with `.`.
pub fn has_hidden_segment(path: &str) -> (b: bool)
    ensures
        b == hidden_segment_seq(path@),
{
    let n: usize = path.unicode_len();
    let mut i: usize = 0;
    while i < n
        invariant
            i <= n,
            n == path@.len(),
            forall|j: int| 0 <= j < i ==> !hidden_at(path@, j),
        decreases n - i,
    {
        if path.get_char(i) == '.' {
            if i == 0 || path.get_char(i - 1) == '/' {
                proof {
                    assert(hidden_at(path@, i as int));
                }
                return true;
            }
        }
        i = i + 1;
    }
    false
}

/// Index of the last `/` in `s`, or `-1` when there is none.
pub open spec fn last_sep(s: Seq<char>) -> int
    decreases s.len(),
{
    if s.len() == 0 {
        -1
    } else if s[s.len() - 1] == '/' {
        s.len() - 1
    } else {
        last_sep(s.drop_last())
    }
}

/// `last_sep` is in range, points at a `/`, and nothing after it is a `/`.
pub proof fn lemma_last_sep(s: Seq<char>)
    ensures
        -1 <= last_sep(s) < s.len(),
        last_sep(s) >= 0 ==> s[last_sep(s)] == '/',
        forall|j: int| last_sep(s) < j < s.len() ==> s[j] != '/',
    decreases s.len(),
{
    if s.len() == 0 {
    } else if s[s.len() - 1] == '/' {
    } else {
        lemma_last_sep(s.drop_last());
        assert forall|j: int| last_sep(s) < j < s.len() implies s[j] != '/' by {
            if j < s.len() - 1 {
                assert(s.drop_last()[j] == s[j]);
            }
        }
    }
}

/// The final segment of a path: everything after the last `/`, or the whole
/// path when it has no `/`.
pub open spec fn file_name_seq(s: Seq<char>) -> Seq<char> {
    s.skip(last_sep(s) + 1)
}

/// The final `/`-separated segment of `path`.
pub fn file_name_of(path: &str) -> (r: String)
    ensures
        r@ == file_name_seq(path@),
{
    let n: usize = path.unicode_len();
    let mut i: usize = n;
    while i > 0
        invariant
            i <= n,
            n == path@.len(),
            forall|j: int| i <= j < n ==> path@[j] != '/',
        decreases i,
    {
        if path.get_char(i - 1) == '/' {
            proof {
                lemma_last_sep(path@);
                if last_sep(path@) < i - 1 {
                    assert(path@[i - 1] == '/');
                    assert(false);
                }
                if last_sep(path@) > i - 1 {
                    assert(path@[last_sep(path@)] == '/');
                    assert(false);
                }
                assert(path@.subrange(i as int, n as int) =~= file_name_seq(path@));
            }
            return path.substring_char(i, n).to_owned();
        }
        i = i - 1;
    }
    proof {
        lemma_last_sep(path@);
        if last_sep(path@) >= 0 {
            assert(path@[last_sep(path@)] == '/');
            assert(false);
        }
        assert(path@.skip(0) =~= path@);
    }
    path.to_owned()
}

/// The name ends in `.md` with a non-empty stem before it.
pub open spec fn md_name_seq(s: Seq<char>) -> bool {
    s.len() >= 4 && s[s.len() - 3] == '.' && s[s.len() - 2] == 'm' && s[s.len() - 1] == 'd'
}

/// Whether `name` is a markdown file name: it ends in `.md` and has a
/// non-empty stem.
pub fn is_md_name(name: &str) -> (b: bool)
    ensures
        b == md_name_seq(name@),
{
    let n: usize = name.unicode_len();
    if n < 4 {
        return false;
    }
    name.get_char(n - 3) == '.' && name.get_char(n - 2) == 'm' && name.get_char(n - 1) == 'd'
}

/// The title of a file name: the name with a trailing `.md` removed once,
/// or the name itself when it does not end in `.md`.
pub open spec fn title_seq(name: Seq<char>) -> Seq<char> {
    if md_name_seq(name) {
        name.take(name.len() - 3)
    } else {
        name
    }
}

/// The file name with a trailing `.md` removed once.
pub fn title_of(name: &str) -> (r: String)
    ensures
        r@ == title_seq(name@),
{
    if is_md_name(name) {
        let n: usize = name.unicode_len();
        proof {
            assert(name@.subrange(0, n - 3) =~= name@.take(n - 3));
        }
        name.substring_char(0, n - 3).to_owned()
    } else {
        name.to_owned()
    }
}

/// Removing the `.md` suffix and appending it again restores the name: the
/// suffix is removed exactly once.
pub proof fn lemma_title_restores_name(name: Seq<char>)
    requires
        md_name_seq(name),
    ensures
        title_seq(name) + seq!['.', 'm', 'd'] == name,
{
    assert(title_seq(name) + seq!['.', 'm', 'd'] =~= name);
}

/// `path` lies under `root` the way a directory walk builds paths: it is the
/// root itself, or the root (with a `/` in between unless the root already
/// ends in one) followed by a non-empty remainder.
pub open spec fn joined_under(root: Seq<char>, path: Seq<char>) -> bool {
    path == root || (root.len() > 0 && path.len() > root.len() && path.take(
        root.len() as int,
    ) == root && (root[root.len() - 1] == '/' || (path[root.len() as int] == '/' && path.len()
        > root.len() + 1)))
}

/// The path relative to the root: the path with the root prefix (and the
/// separator after it) stripped; the path itself when it does not lie under
/// the root.
pub open spec fn rel_seq(root: Seq<char>, path: Seq<char>) -> Seq<char> {
    if path == root {
        Seq::empty()
    } else if joined_under(root, path) {
        if root[root.len() - 1] == '/' {
            path.skip(root.len() as int)
        } else {
            path.skip(root.len() as int + 1)
        }
    } else {
        path
    }
}

/// Joining a relative path back onto a root: the root alone for an empty
/// remainder, else the root, a `/` unless the root ends in one, and the
/// remainder.
pub open spec fn join_seq(root: Seq<char>, rel: Seq<char>) -> Seq<char> {
    if rel.len() == 0 {
        root
    } else if root.len() > 0 && root[root.len() - 1] == '/' {
        root + rel
    } else {
        root + seq!['/'] + rel
    }
}

/// Joining the relative path back onto the root reproduces the original
/// path, for any path that lies under the root.
pub proof fn lemma_rel_round_trip(root: Seq<char>, path: Seq<char>)
    requires
        joined_under(root, path),
    ensures
        join_seq(root, rel_seq(root, path)) == path,
{
    if path == root {
    } else if root[root.len() - 1] == '/' {
        assert(join_seq(root, rel_seq(root, path)) =~= path);
    } else {
        assert(join_seq(root, rel_seq(root, path)) =~= path);
    }
}

/// Whether `path` starts with `prefix` (character for character).
pub fn matches_prefix(path: &str, prefix: &str) -> (b: bool)
    ensures
        b == (path@.len() >= prefix@.len() && path@.take(prefix@.len() as int) == prefix@),
{
    let pl: usize = path.unicode_len();
    let rl: usize = prefix.unicode_len();
    if pl < rl {
        return false;
    }
    let mut i: usize = 0;
    while i < rl
        invariant
            i <= rl,
            rl == prefix@.len(),
            pl == path@.len(),
            pl >= rl,
            forall|j: int| 0 <= j < i ==> path@[j] == prefix@[j],
        decreases rl - i,
    {
        if path.get_char(i) != prefix.get_char(i) {
            proof {
                if path@.take(rl as int) == prefix@ {
                    assert(path@.take(rl as int)[i as int] == path@[i as int]);
                    assert(false);
                }
            }
            return false;
        }
        i = i + 1;
    }
    proof {
        assert(path@.take(rl as int) =~= prefix@);
    }
    true
}

/// The path relative to the root, as the scan reports it: the root prefix is
/// stripped when the path lies under the root, and the path is returned
/// unchanged otherwise.
pub fn relative_of(root: &str, path: &str) -> (r: String)
    ensures
        r@ == rel_seq(root@, path@),
{
    let rl: usize = root.unicode_len();
    let pl: usize = path.unicode_len();
    let pref = matches_prefix(path, root);
    if pref && pl == rl {
        proof {
            assert(path@.take(rl as int) =~= path@);
        }
        return String::new();
    }
    if pref && rl > 0 && pl > rl {
        if root.get_char(rl - 1) == '/' {
            return path.substring_char(rl, pl).to_owned();
        }
        if pl > rl + 1 && path.get_char(rl) == '/' {
            return path.substring_char(rl + 1, pl).to_owned();
        }
    }
    proof {
        if path@ == root@ {
            assert(path@.take(rl as int) =~= root@);
            assert(false);
        }
    }
    path.to_owned()
}

} // verus!
