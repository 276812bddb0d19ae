//! Paths as the library sees them: text with `/` between the components.
//!
//! Only what the stream store asks of a path is defined here: its file name,
//! its extension, whether it lies under a root, and how to join two of them.
//!
//! A path is taken as it is written. Nothing is normalised: a `/` at the end
//! and a `/` that follows another are characters like any other, and `.` is
//! no shorthand for the directory itself. On paths as a directory listing or
//! a file watcher hands them out this agrees with `std::path::Path`; on
//! others it is a choice of this library, and these are the cases:
//!
//! * a path that ends in `/` names no file: `a.stream/` has the empty file
//!   name and no extension;
//! * a root is compared as it is written: `/data` does not lie within
//!   `/data/`, while `/data/x` lies within both `/data` and `/data/`;
//! * below a root only the one `/` that parts root and rest is dropped:
//!   `/data//x` below `/data` is `/x`.
//!
//! The file name `..` has no extension, as with `Path`.
use crate::text::chars_of;
use vstd::prelude::*;
use vstd::string::*;

verus! {

/// The position of the last `c` in `s`, if `c` occurs at all.
pub open spec fn last_index_of(s: Seq<char>, c: char) -> Option<int>
    decreases s.len(),
{
    if s.len() == 0 {
        None
    } else if s.last() == c {
        Some(s.len() - 1)
    } else {
        last_index_of(s.drop_last(), c)
    }
}

/// The final component of a path: what follows its last `/`. A path that
/// ends in `/` has the empty file name.
pub open spec fn file_name_of(path: Seq<char>) -> Seq<char> {
    match last_index_of(path, '/') {
        Some(i) => path.skip(i + 1),
        None => path,
    }
}

/// The extension of a path: what follows the last `.` of its file name.
/// A file name without a `.`, or with its only `.` in front, has none, and
/// neither has the file name `..`.
pub open spec fn extension_of(path: Seq<char>) -> Option<Seq<char>> {
    let name = file_name_of(path);
    if name == seq!['.', '.'] {
        None
    } else {
        match last_index_of(name, '.') {
            Some(i) => if i == 0 {
                None
            } else {
                Some(name.skip(i + 1))
            },
            None => None,
        }
    }
}

/// Whether `path` is `root` or lies below it: `path` begins with `root`, and
/// what follows is parted from it by a `/`, so that `/data2` is not within
/// `/data`. Every path is within the empty root. The root is compared as it
/// is written: `/data` is not within `/data/`.
pub open spec fn within(path: Seq<char>, root: Seq<char>) -> bool {
    &&& root.is_prefix_of(path)
    &&& (root.len() == 0 || path.len() == root.len() || root.last() == '/' || path[root.len() as int]
        == '/')
}

/// What is left of `path` below `root`, without the `/` that parted them.
/// Only that one `/` is dropped: `/data//x` below `/data` is `/x`.
pub open spec fn below(path: Seq<char>, root: Seq<char>) -> Seq<char> {
    let rest = path.skip(root.len() as int);
    if rest.len() > 0 && rest[0] == '/' {
        rest.skip(1)
    } else {
        rest
    }
}

/// `name` resolved against `base`: an absolute `name` stands for itself, any
/// other is appended to `base`, with a `/` between them where `base` does not
/// end in one.
pub open spec fn joined(base: Seq<char>, name: Seq<char>) -> Seq<char> {
    if name.len() > 0 && name[0] == '/' {
        name
    } else if base.len() == 0 || base.last() == '/' {
        base + name
    } else {
        base + seq!['/'] + name
    }
}

/// `last_index_of` finds an occurrence with no other behind it, or none where
/// there is none.
pub proof fn lemma_last_index_of(s: Seq<char>, c: char)
    ensures
        match last_index_of(s, c) {
            Some(i) => 0 <= i < s.len() && s[i] == c && forall|j: int|
                i < j < s.len() ==> s[j] != c,
            None => forall|j: int| 0 <= j < s.len() ==> s[j] != c,
        },
    decreases s.len(),
{
    if s.len() > 0 && s.last() != c {
        let t = s.drop_last();
        lemma_last_index_of(t, c);
        match last_index_of(t, c) {
            Some(i) => {
                assert(t[i] == s[i]);
                assert forall|j: int| i < j < s.len() implies s[j] != c by {
                    if j < t.len() {
                        assert(t[j] == s[j]);
                    }
                }
            },
            None => {
                assert forall|j: int| 0 <= j < s.len() implies s[j] != c by {
                    if j < t.len() {
                        assert(t[j] == s[j]);
                    }
                }
            },
        }
    }
}

/// An occurrence with no other behind it is the one that `last_index_of`
/// finds.
pub proof fn lemma_last_index_is(s: Seq<char>, c: char, i: int)
    requires
        0 <= i < s.len(),
        s[i] == c,
        forall|j: int| i < j < s.len() ==> s[j] != c,
    ensures
        last_index_of(s, c) == Some(i),
{
    lemma_last_index_of(s, c);
}

/// The position of the last `c` among the first `end` characters.
fn find_last(chars: &Vec<char>, end: usize, c: char) -> (found: Option<usize>)
    requires
        end <= chars@.len(),
    ensures
        match found {
            Some(i) => last_index_of(chars@.take(end as int), c) == Some(i as int) && i < end,
            None => last_index_of(chars@.take(end as int), c).is_none(),
        },
{
    let ghost s = chars@.take(end as int);
    let mut i = end;
    while i > 0
        invariant
            i <= end <= chars@.len(),
            s == chars@.take(end as int),
            forall|j: int| i <= j < end ==> chars@[j] != c,
        decreases i,
    {
        i -= 1;
        if chars[i] == c {
            proof {
                lemma_last_index_is(s, c, i as int);
            }
            return Some(i);
        }
    }
    proof {
        lemma_last_index_of(s, c);
    }
    None
}

/// The extension of `path`, if it has one.
pub fn extension(path: &str) -> (ext: Option<String>)
    ensures
        match ext {
            Some(e) => extension_of(path@) == Some(e@),
            None => extension_of(path@).is_none(),
        },
{
    let chars = chars_of(path);
    let n = chars.len();
    proof {
        assert(chars@.take(n as int) =~= path@);
    }
    let start = match find_last(&chars, n, '/') {
        Some(i) => i + 1,
        None => 0,
    };
    let ghost name = file_name_of(path@);
    proof {
        lemma_last_index_of(path@, '/');
        assert(name =~= path@.skip(start as int));
    }
    if n - start == 2 && chars[start] == '.' && chars[start + 1] == '.' {
        proof {
            assert(name =~= seq!['.', '.']);
        }
        return None;
    }
    proof {
        if name == seq!['.', '.'] {
            assert(name.len() == 2);
            assert(name[0] == '.' && name[1] == '.');
        }
    }
    let mut i = n;
    while i > start
        invariant
            start <= i <= n,
            n == chars@.len(),
            chars@ == path@,
            name == path@.skip(start as int),
            name == file_name_of(path@),
            name != seq!['.', '.'],
            forall|j: int| i <= j < n ==> chars@[j] != '.',
        decreases i,
    {
        i -= 1;
        if chars[i] == '.' {
            proof {
                assert forall|k: int| i - start < k < name.len() implies name[k] != '.' by {
                    assert(name[k] == chars@[start + k]);
                }
                assert(name[i - start] == chars@[i as int]);
                lemma_last_index_is(name, '.', i - start);
            }
            if i == start {
                return None;
            }
            let ext = path.substring_char(i + 1, n);
            proof {
                assert(ext@ =~= name.skip(i - start + 1));
            }
            return Some(String::from_str(ext));
        }
    }
    proof {
        lemma_last_index_of(name, '.');
        if let Some(k) = last_index_of(name, '.') {
            assert(name[k] == chars@[start + k]);
        }
    }
    None
}

/// Whether `path` is `root` or lies below it.
pub fn is_within(path: &str, root: &str) -> (inside: bool)
    ensures
        inside == within(path@, root@),
{
    let p = chars_of(path);
    let r = chars_of(root);
    if r.len() > p.len() {
        return false;
    }
    let mut i: usize = 0;
    while i < r.len()
        invariant
            i <= r@.len() <= p@.len(),
            p@ == path@,
            r@ == root@,
            forall|j: int| 0 <= j < i ==> p@[j] == r@[j],
        decreases r@.len() - i,
    {
        if p[i] != r[i] {
            proof {
                assert(p@.subrange(0, r@.len() as int)[i as int] == p@[i as int]);
            }
            return false;
        }
        i += 1;
    }
    proof {
        assert(p@.subrange(0, r@.len() as int) =~= r@);
    }
    r.len() == 0 || p.len() == r.len() || r[r.len() - 1] == '/' || p[r.len()] == '/'
}

/// `path` without the `root` that it lies under.
pub fn relative_to(path: &str, root: &str) -> (rest: Option<String>)
    ensures
        match rest {
            Some(r) => within(path@, root@) && r@ == below(path@, root@),
            None => !within(path@, root@),
        },
{
    if !is_within(path, root) {
        return None;
    }
    let n = path.unicode_len();
    let from = root.unicode_len();
    let rest = path.substring_char(from, n);
    if from < n && rest.get_char(0) == '/' {
        let tail = rest.substring_char(1, n - from);
        Some(String::from_str(tail))
    } else {
        Some(String::from_str(rest))
    }
}

/// `name` resolved against `base`.
pub fn join(base: &str, name: &str) -> (path: String)
    ensures
        path@ == joined(base@, name@),
{
    proof {
        reveal_strlit("/");
    }
    let base_len = base.unicode_len();
    if name.unicode_len() > 0 && name.get_char(0) == '/' {
        return String::from_str(name);
    }
    let mut path = String::from_str(base);
    if base_len > 0 && base.get_char(base_len - 1) != '/' {
        path.append("/");
        assert("/"@ =~= seq!['/']);
    }
    path.append(name);
    path
}

} // verus!
