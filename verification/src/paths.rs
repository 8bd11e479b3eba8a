//! Slash-separated path strings.
//!
//! The patch overlay and the conversion driver only ever take a path apart
//! into directory and file name, swap a file name's extension, and glue a
//! file name onto a directory.  Paths are handled as plain strings with `/`
//! as the separator; a trailing-slash path has no file name, and `.` and
//! `..` are not file names.

use vstd::prelude::*;

use crate::text::{chars_of, str_eq, string_from_chars};

verus! {

/// The segment after the last slash: empty when the path is empty or ends
/// with a slash.
pub open spec fn after_last_slash(s: Seq<char>) -> Seq<char>
    decreases s.len(),
{
    if s.len() == 0 {
        s
    } else if s[s.len() - 1] == '/' {
        Seq::empty()
    } else {
        after_last_slash(s.take(s.len() - 1)).push(s[s.len() - 1])
    }
}

/// The file name of a path: the segment after the last slash, unless that
/// segment is empty, `.` or `..`.
pub open spec fn file_name_spec(s: Seq<char>) -> Option<Seq<char>> {
    let n = after_last_slash(s);
    if n.len() == 0 || n == "."@ || n == ".."@ {
        None
    } else {
        Some(n)
    }
}

/// The greatest index in `[1, i]` holding a dot, or `0` when there is none.
/// Index `0` never counts: a leading dot opens a hidden file, not an
/// extension.
pub open spec fn last_dot_before(name: Seq<char>, i: int) -> int
    decreases i,
{
    if i <= 0 {
        0
    } else if name[i] == '.' {
        i
    } else {
        last_dot_before(name, i - 1)
    }
}

/// The file name with its extension removed, when it has one.
pub open spec fn stem_of(name: Seq<char>) -> Seq<char> {
    let d = last_dot_before(name, name.len() - 1);
    if d >= 1 {
        name.take(d)
    } else {
        name
    }
}

/// The path with its file name's extension replaced by `ext` (appended when
/// the name has none).  A path without a file name is left unchanged.
pub open spec fn with_extension_spec(path: Seq<char>, ext: Seq<char>) -> Seq<char> {
    match file_name_spec(path) {
        None => path,
        Some(name) => path.take(path.len() - name.len()) + stem_of(name) + "."@ + ext,
    }
}

/// `dir` and `name` glued with a single slash between them.
pub open spec fn join_spec(dir: Seq<char>, name: Seq<char>) -> Seq<char> {
    if dir.len() == 0 {
        name
    } else if dir[dir.len() - 1] == '/' {
        dir + name
    } else {
        dir + "/"@ + name
    }
}

/// The suffix after position `k` is exactly the segment after the last
/// slash when `k` sits just past the last slash.
proof fn lemma_after_last_slash_at(s: Seq<char>, k: int)
    requires
        0 <= k <= s.len(),
        k == 0 || s[k - 1] == '/',
        forall|j: int| k <= j < s.len() ==> s[j] != '/',
    ensures
        after_last_slash(s) == s.skip(k),
    decreases s.len(),
{
    if s.len() == 0 {
        assert(s.skip(0) =~= s);
    } else if k == s.len() {
        assert(s.skip(k) =~= Seq::<char>::empty());
    } else {
        let shorter = s.take(s.len() - 1);
        lemma_after_last_slash_at(shorter, k);
        assert(shorter.skip(k).push(s[s.len() - 1]) =~= s.skip(k));
    }
}

/// The segment after the last slash is a suffix of the path.
proof fn lemma_after_last_slash_suffix(s: Seq<char>)
    ensures
        after_last_slash(s).len() <= s.len(),
        after_last_slash(s) == s.skip(s.len() - after_last_slash(s).len()),
    decreases s.len(),
{
    if s.len() == 0 {
        assert(s.skip(0) =~= s);
    } else if s[s.len() - 1] == '/' {
        assert(after_last_slash(s) =~= s.skip(s.len() as int));
    } else {
        let shorter = s.take(s.len() - 1);
        lemma_after_last_slash_suffix(shorter);
        let a = after_last_slash(shorter);
        assert(s.skip(s.len() - (a.len() + 1)) =~= shorter.skip(shorter.len() - a.len()).push(
            s[s.len() - 1],
        ));
    }
}

/// When `[1, i]` holds no dot, [`last_dot_before`] finds none.
proof fn lemma_last_dot_none(name: Seq<char>, i: int)
    requires
        forall|j: int| 1 <= j <= i ==> name[j] != '.',
    ensures
        last_dot_before(name, i) == 0,
    decreases i,
{
    if i > 0 {
        lemma_last_dot_none(name, i - 1);
    }
}

/// When `d` holds the last dot at or before `i`, [`last_dot_before`] finds
/// it.
proof fn lemma_last_dot_at(name: Seq<char>, i: int, d: int)
    requires
        1 <= d <= i,
        name[d] == '.',
        forall|j: int| d < j <= i ==> name[j] != '.',
    ensures
        last_dot_before(name, i) == d,
    decreases i,
{
    if i > d {
        lemma_last_dot_at(name, i - 1, d);
    }
}

/// The file name of a path, when it has one.
pub fn file_name(path: &String) -> (r: Option<String>)
    ensures
        match r {
            Some(n) => file_name_spec(path@) == Some(n@),
            None => file_name_spec(path@) is None,
        },
{
    let cs = chars_of(path.as_str());
    let mut k: usize = cs.len();
    while k > 0 && cs[k - 1] != '/'
        invariant
            k <= cs@.len(),
            cs@ == path@,
            forall|j: int| k <= j < cs@.len() ==> cs@[j] != '/',
        decreases k,
    {
        k = k - 1;
    }
    proof {
        lemma_after_last_slash_at(path@, k as int);
    }
    let mut name: Vec<char> = Vec::new();
    let mut i: usize = k;
    while i < cs.len()
        invariant
            k <= i <= cs@.len(),
            cs@ == path@,
            name@ == path@.subrange(k as int, i as int),
        decreases cs@.len() - i,
    {
        name.push(cs[i]);
        proof {
            assert(path@.subrange(k as int, i + 1) =~= path@.subrange(k as int, i as int).push(
                path@[i as int],
            ));
        }
        i = i + 1;
    }
    proof {
        assert(name@ =~= path@.skip(k as int));
    }
    let n = string_from_chars(&name);
    if n.as_str().unicode_len() == 0 || str_eq(n.as_str(), ".") || str_eq(n.as_str(), "..") {
        None
    } else {
        Some(n)
    }
}

/// The path with its file name's extension replaced by `ext`.
pub fn with_extension(path: &String, ext: &str) -> (r: String)
    ensures
        r@ == with_extension_spec(path@, ext@),
{
    let name = match file_name(path) {
        Some(n) => n,
        None => {
            return path.clone();
        },
    };
    let ncs = chars_of(name.as_str());
    let nlen = ncs.len();
    let mut d: usize = 0;
    let mut j: usize = nlen;
    while j > 1 && d == 0
        invariant
            j <= nlen,
            nlen == name@.len(),
            ncs@ == name@,
            d == 0 ==> forall|jj: int| j <= jj < nlen ==> name@[jj] != '.',
            d > 0 ==> j < nlen && d == j && 1 <= d && name@[d as int] == '.' && forall|jj: int|
                d < jj < nlen ==> name@[jj] != '.',
        decreases j,
    {
        if ncs[j - 1] == '.' && j - 1 >= 1 {
            d = j - 1;
            proof {
                assert(name@[d as int] == '.');
            }
        }
        j = j - 1;
    }
    proof {
        if d == 0 {
            lemma_last_dot_none(name@, name@.len() - 1);
        } else {
            lemma_last_dot_at(name@, name@.len() - 1, d as int);
        }
    }
    proof {
        lemma_after_last_slash_suffix(path@);
    }
    let pcs = chars_of(path.as_str());
    let keep = pcs.len() - nlen;
    let stem_end = keep + (if d == 0 {
        nlen
    } else {
        d
    });
    let mut out: Vec<char> = Vec::new();
    let mut i: usize = 0;
    while i < stem_end
        invariant
            i <= stem_end,
            stem_end <= pcs@.len(),
            pcs@ == path@,
            out@ == path@.take(i as int),
        decreases stem_end - i,
    {
        out.push(pcs[i]);
        proof {
            assert(path@.take(i + 1) =~= path@.take(i as int).push(path@[i as int]));
        }
        i = i + 1;
    }
    let mut r = string_from_chars(&out);
    r.append(".");
    r.append(ext);
    proof {
        let n0 = after_last_slash(path@);
        assert(n0 == name@);
        assert(n0 == path@.skip(path@.len() - n0.len()));
        assert(keep == path@.len() - n0.len());
        if d == 0 {
            assert(stem_of(n0) == n0);
            assert(path@.take(stem_end as int) =~= path@.take(keep as int) + n0);
        } else {
            assert(stem_of(n0) == n0.take(d as int));
            assert(n0.take(d as int) =~= path@.subrange(keep as int, keep + d));
            assert(path@.take(stem_end as int) =~= path@.take(keep as int) + path@.subrange(
                keep as int,
                keep + d,
            ));
        }
        assert(r@ =~= with_extension_spec(path@, ext@));
    }
    r
}

/// `dir` and `name` glued with a single slash between them.
pub fn join(dir: &String, name: &str) -> (r: String)
    ensures
        r@ == join_spec(dir@, name@),
{
    let dlen = dir.as_str().unicode_len();
    if dlen == 0 {
        let mut r = String::new();
        r.append(name);
        proof {
            assert(r@ =~= name@);
        }
        return r;
    }
    let mut r = dir.clone();
    if dir.as_str().get_char(dlen - 1) != '/' {
        r.append("/");
    }
    r.append(name);
    r
}

/// Where the generated definition for `source` is written: the source's
/// file name with the target extension, inside the output directory.
pub fn output_location(source: &String, output_dir: &String) -> (r: Option<String>)
    ensures
        match r {
            Some(p) => match file_name_spec(with_extension_spec(source@, "nu"@)) {
                Some(n) => p@ == join_spec(output_dir@, n),
                None => false,
            },
            None => file_name_spec(with_extension_spec(source@, "nu"@)) is None,
        },
{
    let w = with_extension(source, "nu");
    match file_name(&w) {
        Some(n) => Some(join(output_dir, n.as_str())),
        None => None,
    }
}

} // verus!
