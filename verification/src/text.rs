//! Character-level utilities shared by the parser and the generator.
//!
//! Directive lines may hold arbitrary unicode, so everything here works on
//! `char` sequences rather than bytes.

use vstd::prelude::*;

verus! {

/// Replace every non-overlapping, leftmost occurrence of the two-character
/// pattern `[p0, p1]` with `rep`, scanning left to right.
pub open spec fn replace_pair_spec(s: Seq<char>, p0: char, p1: char, rep: Seq<char>) -> Seq<char>
    decreases s.len(),
{
    if s.len() >= 2 && s[0] == p0 && s[1] == p1 {
        rep + replace_pair_spec(s.skip(2), p0, p1, rep)
    } else if s.len() >= 1 {
        seq![s[0]] + replace_pair_spec(s.skip(1), p0, p1, rep)
    } else {
        s
    }
}

/// Replace every occurrence of the character `p` with `rep`.
pub open spec fn replace_char_spec(s: Seq<char>, p: char, rep: Seq<char>) -> Seq<char>
    decreases s.len(),
{
    if s.len() == 0 {
        s
    } else if s[0] == p {
        rep + replace_char_spec(s.skip(1), p, rep)
    } else {
        seq![s[0]] + replace_char_spec(s.skip(1), p, rep)
    }
}

/// `n` space characters.
pub open spec fn spaces_spec(n: nat) -> Seq<char>
    decreases n,
{
    if n == 0 {
        Seq::empty()
    } else {
        spaces_spec((n - 1) as nat).push(' ')
    }
}

/// The characters this library treats as whitespace when trimming a line.
pub open spec fn is_space_char(c: char) -> bool {
    c == ' ' || c == '\t' || c == '\n' || c == '\r' || c == '\x0b' || c == '\x0c'
}

/// The line with its leading whitespace removed.
pub open spec fn trim_start_spec(s: Seq<char>) -> Seq<char>
    decreases s.len(),
{
    if s.len() == 0 {
        s
    } else if is_space_char(s[0]) {
        trim_start_spec(s.skip(1))
    } else {
        s
    }
}

/// The vector of a string's characters.
pub fn chars_of(s: &str) -> (r: Vec<char>)
    ensures
        r@ == s@,
{
    let n = s.unicode_len();
    let mut out: Vec<char> = Vec::new();
    let mut i: usize = 0;
    while i < n
        invariant
            n == s@.len(),
            i <= n,
            out@ == s@.take(i as int),
        decreases n - i,
    {
        out.push(s.get_char(i));
        proof {
            assert(s@.take(i + 1) =~= s@.take(i as int).push(s@[i as int]));
        }
        i = i + 1;
    }
    proof {
        assert(s@.take(n as int) =~= s@);
    }
    out
}

/// Relies on std's `FromIterator<char> for String`: collecting characters
/// builds the string holding exactly those characters in order.
#[verifier::external_body]
pub fn string_from_chars(cs: &Vec<char>) -> (r: String)
    ensures
        r@ == cs@,
{
    cs.iter().collect()
}

/// Character-by-character string equality.
pub fn str_eq(a: &str, b: &str) -> (r: bool)
    ensures
        r <==> a@ == b@,
{
    let na = a.unicode_len();
    let nb = b.unicode_len();
    if na != nb {
        return false;
    }
    let mut i: usize = 0;
    while i < na
        invariant
            na == a@.len(),
            na == b@.len(),
            i <= na,
            forall|j: int| 0 <= j < i ==> a@[j] == b@[j],
        decreases na - i,
    {
        if a.get_char(i) != b.get_char(i) {
            return false;
        }
        i = i + 1;
    }
    proof {
        assert(a@ =~= b@);
    }
    true
}

/// Append every character of `src` to `out`.
pub fn push_all(out: &mut Vec<char>, src: &Vec<char>)
    ensures
        final(out)@ == old(out)@ + src@,
{
    let mut k: usize = 0;
    while k < src.len()
        invariant
            k <= src@.len(),
            out@ == old(out)@ + src@.take(k as int),
        decreases src@.len() - k,
    {
        out.push(src[k]);
        proof {
            assert(src@.take(k + 1) =~= src@.take(k as int).push(src@[k as int]));
        }
        k = k + 1;
    }
    proof {
        assert(src@.take(src@.len() as int) =~= src@);
    }
}

/// Executable form of [`replace_pair_spec`].
pub fn replace_pair(v: &Vec<char>, p0: char, p1: char, rep: &Vec<char>) -> (r: Vec<char>)
    ensures
        r@ == replace_pair_spec(v@, p0, p1, rep@),
{
    let mut out: Vec<char> = Vec::new();
    let mut i: usize = 0;
    proof {
        assert(v@.skip(0) =~= v@);
    }
    while i < v.len()
        invariant
            i <= v@.len(),
            replace_pair_spec(v@, p0, p1, rep@) == out@ + replace_pair_spec(
                v@.skip(i as int),
                p0,
                p1,
                rep@,
            ),
        decreases v@.len() - i,
    {
        if i + 1 < v.len() && v[i] == p0 && v[i + 1] == p1 {
            push_all(&mut out, rep);
            proof {
                assert(v@.skip(i as int).skip(2) =~= v@.skip(i + 2));
            }
            i = i + 2;
        } else {
            out.push(v[i]);
            proof {
                assert(v@.skip(i as int).skip(1) =~= v@.skip(i + 1));
            }
            i = i + 1;
        }
    }
    proof {
        assert(v@.skip(v@.len() as int) =~= Seq::<char>::empty());
    }
    out
}

/// Executable form of [`replace_char_spec`].
pub fn replace_char(v: &Vec<char>, p: char, rep: &Vec<char>) -> (r: Vec<char>)
    ensures
        r@ == replace_char_spec(v@, p, rep@),
{
    let mut out: Vec<char> = Vec::new();
    let mut i: usize = 0;
    proof {
        assert(v@.skip(0) =~= v@);
    }
    while i < v.len()
        invariant
            i <= v@.len(),
            replace_char_spec(v@, p, rep@) == out@ + replace_char_spec(v@.skip(i as int), p, rep@),
        decreases v@.len() - i,
    {
        if v[i] == p {
            push_all(&mut out, rep);
        } else {
            out.push(v[i]);
        }
        proof {
            assert(v@.skip(i as int).skip(1) =~= v@.skip(i + 1));
        }
        i = i + 1;
    }
    proof {
        assert(v@.skip(v@.len() as int) =~= Seq::<char>::empty());
    }
    out
}

/// The line with leading whitespace removed.
pub fn trim_start(s: &str) -> (r: String)
    ensures
        r@ == trim_start_spec(s@),
{
    let cs = chars_of(s);
    let mut i: usize = 0;
    proof {
        assert(s@.skip(0) =~= s@);
    }
    while i < cs.len() && is_space(cs[i])
        invariant
            i <= cs@.len(),
            cs@ == s@,
            trim_start_spec(s@) == trim_start_spec(s@.skip(i as int)),
            forall|j: int| 0 <= j < i ==> is_space_char(s@[j]),
        decreases cs@.len() - i,
    {
        proof {
            assert(s@.skip(i as int).skip(1) =~= s@.skip(i + 1));
        }
        i = i + 1;
    }
    let mut out: Vec<char> = Vec::new();
    let mut k: usize = i;
    while k < cs.len()
        invariant
            i <= k <= cs@.len(),
            cs@ == s@,
            out@ == s@.subrange(i as int, k as int),
        decreases cs@.len() - k,
    {
        out.push(cs[k]);
        proof {
            assert(s@.subrange(i as int, k + 1) =~= s@.subrange(i as int, k as int).push(
                s@[k as int],
            ));
        }
        k = k + 1;
    }
    proof {
        assert(out@ =~= s@.skip(i as int));
    }
    string_from_chars(&out)
}

/// Append a string to a vector, tracked at the level of views.
pub fn push_string(v: &mut Vec<String>, s: String)
    ensures
        final(v).deep_view() == old(v).deep_view().push(s@),
        final(v)@.len() == old(v)@.len() + 1,
{
    let ghost pre = v.deep_view();
    let ghost s0 = s@;
    v.push(s);
    proof {
        assert forall|j: int| 0 <= j < v@.len() implies v.deep_view()[j] == pre.push(s0)[j] by {
            assert(v.deep_view()[j] == v@[j]@);
            if j < pre.len() {
                assert(v@[j] == old(v)@[j]);
                assert(pre[j] == old(v)@[j]@);
            }
        }
        assert(v.deep_view() =~= pre.push(s0));
    }
}

/// Concatenating runs of spaces.
pub proof fn lemma_spaces_add(a: nat, b: nat)
    ensures
        spaces_spec(a) + spaces_spec(b) == spaces_spec(a + b),
    decreases b,
{
    if b == 0 {
        assert(spaces_spec(a) + spaces_spec(0) =~= spaces_spec(a));
    } else {
        lemma_spaces_add(a, (b - 1) as nat);
        assert(spaces_spec(a) + spaces_spec((b - 1) as nat).push(' ') =~= (spaces_spec(a)
            + spaces_spec((b - 1) as nat)).push(' '));
    }
}

/// One indentation step: four spaces.
pub fn indent_unit() -> (r: &'static str)
    ensures
        r@ == spaces_spec(4),
{
    proof {
        reveal_strlit("    ");
        assert(spaces_spec(0) =~= Seq::<char>::empty());
        assert(spaces_spec(1) =~= seq![' ']);
        assert(spaces_spec(2) =~= seq![' ', ' ']);
        assert(spaces_spec(3) =~= seq![' ', ' ', ' ']);
        assert(spaces_spec(4) =~= seq![' ', ' ', ' ', ' ']);
        assert("    "@ =~= seq![' ', ' ', ' ', ' ']);
    }
    "    "
}

/// `needle` occurs in `hay` starting at position `i`.
pub open spec fn contains_at(hay: Seq<char>, i: int, needle: Seq<char>) -> bool {
    0 <= i && i + needle.len() <= hay.len() && hay.subrange(i, i + needle.len()) == needle
}

/// `needle` occurs somewhere in `hay`.
pub open spec fn contains_seq(hay: Seq<char>, needle: Seq<char>) -> bool {
    exists|i: int| contains_at(hay, i, needle)
}

/// Substring search.
pub fn str_contains(hay: &str, needle: &str) -> (r: bool)
    ensures
        r == contains_seq(hay@, needle@),
{
    let hs = chars_of(hay);
    let ns = chars_of(needle);
    let n = hs.len();
    let m = ns.len();
    if m > n {
        proof {
            assert forall|i: int| !contains_at(hay@, i, needle@) by {}
        }
        return false;
    }
    if m == 0 {
        proof {
            assert(hay@.subrange(0, 0) =~= needle@);
            assert(contains_at(hay@, 0, needle@));
        }
        return true;
    }
    let mut i: usize = 0;
    while i <= n - m
        invariant
            m <= n,
            n == hay@.len(),
            m == needle@.len(),
            hs@ == hay@,
            ns@ == needle@,
            i <= n - m + 1,
            1 <= m,
            forall|ii: int| 0 <= ii < i ==> !contains_at(hay@, ii, needle@),
        decreases n + 1 - i,
    {
        let mut j: usize = 0;
        let mut matches = true;
        while j < m && matches
            invariant
                m <= n,
                n == hay@.len(),
                m == needle@.len(),
                hs@ == hay@,
                ns@ == needle@,
                i + m <= n,
                j <= m,
                matches ==> forall|k: int| 0 <= k < j ==> hay@[i + k] == needle@[k],
                !matches ==> !contains_at(hay@, i as int, needle@),
            decreases m - j + (if matches {
                1int
            } else {
                0int
            }),
        {
            if hs[i + j] != ns[j] {
                matches = false;
                proof {
                    assert(hay@[i + j] != needle@[j as int]);
                    if contains_at(hay@, i as int, needle@) {
                        assert(hay@.subrange(i as int, i + m)[j as int] == needle@[j as int]);
                        assert(false);
                    }
                }
            } else {
                j = j + 1;
            }
        }
        if matches {
            proof {
                assert(hay@.subrange(i as int, i + m) =~= needle@);
                assert(contains_at(hay@, i as int, needle@));
            }
            return true;
        }
        i = i + 1;
    }
    proof {
        assert forall|ii: int| !contains_at(hay@, ii, needle@) by {
            if 0 <= ii <= n - m {
                assert(!contains_at(hay@, ii, needle@));
            }
        }
    }
    false
}

/// Whether this library counts `c` as whitespace.
pub fn is_space(c: char) -> (r: bool)
    ensures
        r == is_space_char(c),
{
    c == ' ' || c == '\t' || c == '\n' || c == '\r' || c == '\x0b' || c == '\x0c'
}

} // verus!
