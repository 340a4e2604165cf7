//! Character-level string utilities shared by all provider adapters: blank
//! tests, prefix tests, path-segment arithmetic on plain strings, and the
//! encoded-directory-name decoding used by one provider.
//!
//! Paths are modelled as plain strings whose components are separated by `/`
//! or `\`; the final component is the part after the last separator.

use vstd::prelude::*;

verus! {

/// A Unicode white-space character: the set that `str::trim` strips.
pub open spec fn is_space(c: char) -> bool {
    c == ' ' || c == '\t' || c == '\n' || c == '\r' || c == '\u{000B}' || c == '\u{000C}'
        || c == '\u{0085}' || c == '\u{00A0}' || c == '\u{1680}' || (0x2000 <= c as u32
        && c as u32 <= 0x200A) || c == '\u{2028}' || c == '\u{2029}' || c == '\u{202F}'
        || c == '\u{205F}' || c == '\u{3000}'
}

/// A string is blank when every character is white space; such text trims to
/// nothing and is never emitted as message content.
pub open spec fn is_blank(s: Seq<char>) -> bool {
    forall|i: int| 0 <= i < s.len() ==> is_space(s[i])
}

/// Decides `is_space` for one character.
pub fn space_char(c: char) -> (r: bool)
    ensures
        r == is_space(c),
{
    c == ' ' || c == '\t' || c == '\n' || c == '\r' || c == '\u{000B}' || c == '\u{000C}'
        || c == '\u{0085}' || c == '\u{00A0}' || c == '\u{1680}' || (0x2000 <= c as u32
        && c as u32 <= 0x200A) || c == '\u{2028}' || c == '\u{2029}' || c == '\u{202F}'
        || c == '\u{205F}' || c == '\u{3000}'
}

/// Decides whether `s` trims to the empty string.
pub fn str_is_blank(s: &str) -> (r: bool)
    ensures
        r == is_blank(s@),
{
    let n = s.unicode_len();
    let mut i: usize = 0;
    while i < n
        invariant
            i <= n,
            n == s@.len(),
            forall|k: int| 0 <= k < i ==> is_space(s@[k]),
        decreases n - i,
    {
        let c = s.get_char(i);
        if !space_char(c) {
            assert(!is_space(s@[i as int]));
            return false;
        }
        i = i + 1;
    }
    true
}

/// Decides character-for-character equality of two strings.
pub fn str_eq(a: &str, b: &str) -> (r: bool)
    ensures
        r == (a@ == b@),
{
    let na = a.unicode_len();
    let nb = b.unicode_len();
    if na != nb {
        return false;
    }
    let mut i: usize = 0;
    while i < na
        invariant
            i <= na,
            na == a@.len(),
            na == b@.len(),
            forall|k: int| 0 <= k < i ==> a@[k] == b@[k],
        decreases na - i,
    {
        if a.get_char(i) != b.get_char(i) {
            assert(a@[i as int] != b@[i as int]);
            return false;
        }
        i = i + 1;
    }
    assert(a@ =~= b@);
    true
}

/// `p` is a prefix of `s`.
pub open spec fn has_prefix(s: Seq<char>, p: Seq<char>) -> bool {
    p.len() <= s.len() && forall|i: int| 0 <= i < p.len() ==> s[i] == p[i]
}

/// Decides whether `s` starts with `p`.
pub fn str_has_prefix(s: &str, p: &str) -> (r: bool)
    ensures
        r == has_prefix(s@, p@),
{
    let ns = s.unicode_len();
    let np = p.unicode_len();
    if np > ns {
        return false;
    }
    let mut i: usize = 0;
    while i < np
        invariant
            i <= np,
            np <= ns,
            ns == s@.len(),
            np == p@.len(),
            forall|k: int| 0 <= k < i ==> s@[k] == p@[k],
        decreases np - i,
    {
        if s.get_char(i) != p.get_char(i) {
            assert(s@[i as int] != p@[i as int]);
            return false;
        }
        i = i + 1;
    }
    true
}

/// Builds the string holding exactly the given characters.
///
/// Relies on `String`'s `FromIterator<char>` impl: collecting characters
/// yields the string of those characters in order.
#[verifier::external_body]
pub fn chars_to_string(cs: &Vec<char>) -> (r: String)
    ensures
        r@ == cs@,
{
    cs.iter().collect()
}

/// A path-component separator.
pub open spec fn is_sep(c: char) -> bool {
    c == '/' || c == '\\'
}

/// The run of non-separator characters at the end of `s`.
pub open spec fn tail_run(s: Seq<char>) -> Seq<char>
    decreases s.len(),
{
    if s.len() == 0 || is_sep(s.last()) {
        Seq::empty()
    } else {
        tail_run(s.drop_last()).push(s.last())
    }
}

/// The final path component of `s`: the non-empty run after the last
/// separator, if there is one.
pub open spec fn file_name_spec(s: Seq<char>) -> Option<Seq<char>> {
    if tail_run(s).len() == 0 {
        None
    } else {
        Some(tail_run(s))
    }
}

/// The index where the final run of non-separator characters begins.
fn tail_run_start(s: &str) -> (start: usize)
    ensures
        start <= s@.len(),
        tail_run(s@) =~= s@.subrange(start as int, s@.len() as int),
{
    let n = s.unicode_len();
    let mut start: usize = n;
    proof {
        assert(s@.take(n as int) =~= s@);
        assert(tail_run(s@.take(start as int)) + s@.subrange(start as int, s@.len() as int)
            =~= tail_run(s@));
    }
    while start > 0
        invariant
            start <= n,
            n == s@.len(),
            tail_run(s@) =~= tail_run(s@.take(start as int)) + s@.subrange(
                start as int,
                s@.len() as int,
            ),
        decreases start,
    {
        let c = s.get_char(start - 1);
        if c == '/' || c == '\\' {
            proof {
                assert(s@.take(start as int).last() == s@[start - 1]);
                assert(tail_run(s@.take(start as int)) =~= Seq::<char>::empty());
                assert(tail_run(s@) =~= s@.subrange(start as int, s@.len() as int));
            }
            return start;
        }
        proof {
            assert(s@.take(start as int).drop_last() =~= s@.take(start - 1));
            assert(tail_run(s@.take(start as int)) =~= tail_run(s@.take(start - 1)).push(
                s@[start - 1],
            ));
            assert(tail_run(s@.take(start - 1)) + s@.subrange(start - 1, s@.len() as int)
                =~= tail_run(s@.take(start - 1)).push(s@[start - 1]) + s@.subrange(
                start as int,
                s@.len() as int,
            ));
        }
        start = start - 1;
    }
    proof {
        assert(s@.take(0) =~= Seq::<char>::empty());
        assert(tail_run(s@.take(0)) =~= Seq::<char>::empty());
        assert(tail_run(s@) =~= s@.subrange(0, s@.len() as int));
    }
    0
}

/// The final path component of `s`, if any.
pub fn file_name_of(s: &str) -> (r: Option<String>)
    ensures
        match r {
            Some(name) => file_name_spec(s@) == Some(name@),
            None => file_name_spec(s@) is None,
        },
{
    let n = s.unicode_len();
    let start = tail_run_start(s);
    if start == n {
        assert(tail_run(s@).len() == 0);
        None
    } else {
        let name = s.substring_char(start, n);
        Some(name.to_owned())
    }
}

/// `s` with any trailing separators removed.
pub open spec fn drop_seps(s: Seq<char>) -> Seq<char>
    decreases s.len(),
{
    if s.len() > 0 && is_sep(s.last()) {
        drop_seps(s.drop_last())
    } else {
        s
    }
}

/// `s` with its final run of non-separator characters removed.
pub open spec fn drop_tail_run(s: Seq<char>) -> Seq<char> {
    s.take(s.len() - tail_run(s).len())
}

/// The last non-empty path segment of `s`: what is left after trailing
/// separators are stripped and the final component is taken.
pub open spec fn last_segment(s: Seq<char>) -> Option<Seq<char>> {
    file_name_spec(drop_seps(s))
}

/// The name of the directory holding the final path component of `s`.
pub open spec fn parent_name_spec(s: Seq<char>) -> Option<Seq<char>> {
    file_name_spec(drop_seps(drop_tail_run(s)))
}

/// The largest `end <= from` such that `s[..end]` has no trailing separator.
fn strip_sep_end(s: &str, from: usize) -> (end: usize)
    requires
        from <= s@.len(),
    ensures
        end <= from,
        s@.take(end as int) =~= drop_seps(s@.take(from as int)),
{
    let mut end: usize = from;
    while end > 0
        invariant
            end <= from <= s@.len(),
            drop_seps(s@.take(from as int)) =~= drop_seps(s@.take(end as int)),
        decreases end,
    {
        let c = s.get_char(end - 1);
        if !(c == '/' || c == '\\') {
            proof {
                assert(!is_sep(s@.take(end as int).last()));
                assert(drop_seps(s@.take(end as int)) =~= s@.take(end as int));
            }
            return end;
        }
        proof {
            assert(is_sep(s@.take(end as int).last()));
            assert(s@.take(end as int).drop_last() =~= s@.take(end - 1));
        }
        end = end - 1;
    }
    proof {
        assert(s@.take(0) =~= Seq::<char>::empty());
        assert(drop_seps(s@.take(0)) =~= Seq::<char>::empty());
    }
    0
}

/// The last non-empty path segment of `s`, if any: the title-bearing part of
/// a project path.
pub fn last_segment_of(s: &str) -> (r: Option<String>)
    ensures
        match r {
            Some(seg) => last_segment(s@) == Some(seg@),
            None => last_segment(s@) is None,
        },
{
    let n = s.unicode_len();
    proof {
        assert(s@.take(n as int) =~= s@);
    }
    let end = strip_sep_end(s, n);
    let trimmed = s.substring_char(0, end);
    proof {
        assert(trimmed@ =~= drop_seps(s@));
    }
    file_name_of(trimmed)
}

/// The name of the directory holding the final path component of `s`, if any.
pub fn parent_name_of(s: &str) -> (r: Option<String>)
    ensures
        match r {
            Some(seg) => parent_name_spec(s@) == Some(seg@),
            None => parent_name_spec(s@) is None,
        },
{
    let n = s.unicode_len();
    let start = tail_run_start(s);
    proof {
        assert(tail_run(s@).len() == n - start);
        assert(s@.take(start as int) =~= drop_tail_run(s@));
    }
    let end = strip_sep_end(s, start);
    let trimmed = s.substring_char(0, end);
    proof {
        assert(s@.take(end as int) =~= drop_seps(s@.take(start as int)));
        assert(trimmed@ =~= drop_seps(drop_tail_run(s@)));
    }
    file_name_of(trimmed)
}

/// The index of the last `.` in `name`, or `-1` when there is none.
pub open spec fn last_dot(name: Seq<char>) -> int
    decreases name.len(),
{
    if name.len() == 0 {
        -1
    } else if name.last() == '.' {
        name.len() - 1
    } else {
        last_dot(name.drop_last())
    }
}

/// The stem of a file name: the part before the last `.`, or the whole name
/// when there is no `.` past the first character.
pub open spec fn stem_spec(name: Seq<char>) -> Seq<char> {
    if last_dot(name) <= 0 {
        name
    } else {
        name.subrange(0, last_dot(name))
    }
}

/// The extension of a file name: the part after the last `.`, absent when
/// there is no `.` past the first character.
pub open spec fn ext_spec(name: Seq<char>) -> Option<Seq<char>> {
    if last_dot(name) <= 0 {
        None
    } else {
        Some(name.subrange(last_dot(name) + 1, name.len() as int))
    }
}

/// The stem of the final path component of `s`.
pub open spec fn path_stem(s: Seq<char>) -> Option<Seq<char>> {
    match file_name_spec(s) {
        Some(n) => Some(stem_spec(n)),
        None => None,
    }
}

/// The extension of the final path component of `s`.
pub open spec fn path_ext(s: Seq<char>) -> Option<Seq<char>> {
    match file_name_spec(s) {
        Some(n) => ext_spec(n),
        None => None,
    }
}

/// The last `.` of a name lies inside it.
proof fn lemma_last_dot_range(name: Seq<char>)
    ensures
        -1 <= last_dot(name) < name.len(),
    decreases name.len(),
{
    if name.len() == 0 {
    } else if name.last() == '.' {
    } else {
        lemma_last_dot_range(name.drop_last());
    }
}

/// The index of the last `.` in `name`, if any.
fn last_dot_idx(name: &str) -> (r: Option<usize>)
    ensures
        match r {
            Some(j) => last_dot(name@) == j as int,
            None => last_dot(name@) == -1,
        },
{
    let n = name.unicode_len();
    let mut i: usize = n;
    proof {
        assert(name@.take(n as int) =~= name@);
    }
    while i > 0
        invariant
            i <= n,
            n == name@.len(),
            last_dot(name@) == last_dot(name@.take(i as int)),
        decreases i,
    {
        let c = name.get_char(i - 1);
        if c == '.' {
            proof {
                assert(name@.take(i as int).last() == '.');
            }
            return Some(i - 1);
        }
        proof {
            assert(name@.take(i as int).last() != '.');
            assert(name@.take(i as int).drop_last() =~= name@.take(i - 1));
        }
        i = i - 1;
    }
    proof {
        assert(name@.take(0) =~= Seq::<char>::empty());
    }
    None
}

/// The stem of the final path component of `s`, if any.
pub fn file_stem_of(s: &str) -> (r: Option<String>)
    ensures
        match r {
            Some(stem) => path_stem(s@) == Some(stem@),
            None => path_stem(s@) is None,
        },
{
    match file_name_of(s) {
        None => None,
        Some(name) => {
            let nn = name.as_str().unicode_len();
            match last_dot_idx(name.as_str()) {
                Some(j) if j > 0 => {
                    proof {
                        lemma_last_dot_range(name@);
                    }
                    let stem = name.as_str().substring_char(0, j);
                    Some(stem.to_owned())
                },
                _ => {
                    proof {
                        assert(stem_spec(name@) =~= name@);
                    }
                    Some(name)
                },
            }
        },
    }
}

/// Decides whether the final path component of `s` has extension `e`.
pub fn has_extension(s: &str, e: &str) -> (r: bool)
    ensures
        r == (path_ext(s@) == Some(e@)),
{
    match file_name_of(s) {
        None => false,
        Some(name) => {
            let nn = name.as_str().unicode_len();
            match last_dot_idx(name.as_str()) {
                Some(j) if j > 0 => {
                    proof {
                        lemma_last_dot_range(name@);
                    }
                    let ext = name.as_str().substring_char(j + 1, nn);
                    str_eq(ext, e)
                },
                _ => false,
            }
        },
    }
}

} // verus!
