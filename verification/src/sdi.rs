//! Server-side include comments: a page may name, in a comment line, the
//! path of a fragment that holds the rest of its content. This module
//! finds the path of the fragment of a given kind.

use crate::text::{
    chars_of, copy_range, find_from, has_prefix, is_space, matches_at, occurs, occurs_at, skip_space,
    trim_start,
};
use vstd::prelude::*;
use vstd::string::*;

verus! {

/// What an include comment begins with.
pub open spec fn include_mark() -> Seq<char> {
    "<!-- SDI include"@
}

/// The length of the first line of `s`: the number of characters before
/// its first line feed, or all of them.
pub open spec fn line_len(s: Seq<char>) -> nat
    decreases s.len(),
{
    if s.len() == 0 || s[0] == '\n' {
        0
    } else {
        1 + line_len(s.drop_first())
    }
}

/// The end of the word that holds position `from`: the position of the
/// next blank, or the end of the line.
pub open spec fn word_end(l: Seq<char>, from: int) -> int
    decreases l.len() - from,
{
    if from >= l.len() || l[from] == ' ' {
        from
    } else {
        word_end(l, from + 1)
    }
}

/// Whether a word that begins with a slash starts at position `j`.
pub open spec fn path_starts_at(l: Seq<char>, j: int) -> bool {
    0 <= j < l.len() && l[j] == '/' && (j == 0 || l[j - 1] == ' ')
}

/// The start of the first word at or after `from` that begins with a
/// slash.
pub open spec fn path_start(l: Seq<char>, from: int) -> Option<int>
    decreases l.len() - from,
{
    if from >= l.len() {
        None
    } else if path_starts_at(l, from) {
        Some(from)
    } else {
        path_start(l, from + 1)
    }
}

/// `p` without one comma at its end.
pub open spec fn strip_comma(p: Seq<char>) -> Seq<char> {
    if p.len() > 0 && p.last() == ',' {
        p.drop_last()
    } else {
        p
    }
}

/// The path that a line names: the line, white space at its start
/// aside, must begin with the include mark and contain `kind`; the path
/// is then its first word that begins with a slash, without a comma at
/// its end.
pub open spec fn line_target(line: Seq<char>, kind: Seq<char>) -> Option<Seq<char>> {
    let l = trim_start(line);
    if has_prefix(l, include_mark()) && occurs(l, kind) {
        match path_start(l, 0) {
            Some(j) => Some(strip_comma(l.subrange(j, word_end(l, j)))),
            None => None,
        }
    } else {
        None
    }
}

/// The path named by the last line of `body` that names one, or
/// `found` where none does.
pub open spec fn scan_lines(body: Seq<char>, kind: Seq<char>, found: Option<Seq<char>>) -> Option<
    Seq<char>,
>
    decreases body.len(),
{
    let n = line_len(body);
    let here = line_target(body.take(n as int), kind);
    let next = if here.is_some() {
        here
    } else {
        found
    };
    if n >= body.len() {
        next
    } else {
        scan_lines(body.skip(n as int + 1), kind, next)
    }
}

/// The path of the fragment of kind `kind` that `body` includes: the
/// path named by the last of its lines that names one.
pub open spec fn include_target(body: Seq<char>, kind: Seq<char>) -> Option<Seq<char>> {
    scan_lines(body, kind, None)
}

/// The end of the line that begins at position `from`.
fn find_line_end(s: &Vec<char>, from: usize) -> (e: usize)
    requires
        from <= s@.len(),
    ensures
        from <= e <= s@.len(),
        e == from + line_len(s@.skip(from as int)),
{
    let n = s.len();
    let mut e: usize = from;
    while e < n && s[e] != '\n'
        invariant
            n == s@.len(),
            from <= e <= n,
            e + line_len(s@.skip(e as int)) == from + line_len(s@.skip(from as int)),
        decreases n - e,
    {
        proof {
            assert(s@.skip(e as int).drop_first() =~= s@.skip(e + 1));
        }
        e += 1;
    }
    e
}

/// The end of the word that holds position `from`.
fn find_word_end(l: &Vec<char>, from: usize) -> (e: usize)
    requires
        from <= l@.len(),
    ensures
        from <= e <= l@.len(),
        e == word_end(l@, from as int),
{
    let n = l.len();
    let mut e: usize = from;
    while e < n && l[e] != ' '
        invariant
            n == l@.len(),
            from <= e <= n,
            word_end(l@, e as int) == word_end(l@, from as int),
        decreases n - e,
    {
        e += 1;
    }
    e
}

/// The start of the first word that begins with a slash.
fn find_path_start(l: &Vec<char>) -> (r: Option<usize>)
    ensures
        match r {
            Some(j) => j < l@.len() && path_start(l@, 0) == Some(j as int),
            None => path_start(l@, 0).is_none(),
        },
{
    let n = l.len();
    let mut j: usize = 0;
    while j < n
        invariant
            n == l@.len(),
            j <= n,
            path_start(l@, j as int) == path_start(l@, 0),
        decreases n - j,
    {
        if l[j] == '/' && (j == 0 || l[j - 1] == ' ') {
            return Some(j);
        }
        j += 1;
    }
    None
}

/// The bounds within `l` of the path that the line `l`, which has no
/// white space at its start, names.
fn find_line_target(l: &Vec<char>, kind: &Vec<char>, mark: &Vec<char>) -> (r: Option<
    (usize, usize),
>)
    requires
        mark@ == include_mark(),
        trim_start(l@) == l@,
    ensures
        match r {
            Some((lo, hi)) => lo <= hi <= l@.len() && line_target(l@, kind@) == Some(
                l@.subrange(lo as int, hi as int),
            ),
            None => line_target(l@, kind@).is_none(),
        },
{
    if !matches_at(l, mark, 0) {
        return None;
    }
    match find_from(l, kind, 0) {
        None => {
            assert(!occurs(l@, kind@)) by {
                assert forall|at: int| !occurs_at(l@, kind@, at) by {}
            }
            return None;
        },
        Some(at) => {
            assert(occurs_at(l@, kind@, at as int));
        },
    }
    match find_path_start(l) {
        None => None,
        Some(j) => {
            let e = find_word_end(l, j);
            if e > j && l[e - 1] == ',' {
                proof {
                    assert(l@.subrange(j as int, e as int).drop_last() =~= l@.subrange(
                        j as int,
                        e - 1,
                    ));
                }
                Some((j, e - 1))
            } else {
                Some((j, e))
            }
        },
    }
}

/// The path of the fragment of kind `kind` that `body` includes, if it
/// includes one.
pub fn find_include(body: &str, kind: &str) -> (r: Option<String>)
    ensures
        match r {
            Some(path) => include_target(body@, kind@) == Some(path@),
            None => include_target(body@, kind@).is_none(),
        },
{
    let s = chars_of(body);
    let k = chars_of(kind);
    let mark = chars_of("<!-- SDI include");
    let n = s.len();
    let mut from: usize = 0;
    let mut found: Option<(usize, usize)> = None;
    proof {
        assert(s@.skip(0) =~= s@);
    }
    loop
        invariant
            s@ == body@,
            k@ == kind@,
            mark@ == include_mark(),
            n == s@.len(),
            from <= n,
            match found {
                Some((lo, hi)) => lo <= hi <= n && include_target(body@, kind@) == scan_lines(
                    s@.skip(from as int),
                    kind@,
                    Some(s@.subrange(lo as int, hi as int)),
                ),
                None => include_target(body@, kind@) == scan_lines(
                    s@.skip(from as int),
                    kind@,
                    None,
                ),
            },
        ensures
            match found {
                Some((lo, hi)) => lo <= hi <= n && include_target(body@, kind@) == Some(
                    s@.subrange(lo as int, hi as int),
                ),
                None => include_target(body@, kind@).is_none(),
            },
        decreases n - from,
    {
        let e = find_line_end(&s, from);
        let t = skip_space(&s, from, e);
        let l = copy_range(&s, t, e);
        proof {
            lemma_trim_start_idempotent(s@.subrange(from as int, e as int));
            assert(s@.skip(from as int).take(e - from) =~= s@.subrange(from as int, e as int));
            if e < n {
                assert(s@.skip(from as int).skip(e - from + 1) =~= s@.skip(e + 1));
            }
        }
        match find_line_target(&l, &k, &mark) {
            Some((lo, hi)) => {
                proof {
                    assert(l@.subrange(lo as int, hi as int) =~= s@.subrange(t + lo, t + hi));
                }
                found = Some((t + lo, t + hi));
            },
            None => {},
        }
        if e >= n {
            break;
        }
        from = e + 1;
    }
    match found {
        Some((lo, hi)) => Some(body.substring_char(lo, hi).to_owned()),
        None => None,
    }
}

/// Trimming the start twice is trimming it once.
pub proof fn lemma_trim_start_idempotent(s: Seq<char>)
    ensures
        trim_start(trim_start(s)) == trim_start(s),
    decreases s.len(),
{
    if s.len() > 0 && is_space(s[0]) {
        lemma_trim_start_idempotent(s.drop_first());
    }
}

} // verus!
