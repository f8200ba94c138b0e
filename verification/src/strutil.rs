//! Small verified helpers on strings and characters.

use vstd::prelude::*;
use vstd::string::StrSliceExecFns;

verus! {

/// The whitespace characters recognised when a table line is scanned
/// and when a `class` attribute is split into tokens.
pub open spec fn is_space_char(c: char) -> bool {
    c == ' ' || c == '\t' || c == '\n' || c == '\r' || c == '\x0c'
}

/// Whitespace test on one character.
pub fn is_space(c: char) -> (r: bool)
    ensures
        r == is_space_char(c),
{
    c == ' ' || c == '\t' || c == '\n' || c == '\r' || c == '\x0c'
}

/// Character-by-character string equality.
pub fn str_eq(a: &str, b: &str) -> (r: bool)
    ensures
        r == (a@ == b@),
{
    let alen = a.unicode_len();
    let blen = b.unicode_len();
    if alen != blen {
        return false;
    }
    let mut i: usize = 0;
    while i < alen
        invariant
            alen == a@.len(),
            blen == b@.len(),
            alen == blen,
            i <= alen,
            forall|k: int| 0 <= k < i ==> a@[k] == b@[k],
        decreases alen - i,
    {
        if a.get_char(i) != b.get_char(i) {
            return false;
        }
        i = i + 1;
    }
    proof {
        assert(a@ =~= b@);
    }
    true
}

/// String equality on owned strings.
pub fn string_eq(a: &String, b: &String) -> (r: bool)
    ensures
        r == (a@ == b@),
{
    str_eq(a.as_str(), b.as_str())
}

/// Whether `pat` occurs in `s` starting exactly at `i`.
pub open spec fn match_at(s: Seq<char>, pat: Seq<char>, i: int) -> bool {
    0 <= i && i + pat.len() <= s.len() && s.subrange(i, i + pat.len() as int) == pat
}

/// The first position at or after `i` where `pat` occurs in `s`.
pub open spec fn find_from(s: Seq<char>, pat: Seq<char>, i: int) -> Option<int>
    decreases s.len() - i,
{
    if i < 0 || i + pat.len() > s.len() {
        None
    } else if pat.len() == 0 {
        Some(i)
    } else if s.subrange(i, i + pat.len() as int) == pat {
        Some(i)
    } else {
        find_from(s, pat, i + 1)
    }
}

/// The first position at or after `i` holding the character `c`.
pub open spec fn find_char_from(s: Seq<char>, c: char, i: int) -> Option<int>
    decreases s.len() - i,
{
    if i < 0 || i >= s.len() {
        None
    } else if s[i] == c {
        Some(i)
    } else {
        find_char_from(s, c, i + 1)
    }
}

/// The first position at or after `i` holding a non-whitespace
/// character, or the length of `s`.
pub open spec fn skip_spaces(s: Seq<char>, i: int) -> int
    decreases s.len() - i,
{
    if i < 0 || i >= s.len() {
        i
    } else if is_space_char(s[i]) {
        skip_spaces(s, i + 1)
    } else {
        i
    }
}

/// The greatest position at or before `j` holding a non-whitespace
/// character, or `-1`.
pub open spec fn prev_non_space(s: Seq<char>, j: int) -> int
    decreases j + 1,
{
    if j < 0 {
        -1
    } else if j >= s.len() {
        -1
    } else if !is_space_char(s[j]) {
        j
    } else {
        prev_non_space(s, j - 1)
    }
}

/// The greatest position at or before `j` holding `|`, or `-1`.
pub open spec fn prev_pipe(s: Seq<char>, j: int) -> int
    decreases j + 1,
{
    if j < 0 {
        -1
    } else if j >= s.len() {
        -1
    } else if s[j] == '|' {
        j
    } else {
        prev_pipe(s, j - 1)
    }
}

/// A sequence with its trailing whitespace removed.
pub open spec fn trim_end(s: Seq<char>) -> Seq<char>
    decreases s.len(),
{
    if s.len() == 0 {
        s
    } else if is_space_char(s[s.len() - 1]) {
        trim_end(s.drop_last())
    } else {
        s
    }
}

/// Find a character, scanning forward from `from`.
#[verifier::loop_isolation(false)]
pub fn find_char(s: &str, c: char, from: usize) -> (r: Option<usize>)
    requires
        from <= s@.len(),
    ensures
        match r {
            Some(j) => find_char_from(s@, c, from as int) == Some(j as int) && from <= j < s@.len(),
            None => find_char_from(s@, c, from as int) is None,
        },
{
    let n = s.unicode_len();
    let mut i: usize = from;
    while i < n
        invariant
            n == s@.len(),
            from <= i <= n,
            find_char_from(s@, c, from as int) == find_char_from(s@, c, i as int),
        decreases n - i,
    {
        if s.get_char(i) == c {
            return Some(i);
        }
        i = i + 1;
    }
    None
}

/// Find a substring, scanning forward from `from`.
#[verifier::loop_isolation(false)]
pub fn find_sub(s: &str, pat: &str, from: usize) -> (r: Option<usize>)
    requires
        from <= s@.len(),
    ensures
        match r {
            Some(j) => find_from(s@, pat@, from as int) == Some(j as int) && from <= j
                && j + pat@.len() <= s@.len(),
            None => find_from(s@, pat@, from as int) is None,
        },
{
    let n = s.unicode_len();
    let m = pat.unicode_len();
    if m > n || from > n - m {
        return None;
    }
    let mut i: usize = from;
    loop
        invariant
            n == s@.len(),
            m == pat@.len(),
            m <= n,
            from <= i,
            i <= n - m,
            find_from(s@, pat@, from as int) == find_from(s@, pat@, i as int),
        decreases n - m - i,
    {
        let mut k: usize = 0;
        let mut hit = true;
        while k < m
            invariant
                n == s@.len(),
                m == pat@.len(),
                i + m <= n,
                k <= m,
                hit ==> forall|t: int| 0 <= t < k ==> s@[i + t] == pat@[t],
                !hit ==> s@.subrange(i as int, i as int + m as int) != pat@,
                !hit ==> m > 0,
            decreases m - k,
        {
            if s.get_char(i + k) != pat.get_char(k) {
                proof {
                    assert(s@.subrange(i as int, i as int + m as int)[k as int] == s@[i + k]);
                }
                hit = false;
                k = m;
            } else {
                k = k + 1;
            }
        }
        if hit {
            proof {
                if m > 0 {
                    assert(s@.subrange(i as int, i as int + m as int) =~= pat@);
                }
            }
            return Some(i);
        }
        proof {
            assert(m > 0);
            assert(find_from(s@, pat@, i as int) == find_from(s@, pat@, i as int + 1));
        }
        if i == n - m {
            proof {
                assert(find_from(s@, pat@, i as int + 1) is None);
            }
            return None;
        }
        i = i + 1;
    }
}

/// Skip whitespace, scanning forward from `from`.
#[verifier::loop_isolation(false)]
pub fn skip_spaces_at(s: &str, from: usize) -> (r: usize)
    requires
        from <= s@.len(),
    ensures
        r == skip_spaces(s@, from as int),
        from <= r <= s@.len(),
{
    let n = s.unicode_len();
    let mut i: usize = from;
    while i < n
        invariant
            n == s@.len(),
            from <= i <= n,
            skip_spaces(s@, from as int) == skip_spaces(s@, i as int),
        decreases n - i,
    {
        if !is_space(s.get_char(i)) {
            return i;
        }
        i = i + 1;
    }
    i
}

/// The lines of a text, split at line feeds, each line's trailing
/// carriage return stripped when the line ends in one; the final line
/// ending is optional.
pub open spec fn strip_cr(l: Seq<char>) -> Seq<char> {
    if l.len() > 0 && l[l.len() - 1] == '\r' {
        l.drop_last()
    } else {
        l
    }
}

#[via_fn]
proof fn split_lines_spec_dec(s: Seq<char>) {
    lemma_find_char_from_ge(s, '\n', 0);
}

pub open spec fn split_lines_spec(s: Seq<char>) -> Seq<Seq<char>>
    decreases s.len(),
    via split_lines_spec_dec
{
    if s.len() == 0 {
        Seq::empty()
    } else {
        match find_char_from(s, '\n', 0) {
            None => seq![s],
            Some(i) => seq![strip_cr(s.subrange(0, i))] + split_lines_spec(s.skip(i + 1)),
        }
    }
}

pub proof fn lemma_find_char_from_ge(s: Seq<char>, c: char, i: int)
    requires
        0 <= i,
    ensures
        find_char_from(s, c, i) matches Some(j) ==> i <= j < s.len() && s[j] == c,
    decreases s.len() - i,
{
    if i < s.len() && s[i] != c {
        lemma_find_char_from_ge(s, c, i + 1);
    }
}

/// Split a text into lines.
#[verifier::loop_isolation(false)]
pub fn split_lines(s: &str) -> (r: Vec<String>)
    ensures
        r@.map_values(|l: String| l@) == split_lines_spec(s@),
{
    let n = s.unicode_len();
    let mut out: Vec<String> = Vec::new();
    let mut pos: usize = 0;
    // done: the lines completed so far
    let ghost mut done: Seq<Seq<char>> = Seq::empty();
    proof {
        assert(s@.skip(0) =~= s@);
        assert(done + split_lines_spec(s@) =~= split_lines_spec(s@));
    }
    loop
        invariant
            n == s@.len(),
            pos <= n,
            out@.len() == done.len(),
            forall|k: int| 0 <= k < done.len() ==> out@[k]@ == done[k],
            done + split_lines_spec(s@.skip(pos as int)) == split_lines_spec(s@),
        decreases n - pos + 1,
    {
        proof {
            lemma_find_char_shift(s@, '\n', pos as int);
            lemma_find_char_from_ge(s@, '\n', pos as int);
        }
        match find_char(s, '\n', pos) {
            None => {
                if pos < n {
                    let line = s.substring_char(pos, n);
                    out.push(line.to_owned());
                    proof {
                        assert(s@.skip(pos as int).len() > 0);
                        assert(find_char_from(s@.skip(pos as int), '\n', 0) is None);
                        assert(split_lines_spec(s@.skip(pos as int)) =~= seq![s@.skip(pos as int)]);
                        assert(s@.subrange(pos as int, n as int) =~= s@.skip(pos as int));
                        done = done.push(s@.skip(pos as int));
                        assert(done =~= split_lines_spec(s@));
                    }
                } else {
                    proof {
                        assert(s@.skip(pos as int).len() == 0);
                        assert(split_lines_spec(s@.skip(pos as int)) =~= Seq::<Seq<char>>::empty());
                        assert(done =~= split_lines_spec(s@));
                    }
                }
                proof {
                    assert(out@.map_values(|l: String| l@) =~= done);
                }
                return out;
            },
            Some(j) => {
                // the line runs from pos to j, with a trailing
                // carriage return stripped
                let stop: usize = if j > pos && s.get_char(j - 1) == '\r' {
                    j - 1
                } else {
                    j
                };
                let line = s.substring_char(pos, stop);
                out.push(line.to_owned());
                proof {
                    let ghost seg = s@.skip(pos as int);
                    assert(seg.len() > 0);
                    assert(find_char_from(seg, '\n', 0) == Some(j - pos as int));
                    assert(seg.subrange(0, j - pos as int) =~= s@.subrange(pos as int, j as int));
                    assert(strip_cr(s@.subrange(pos as int, j as int)) =~= s@.subrange(
                        pos as int,
                        stop as int,
                    ));
                    assert(seg.skip(j - pos as int + 1) =~= s@.skip(j as int + 1));
                    assert(split_lines_spec(seg) =~= seq![
                        strip_cr(seg.subrange(0, j - pos as int)),
                    ] + split_lines_spec(s@.skip(j as int + 1)));
                    done = done.push(s@.subrange(pos as int, stop as int));
                    assert(done + split_lines_spec(s@.skip(j as int + 1)) =~= split_lines_spec(
                        s@,
                    ));
                }
                pos = j + 1;
            },
        }
    }
}

/// Searching from `i` in `s` is searching from the start of the
/// suffix at `i`.
pub proof fn lemma_find_char_shift(s: Seq<char>, c: char, i: int)
    requires
        0 <= i <= s.len(),
    ensures
        match find_char_from(s, c, i) {
            None => find_char_from(s.skip(i), c, 0) is None,
            Some(j) => find_char_from(s.skip(i), c, 0) == Some(j - i),
        },
{
    lemma_find_char_shift_step(s, c, i, i);
}

proof fn lemma_find_char_shift_step(s: Seq<char>, c: char, base: int, i: int)
    requires
        0 <= base <= i <= s.len(),
    ensures
        match find_char_from(s, c, i) {
            None => find_char_from(s.skip(base), c, i - base) is None,
            Some(j) => find_char_from(s.skip(base), c, i - base) == Some(j - base),
        },
    decreases s.len() - i,
{
    if i < s.len() {
        assert(s.skip(base)[i - base] == s[i]);
        if s[i] != c {
            lemma_find_char_shift_step(s, c, base, i + 1);
        }
    }
}

} // verus!
