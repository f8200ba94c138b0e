//! The reference-table line pattern.
//!
//! A reference line is a table row holding a back-tick-quoted symbol
//! name that begins with `std::`, optionally followed by a
//! parenthesized annotation, followed by a parenthesized absolute
//! address restricted to the documentation site's `cpp` section. An
//! annotation may also stand after the address. Only the name and the
//! address are kept.
//!
//! A line without the quoted-name opener is skipped. A line that
//! holds the opener but breaks off before the closing bracket is a
//! format fault; one whose bracket is not followed by a well-formed
//! address up to a closing parenthesis and the next cell separator is
//! an address fault. Faults are reported, never skipped: the scan is
//! deliberately strict, because a silently dropped reference would
//! only surface much later as a missing cache entry.

use vstd::prelude::*;
use vstd::string::StrSliceExecFns;
use crate::strutil::{
    find_char,
    find_char_from,
    find_from,
    find_sub,
    is_space,
    match_at,
    prev_non_space,
    prev_pipe,
    skip_spaces,
    skip_spaces_at,
    str_eq,
    trim_end,
};

verus! {

/// The opener of a quoted reference name: `[` and a back tick and the
/// namespace prefix.
pub open spec fn anchor() -> Seq<char> {
    seq!['[', '`', 's', 't', 'd', ':', ':']
}

/// The required start of every reference address.
pub open spec fn url_prefix() -> Seq<char> {
    seq![
        'h',
        't',
        't',
        'p',
        's',
        ':',
        '/',
        '/',
        'e',
        'n',
        '.',
        'c',
        'p',
        'p',
        'r',
        'e',
        'f',
        'e',
        'r',
        'e',
        'n',
        'c',
        'e',
        '.',
        'c',
        'o',
        'm',
        '/',
        'w',
        '/',
        'c',
        'p',
        'p',
        '/',
    ]
}

/// What scanning one line yields.
pub enum LineSpec {
    /// The line holds no reference.
    NoRef,
    /// The line holds one well-formed reference.
    Ref { name: Seq<char>, url: Seq<char> },
    /// The name part is present but malformed.
    BadFormat,
    /// The name part is well-formed but the address part is not.
    BadUrl,
}

/// Whether the opener at `i` stands in a table row: immediately to
/// its left, apart from whitespace, a cell separator, and before that
/// a nonempty cell opened by another separator.
pub open spec fn table_prefix_ok(s: Seq<char>, i: int) -> bool {
    let j = prev_non_space(s, i - 1);
    let k = prev_pipe(s, j - 1);
    j >= 0 && s[j] == '|' && k >= 0 && k <= j - 2
}

/// Scan one line for a reference.
pub open spec fn line_parse(s: Seq<char>) -> LineSpec {
    match find_from(s, anchor(), 0) {
        None => LineSpec::NoRef,
        Some(i) => parse_at(s, i),
    }
}

/// Scan the line from the opener found at `i`.
pub open spec fn parse_at(s: Seq<char>, i: int) -> LineSpec {
    if !table_prefix_ok(s, i) {
        LineSpec::BadFormat
    } else {
        match find_char_from(s, '`', i + 7) {
            None => LineSpec::BadFormat,
            Some(e) => if e == i + 7 {
                LineSpec::BadFormat
            } else {
                parse_after_name(s, trim_end(s.subrange(i + 2, e)), skip_spaces(s, e + 1))
            },
        }
    }
}

/// After the quoted name: an optional parenthesized annotation, then
/// the closing bracket.
pub open spec fn parse_after_name(s: Seq<char>, name: Seq<char>, p: int) -> LineSpec {
    if p < s.len() && s[p] == '(' {
        match find_char_from(s, ')', p + 1) {
            None => LineSpec::BadFormat,
            Some(q) => if q == p + 1 {
                LineSpec::BadFormat
            } else {
                parse_bracket(s, name, q + 1)
            },
        }
    } else {
        parse_bracket(s, name, p)
    }
}

/// The closing bracket of the name part.
pub open spec fn parse_bracket(s: Seq<char>, name: Seq<char>, b: int) -> LineSpec {
    if b < s.len() && s[b] == ']' {
        parse_url(s, name, b + 1)
    } else {
        LineSpec::BadFormat
    }
}

/// The parenthesized address: the fixed prefix, at least one more
/// character, no quote before the closing parenthesis.
pub open spec fn parse_url(s: Seq<char>, name: Seq<char>, o: int) -> LineSpec {
    if !(o < s.len() && s[o] == '(') {
        LineSpec::BadUrl
    } else if !match_at(s, url_prefix(), o + 1) {
        LineSpec::BadUrl
    } else {
        match find_char_from(s, ')', o + 1) {
            None => LineSpec::BadUrl,
            Some(e) => if e < o + 2 + url_prefix().len() {
                LineSpec::BadUrl
            } else {
                let quote_clear = match find_char_from(s, '"', o + 1) {
                    None => true,
                    Some(q) => q >= e,
                };
                if quote_clear {
                    parse_tail(s, name, s.subrange(o + 1, e), e + 1)
                } else {
                    LineSpec::BadUrl
                }
            },
        }
    }
}

/// After the address: an optional parenthesized annotation, then the
/// next cell separator.
pub open spec fn parse_tail(s: Seq<char>, name: Seq<char>, url: Seq<char>, t0: int) -> LineSpec {
    let t = skip_spaces(s, t0);
    if t < s.len() && s[t] == '(' {
        match find_char_from(s, ')', t + 1) {
            None => LineSpec::BadUrl,
            Some(t2) => if t2 == t + 1 {
                LineSpec::BadUrl
            } else {
                let t3 = skip_spaces(s, t2 + 1);
                if t3 < s.len() && s[t3] == '|' {
                    LineSpec::Ref { name, url }
                } else {
                    LineSpec::BadUrl
                }
            },
        }
    } else if t < s.len() && s[t] == '|' {
        LineSpec::Ref { name, url }
    } else {
        LineSpec::BadUrl
    }
}

/// What scanning one line yields, as owned values.
#[derive(Debug, PartialEq)]
pub enum LineOutcome {
    NoRef,
    Ref { name: String, url: String },
    BadFormat,
    BadUrl,
}

/// Scan backwards for the last non-whitespace position before `end`.
#[verifier::loop_isolation(false)]
fn last_non_space(s: &str, end: usize) -> (r: Option<usize>)
    requires
        end <= s@.len(),
    ensures
        match r {
            Some(j) => prev_non_space(s@, end as int - 1) == j as int && j < end,
            None => prev_non_space(s@, end as int - 1) == -1,
        },
{
    let mut k: usize = end;
    while k > 0
        invariant
            end <= s@.len(),
            k <= end,
            prev_non_space(s@, end as int - 1) == prev_non_space(s@, k as int - 1),
        decreases k,
    {
        if !is_space(s.get_char(k - 1)) {
            return Some(k - 1);
        }
        k = k - 1;
    }
    None
}

/// Scan backwards for the last cell separator before `end`.
#[verifier::loop_isolation(false)]
fn last_pipe(s: &str, end: usize) -> (r: Option<usize>)
    requires
        end <= s@.len(),
    ensures
        match r {
            Some(j) => prev_pipe(s@, end as int - 1) == j as int && j < end,
            None => prev_pipe(s@, end as int - 1) == -1,
        },
{
    let mut k: usize = end;
    while k > 0
        invariant
            end <= s@.len(),
            k <= end,
            prev_pipe(s@, end as int - 1) == prev_pipe(s@, k as int - 1),
        decreases k,
    {
        if s.get_char(k - 1) == '|' {
            return Some(k - 1);
        }
        k = k - 1;
    }
    None
}

/// Scan one line for a reference entry.
#[verifier::loop_isolation(false)]
#[verifier::rlimit(80)]
pub fn parse_line(line: &str) -> (r: LineOutcome)
    ensures
        match line_parse(line@) {
            LineSpec::NoRef => r is NoRef,
            LineSpec::Ref { name, url } => r matches LineOutcome::Ref { name: n2, url: u2 }
                && n2@ == name && u2@ == url,
            LineSpec::BadFormat => r is BadFormat,
            LineSpec::BadUrl => r is BadUrl,
        },
{
    proof {
        reveal_strlit("[`std::");
        assert("[`std::"@ =~= anchor());
        reveal_strlit("https://en.cppreference.com/w/cpp/");
        assert("https://en.cppreference.com/w/cpp/"@ =~= url_prefix());
    }
    let n = line.unicode_len();
    let i = match find_sub(line, "[`std::", 0) {
        None => {
            return LineOutcome::NoRef;
        },
        Some(i) => i,
    };
    // the opener must close a table cell
    let j = match last_non_space(line, i) {
        None => {
            return LineOutcome::BadFormat;
        },
        Some(j) => j,
    };
    if line.get_char(j) != '|' {
        return LineOutcome::BadFormat;
    }
    match last_pipe(line, j) {
        None => {
            return LineOutcome::BadFormat;
        },
        Some(k) => {
            if !(k + 2 <= j) {
                return LineOutcome::BadFormat;
            }
        },
    };
    // the quoted name, up to the closing back tick
    let e = match find_char(line, '`', i + 7) {
        None => {
            return LineOutcome::BadFormat;
        },
        Some(e) => e,
    };
    if e == i + 7 {
        return LineOutcome::BadFormat;
    }
    // trim trailing whitespace off the captured name
    let mut et: usize = e;
    while et > i + 2 && is_space(line.get_char(et - 1))
        invariant
            i + 2 <= et <= e,
            e < line@.len(),
            trim_end(line@.subrange(i as int + 2, e as int)) == trim_end(
                line@.subrange(i as int + 2, et as int),
            ),
        decreases et,
    {
        proof {
            assert(line@.subrange(i as int + 2, et as int).drop_last() =~= line@.subrange(
                i as int + 2,
                et as int - 1,
            ));
        }
        et = et - 1;
    }
    proof {
        if et == i + 2 {
            assert(line@.subrange(i as int + 2, et as int).len() == 0);
        }
        assert(trim_end(line@.subrange(i as int + 2, et as int)) == line@.subrange(
            i as int + 2,
            et as int,
        ));
    }
    let name = line.substring_char(i + 2, et).to_owned();
    // optional annotation, then the closing bracket
    let p = skip_spaces_at(line, e + 1);
    let b: usize;
    if p < n && line.get_char(p) == '(' {
        let q = match find_char(line, ')', p + 1) {
            None => {
                return LineOutcome::BadFormat;
            },
            Some(q) => q,
        };
        if q == p + 1 {
            return LineOutcome::BadFormat;
        }
        b = q + 1;
    } else {
        b = p;
    }
    if !(b < n && line.get_char(b) == ']') {
        return LineOutcome::BadFormat;
    }
    // the parenthesized address
    let o = b + 1;
    if !(o < n && line.get_char(o) == '(') {
        return LineOutcome::BadUrl;
    }
    let plen = "https://en.cppreference.com/w/cpp/".unicode_len();
    let prefix_ok = if plen <= n - o - 1 {
        let seg = line.substring_char(o + 1, o + 1 + plen);
        str_eq(seg, "https://en.cppreference.com/w/cpp/")
    } else {
        false
    };
    if !prefix_ok {
        proof {
            assert(!match_at(line@, url_prefix(), o as int + 1));
        }
        return LineOutcome::BadUrl;
    }
    let e2 = match find_char(line, ')', o + 1) {
        None => {
            return LineOutcome::BadUrl;
        },
        Some(e2) => e2,
    };
    if e2 - o - 1 <= plen {
        proof {
            assert(e2 < o + 2 + plen);
        }
        return LineOutcome::BadUrl;
    }
    proof {
        assert(!(e2 < o as int + 2 + plen));
    }
    match find_char(line, '"', o + 1) {
        Some(q) => {
            if q < e2 {
                return LineOutcome::BadUrl;
            }
        },
        None => {},
    }
    let url = line.substring_char(o + 1, e2).to_owned();
    // optional annotation, then the next cell separator
    let t = skip_spaces_at(line, e2 + 1);
    if t < n && line.get_char(t) == '(' {
        let t2 = match find_char(line, ')', t + 1) {
            None => {
                return LineOutcome::BadUrl;
            },
            Some(t2) => t2,
        };
        if t2 == t + 1 {
            return LineOutcome::BadUrl;
        }
        let t3 = skip_spaces_at(line, t2 + 1);
        if t3 < n && line.get_char(t3) == '|' {
            return LineOutcome::Ref { name, url };
        }
        return LineOutcome::BadUrl;
    }
    if t < n && line.get_char(t) == '|' {
        return LineOutcome::Ref { name, url };
    }
    LineOutcome::BadUrl
}

} // verus!
