//! Reference extraction and management.
//!
//! Markdown file contents are scanned line by line for reference
//! entries; the raw records are folded into a set keyed by symbol
//! name, and a name carrying two different addresses fails the run at
//! the first conflict found.

use vstd::prelude::*;
use crate::errors::AppError;
use crate::pattern::{line_parse, parse_line, LineOutcome, LineSpec};
use crate::strutil::{split_lines, split_lines_spec, string_eq};

verus! {

/// A reference entry extracted from a Markdown file: the symbol name,
/// the address of its documentation page, and where it was found.
#[derive(Debug, Clone, PartialEq)]
pub struct CppReference {
    /// The name of the documented symbol.
    pub name: String,
    /// The address of the symbol's reference page.
    pub url: String,
    /// The Markdown file where this reference was found.
    pub file: String,
    /// The line number in the Markdown file, starting at one.
    pub line: usize,
}

/// Mathematical image of a reference entry.
pub struct RefView {
    pub name: Seq<char>,
    pub url: Seq<char>,
    pub file: Seq<char>,
    pub line: int,
}

pub open spec fn ref_view(r: CppReference) -> RefView {
    RefView { name: r.name@, url: r.url@, file: r.file@, line: r.line as int }
}

/// One Markdown file, read by the caller: its path and its text.
pub struct MarkdownFile {
    pub path: String,
    pub content: String,
}

pub open spec fn md_view(f: MarkdownFile) -> (Seq<char>, Seq<char>) {
    (f.path@, f.content@)
}

/// What extraction yields: the records in scan order, or the first
/// fault with its location.
pub enum ExtractSpec {
    Records(Seq<RefView>),
    BadFormat { file: Seq<char>, line: int },
    BadUrl { file: Seq<char>, line: int },
}

/// Scan a file's lines from line number `base` on.
pub open spec fn extract_lines(path: Seq<char>, lines: Seq<Seq<char>>, base: int) -> ExtractSpec
    decreases lines.len(),
{
    if lines.len() == 0 {
        ExtractSpec::Records(Seq::empty())
    } else {
        match line_parse(lines[0]) {
            LineSpec::NoRef => extract_lines(path, lines.drop_first(), base + 1),
            LineSpec::Ref { name, url } => match extract_lines(path, lines.drop_first(), base + 1) {
                ExtractSpec::Records(rest) => ExtractSpec::Records(
                    seq![RefView { name, url, file: path, line: base }] + rest,
                ),
                e => e,
            },
            LineSpec::BadFormat => ExtractSpec::BadFormat { file: path, line: base },
            LineSpec::BadUrl => ExtractSpec::BadUrl { file: path, line: base },
        }
    }
}

/// Scan one file.
pub open spec fn extract_file_spec(path: Seq<char>, content: Seq<char>) -> ExtractSpec {
    extract_lines(path, split_lines_spec(content), 1)
}

/// Prepend already-collected records to an outcome.
pub open spec fn prepend_refs(pre: Seq<RefView>, e: ExtractSpec) -> ExtractSpec {
    match e {
        ExtractSpec::Records(rs) => ExtractSpec::Records(pre + rs),
        other => other,
    }
}

/// Scan a list of files; the first fault ends the scan.
pub open spec fn extract_files_spec(files: Seq<(Seq<char>, Seq<char>)>) -> ExtractSpec
    decreases files.len(),
{
    if files.len() == 0 {
        ExtractSpec::Records(Seq::empty())
    } else {
        match extract_file_spec(files[0].0, files[0].1) {
            ExtractSpec::Records(rs) => prepend_refs(rs, extract_files_spec(files.drop_first())),
            e => e,
        }
    }
}

/// Scan one file's text for reference entries.
#[verifier::loop_isolation(false)]
fn extract_file(file: &MarkdownFile) -> (r: Result<Vec<CppReference>, AppError>)
    ensures
        match extract_file_spec(file.path@, file.content@) {
            ExtractSpec::Records(rs) => r matches Ok(v) && v@.map_values(
                |c: CppReference| ref_view(c),
            ) == rs,
            ExtractSpec::BadFormat { file: f, line } => r matches Err(
                AppError::InvalidFileFormat { file: f2, line: l2 },
            ) && f2@ == f && l2 == line,
            ExtractSpec::BadUrl { file: f, line } => r matches Err(
                AppError::MissingUrl { file: f2, line: l2 },
            ) && f2@ == f && l2 == line,
        },
{
    let ghost path = file.path@;
    let lines = split_lines(file.content.as_str());
    let ghost linevs = split_lines_spec(file.content@);
    let mut out: Vec<CppReference> = Vec::new();
    // done: the records collected so far
    let ghost mut done: Seq<RefView> = Seq::empty();
    let mut li: usize = 0;
    proof {
        assert(linevs.skip(0) =~= linevs);
        match extract_lines(path, linevs, 1) {
            ExtractSpec::Records(rs) => {
                assert(done + rs =~= rs);
            },
            _ => {},
        }
    }
    while li < lines.len()
        invariant
            lines@.map_values(|l: String| l@) == linevs,
            linevs == split_lines_spec(file.content@),
            path == file.path@,
            li <= lines@.len(),
            out@.len() == done.len(),
            forall|k: int| 0 <= k < done.len() ==> ref_view(out@[k]) == done[k],
            extract_lines(path, linevs, 1) == prepend_refs(
                done,
                extract_lines(path, linevs.skip(li as int), li as int + 1),
            ),
        decreases lines@.len() - li,
    {
        let ghost lseg = linevs.skip(li as int);
        let ghost tail = extract_lines(path, linevs.skip(li as int + 1), li as int + 2);
        proof {
            assert(lseg[0] == lines@[li as int]@);
            assert(lseg.drop_first() =~= linevs.skip(li as int + 1));
        }
        match parse_line(lines[li].as_str()) {
            LineOutcome::NoRef => {},
            LineOutcome::Ref { name, url } => {
                let ghost rv = RefView { name: name@, url: url@, file: path, line: li as int + 1 };
                let rec = CppReference { name, url, file: file.path.clone(), line: li + 1 };
                out.push(rec);
                proof {
                    let prev = done;
                    done = done.push(rv);
                    match tail {
                        ExtractSpec::Records(rest) => {
                            assert(prev + (seq![rv] + rest) =~= done + rest);
                        },
                        _ => {},
                    }
                }
            },
            LineOutcome::BadFormat => {
                return Err(AppError::InvalidFileFormat { file: file.path.clone(), line: li + 1 });
            },
            LineOutcome::BadUrl => {
                return Err(AppError::MissingUrl { file: file.path.clone(), line: li + 1 });
            },
        }
        li = li + 1;
    }
    proof {
        assert(linevs.skip(lines@.len() as int) =~= Seq::<Seq<char>>::empty());
        assert(extract_lines(path, Seq::<Seq<char>>::empty(), lines@.len() as int + 1)
            == ExtractSpec::Records(Seq::<RefView>::empty()));
        assert(done + Seq::<RefView>::empty() =~= done);
        assert(out@.map_values(|c: CppReference| ref_view(c)) =~= done);
    }
    Ok(out)
}

/// Extract reference entries from Markdown file texts.
///
/// Each file is examined one line at a time; a line holding a
/// well-formed entry contributes one record, a line holding a
/// malformed one fails the whole run with its location, and every
/// other line is skipped.
#[verifier::loop_isolation(false)]
pub fn extract_references(files: &Vec<MarkdownFile>) -> (r: Result<Vec<CppReference>, AppError>)
    ensures
        match extract_files_spec(files@.map_values(|f: MarkdownFile| md_view(f))) {
            ExtractSpec::Records(rs) => r matches Ok(v) && v@.map_values(
                |c: CppReference| ref_view(c),
            ) == rs,
            ExtractSpec::BadFormat { file, line } => r matches Err(
                AppError::InvalidFileFormat { file: f2, line: l2 },
            ) && f2@ == file && l2 == line,
            ExtractSpec::BadUrl { file, line } => r matches Err(
                AppError::MissingUrl { file: f2, line: l2 },
            ) && f2@ == file && l2 == line,
        },
{
    let ghost all = files@.map_values(|f: MarkdownFile| md_view(f));
    let mut out: Vec<CppReference> = Vec::new();
    // done: the records collected so far
    let ghost mut done: Seq<RefView> = Seq::empty();
    let mut fi: usize = 0;
    proof {
        assert(all.skip(0) =~= all);
        match extract_files_spec(all) {
            ExtractSpec::Records(rs) => {
                assert(done + rs =~= rs);
            },
            _ => {},
        }
    }
    while fi < files.len()
        invariant
            all == files@.map_values(|f: MarkdownFile| md_view(f)),
            fi <= files@.len(),
            out@.len() == done.len(),
            forall|k: int| 0 <= k < done.len() ==> ref_view(out@[k]) == done[k],
            extract_files_spec(all) == prepend_refs(done, extract_files_spec(all.skip(fi as int))),
        decreases files@.len() - fi,
    {
        let ghost seg = all.skip(fi as int);
        let ghost tail = extract_files_spec(all.skip(fi as int + 1));
        proof {
            assert(seg[0] == md_view(files@[fi as int]));
            assert(seg.drop_first() =~= all.skip(fi as int + 1));
        }
        let mut found = match extract_file(&files[fi]) {
            Ok(v) => v,
            Err(e) => {
                return Err(e);
            },
        };
        let ghost foundsnap = found@;
        let ghost foundvs = found@.map_values(|c: CppReference| ref_view(c));
        let ghost prev = done;
        out.append(&mut found);
        proof {
            done = done + foundvs;
            assert(out@.map_values(|c: CppReference| ref_view(c)).len() == done.len());
            assert forall|k: int| 0 <= k < done.len() implies ref_view(out@[k]) == done[k] by {
                if k < prev.len() {
                } else {
                    assert(out@[k] == foundsnap[k - prev.len()]);
                    assert(done[k] == foundvs[k - prev.len()]);
                }
            }
            match tail {
                ExtractSpec::Records(rest) => {
                    assert(prev + (foundvs + rest) =~= done + rest);
                },
                _ => {},
            }
        }
        fi = fi + 1;
    }
    proof {
        assert(all.skip(files@.len() as int) =~= Seq::<(Seq<char>, Seq<char>)>::empty());
        assert(done + Seq::<RefView>::empty() =~= done);
        assert(out@.map_values(|c: CppReference| ref_view(c)) =~= done);
    }
    Ok(out)
}

/// What deduplication yields: the first occurrence of each name in
/// arrival order, or the first conflict found.
pub enum DedupSpec {
    Unique(Seq<RefView>),
    Conflict { name: Seq<char>, url1: Seq<char>, url2: Seq<char> },
}

/// The first record in `acc` carrying `name`, if any.
pub open spec fn find_name(acc: Seq<RefView>, name: Seq<char>) -> Option<RefView>
    decreases acc.len(),
{
    if acc.len() == 0 {
        None
    } else if acc[0].name == name {
        Some(acc[0])
    } else {
        find_name(acc.drop_first(), name)
    }
}

/// Fold records into `acc`, left to right.
pub open spec fn dedup_acc(refs: Seq<RefView>, acc: Seq<RefView>) -> DedupSpec
    decreases refs.len(),
{
    if refs.len() == 0 {
        DedupSpec::Unique(acc)
    } else {
        match find_name(acc, refs[0].name) {
            Some(ex) => if ex.url == refs[0].url {
                dedup_acc(refs.drop_first(), acc)
            } else {
                DedupSpec::Conflict { name: refs[0].name, url1: ex.url, url2: refs[0].url }
            },
            None => dedup_acc(refs.drop_first(), acc.push(refs[0])),
        }
    }
}

/// Deduplication of a record sequence.
pub open spec fn dedup_spec(refs: Seq<RefView>) -> DedupSpec {
    dedup_acc(refs, Seq::empty())
}

/// Pairwise-distinct names.
pub open spec fn names_unique(rs: Seq<RefView>) -> bool {
    forall|i: int, j: int| 0 <= i < j < rs.len() ==> rs[i].name != rs[j].name
}

/// The set of unique references, keyed by symbol name.
///
/// Holds the first occurrence of each name, in arrival order; no two
/// entries share a name.
#[derive(Debug)]
pub struct ReferenceSet {
    items: Vec<CppReference>,
}

impl ReferenceSet {
    /// The entries, as mathematical records.
    pub closed spec fn view(&self) -> Seq<RefView> {
        self.items@.map_values(|c: CppReference| ref_view(c))
    }

    /// No two entries share a name.
    pub open spec fn wf(&self) -> bool {
        names_unique(self@)
    }

    /// How many references the set holds.
    pub fn len(&self) -> (r: usize)
        ensures
            r == self@.len(),
    {
        self.items.len()
    }

    /// The entry at a position.
    pub fn item_at(&self, i: usize) -> (r: &CppReference)
        requires
            i < self@.len(),
        ensures
            ref_view(*r) == self@[i as int],
    {
        &self.items[i]
    }
}

/// Fold raw records into a reference set.
///
/// The first occurrence of a name seeds the set; a later occurrence
/// must carry the identical address, else the run fails naming the
/// symbol and both addresses; identical duplicates fold silently.
#[verifier::loop_isolation(false)]
pub fn deduplicate_references(references: Vec<CppReference>) -> (r: Result<ReferenceSet, AppError>)
    ensures
        match dedup_spec(references@.map_values(|c: CppReference| ref_view(c))) {
            DedupSpec::Unique(rs) => r matches Ok(set) && set@ == rs && set.wf(),
            DedupSpec::Conflict { name, url1, url2 } => r matches Err(
                AppError::DuplicateConflict { name: n2, url1: u1, url2: u2 },
            ) && n2@ == name && u1@ == url1 && u2@ == url2,
        },
{
    let ghost all = references@.map_values(|c: CppReference| ref_view(c));
    let mut unique: Vec<CppReference> = Vec::new();
    let mut i: usize = 0;
    proof {
        assert(all.skip(0) =~= all);
        assert(unique@.map_values(|c: CppReference| ref_view(c)) =~= Seq::<RefView>::empty());
    }
    while i < references.len()
        invariant
            all == references@.map_values(|c: CppReference| ref_view(c)),
            i <= references@.len(),
            dedup_spec(all) == dedup_acc(
                all.skip(i as int),
                unique@.map_values(|c: CppReference| ref_view(c)),
            ),
            names_unique(unique@.map_values(|c: CppReference| ref_view(c))),
        decreases references@.len() - i,
    {
        let ghost acc = unique@.map_values(|c: CppReference| ref_view(c));
        let ghost seg = all.skip(i as int);
        proof {
            assert(seg[0] == ref_view(references@[i as int]));
            assert(seg.drop_first() =~= all.skip(i as int + 1));
        }
        let current = &references[i];
        // look for an entry already carrying this name
        let mut j: usize = 0;
        let mut found = false;
        proof {
            assert(acc.skip(0) =~= acc);
        }
        while j < unique.len() && !found
            invariant
                acc == unique@.map_values(|c: CppReference| ref_view(c)),
                j <= unique@.len(),
                !found ==> find_name(acc, current.name@) == find_name(
                    acc.skip(j as int),
                    current.name@,
                ),
                found ==> j < unique@.len() && find_name(acc, current.name@) == Some(
                    acc[j as int],
                ),
            decreases unique@.len() - j + (if found {
                0int
            } else {
                1int
            }),
        {
            proof {
                assert(acc.skip(j as int)[0] == acc[j as int]);
                assert(acc.skip(j as int).drop_first() =~= acc.skip(j as int + 1));
            }
            if string_eq(&unique[j].name, &current.name) {
                found = true;
            } else {
                j = j + 1;
            }
        }
        if found {
            if !string_eq(&unique[j].url, &current.url) {
                return Err(
                    AppError::DuplicateConflict {
                        name: current.name.clone(),
                        url1: unique[j].url.clone(),
                        url2: current.url.clone(),
                    },
                );
            }
        } else {
            proof {
                assert(acc.skip(unique@.len() as int) =~= Seq::<RefView>::empty());
                assert(find_name(acc, current.name@) is None);
            }
            let rec = CppReference {
                name: current.name.clone(),
                url: current.url.clone(),
                file: current.file.clone(),
                line: current.line,
            };
            unique.push(rec);
            proof {
                assert(unique@.map_values(|c: CppReference| ref_view(c)) =~= acc.push(
                    ref_view(references@[i as int]),
                ));
                // a fresh name keeps the names pairwise distinct
                lemma_find_name_absent(acc, ref_view(references@[i as int]));
            }
        }
        i = i + 1;
    }
    proof {
        assert(all.skip(references@.len() as int) =~= Seq::<RefView>::empty());
    }
    Ok(ReferenceSet { items: unique })
}

/// A name that `find_name` misses is not among the records.
pub proof fn lemma_find_name_absent(acc: Seq<RefView>, r: RefView)
    requires
        find_name(acc, r.name) is None,
        names_unique(acc),
    ensures
        names_unique(acc.push(r)),
        forall|k: int| 0 <= k < acc.len() ==> acc[k].name != r.name,
    decreases acc.len(),
{
    if acc.len() > 0 {
        lemma_find_name_absent(acc.drop_first(), r);
        assert(forall|k: int| 1 <= k < acc.len() ==> acc[k] == acc.drop_first()[k - 1]);
        assert(forall|k: int|
            0 <= k < acc.push(r).len() ==> acc.push(r)[k] == (if k < acc.len() {
                acc[k]
            } else {
                r
            }));
    } else {
        assert(forall|k: int|
            0 <= k < acc.push(r).len() ==> acc.push(r)[k] == (if k < acc.len() {
                acc[k]
            } else {
                r
            }));
    }
}

/// Every line matching the pattern yields exactly one record, whose
/// name is the quoted symbol without its back ticks or annotation and
/// whose address is the link target verbatim, tagged with its file
/// and line.
pub proof fn lemma_extract_matching_line(
    path: Seq<char>,
    line: Seq<char>,
    name: Seq<char>,
    url: Seq<char>,
)
    requires
        line_parse(line) == (LineSpec::Ref { name, url }),
    ensures
        extract_lines(path, seq![line], 1) == ExtractSpec::Records(
            seq![RefView { name, url, file: path, line: 1 }],
        ),
{
    let ls = seq![line];
    assert(ls[0] == line);
    assert(ls.drop_first() =~= Seq::<Seq<char>>::empty());
    assert(extract_lines(path, Seq::<Seq<char>>::empty(), 2) == ExtractSpec::Records(
        Seq::<RefView>::empty(),
    ));
    assert(seq![RefView { name, url, file: path, line: 1 }] + Seq::<RefView>::empty()
        =~= seq![RefView { name, url, file: path, line: 1 }]);
}

/// Two records with the same name and the same address, in either
/// order, fold into exactly one entry, without an error.
pub proof fn lemma_dedup_identical_pair(a: RefView, b: RefView)
    requires
        a.name == b.name,
        a.url == b.url,
    ensures
        dedup_spec(seq![a, b]) == DedupSpec::Unique(seq![a]),
{
    let rs = seq![a, b];
    assert(rs[0] == a);
    assert(rs.drop_first() =~= seq![b]);
    assert(find_name(Seq::<RefView>::empty(), a.name) is None);
    assert(Seq::<RefView>::empty().push(a) =~= seq![a]);
    assert(dedup_spec(rs) == dedup_acc(seq![b], seq![a]));
    assert(seq![b][0] == b);
    assert(seq![a][0] == a);
    assert(find_name(seq![a], b.name) == Some(a));
    assert(seq![b].drop_first() =~= Seq::<RefView>::empty());
    assert(dedup_acc(seq![b], seq![a]) == dedup_acc(Seq::<RefView>::empty(), seq![a]));
    assert(dedup_acc(Seq::<RefView>::empty(), seq![a]) == DedupSpec::Unique(seq![a]));
}

/// Two records with the same name and different addresses fail
/// deduplication, reporting that name and both addresses in
/// discovery order.
pub proof fn lemma_dedup_conflicting_pair(a: RefView, b: RefView)
    requires
        a.name == b.name,
        a.url != b.url,
    ensures
        dedup_spec(seq![a, b]) == (DedupSpec::Conflict {
            name: b.name,
            url1: a.url,
            url2: b.url,
        }),
{
    let rs = seq![a, b];
    assert(rs[0] == a);
    assert(rs.drop_first() =~= seq![b]);
    assert(find_name(Seq::<RefView>::empty(), a.name) is None);
    assert(Seq::<RefView>::empty().push(a) =~= seq![a]);
    assert(dedup_spec(rs) == dedup_acc(seq![b], seq![a]));
    assert(seq![b][0] == b);
    assert(seq![a][0] == a);
    assert(find_name(seq![a], b.name) == Some(a));
    assert(dedup_acc(seq![b], seq![a]) == (DedupSpec::Conflict {
        name: b.name,
        url1: a.url,
        url2: b.url,
    }));
}

/// Extract and deduplicate: the full reference-gathering stage on
/// file texts read by the caller.
pub fn get_required_references(files: &Vec<MarkdownFile>) -> (r: Result<ReferenceSet, AppError>)
    ensures
        match extract_files_spec(files@.map_values(|f: MarkdownFile| md_view(f))) {
            ExtractSpec::Records(rs) => match dedup_spec(rs) {
                DedupSpec::Unique(us) => r matches Ok(set) && set@ == us && set.wf(),
                DedupSpec::Conflict { name, url1, url2 } => r matches Err(
                    AppError::DuplicateConflict { name: n2, url1: u1, url2: u2 },
                ) && n2@ == name && u1@ == url1 && u2@ == url2,
            },
            ExtractSpec::BadFormat { file, line } => r matches Err(
                AppError::InvalidFileFormat { file: f2, line: l2 },
            ) && f2@ == file && l2 == line,
            ExtractSpec::BadUrl { file, line } => r matches Err(
                AppError::MissingUrl { file: f2, line: l2 },
            ) && f2@ == file && l2 == line,
        },
{
    let references = match extract_references(files) {
        Ok(v) => v,
        Err(e) => {
            return Err(e);
        },
    };
    deduplicate_references(references)
}

} // verus!
