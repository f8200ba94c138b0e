//! Error values carried through the pipeline.
//!
//! Every fatal error names enough context to act on: the file and line
//! of a malformed entry, the symbol and both addresses of a conflict,
//! or the list of cache entries that are still missing.

use vstd::prelude::*;
use vstd::string::StringExecFns;

verus! {

/// Everything that can go wrong during a run.
///
/// The input/output and transport variants carry a plain message; they
/// are raised by the surrounding application, never by this crate's
/// own logic.
#[derive(Debug, PartialEq)]
pub enum AppError {
    /// Filesystem failure, reported by the caller.
    IoError(String),
    /// Network or transport failure, reported by the caller.
    HttpError(String),
    /// A table line holds a reference whose address part is malformed.
    MissingUrl { file: String, line: usize },
    /// A table line holds a reference whose name part is malformed.
    InvalidFileFormat { file: String, line: usize },
    /// Two references share a name but point at different addresses.
    DuplicateConflict { name: String, url1: String, url2: String },
    /// Cached pages that a print run needs are not present.
    MissingRequiredFiles { count: usize, files: String },
    /// A fetched page could not be read as a document.
    HtmlParsingError { file: String, reason: String },
}

/// The cache file suffix, as a character sequence.
pub open spec fn html_suffix() -> Seq<char> {
    seq!['.', 'h', 't', 'm', 'l']
}

/// The separator between listed file names.
pub open spec fn name_sep() -> Seq<char> {
    seq![',', ' ']
}

/// The listing `a.html, b.html, ...` of the given names.
pub open spec fn spec_file_listing(names: Seq<Seq<char>>) -> Seq<char>
    decreases names.len(),
{
    if names.len() == 0 {
        Seq::empty()
    } else if names.len() == 1 {
        names[0] + html_suffix()
    } else {
        names[0] + html_suffix() + name_sep() + spec_file_listing(names.drop_first())
    }
}

impl AppError {
    /// Build the error for absent cache entries, listing each missing
    /// name with its cache file suffix.
    pub fn missing_files(files: &[String]) -> (r: AppError)
        ensures
            r matches AppError::MissingRequiredFiles { count, files: listing }
                && count == files@.len()
                && listing@ == spec_file_listing(files@.map_values(|s: String| s@)),
    {
        let mut listing = String::new();
        let n = files.len();
        let mut i: usize = 0;
        proof {
            reveal_strlit(".html");
            reveal_strlit(", ");
            assert(".html"@ =~= html_suffix());
            assert(", "@ =~= name_sep());
            assert(files@.skip(0) =~= files@);
            assert(Seq::<char>::empty() + spec_file_listing(
                files@.map_values(|s: String| s@),
            ) =~= spec_file_listing(files@.map_values(|s: String| s@)));
        }
        while i < n
            invariant
                n == files@.len(),
                i <= n,
                ".html"@ == html_suffix(),
                ", "@ == name_sep(),
                listing@ + spec_file_listing(files@.skip(i as int).map_values(|s: String| s@))
                    == spec_file_listing(files@.map_values(|s: String| s@)),
            decreases n - i,
        {
            listing.append(files[i].as_str());
            listing.append(".html");
            if i + 1 < n {
                listing.append(", ");
            }
            proof {
                let ghost all = files@.map_values(|s: String| s@);
                assert(files@.skip(i as int).map_values(|s: String| s@) =~= all.skip(i as int));
                assert(files@.skip(i as int + 1).map_values(|s: String| s@) =~= all.skip(
                    i as int + 1,
                ));
                assert(all.skip(i as int)[0] == files@[i as int]@);
                assert(all.skip(i as int).drop_first() =~= all.skip(i as int + 1));
            }
            i = i + 1;
        }
        proof {
            assert(files@.skip(n as int).map_values(|s: String| s@) =~= Seq::<Seq<char>>::empty());
            assert(listing@ + Seq::<char>::empty() =~= listing@);
        }
        AppError::MissingRequiredFiles { count: n, files: listing }
    }
}

} // verus!
