//! Planning the fetch stage.
//!
//! Given the required reference set and the names already cached on
//! disk, the plan lists exactly the references whose page must be
//! fetched: all of them when overwriting is asked for, and only the
//! missing ones otherwise. The caller performs one network call per
//! planned entry and no other, so the plan's length is the number of
//! network calls a fetch run makes.

use vstd::prelude::*;
use vstd::string::StringExecFns;
use crate::errors::html_suffix;
use crate::references::{ref_view, CppReference, RefView, ReferenceSet};
use crate::strutil::str_eq;

verus! {

/// Whether one of the owned strings reads `name`.
pub fn contains_name(names: &Vec<String>, name: &str) -> (r: bool)
    ensures
        r == names@.map_values(|s: String| s@).contains(name@),
{
    let ghost vs = names@.map_values(|s: String| s@);
    let mut i: usize = 0;
    while i < names.len()
        invariant
            vs == names@.map_values(|s: String| s@),
            i <= names@.len(),
            forall|k: int| 0 <= k < i ==> vs[k] != name@,
        decreases names@.len() - i,
    {
        if str_eq(names[i].as_str(), name) {
            assert(vs[i as int] == name@);
            return true;
        }
        i = i + 1;
    }
    proof {
        assert(forall|k: int| 0 <= k < vs.len() ==> vs[k] != name@);
    }
    false
}

/// The references whose page a fetch run downloads.
pub open spec fn plan_spec(rs: Seq<RefView>, cached: Seq<Seq<char>>, overwrite: bool) -> Seq<
    RefView,
>
    decreases rs.len(),
{
    if rs.len() == 0 {
        Seq::empty()
    } else {
        let rest = plan_spec(rs.drop_first(), cached, overwrite);
        if overwrite || !cached.contains(rs[0].name) {
            seq![rs[0]] + rest
        } else {
            rest
        }
    }
}

/// Decide which references to fetch.
///
/// An entry whose page is already cached is skipped — no network
/// call, no side effect — unless overwriting is asked for; every
/// other entry is fetched. The result keeps the set's order.
#[verifier::loop_isolation(false)]
pub fn plan_downloads(refs: &ReferenceSet, cached: &Vec<String>, overwrite: bool) -> (r: Vec<
    CppReference,
>)
    ensures
        r@.map_values(|c: CppReference| ref_view(c)) == plan_spec(
            refs@,
            cached@.map_values(|s: String| s@),
            overwrite,
        ),
{
    let ghost cvs = cached@.map_values(|s: String| s@);
    let mut out: Vec<CppReference> = Vec::new();
    let mut i: usize = 0;
    proof {
        assert(refs@.skip(0) =~= refs@);
        assert(out@.map_values(|c: CppReference| ref_view(c)) =~= Seq::<RefView>::empty());
        lemma_plan_skip(refs@, cvs, overwrite, 0);
    }
    while i < refs.len()
        invariant
            cvs == cached@.map_values(|s: String| s@),
            i <= refs@.len(),
            plan_spec(refs@, cvs, overwrite) == out@.map_values(|c: CppReference| ref_view(c))
                + plan_spec(refs@.skip(i as int), cvs, overwrite),
        decreases refs@.len() - i,
    {
        let ghost seg = refs@.skip(i as int);
        let ghost prevvs = out@.map_values(|c: CppReference| ref_view(c));
        proof {
            assert(seg[0] == refs@[i as int]);
            assert(seg.drop_first() =~= refs@.skip(i as int + 1));
        }
        let item = refs.item_at(i);
        if overwrite || !contains_name(cached, item.name.as_str()) {
            let rec = CppReference {
                name: item.name.clone(),
                url: item.url.clone(),
                file: item.file.clone(),
                line: item.line,
            };
            out.push(rec);
            proof {
                assert(out@.map_values(|c: CppReference| ref_view(c)) =~= prevvs.push(
                    refs@[i as int],
                ));
                assert(prevvs + (seq![refs@[i as int]] + plan_spec(
                    refs@.skip(i as int + 1),
                    cvs,
                    overwrite,
                )) =~= prevvs.push(refs@[i as int]) + plan_spec(
                    refs@.skip(i as int + 1),
                    cvs,
                    overwrite,
                ));
            }
        }
        i = i + 1;
    }
    proof {
        assert(refs@.skip(refs@.len() as int) =~= Seq::<RefView>::empty());
        assert(out@.map_values(|c: CppReference| ref_view(c)) + Seq::<RefView>::empty()
            =~= out@.map_values(|c: CppReference| ref_view(c)));
    }
    out
}

proof fn lemma_plan_skip(rs: Seq<RefView>, cached: Seq<Seq<char>>, overwrite: bool, i: int)
    requires
        0 <= i <= rs.len(),
    ensures
        i == 0 ==> plan_spec(rs, cached, overwrite) == Seq::<RefView>::empty() + plan_spec(
            rs.skip(0),
            cached,
            overwrite,
        ),
{
    assert(rs.skip(0) =~= rs);
    assert(Seq::<RefView>::empty() + plan_spec(rs, cached, overwrite) =~= plan_spec(
        rs,
        cached,
        overwrite,
    ));
}

/// The cache file name of a symbol.
pub fn cache_file_name(name: &str) -> (r: String)
    ensures
        r@ == name@ + html_suffix(),
{
    proof {
        reveal_strlit(".html");
        assert(".html"@ =~= html_suffix());
    }
    let mut out = name.to_owned();
    out.append(".html");
    out
}

/// A fetch run against a cache already holding every required entry,
/// without overwriting, downloads nothing.
pub proof fn lemma_plan_complete_cache(rs: Seq<RefView>, cached: Seq<Seq<char>>)
    requires
        forall|i: int| 0 <= i < rs.len() ==> cached.contains(#[trigger] rs[i].name),
    ensures
        plan_spec(rs, cached, false) =~= Seq::<RefView>::empty(),
    decreases rs.len(),
{
    if rs.len() > 0 {
        assert(forall|i: int|
            0 <= i < rs.drop_first().len() ==> rs.drop_first()[i] == rs[i + 1]);
        lemma_plan_complete_cache(rs.drop_first(), cached);
    }
}

/// A fetch run against a cache holding none of the required entries
/// downloads every one of them, once, in order; so does a run that
/// overwrites.
pub proof fn lemma_plan_empty_cache(rs: Seq<RefView>, cached: Seq<Seq<char>>, overwrite: bool)
    requires
        overwrite || forall|i: int|
            0 <= i < rs.len() ==> !cached.contains(#[trigger] rs[i].name),
    ensures
        plan_spec(rs, cached, overwrite) =~= rs,
    decreases rs.len(),
{
    if rs.len() > 0 {
        assert(forall|i: int|
            0 <= i < rs.drop_first().len() ==> rs.drop_first()[i] == rs[i + 1]);
        lemma_plan_empty_cache(rs.drop_first(), cached, overwrite);
    }
}

} // verus!
