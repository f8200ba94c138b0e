//! The canonical ordering of symbol names.
//!
//! A name such as `std::vector::iterator` is split on `::` into
//! components; names are ordered component by component in dictionary
//! order, and when one component list is a prefix of the other the
//! shorter name comes first.

use vstd::prelude::*;
use vstd::string::StrSliceExecFns;
use core::cmp::Ordering;

verus! {

/// Dictionary order on character sequences, by code point.
pub open spec fn seq_cmp(a: Seq<char>, b: Seq<char>) -> Ordering
    decreases a.len(),
{
    if a.len() == 0 && b.len() == 0 {
        Ordering::Equal
    } else if a.len() == 0 {
        Ordering::Less
    } else if b.len() == 0 {
        Ordering::Greater
    } else if a[0] < b[0] {
        Ordering::Less
    } else if b[0] < a[0] {
        Ordering::Greater
    } else {
        seq_cmp(a.drop_first(), b.drop_first())
    }
}

/// The `::`-separated components of a name, built left to right with
/// the component under construction as accumulator.
pub open spec fn parts_acc(s: Seq<char>, cur: Seq<char>) -> Seq<Seq<char>>
    decreases s.len(),
{
    if s.len() == 0 {
        seq![cur]
    } else if s.len() >= 2 && s[0] == ':' && s[1] == ':' {
        seq![cur] + parts_acc(s.skip(2), Seq::empty())
    } else {
        parts_acc(s.drop_first(), cur.push(s[0]))
    }
}

/// The `::`-separated components of a name.
pub open spec fn name_parts(s: Seq<char>) -> Seq<Seq<char>> {
    parts_acc(s, Seq::empty())
}

/// Order on component lists: the first unequal pair decides; a strict
/// prefix sorts first.
pub open spec fn parts_cmp(a: Seq<Seq<char>>, b: Seq<Seq<char>>) -> Ordering
    decreases a.len(),
{
    if a.len() == 0 && b.len() == 0 {
        Ordering::Equal
    } else if a.len() == 0 {
        Ordering::Less
    } else if b.len() == 0 {
        Ordering::Greater
    } else {
        match seq_cmp(a[0], b[0]) {
            Ordering::Equal => parts_cmp(a.drop_first(), b.drop_first()),
            o => o,
        }
    }
}

/// The canonical order on names.
pub open spec fn name_cmp(a: Seq<char>, b: Seq<char>) -> Ordering {
    parts_cmp(name_parts(a), name_parts(b))
}

/// `a` sorts no later than `b`.
pub open spec fn name_le(a: Seq<char>, b: Seq<char>) -> bool {
    name_cmp(a, b) != Ordering::Greater
}

/// The mirror image of a comparison outcome.
pub open spec fn flip_ord(o: Ordering) -> Ordering {
    match o {
        Ordering::Less => Ordering::Greater,
        Ordering::Greater => Ordering::Less,
        Ordering::Equal => Ordering::Equal,
    }
}

/// Swapping the operands mirrors the outcome.
pub proof fn lemma_seq_cmp_flip(a: Seq<char>, b: Seq<char>)
    ensures
        seq_cmp(b, a) == flip_ord(seq_cmp(a, b)),
    decreases a.len(),
{
    if a.len() > 0 && b.len() > 0 && a[0] == b[0] {
        lemma_seq_cmp_flip(a.drop_first(), b.drop_first());
    }
}

/// Two sequences that compare equal are the same sequence.
pub proof fn lemma_seq_cmp_eq(a: Seq<char>, b: Seq<char>)
    ensures
        seq_cmp(a, b) == Ordering::Equal ==> a == b,
    decreases a.len(),
{
    if seq_cmp(a, b) == Ordering::Equal {
        if a.len() == 0 && b.len() == 0 {
            assert(a =~= b);
        } else {
            assert(a.len() > 0 && b.len() > 0);
            assert(!(a[0] < b[0]) && !(b[0] < a[0]));
            assert(a[0] == b[0]);
            lemma_seq_cmp_eq(a.drop_first(), b.drop_first());
            assert(a.drop_first() == b.drop_first());
            assert forall|k: int| 1 <= k < a.len() implies a[k] == b[k] by {
                assert(a.drop_first()[k - 1] == b.drop_first()[k - 1]);
            }
            assert(a =~= b);
        }
    }
}

/// A sequence compares equal to itself.
pub proof fn lemma_seq_cmp_refl(a: Seq<char>)
    ensures
        seq_cmp(a, a) == Ordering::Equal,
    decreases a.len(),
{
    if a.len() > 0 {
        lemma_seq_cmp_refl(a.drop_first());
    }
}

/// Transitivity of the dictionary order, in the shapes the component
/// order needs.
pub proof fn lemma_seq_cmp_trans(a: Seq<char>, b: Seq<char>, c: Seq<char>)
    ensures
        seq_cmp(a, b) == Ordering::Equal && seq_cmp(b, c) == Ordering::Equal ==> seq_cmp(a, c)
            == Ordering::Equal,
        seq_cmp(a, b) != Ordering::Greater && seq_cmp(b, c) != Ordering::Greater ==> seq_cmp(a, c)
            != Ordering::Greater,
        seq_cmp(a, b) == Ordering::Less && seq_cmp(b, c) != Ordering::Greater ==> seq_cmp(a, c)
            == Ordering::Less,
        seq_cmp(a, b) != Ordering::Greater && seq_cmp(b, c) == Ordering::Less ==> seq_cmp(a, c)
            == Ordering::Less,
    decreases a.len(),
{
    if a.len() > 0 && b.len() > 0 && c.len() > 0 && a[0] == b[0] && b[0] == c[0] {
        lemma_seq_cmp_trans(a.drop_first(), b.drop_first(), c.drop_first());
    }
}

/// Swapping the operands mirrors the outcome, component-wise.
pub proof fn lemma_parts_cmp_flip(a: Seq<Seq<char>>, b: Seq<Seq<char>>)
    ensures
        parts_cmp(b, a) == flip_ord(parts_cmp(a, b)),
    decreases a.len(),
{
    if a.len() > 0 && b.len() > 0 {
        lemma_seq_cmp_flip(a[0], b[0]);
        if seq_cmp(a[0], b[0]) == Ordering::Equal {
            lemma_parts_cmp_flip(a.drop_first(), b.drop_first());
        }
    }
}

/// Transitivity of the component order.
pub proof fn lemma_parts_cmp_trans(a: Seq<Seq<char>>, b: Seq<Seq<char>>, c: Seq<Seq<char>>)
    ensures
        parts_cmp(a, b) != Ordering::Greater && parts_cmp(b, c) != Ordering::Greater ==> parts_cmp(
            a,
            c,
        ) != Ordering::Greater,
    decreases a.len(),
{
    if a.len() > 0 && b.len() > 0 && c.len() > 0 {
        lemma_seq_cmp_trans(a[0], b[0], c[0]);
        lemma_seq_cmp_eq(a[0], b[0]);
        lemma_seq_cmp_eq(b[0], c[0]);
        lemma_seq_cmp_refl(a[0]);
        if seq_cmp(a[0], b[0]) == Ordering::Equal && seq_cmp(b[0], c[0]) == Ordering::Equal {
            lemma_parts_cmp_trans(a.drop_first(), b.drop_first(), c.drop_first());
        }
    }
}

/// The name order is total: two names always compare one way or the
/// mirrored way.
pub proof fn lemma_name_le_total(a: Seq<char>, b: Seq<char>)
    ensures
        name_le(a, b) || name_le(b, a),
{
    lemma_parts_cmp_flip(name_parts(a), name_parts(b));
}

/// Two names each no later than the other compare equal.
pub proof fn lemma_name_le_antisymmetric(a: Seq<char>, b: Seq<char>)
    requires
        name_le(a, b),
        name_le(b, a),
    ensures
        name_cmp(a, b) == Ordering::Equal,
{
    lemma_parts_cmp_flip(name_parts(a), name_parts(b));
}

/// The name order is transitive.
pub proof fn lemma_name_le_trans(a: Seq<char>, b: Seq<char>, c: Seq<char>)
    requires
        name_le(a, b),
        name_le(b, c),
    ensures
        name_le(a, c),
{
    lemma_parts_cmp_trans(name_parts(a), name_parts(b), name_parts(c));
}

/// A name compares equal to itself.
pub proof fn lemma_name_cmp_refl(a: Seq<char>)
    ensures
        name_cmp(a, a) == Ordering::Equal,
    decreases name_parts(a).len(),
{
    lemma_parts_cmp_refl(name_parts(a));
}

/// A component list compares equal to itself.
pub proof fn lemma_parts_cmp_refl(a: Seq<Seq<char>>)
    ensures
        parts_cmp(a, a) == Ordering::Equal,
    decreases a.len(),
{
    if a.len() > 0 {
        lemma_seq_cmp_refl(a[0]);
        lemma_parts_cmp_refl(a.drop_first());
    }
}

/// Split a name into its `::`-separated components.
#[verifier::loop_isolation(false)]
pub fn split_name(s: &str) -> (r: Vec<String>)
    ensures
        r@.map_values(|p: String| p@) == name_parts(s@),
{
    let n = s.unicode_len();
    let mut out: Vec<String> = Vec::new();
    let mut i: usize = 0;
    let mut start: usize = 0;
    // done: the components completed so far
    let ghost mut done: Seq<Seq<char>> = Seq::empty();
    proof {
        assert(s@.skip(0) =~= s@);
        assert(s@.subrange(0, 0) =~= Seq::<char>::empty());
        assert(done + name_parts(s@) =~= name_parts(s@));
    }
    while i < n
        invariant
            n == s@.len(),
            start <= i <= n,
            out@.len() == done.len(),
            forall|k: int| 0 <= k < done.len() ==> out@[k]@ == done[k],
            done + parts_acc(s@.skip(i as int), s@.subrange(start as int, i as int)) == name_parts(
                s@,
            ),
        decreases n - i,
    {
        proof {
            assert(s@.skip(i as int)[0] == s@[i as int]);
            assert(s@.skip(i as int).drop_first() =~= s@.skip(i as int + 1));
        }
        let ghost cur = s@.subrange(start as int, i as int);
        let c = s.get_char(i);
        if c == ':' && i + 1 < n && s.get_char(i + 1) == ':' {
            let part = s.substring_char(start, i);
            out.push(part.to_owned());
            proof {
                assert(s@.skip(i as int)[1] == s@[i as int + 1]);
                assert(s@.skip(i as int).skip(2) =~= s@.skip(i as int + 2));
                assert(parts_acc(s@.skip(i as int), cur) =~= seq![cur] + parts_acc(
                    s@.skip(i as int + 2),
                    Seq::empty(),
                ));
                done = done.push(cur);
                assert(done + parts_acc(s@.skip(i as int + 2), Seq::empty()) =~= name_parts(s@));
            }
            i = i + 2;
            start = i;
            proof {
                assert(s@.subrange(start as int, i as int) =~= Seq::<char>::empty());
            }
        } else {
            proof {
                if i + 1 < n {
                    assert(s@.skip(i as int)[1] == s@[i as int + 1]);
                }
                assert(s@.subrange(start as int, (i + 1) as int) =~= cur.push(s@[i as int]));
            }
            i = i + 1;
        }
    }
    let part = s.substring_char(start, n);
    out.push(part.to_owned());
    proof {
        let ghost cur = s@.subrange(start as int, n as int);
        assert(s@.skip(n as int) =~= Seq::<char>::empty());
        assert(parts_acc(Seq::<char>::empty(), cur) =~= seq![cur]);
        done = done.push(cur);
        assert(done =~= name_parts(s@));
        assert(out@.map_values(|p: String| p@) =~= done);
    }
    out
}

/// Dictionary comparison of two strings.
#[verifier::loop_isolation(false)]
pub fn cmp_str(a: &str, b: &str) -> (r: Ordering)
    ensures
        r == seq_cmp(a@, b@),
{
    let alen = a.unicode_len();
    let blen = b.unicode_len();
    let mut i: usize = 0;
    proof {
        assert(a@.skip(0) =~= a@);
        assert(b@.skip(0) =~= b@);
    }
    while i < alen && i < blen
        invariant
            alen == a@.len(),
            blen == b@.len(),
            i <= alen,
            i <= blen,
            seq_cmp(a@, b@) == seq_cmp(a@.skip(i as int), b@.skip(i as int)),
        decreases alen - i,
    {
        let ca = a.get_char(i);
        let cb = b.get_char(i);
        proof {
            assert(a@.skip(i as int)[0] == a@[i as int]);
            assert(b@.skip(i as int)[0] == b@[i as int]);
            assert(a@.skip(i as int).drop_first() =~= a@.skip(i as int + 1));
            assert(b@.skip(i as int).drop_first() =~= b@.skip(i as int + 1));
        }
        if ca < cb {
            return Ordering::Less;
        }
        if cb < ca {
            return Ordering::Greater;
        }
        i = i + 1;
    }
    proof {
        if i == alen {
            assert(a@.skip(i as int) =~= Seq::<char>::empty());
        }
        if i == blen {
            assert(b@.skip(i as int) =~= Seq::<char>::empty());
        }
    }
    if alen == blen {
        Ordering::Equal
    } else if alen < blen {
        proof {
            assert(b@.skip(i as int).len() > 0);
        }
        Ordering::Less
    } else {
        Ordering::Greater
    }
}

/// Compare two symbol names: split each on `::` and order the
/// component lists in dictionary order, the first unequal pair
/// deciding; when one list is a prefix of the other, the shorter
/// name comes first.
#[verifier::loop_isolation(false)]
pub fn compare_cpp_names(a: &str, b: &str) -> (r: Ordering)
    ensures
        r == name_cmp(a@, b@),
{
    let pa = split_name(a);
    let pb = split_name(b);
    let ghost va = pa@.map_values(|p: String| p@);
    let ghost vb = pb@.map_values(|p: String| p@);
    let mut i: usize = 0;
    proof {
        assert(va.skip(0) =~= va);
        assert(vb.skip(0) =~= vb);
    }
    while i < pa.len() && i < pb.len()
        invariant
            pa@.len() == va.len(),
            pb@.len() == vb.len(),
            i <= va.len(),
            i <= vb.len(),
            parts_cmp(va, vb) == parts_cmp(va.skip(i as int), vb.skip(i as int)),
        decreases va.len() - i,
    {
        proof {
            assert(va.skip(i as int)[0] == va[i as int]);
            assert(vb.skip(i as int)[0] == vb[i as int]);
            assert(va[i as int] == pa@[i as int]@);
            assert(vb[i as int] == pb@[i as int]@);
            assert(va.skip(i as int).drop_first() =~= va.skip(i as int + 1));
            assert(vb.skip(i as int).drop_first() =~= vb.skip(i as int + 1));
        }
        match cmp_str(pa[i].as_str(), pb[i].as_str()) {
            Ordering::Equal => {
                i = i + 1;
            },
            o => {
                return o;
            },
        }
    }
    proof {
        if i == pa@.len() {
            assert(va.skip(i as int) =~= Seq::<Seq<char>>::empty());
        }
        if i == pb@.len() {
            assert(vb.skip(i as int) =~= Seq::<Seq<char>>::empty());
        }
    }
    if pa.len() == pb.len() {
        Ordering::Equal
    } else if pa.len() < pb.len() {
        proof {
            assert(vb.skip(i as int).len() > 0);
        }
        Ordering::Less
    } else {
        Ordering::Greater
    }
}

} // verus!
