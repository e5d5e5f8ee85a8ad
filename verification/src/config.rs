//! Deterministic assembly of configuration fragments: the canonical sort
//! order, the pattern filter, and the concatenation that yields the one
//! output buffer.

use vstd::prelude::*;
use vstd::seq_lib::lemma_multiset_commutative;
use vstd::multiset::Multiset;
use crate::fsext::{FilePattern, bytes_le, lemma_bytes_le_total, lemma_bytes_le_antisymmetric, le_bytes};

verus! {

/// One fragment file of the configuration directory, as plain values: its
/// canonical path, its file name (the path's last component) and its content.
pub struct Fragment {
    /// The canonical path, as raw bytes: the sort key of assembly.
    pub path: Vec<u8>,
    /// The file name, as raw bytes: what the pattern is tested against.
    pub name: Vec<u8>,
    /// The file's content.
    pub data: Vec<u8>,
}

/// The mathematical value of a fragment.
#[verifier::ext_equal]
pub struct FragmentModel {
    /// The canonical path bytes.
    pub path: Seq<u8>,
    /// The file name bytes.
    pub name: Seq<u8>,
    /// The content bytes.
    pub data: Seq<u8>,
}

impl View for Fragment {
    type V = FragmentModel;

    open spec fn view(&self) -> FragmentModel {
        FragmentModel { path: self.path@, name: self.name@, data: self.data@ }
    }
}

/// The mathematical value of a fragment listing.
pub open spec fn frags_view(s: Seq<Fragment>) -> Seq<FragmentModel> {
    s.map_values(|f: Fragment| f@)
}

/// The listing is in ascending canonical-path order.
pub open spec fn sorted_by_path(s: Seq<FragmentModel>) -> bool {
    forall|i: int, j: int|
        0 <= i < j < s.len() ==> bytes_le(#[trigger] s[i].path, #[trigger] s[j].path)
}

/// No two fragments of the listing share a canonical path — true of any
/// snapshot of one directory, where canonical paths identify files.
pub open spec fn distinct_paths(s: Seq<FragmentModel>) -> bool {
    forall|i: int, j: int|
        0 <= i < s.len() && 0 <= j < s.len() && i != j ==> (#[trigger] s[i].path)
            != (#[trigger] s[j].path)
}

/// Inserts a fragment in front of the first element not below it.
pub open spec fn insert_frag(x: FragmentModel, s: Seq<FragmentModel>) -> Seq<FragmentModel>
    decreases s.len(),
{
    if s.len() == 0 {
        seq![x]
    } else if bytes_le(x.path, s[0].path) {
        seq![x] + s
    } else {
        seq![s[0]] + insert_frag(x, s.drop_first())
    }
}

/// The canonical order of a fragment listing: sorted ascending by path.
pub open spec fn sort_frags(s: Seq<FragmentModel>) -> Seq<FragmentModel>
    decreases s.len(),
{
    if s.len() == 0 {
        s
    } else {
        insert_frag(s.last(), sort_frags(s.drop_last()))
    }
}

/// Inserting adds exactly the inserted fragment to the listing's contents.
pub proof fn lemma_insert_frag_multiset(x: FragmentModel, s: Seq<FragmentModel>)
    ensures
        insert_frag(x, s).to_multiset() == s.to_multiset().insert(x),
    decreases s.len(),
{
    broadcast use vstd::seq_lib::group_to_multiset_ensures;

    lemma_empty_to_multiset::<FragmentModel>();
    assert(seq![x] =~= Seq::<FragmentModel>::empty().push(x));
    if s.len() == 0 {
        assert(insert_frag(x, s) =~= seq![x]);
        assert(seq![x].to_multiset() =~= s.to_multiset().insert(x));
    } else if bytes_le(x.path, s[0].path) {
        lemma_multiset_commutative(seq![x], s);
        assert(seq![x].to_multiset() =~= Multiset::<FragmentModel>::empty().insert(x));
        assert((seq![x] + s).to_multiset() =~= s.to_multiset().insert(x));
    } else {
        lemma_insert_frag_multiset(x, s.drop_first());
        lemma_multiset_commutative(seq![s[0]], insert_frag(x, s.drop_first()));
        assert(seq![s[0]] =~= Seq::<FragmentModel>::empty().push(s[0]));
        assert(seq![s[0]].to_multiset() =~= Multiset::<FragmentModel>::empty().insert(s[0]));
        assert(s =~= seq![s[0]] + s.drop_first());
        lemma_multiset_commutative(seq![s[0]], s.drop_first());
        assert((seq![s[0]] + insert_frag(x, s.drop_first())).to_multiset() =~= s.to_multiset().insert(
            x,
        ));
    }
}

/// The empty listing has empty contents.
pub proof fn lemma_empty_to_multiset<A>()
    ensures
        Seq::<A>::empty().to_multiset() == Multiset::<A>::empty(),
{
    broadcast use vstd::seq_lib::group_to_multiset_ensures;
    broadcast use vstd::multiset::group_multiset_axioms;

    assert(Seq::<A>::empty().to_multiset() =~= Multiset::<A>::empty());
}

/// Inserting into a sorted listing keeps it sorted.
pub proof fn lemma_insert_frag_sorted(x: FragmentModel, s: Seq<FragmentModel>)
    requires
        sorted_by_path(s),
    ensures
        sorted_by_path(insert_frag(x, s)),
    decreases s.len(),
{
    if s.len() == 0 {
    } else if bytes_le(x.path, s[0].path) {
        let r = seq![x] + s;
        assert forall|i: int, j: int| 0 <= i < j < r.len() implies bytes_le(
            r[i].path,
            r[j].path,
        ) by {
            if i == 0 {
                if j == 1 {
                } else {
                    lemma_bytes_le_total(x.path, s[0].path);
                    crate::fsext::lemma_bytes_le_transitive(x.path, s[0].path, s[j - 1].path);
                }
            }
        }
    } else {
        assert(sorted_by_path(s.drop_first())) by {
            assert forall|i: int, j: int| 0 <= i < j < s.drop_first().len() implies bytes_le(
                s.drop_first()[i].path,
                s.drop_first()[j].path,
            ) by {
                assert(s.drop_first()[i] == s[i + 1]);
                assert(s.drop_first()[j] == s[j + 1]);
            }
        }
        lemma_insert_frag_sorted(x, s.drop_first());
        lemma_bytes_le_total(x.path, s[0].path);
        let t = insert_frag(x, s.drop_first());
        lemma_insert_frag_in_place(x, s.drop_first());
        let r = seq![s[0]] + t;
        assert forall|i: int, j: int| 0 <= i < j < r.len() implies bytes_le(
            r[i].path,
            r[j].path,
        ) by {
            if i == 0 {
                // r[j] is either x or an element of s.drop_first()
                assert(t[j - 1] == x || s.drop_first().contains(t[j - 1]));
                if t[j - 1] == x {
                } else {
                    let k = choose|k: int|
                        0 <= k < s.drop_first().len() && s.drop_first()[k] == t[j - 1];
                    assert(s[0].path == s[0].path);
                    assert(bytes_le(s[0].path, s[k + 1].path));
                }
            }
        }
    }
}

/// Every element of an insertion result is the inserted fragment or one of
/// the originals.
pub proof fn lemma_insert_frag_in_place(x: FragmentModel, s: Seq<FragmentModel>)
    ensures
        forall|j: int|
            0 <= j < insert_frag(x, s).len() ==> (#[trigger] insert_frag(x, s)[j]) == x
                || s.contains(insert_frag(x, s)[j]),
    decreases s.len(),
{
    if s.len() == 0 {
    } else if bytes_le(x.path, s[0].path) {
        assert forall|j: int| 0 <= j < insert_frag(x, s).len() implies (#[trigger] insert_frag(
            x,
            s,
        )[j]) == x || s.contains(insert_frag(x, s)[j]) by {
            if j > 0 {
                assert(insert_frag(x, s)[j] == s[j - 1]);
            }
        }
    } else {
        lemma_insert_frag_in_place(x, s.drop_first());
        let t = insert_frag(x, s.drop_first());
        assert forall|j: int| 0 <= j < insert_frag(x, s).len() implies (#[trigger] insert_frag(
            x,
            s,
        )[j]) == x || s.contains(insert_frag(x, s)[j]) by {
            if j == 0 {
                assert(insert_frag(x, s)[0] == s[0]);
                assert(s.contains(s[0]));
            } else {
                assert(insert_frag(x, s)[j] == t[j - 1]);
                if t[j - 1] != x {
                    let k = choose|k: int|
                        0 <= k < s.drop_first().len() && s.drop_first()[k] == t[j - 1];
                    assert(s[k + 1] == t[j - 1]);
                    assert(s.contains(s[k + 1]));
                }
            }
        }
    }
}

/// Sorting does not change the listing's contents.
pub proof fn lemma_sort_frags_multiset(s: Seq<FragmentModel>)
    ensures
        sort_frags(s).to_multiset() == s.to_multiset(),
    decreases s.len(),
{
    broadcast use vstd::seq_lib::group_to_multiset_ensures;

    if s.len() == 0 {
    } else {
        lemma_sort_frags_multiset(s.drop_last());
        lemma_insert_frag_multiset(s.last(), sort_frags(s.drop_last()));
        assert(s.drop_last().push(s.last()) =~= s);
        assert(s.drop_last().push(s.last()).to_multiset() =~= s.drop_last().to_multiset().insert(
            s.last(),
        ));
    }
}

/// Path distinctness carries over to any rearrangement of a listing.
pub proof fn lemma_distinct_paths_transfer(s1: Seq<FragmentModel>, s2: Seq<FragmentModel>)
    requires
        s1.to_multiset() == s2.to_multiset(),
        distinct_paths(s1),
    ensures
        distinct_paths(s2),
{
    broadcast use vstd::seq_lib::group_to_multiset_ensures;
    broadcast use vstd::multiset::group_multiset_axioms;

    assert(s1.no_duplicates()) by {
        assert forall|i: int, j: int|
            0 <= i < s1.len() && 0 <= j < s1.len() && i != j implies s1[i] != s1[j] by {
            assert(s1[i].path != s1[j].path);
        }
    }
    s1.lemma_multiset_has_no_duplicates();
    assert forall|i: int, j: int|
        0 <= i < s2.len() && 0 <= j < s2.len() && i != j implies (#[trigger] s2[i].path)
        != (#[trigger] s2[j].path) by {
        if s2[i].path == s2[j].path {
            if s2[i] == s2[j] {
                // the same value would occur twice, yet every count is at most one
                assert(s2.remove(j).to_multiset() =~= s2.to_multiset().remove(s2[j]));
                let s2r = s2.remove(j);
                let ir: int = if i < j {
                    i
                } else {
                    i - 1
                };
                assert(s2r[ir] == s2[i]);
                assert(s2r.contains(s2[i]));
                assert(s2r.to_multiset().count(s2[i]) > 0);
                assert(s2.to_multiset().count(s2[i]) >= 2);
                assert(s1.to_multiset().contains(s2[i]));
                assert(false);
            } else {
                // two different values with one path would both stand in s1
                assert(s2.contains(s2[i]) && s2.contains(s2[j]));
                assert(s1.to_multiset().count(s2[i]) > 0);
                assert(s1.to_multiset().count(s2[j]) > 0);
                assert(s1.contains(s2[i]) && s1.contains(s2[j]));
                let k = choose|k: int| 0 <= k < s1.len() && s1[k] == s2[i];
                let l = choose|l: int| 0 <= l < s1.len() && s1[l] == s2[j];
                assert(k != l);
                assert(s1[k].path != s1[l].path);
                assert(false);
            }
        }
    }
}

/// Two sorted listings of the same fragments, with distinct paths, are the
/// same listing: the canonical order is unique.
pub proof fn lemma_sorted_unique(s1: Seq<FragmentModel>, s2: Seq<FragmentModel>)
    requires
        sorted_by_path(s1),
        sorted_by_path(s2),
        s1.to_multiset() == s2.to_multiset(),
        distinct_paths(s1),
    ensures
        s1 == s2,
    decreases s1.len(),
{
    broadcast use vstd::seq_lib::group_to_multiset_ensures;
    broadcast use vstd::multiset::group_multiset_axioms;

    assert(s1.len() == s1.to_multiset().len());
    assert(s2.len() == s2.to_multiset().len());
    assert(s1.len() == s2.len());
    if s1.len() == 0 {
        assert(s1 =~= s2);
    } else {
        // the heads are equal: each is below the other's head
        assert(s2.contains(s2[0]));
        assert(s1.to_multiset().count(s2[0]) > 0);
        assert(s1.contains(s2[0]));
        let i = choose|i: int| 0 <= i < s1.len() && s1[i] == s2[0];
        assert(s1.contains(s1[0]));
        assert(s2.to_multiset().count(s1[0]) > 0);
        assert(s2.contains(s1[0]));
        let j = choose|j: int| 0 <= j < s2.len() && s2[j] == s1[0];
        lemma_bytes_le_total(s1[0].path, s1[0].path);
        if i != 0 {
            assert(bytes_le(s1[0].path, s1[i].path));
        }
        assert(bytes_le(s1[0].path, s2[0].path));
        if j != 0 {
            assert(bytes_le(s2[0].path, s2[j].path));
        }
        assert(bytes_le(s2[0].path, s1[0].path));
        lemma_bytes_le_antisymmetric(s1[0].path, s2[0].path);
        assert(s1[0].path == s2[0].path);
        if i != 0 {
            assert(s1[i].path != s1[0].path);
            assert(false);
        }
        assert(s1[0] == s2[0]);
        // the tails carry the same contents and stay sorted and distinct
        let t1 = s1.drop_first();
        let t2 = s2.drop_first();
        assert(t1 =~= s1.remove(0));
        assert(t2 =~= s2.remove(0));
        assert(s1.remove(0).to_multiset() =~= s1.to_multiset().remove(s1[0]));
        assert(s2.remove(0).to_multiset() =~= s2.to_multiset().remove(s2[0]));
        assert(t1.to_multiset() == t2.to_multiset());
        assert(sorted_by_path(t1)) by {
            assert forall|p: int, q: int| 0 <= p < q < t1.len() implies bytes_le(
                t1[p].path,
                t1[q].path,
            ) by {
                assert(t1[p] == s1[p + 1] && t1[q] == s1[q + 1]);
            }
        }
        assert(sorted_by_path(t2)) by {
            assert forall|p: int, q: int| 0 <= p < q < t2.len() implies bytes_le(
                t2[p].path,
                t2[q].path,
            ) by {
                assert(t2[p] == s2[p + 1] && t2[q] == s2[q + 1]);
            }
        }
        assert(distinct_paths(t1)) by {
            assert forall|p: int, q: int|
                0 <= p < t1.len() && 0 <= q < t1.len() && p != q implies (#[trigger] t1[p].path)
                != (#[trigger] t1[q].path) by {
                assert(t1[p] == s1[p + 1] && t1[q] == s1[q + 1]);
            }
        }
        lemma_sorted_unique(t1, t2);
        assert(s1 =~= seq![s1[0]] + t1);
        assert(s2 =~= seq![s2[0]] + t2);
    }
}

/// Law: the canonical order of a directory snapshot does not depend on the
/// order in which the directory was listed.
pub proof fn lemma_sort_frags_order_independent(s1: Seq<FragmentModel>, s2: Seq<FragmentModel>)
    requires
        s1.to_multiset() == s2.to_multiset(),
        distinct_paths(s1),
    ensures
        sort_frags(s1) == sort_frags(s2),
{
    lemma_sort_frags_multiset(s1);
    lemma_sort_frags_multiset(s2);
    lemma_sort_frags_sorted(s1);
    lemma_sort_frags_sorted(s2);
    lemma_distinct_paths_transfer(s1, sort_frags(s1));
    lemma_sorted_unique(sort_frags(s1), sort_frags(s2));
}

/// Sorting yields an ascending canonical-path order.
pub proof fn lemma_sort_frags_sorted(s: Seq<FragmentModel>)
    ensures
        sorted_by_path(sort_frags(s)),
    decreases s.len(),
{
    if s.len() == 0 {
    } else {
        lemma_sort_frags_sorted(s.drop_last());
        lemma_insert_frag_sorted(s.last(), sort_frags(s.drop_last()));
    }
}

/// Where the inserted fragment lands: in front of the first element not
/// below it.
pub proof fn lemma_insert_frag_position(x: FragmentModel, s: Seq<FragmentModel>, j: int)
    requires
        0 <= j <= s.len(),
        forall|t: int| 0 <= t < j ==> !bytes_le(x.path, (#[trigger] s[t]).path),
        j < s.len() ==> bytes_le(x.path, s[j].path),
    ensures
        insert_frag(x, s) == s.take(j) + seq![x] + s.skip(j),
    decreases j,
{
    if j == 0 {
        if s.len() == 0 {
            assert(insert_frag(x, s) =~= s.take(0) + seq![x] + s.skip(0));
        } else {
            assert(bytes_le(x.path, s[0].path));
            assert(seq![x] + s =~= s.take(0) + seq![x] + s.skip(0));
        }
    } else {
        assert(!bytes_le(x.path, s[0].path));
        let t = s.drop_first();
        assert(forall|u: int| 0 <= u < j - 1 ==> !bytes_le(x.path, (#[trigger] t[u]).path)) by {
            assert(forall|u: int| 0 <= u < j - 1 ==> t[u] == s[u + 1]);
        }
        assert(j - 1 < t.len() ==> bytes_le(x.path, t[j - 1].path));
        lemma_insert_frag_position(x, t, j - 1);
        assert(seq![s[0]] + (t.take(j - 1) + seq![x] + t.skip(j - 1)) =~= s.take(j) + seq![x]
            + s.skip(j));
    }
}

/// Inserts one fragment into a vector that stands in canonical order.
fn insert_fragment(out: &mut Vec<Fragment>, f: Fragment)
    ensures
        frags_view(final(out)@) == insert_frag(f@, frags_view(old(out)@)),
{
    let ghost s = frags_view(out@);
    let mut j: usize = 0;
    while j < out.len() && !le_bytes(&f.path, &out[j].path)
        invariant
            j <= out@.len(),
            s == frags_view(out@),
            forall|t: int| 0 <= t < j ==> !bytes_le(f@.path, (#[trigger] s[t]).path),
        decreases out@.len() - j,
    {
        j = j + 1;
    }
    proof {
        lemma_insert_frag_position(f@, s, j as int);
    }
    out.insert(j, f);
    proof {
        assert(frags_view(out@) =~= s.take(j as int) + seq![f@] + s.skip(j as int));
    }
}

/// Sorts a fragment listing into ascending canonical-path order.
pub fn sort_fragments(fragments: Vec<Fragment>) -> (r: Vec<Fragment>)
    ensures
        frags_view(r@) == sort_frags(frags_view(fragments@)),
{
    let ghost orig = frags_view(fragments@);
    let mut input = fragments;
    let mut out: Vec<Fragment> = Vec::new();
    proof {
        assert(frags_view(input@) =~= orig.skip(0));
        assert(frags_view(out@) =~= sort_frags(orig.take(0)));
    }
    while input.len() > 0
        invariant
            input@.len() <= orig.len(),
            frags_view(input@) == orig.skip(orig.len() - input@.len()),
            frags_view(out@) == sort_frags(orig.take(orig.len() - input@.len())),
        decreases input@.len(),
    {
        let ghost k = orig.len() - input@.len();
        let ghost pre = input@;
        let f = input.remove(0);
        proof {
            assert(frags_view(pre) == orig.skip(k));
            assert(f@ == frags_view(pre)[0]);
            assert(f@ == orig[k]);
            assert(input@ == pre.remove(0));
            assert(frags_view(input@) =~= frags_view(pre).drop_first());
            assert(frags_view(pre).drop_first() =~= orig.skip(k + 1));
            assert(orig.take(k + 1).drop_last() =~= orig.take(k));
            assert(orig.take(k + 1).last() == orig[k]);
        }
        insert_fragment(&mut out, f);
    }
    proof {
        assert(orig.take(orig.len() as int) =~= orig);
    }
    out
}

/// Folds per-fragment slices over a listing, in listing order.
pub open spec fn concat_parts(
    part: spec_fn(FragmentModel) -> Seq<u8>,
    s: Seq<FragmentModel>,
) -> Seq<u8>
    decreases s.len(),
{
    if s.len() == 0 {
        Seq::empty()
    } else {
        part(s[0]) + concat_parts(part, s.drop_first())
    }
}

/// What one fragment contributes to the assembled configuration: its content
/// if its name matches the pattern, nothing otherwise.
pub open spec fn assembly_part<P: FilePattern>(p: P, f: FragmentModel) -> Seq<u8> {
    if p.spec_matches(f.name) {
        f.data
    } else {
        Seq::empty()
    }
}

/// The concatenation of the matching fragments' contents, in listing order.
pub open spec fn concat_matching<P: FilePattern>(p: P, s: Seq<FragmentModel>) -> Seq<u8> {
    concat_parts(|f: FragmentModel| assembly_part(p, f), s)
}

/// The assembled configuration of a fragment snapshot: the contents of the
/// matching fragments, concatenated in ascending canonical-path order.
pub open spec fn spec_assemble<P: FilePattern>(p: P, s: Seq<FragmentModel>) -> Seq<u8> {
    concat_matching(p, sort_frags(s))
}

/// A fragment that contributes nothing may be inserted anywhere without
/// changing the fold.
pub proof fn lemma_concat_parts_insert_skipped(
    part: spec_fn(FragmentModel) -> Seq<u8>,
    x: FragmentModel,
    t: Seq<FragmentModel>,
)
    requires
        part(x) == Seq::<u8>::empty(),
    ensures
        concat_parts(part, insert_frag(x, t)) == concat_parts(part, t),
    decreases t.len(),
{
    if t.len() == 0 {
        let r = seq![x];
        assert(r[0] == x);
        assert(r.drop_first() =~= Seq::<FragmentModel>::empty());
        assert(concat_parts(part, r) == part(x) + concat_parts(part, r.drop_first()));
        assert(part(x) + concat_parts(part, r.drop_first()) =~= Seq::<u8>::empty());
        assert(concat_parts(part, t) == Seq::<u8>::empty());
    } else if bytes_le(x.path, t[0].path) {
        let r = seq![x] + t;
        assert(r[0] == x);
        assert(r.drop_first() =~= t);
        assert(concat_parts(part, r) == part(x) + concat_parts(part, t));
        assert(part(x) + concat_parts(part, t) =~= concat_parts(part, t));
    } else {
        let r = seq![t[0]] + insert_frag(x, t.drop_first());
        assert(r[0] == t[0]);
        assert(r.drop_first() =~= insert_frag(x, t.drop_first()));
        lemma_concat_parts_insert_skipped(part, x, t.drop_first());
        assert(concat_parts(part, r) == part(t[0]) + concat_parts(part, t.drop_first()));
        assert(concat_parts(part, t) == part(t[0]) + concat_parts(part, t.drop_first()));
    }
}

/// Law: repeated assembly of an unchanged fragment snapshot yields
/// byte-identical output — the result is a function of the snapshot alone.
pub proof fn lemma_assemble_idempotent<P: FilePattern>(
    p: P,
    s1: Seq<FragmentModel>,
    s2: Seq<FragmentModel>,
)
    requires
        s1 == s2,
    ensures
        spec_assemble(p, s1) == spec_assemble(p, s2),
{
}

/// Law: assembled output equals the concatenation in ascending
/// canonical-path order whatever order the directory was listed in — two
/// listings with the same fragments assemble identically.
pub proof fn lemma_assemble_order_independent<P: FilePattern>(
    p: P,
    s1: Seq<FragmentModel>,
    s2: Seq<FragmentModel>,
)
    requires
        s1.to_multiset() == s2.to_multiset(),
        distinct_paths(s1),
    ensures
        spec_assemble(p, s1) == spec_assemble(p, s2),
{
    lemma_sort_frags_order_independent(s1, s2);
}

/// Law: a fragment whose name does not match the pattern never contributes
/// to the assembled output, whatever its content.
pub proof fn lemma_assemble_ignores_nonmatching<P: FilePattern>(
    p: P,
    s: Seq<FragmentModel>,
    x: FragmentModel,
)
    requires
        !p.spec_matches(x.name),
    ensures
        spec_assemble(p, s.push(x)) == spec_assemble(p, s),
{
    assert(s.push(x).drop_last() =~= s);
    assert(s.push(x).last() == x);
    assert(sort_frags(s.push(x)) == insert_frag(x, sort_frags(s)));
    lemma_concat_parts_insert_skipped(|f: FragmentModel| assembly_part(p, f), x, sort_frags(s));
}

/// A config file manager: the fragment directory, the output path and the
/// pattern that selects the fragment files.
pub struct Config<P> {
    /// The directory containing the config file fragments.
    directory: String,
    /// The path to the final config file.
    file: String,
    /// The file pattern for config fragments.
    pattern: P,
}

impl<P: FilePattern> Config<P> {
    /// The fragment directory.
    pub closed spec fn spec_directory(&self) -> Seq<char> {
        self.directory@
    }

    /// The output file path.
    pub closed spec fn spec_file(&self) -> Seq<char> {
        self.file@
    }

    /// The fragment pattern.
    pub closed spec fn spec_pattern(&self) -> P {
        self.pattern
    }

    /// Creates a new config file manager.
    pub fn new(directory: String, file: String, pattern: P) -> (r: Self)
        ensures
            r.spec_directory() == directory@,
            r.spec_file() == file@,
            r.spec_pattern() == pattern,
    {
        Config { directory, file, pattern }
    }

    /// The directory whose snapshot must be handed to `assemble`.
    pub fn directory(&self) -> (r: &String)
        ensures
            r@ == self.spec_directory(),
    {
        &self.directory
    }

    /// The path the assembled output must be atomically written to.
    pub fn file(&self) -> (r: &String)
        ensures
            r@ == self.spec_file(),
    {
        &self.file
    }

    /// The pattern selecting the fragment files.
    pub fn pattern(&self) -> (r: &P)
        ensures
            *r == self.spec_pattern(),
    {
        &self.pattern
    }

    /// Assembles the configuration from a snapshot of the fragment
    /// directory: the matching fragments' contents, concatenated in
    /// ascending canonical-path order. Every call is a full rebuild.
    pub fn assemble(&self, fragments: Vec<Fragment>) -> (out: Vec<u8>)
        ensures
            out@ == spec_assemble(self.spec_pattern(), frags_view(fragments@)),
    {
        let ghost p = self.spec_pattern();
        let sorted = sort_fragments(fragments);
        let ghost whole = frags_view(sorted@);
        let mut rest = sorted;
        let mut out: Vec<u8> = Vec::new();
        proof {
            assert(out@ + concat_matching(p, frags_view(rest@)) =~= concat_matching(p, whole));
        }
        while rest.len() > 0
            invariant
                self.spec_pattern() == p,
                concat_matching(p, whole) == out@ + concat_matching(p, frags_view(rest@)),
            decreases rest@.len(),
        {
            let ghost pre = frags_view(rest@);
            let f = rest.remove(0);
            proof {
                assert(f@ == pre[0]);
                assert(frags_view(rest@) =~= pre.drop_first());
            }
            let ghost out0 = out@;
            let matched = self.pattern.matches(f.name.as_slice());
            if matched {
                let mut d = f.data;
                out.append(&mut d);
            }
            proof {
                assert(out@ =~= out0 + assembly_part(p, pre[0]));
                assert(concat_matching(p, pre) == assembly_part(p, pre[0]) + concat_matching(
                    p,
                    pre.drop_first(),
                ));
                assert(out0 + (assembly_part(p, pre[0]) + concat_matching(p, pre.drop_first()))
                    =~= (out0 + assembly_part(p, pre[0])) + concat_matching(p, pre.drop_first()));
            }
        }
        proof {
            assert(frags_view(rest@) =~= Seq::<FragmentModel>::empty());
            assert(out@ + concat_matching(p, frags_view(rest@)) =~= out@);
        }
        out
    }
}

} // verus!
