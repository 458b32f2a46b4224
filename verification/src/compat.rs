//! Mode compatibility: pure functions computing the common mode set between
//! two heads and picking the best (highest-resolution, highest-rate) mode of
//! a set. Used by mirroring and by the mode listing.

use crate::model::{HeadInfo, HeadMode};
use vstd::prelude::*;
use vstd::multiset::Multiset;
use vstd::seq_lib::group_filter_ensures;

verus! {

/// Some mode of `others` shares width and height with `m`.
pub open spec fn has_partner(m: HeadMode, others: Seq<HeadMode>) -> bool {
    exists|j: int| 0 <= j < others.len() && m.spec_same_dimensions(#[trigger] others[j])
}

/// The modes of `a` that are mutually compatible with `b`: exactly those with
/// a same-resolution partner in `b`, in their original order.
pub open spec fn common_of(a: Seq<HeadMode>, b: Seq<HeadMode>) -> Seq<HeadMode> {
    a.filter(|m: HeadMode| has_partner(m, b))
}

fn has_partner_exec(m: &HeadMode, others: &Vec<HeadMode>) -> (r: bool)
    ensures
        r == has_partner(*m, others@),
{
    let n = others.len();
    let mut k: usize = 0;
    while k < n
        invariant
            n == others@.len(),
            0 <= k <= n,
            forall|j: int| 0 <= j < k ==> !m.spec_same_dimensions(#[trigger] others@[j]),
        decreases n - k,
    {
        if m.has_same_dimensions(&others[k]) {
            return true;
        }
        k += 1;
    }
    false
}

fn modes_with_partner(a: &Vec<HeadMode>, b: &Vec<HeadMode>) -> (r: Vec<HeadMode>)
    ensures
        r@ == common_of(a@, b@),
{
    let ghost pred = |m: HeadMode| has_partner(m, b@);
    let mut r: Vec<HeadMode> = Vec::new();
    let n = a.len();
    let mut k: usize = 0;
    while k < n
        invariant
            pred == (|m: HeadMode| has_partner(m, b@)),
            n == a@.len(),
            0 <= k <= n,
            r@ == a@.take(k as int).filter(pred),
        decreases n - k,
    {
        let m = a[k];
        proof {
            assert(a@.take(k as int + 1) =~= a@.take(k as int).push(a@[k as int]));
            a@.take(k as int).lemma_filter_push(a@[k as int], pred);
            assert(pred(a@[k as int]) == has_partner(m, b@));
        }
        if has_partner_exec(&m, b) {
            r.push(m);
        }
        k += 1;
    }
    proof {
        assert(a@.take(n as int) =~= a@);
    }
    r
}

/// The common mode set between two heads, per side.
///
/// A mode of `head_info` is in the first set exactly when some mode of
/// `other_info` has the same width and height — refresh rate plays no part in
/// the compatibility test — and symmetrically for the second set.
pub fn get_common_modes(head_info: &HeadInfo, other_info: &HeadInfo) -> (r: (
    Vec<HeadMode>,
    Vec<HeadMode>,
))
    ensures
        r.0@ == common_of(head_info@.modes, other_info@.modes),
        r.1@ == common_of(other_info@.modes, head_info@.modes),
{
    let first = modes_with_partner(&head_info.modes, &other_info.modes);
    let second = modes_with_partner(&other_info.modes, &head_info.modes);
    (first, second)
}

/// The common mode sets are symmetric in structure: a mode appears on one
/// side exactly when the other head's full mode set advertises at least one
/// mode of the same width and height, and vice versa.
pub proof fn lemma_common_modes_symmetric(a: Seq<HeadMode>, b: Seq<HeadMode>)
    ensures
        forall|i: int|
            0 <= i < common_of(a, b).len() ==> has_partner(#[trigger] common_of(a, b)[i], b),
        forall|i: int|
            0 <= i < common_of(b, a).len() ==> has_partner(#[trigger] common_of(b, a)[i], a),
        forall|i: int|
            0 <= i < a.len() && has_partner(#[trigger] a[i], b) ==> common_of(a, b).contains(a[i]),
        forall|i: int|
            0 <= i < b.len() && has_partner(#[trigger] b[i], a) ==> common_of(b, a).contains(b[i]),
{
    broadcast use group_filter_ensures;

}

/// Strict sort order for modes: height first, then width, then rate, all
/// descending.
pub open spec fn mode_outranks(a: HeadMode, b: HeadMode) -> bool {
    ||| a.height > b.height
    ||| (a.height == b.height && a.width > b.width)
    ||| (a.height == b.height && a.width == b.width && a.rate > b.rate)
}

fn mode_outranks_exec(a: &HeadMode, b: &HeadMode) -> (r: bool)
    ensures
        r == mode_outranks(*a, *b),
{
    if a.height != b.height {
        a.height > b.height
    } else if a.width != b.width {
        a.width > b.width
    } else {
        a.rate > b.rate
    }
}

/// The first maximal element under [`mode_outranks`]: nothing outranks it,
/// and it strictly outranks everything before it. Such an index is unique.
pub open spec fn is_first_best(v: Seq<HeadMode>, i: int) -> bool {
    &&& 0 <= i < v.len()
    &&& forall|q: int| 0 <= q < v.len() ==> !mode_outranks(#[trigger] v[q], v[i])
    &&& forall|q: int| 0 <= q < i ==> mode_outranks(v[i], #[trigger] v[q])
}

pub open spec fn first_best_idx(v: Seq<HeadMode>) -> int {
    choose|i: int| is_first_best(v, i)
}

pub proof fn lemma_first_best(v: Seq<HeadMode>, i: int)
    requires
        is_first_best(v, i),
    ensures
        first_best_idx(v) == i,
{
    let j = first_best_idx(v);
    assert(is_first_best(v, j));
    if j < i {
        assert(mode_outranks(v[i], v[j]));
        assert(!mode_outranks(v[i], v[j]));
    } else if j > i {
        assert(mode_outranks(v[j], v[i]));
        assert(!mode_outranks(v[j], v[i]));
    }
}

/// Index of the first maximal mode of `v` under [`mode_outranks`].
fn best_index(v: &Vec<HeadMode>) -> (r: usize)
    requires
        v@.len() > 0,
    ensures
        r < v@.len(),
        is_first_best(v@, r as int),
{
    let n = v.len();
    let mut best: usize = 0;
    let mut k: usize = 1;
    while k < n
        invariant
            n == v@.len(),
            0 <= best < k <= n,
            forall|q: int| 0 <= q < k ==> !mode_outranks(#[trigger] v@[q], v@[best as int]),
            forall|q: int| 0 <= q < best ==> mode_outranks(v@[best as int], #[trigger] v@[q]),
        decreases n - k,
    {
        if mode_outranks_exec(&v[k], &v[best]) {
            best = k;
        }
        k += 1;
    }
    best
}

/// Pick the best mode of each set independently: the two sides are optimized
/// separately, not for a matched pair. An empty set is a precondition
/// violation (no common resolution exists) that callers must rule out.
pub fn get_best_display_modes(modes1: Vec<HeadMode>, modes2: Vec<HeadMode>) -> (r: (
    HeadMode,
    HeadMode,
))
    requires
        modes1@.len() > 0,
        modes2@.len() > 0,
    ensures
        modes1@.contains(r.0),
        modes2@.contains(r.1),
        forall|q: int| 0 <= q < modes1@.len() ==> !mode_outranks(#[trigger] modes1@[q], r.0),
        forall|q: int| 0 <= q < modes2@.len() ==> !mode_outranks(#[trigger] modes2@[q], r.1),
        r.0 == modes1@[first_best_idx(modes1@)],
        r.1 == modes2@[first_best_idx(modes2@)],
{
    let i = best_index(&modes1);
    let j = best_index(&modes2);
    proof {
        lemma_first_best(modes1@, i as int);
        lemma_first_best(modes2@, j as int);
    }
    (modes1[i], modes2[j])
}

proof fn lemma_empty_seq_to_multiset(s: Seq<HeadMode>)
    requires
        s.len() == 0,
    ensures
        s.to_multiset() =~= Multiset::<HeadMode>::empty(),
{
    broadcast use vstd::multiset::group_multiset_axioms;

    s.to_multiset_ensures();
    assert forall|x: HeadMode|
        s.to_multiset().count(x) == Multiset::<HeadMode>::empty().count(x) by {
        if s.to_multiset().count(x) > 0 {
            assert(s.contains(x));
        }
    }
}

/// No later element outranks an earlier one.
pub open spec fn sorted_desc(s: Seq<HeadMode>) -> bool {
    forall|i: int, j: int| 0 <= i < j < s.len() ==> !mode_outranks(#[trigger] s[j], #[trigger] s[i])
}

/// The head's modes ordered best-first (height, width, rate descending), as
/// the mode listing prints them.
pub fn sorted_modes(head: &HeadInfo) -> (r: Vec<HeadMode>)
    ensures
        r@.to_multiset() == head@.modes.to_multiset(),
        r@.len() == head@.modes.len(),
        sorted_desc(r@),
{
    broadcast use Seq::to_multiset_ensures;
    broadcast use vstd::multiset::group_multiset_axioms;
    broadcast use vstd::multiset::group_multiset_properties;

    let mut work = crate::model::clone_modes(&head.modes);
    let mut out: Vec<HeadMode> = Vec::new();
    proof {
        assert(work@ == head@.modes);
        lemma_empty_seq_to_multiset(out@);
        assert forall|x: HeadMode|
            out@.to_multiset().add(work@.to_multiset()).count(x) == head@.modes.to_multiset().count(
                x,
            ) by {}
        assert(out@.to_multiset().add(work@.to_multiset()) =~= head@.modes.to_multiset());
    }
    while work.len() > 0
        invariant
            out@.to_multiset().add(work@.to_multiset()) == head@.modes.to_multiset(),
            out@.len() + work@.len() == head@.modes.len(),
            sorted_desc(out@),
            forall|p: int, q: int|
                0 <= p < out@.len() && 0 <= q < work@.len() ==> !mode_outranks(
                    #[trigger] work@[q],
                    #[trigger] out@[p],
                ),
        decreases work@.len(),
    {
        let ghost prev_work = work@;
        let ghost prev_out = out@;
        let b = best_index(&work);
        let m = work.remove(b);
        out.push(m);
        proof {
            prev_out.to_multiset_ensures();
            prev_work.to_multiset_ensures();
            assert(out@ == prev_out.push(m));
            assert(work@ == prev_work.remove(b as int));
            assert(prev_out.push(m).to_multiset() =~= prev_out.to_multiset().insert(m));
            assert(m == prev_work[b as int]);
            assert(prev_work.remove(b as int).to_multiset() =~= prev_work.to_multiset().remove(
                prev_work[b as int],
            ));
            assert(prev_work.contains(m));
            assert(prev_work.to_multiset().count(m) > 0);
            assert forall|x: HeadMode|
                out@.to_multiset().add(work@.to_multiset()).count(x)
                    == head@.modes.to_multiset().count(x) by {
                assert(prev_out.to_multiset().add(prev_work.to_multiset()).count(x)
                    == head@.modes.to_multiset().count(x));
                assert(out@.to_multiset().count(x) == prev_out.to_multiset().insert(m).count(x));
                assert(work@.to_multiset().count(x) == prev_work.to_multiset().remove(m).count(x));
            }
            assert(out@.to_multiset().add(work@.to_multiset()) =~= head@.modes.to_multiset());
            assert forall|p: int, q: int|
                0 <= p < out@.len() && 0 <= q < work@.len() implies !mode_outranks(
                #[trigger] work@[q],
                #[trigger] out@[p],
            ) by {
                if q < b {
                    assert(work@[q] == prev_work[q]);
                } else {
                    assert(work@[q] == prev_work[q + 1]);
                }
                if p < prev_out.len() {
                    assert(out@[p] == prev_out[p]);
                } else {
                    assert(out@[p] == m);
                }
            }
            assert(sorted_desc(out@));
        }
    }
    proof {
        lemma_empty_seq_to_multiset(work@);
        assert forall|x: HeadMode|
            out@.to_multiset().count(x) == out@.to_multiset().add(work@.to_multiset()).count(
                x,
            ) by {}
        assert(out@.to_multiset() =~= out@.to_multiset().add(work@.to_multiset()));
    }
    out
}

} // verus!
