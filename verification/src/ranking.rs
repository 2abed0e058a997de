//! The order in which the element types that can take an output are
//! suggested.

use crate::catalog::{chars_view, fits, fits_prefix, prefix_chars};
use crate::chars::{names_view, word_view};
use vstd::prelude::*;

verus! {

/// An element type of the catalog, seen from the output that is to be
/// connected to it.
#[derive(Clone, Debug, PartialEq, Eq)]
pub struct Consumer {
    pub name: String,
    /// Its inputs take every format.
    pub accepts_any: bool,
    /// Its inputs take at least one format that the output produces.
    pub accepts_output: bool,
    /// Entry `j` tells whether the formats that its inputs take are a subset of
    /// those of the catalog's `j`-th type. A missing entry counts as `false`.
    pub subset_of: Vec<bool>,
}

pub struct ConsumerView {
    pub name: Seq<char>,
    pub accepts_any: bool,
    pub accepts_output: bool,
    pub subset_of: Seq<bool>,
}

impl View for Consumer {
    type V = ConsumerView;

    open spec fn view(&self) -> ConsumerView {
        ConsumerView {
            name: self.name@,
            accepts_any: self.accepts_any,
            accepts_output: self.accepts_output,
            subset_of: self.subset_of@,
        }
    }
}

pub open spec fn consumers_view(c: Seq<Consumer>) -> Seq<ConsumerView> {
    Seq::new(c.len(), |i: int| c[i]@)
}

/// The inputs of `a` take a subset of what the inputs of `b` take.
pub open spec fn within(c: Seq<ConsumerView>, a: int, b: int) -> bool {
    0 <= a < c.len() && 0 <= b < c[a].subset_of.len() && c[a].subset_of[b]
}

/// The inputs of `a` take a strict subset of what the inputs of `b` take.
pub open spec fn narrower(c: Seq<ConsumerView>, a: int, b: int) -> bool {
    within(c, a, b) && !within(c, b, a)
}

/// `a` is the better match: it does not take every format, and `b` does or
/// takes strictly more than `a`.
pub open spec fn before(c: Seq<ConsumerView>, a: int, b: int) -> bool {
    !c[a].accepts_any && (c[b].accepts_any || narrower(c, a, b))
}

/// The `j`-th type takes the output and its name fits the prefix.
pub open spec fn eligible(c: Seq<ConsumerView>, prefix: Option<Seq<char>>, j: int) -> bool {
    c[j].accepts_output && fits(c[j].name, prefix)
}

/// The place of `x` in `order`, looked for from `k` on: in front of the first
/// type that `x` is a better match than, at the end where there is none.
pub open spec fn slot_from(c: Seq<ConsumerView>, order: Seq<int>, x: int, k: int) -> int
    decreases order.len() - k,
{
    if k < 0 || k >= order.len() {
        order.len() as int
    } else if before(c, x, order[k]) {
        k
    } else {
        slot_from(c, order, x, k + 1)
    }
}

/// The ranking of the first `n` types of the catalog, as indices into it:
/// each eligible type, in the catalog's order, is put into the ranking of
/// those before it at its place.
pub open spec fn ranking(c: Seq<ConsumerView>, prefix: Option<Seq<char>>, n: int) -> Seq<int>
    decreases n,
{
    if n <= 0 {
        Seq::empty()
    } else {
        let r = ranking(c, prefix, n - 1);
        if eligible(c, prefix, n - 1) {
            r.insert(slot_from(c, r, n - 1, 0), n - 1)
        } else {
            r
        }
    }
}

/// The names of the ranked types, best match first.
pub open spec fn ranked_names(c: Seq<ConsumerView>, prefix: Option<Seq<char>>) -> Seq<Seq<char>> {
    let r = ranking(c, prefix, c.len() as int);
    Seq::new(r.len(), |k: int| c[r[k]].name)
}

/// A slot lies in the order; `x` is a better match than the type at the slot
/// and than none in front of it.
pub proof fn lemma_slot(c: Seq<ConsumerView>, order: Seq<int>, x: int, k: int)
    requires
        0 <= k <= order.len(),
    ensures
        k <= slot_from(c, order, x, k) <= order.len(),
        forall|i: int| k <= i < slot_from(c, order, x, k) ==> !before(c, x, #[trigger] order[i]),
        slot_from(c, order, x, k) < order.len() ==> before(
            c,
            x,
            order[slot_from(c, order, x, k)],
        ),
    decreases order.len() - k,
{
    if k < order.len() && !before(c, x, order[k]) {
        lemma_slot(c, order, x, k + 1);
    }
}

/// The ranking holds exactly the eligible types, each once.
pub proof fn lemma_ranking_members(c: Seq<ConsumerView>, prefix: Option<Seq<char>>, n: int)
    requires
        0 <= n <= c.len(),
    ensures
        forall|j: int| #[trigger]
            ranking(c, prefix, n).contains(j) <==> 0 <= j < n && eligible(c, prefix, j),
        ranking(c, prefix, n).no_duplicates(),
    decreases n,
{
    if n > 0 {
        let r = ranking(c, prefix, n - 1);
        lemma_ranking_members(c, prefix, n - 1);
        if eligible(c, prefix, n - 1) {
            let k = slot_from(c, r, n - 1, 0);
            lemma_slot(c, r, n - 1, 0);
            let t = r.insert(k, n - 1);
            r.insert_ensures(k, n - 1);
            assert forall|j: int| #[trigger] t.contains(j) <==> 0 <= j < n && eligible(c, prefix, j) by {
                if t.contains(j) {
                    let i = choose|i: int| 0 <= i < t.len() && t[i] == j;
                    if i < k {
                        assert(r[i] == j);
                        assert(r.contains(j));
                    } else if i > k {
                        assert(t[(i - 1) + 1] == r[i - 1]);
                        assert(r.contains(j));
                    }
                }
                if 0 <= j < n && eligible(c, prefix, j) {
                    if j == n - 1 {
                        assert(t[k] == j);
                    } else {
                        assert(r.contains(j));
                        let i = choose|i: int| 0 <= i < r.len() && r[i] == j;
                        if i < k {
                            assert(t[i] == j);
                        } else {
                            assert(t[i + 1] == r[i]);
                        }
                    }
                }
            }
            assert forall|a: int, b: int| 0 <= a < t.len() && 0 <= b < t.len() && a != b implies t[a]
                != t[b] by {
                let ra = if a < k { a } else { a - 1 };
                let rb = if b < k { b } else { b - 1 };
                if a != k {
                    assert(t[a] == r[ra]) by {
                        if a > k {
                            assert(t[(a - 1) + 1] == r[a - 1]);
                        }
                    }
                    assert(r.contains(t[a]));
                }
                if b != k {
                    assert(t[b] == r[rb]) by {
                        if b > k {
                            assert(t[(b - 1) + 1] == r[b - 1]);
                        }
                    }
                    assert(r.contains(t[b]));
                }
            }
        }
    }
}

/// The subset table is transitive, as the subset relation of sets is.
pub open spec fn transitive(c: Seq<ConsumerView>) -> bool {
    forall|x: int, y: int, z: int| #[trigger]
        within(c, x, y) && #[trigger] within(c, y, z) ==> within(c, x, z)
}

/// No type of the ranking is a better match than one that stands in front
/// of it.
pub open spec fn respects_order(c: Seq<ConsumerView>, r: Seq<int>) -> bool {
    forall|a: int, b: int| 0 <= a < b < r.len() ==> !before(c, #[trigger] r[b], #[trigger] r[a])
}

/// A type whose inputs take every format never stands in front of one whose
/// inputs do not.
pub proof fn lemma_wildcards_last(c: Seq<ConsumerView>, prefix: Option<Seq<char>>, n: int)
    requires
        0 <= n <= c.len(),
    ensures
        forall|a: int, b: int|
            0 <= a < b < ranking(c, prefix, n).len() && c[#[trigger] ranking(
                c,
                prefix,
                n,
            )[a]].accepts_any ==> c[#[trigger] ranking(c, prefix, n)[b]].accepts_any,
    decreases n,
{
    if n > 0 {
        let r = ranking(c, prefix, n - 1);
        lemma_wildcards_last(c, prefix, n - 1);
        if eligible(c, prefix, n - 1) {
            let x = n - 1;
            let k = slot_from(c, r, x, 0);
            lemma_slot(c, r, x, 0);
            let t = r.insert(k, x);
            r.insert_ensures(k, x);
            assert forall|a: int, b: int| 0 <= a < b < t.len() && c[#[trigger] t[a]].accepts_any implies c[#[trigger] t[b]].accepts_any by {
                let ra = if a < k { a } else { a - 1 };
                let rb = if b < k { b } else { b - 1 };
                if a > k {
                    assert(t[(a - 1) + 1] == r[a - 1]);
                }
                if b > k {
                    assert(t[(b - 1) + 1] == r[b - 1]);
                }
                if a == k {
                    assert(before(c, x, r[k]));
                } else if b == k {
                    assert(!before(c, x, r[a]));
                } else {
                    assert(c[r[ra]].accepts_any ==> c[r[rb]].accepts_any);
                }
            }
        }
    }
}

/// With a transitive subset table the ranking respects the order of its
/// types.
pub proof fn lemma_ranking_respects_order(
    c: Seq<ConsumerView>,
    prefix: Option<Seq<char>>,
    n: int,
)
    requires
        0 <= n <= c.len(),
        transitive(c),
    ensures
        respects_order(c, ranking(c, prefix, n)),
    decreases n,
{
    if n > 0 {
        let r = ranking(c, prefix, n - 1);
        lemma_ranking_respects_order(c, prefix, n - 1);
        if eligible(c, prefix, n - 1) {
            let x = n - 1;
            let k = slot_from(c, r, x, 0);
            lemma_slot(c, r, x, 0);
            let t = r.insert(k, x);
            r.insert_ensures(k, x);
            assert forall|a: int, b: int| 0 <= a < b < t.len() implies !before(
                c,
                #[trigger] t[b],
                #[trigger] t[a],
            ) by {
                let ra = if a < k { a } else { a - 1 };
                let rb = if b < k { b } else { b - 1 };
                if a > k {
                    assert(t[(a - 1) + 1] == r[a - 1]);
                }
                if b > k {
                    assert(t[(b - 1) + 1] == r[b - 1]);
                }
                if a == k {
                    let y = r[rb];
                    assert(before(c, x, r[k]));
                    if before(c, y, x) {
                        if rb > k {
                            assert(!before(c, r[rb], r[k]));
                            assert(within(c, y, x) && within(c, x, r[k]));
                            assert(within(c, y, r[k]));
                            if within(c, r[k], y) {
                                assert(within(c, r[k], y) && within(c, y, x));
                                assert(within(c, r[k], x));
                            }
                        }
                    }
                } else if b == k {
                    assert(!before(c, x, r[a]));
                } else {
                    assert(!before(c, r[rb], r[ra]));
                }
            }
        }
    }
}

/// Of two ranked types that do not take every format, one whose inputs take
/// a strict subset of what the other's take stands in front of the other,
/// given that the subset table is transitive.
pub proof fn lemma_narrower_first(c: Seq<ConsumerView>, prefix: Option<Seq<char>>, a: int, b: int)
    requires
        transitive(c),
        0 <= a < ranking(c, prefix, c.len() as int).len(),
        0 <= b < ranking(c, prefix, c.len() as int).len(),
        !c[ranking(c, prefix, c.len() as int)[a]].accepts_any,
        !c[ranking(c, prefix, c.len() as int)[b]].accepts_any,
        narrower(c, ranking(c, prefix, c.len() as int)[a], ranking(c, prefix, c.len() as int)[b]),
    ensures
        a < b,
{
    let r = ranking(c, prefix, c.len() as int);
    lemma_ranking_respects_order(c, prefix, c.len() as int);
    if b < a {
        assert(!before(c, r[a], r[b]));
    }
}

/// The order of the types is that of a ranking by levels: a type that is a
/// better match than another is a better match than every third type that
/// the other is no better match than.
pub open spec fn levelled(c: Seq<ConsumerView>) -> bool {
    forall|x: int, y: int, z: int|
        #![trigger before(c, x, y), before(c, x, z)]
        before(c, x, y) ==> before(c, x, z) || before(c, z, y)
}

/// The ranking is sorted, and types that are no better match than each other
/// stand in the catalog's order.
pub open spec fn stably_sorted(c: Seq<ConsumerView>, r: Seq<int>) -> bool {
    forall|a: int, b: int|
        0 <= a < b < r.len() ==> !before(c, #[trigger] r[b], #[trigger] r[a]) && (before(
            c,
            r[a],
            r[b],
        ) || r[a] < r[b])
}

/// Where the order of the types is that of a ranking by levels, the ranking
/// is what a stable sort of the eligible types by that order gives.
pub proof fn lemma_ranking_stably_sorted(c: Seq<ConsumerView>, prefix: Option<Seq<char>>, n: int)
    requires
        0 <= n <= c.len(),
        levelled(c),
    ensures
        stably_sorted(c, ranking(c, prefix, n)),
    decreases n,
{
    if n > 0 {
        let r = ranking(c, prefix, n - 1);
        lemma_ranking_stably_sorted(c, prefix, n - 1);
        lemma_ranking_members(c, prefix, n - 1);
        if eligible(c, prefix, n - 1) {
            let x = n - 1;
            let k = slot_from(c, r, x, 0);
            lemma_slot(c, r, x, 0);
            let t = r.insert(k, x);
            r.insert_ensures(k, x);
            assert forall|a: int, b: int| 0 <= a < b < t.len() implies !before(
                c,
                #[trigger] t[b],
                #[trigger] t[a],
            ) && (before(c, t[a], t[b]) || t[a] < t[b]) by {
                let ra = if a < k { a } else { a - 1 };
                let rb = if b < k { b } else { b - 1 };
                if a > k {
                    assert(t[(a - 1) + 1] == r[a - 1]);
                }
                if b > k {
                    assert(t[(b - 1) + 1] == r[b - 1]);
                }
                if a == k {
                    let y = r[rb];
                    assert(before(c, x, r[k]));
                    if rb > k {
                        assert(!before(c, r[rb], r[k]));
                        assert(before(c, x, r[k]) ==> before(c, x, y) || before(c, y, r[k]));
                        assert(before(c, x, y));
                    }
                } else if b == k {
                    assert(!before(c, x, r[a]));
                    assert(r.contains(r[a]));
                } else {
                    assert(!before(c, r[rb], r[ra]));
                }
            }
        }
    }
}

pub open spec fn ints(s: Seq<usize>) -> Seq<int> {
    Seq::new(s.len(), |i: int| s[i] as int)
}

fn is_within(c: &Vec<Consumer>, a: usize, b: usize) -> (r: bool)
    requires
        a < c@.len(),
    ensures
        r == within(consumers_view(c@), a as int, b as int),
{
    b < c[a].subset_of.len() && c[a].subset_of[b]
}

fn is_before(c: &Vec<Consumer>, a: usize, b: usize) -> (r: bool)
    requires
        a < c@.len(),
        b < c@.len(),
    ensures
        r == before(consumers_view(c@), a as int, b as int),
{
    !c[a].accepts_any && (c[b].accepts_any || (is_within(c, a, b) && !is_within(c, b, a)))
}

fn find_slot(c: &Vec<Consumer>, order: &Vec<usize>, x: usize) -> (k: usize)
    requires
        x < c@.len(),
        forall|i: int| 0 <= i < order@.len() ==> order@[i] < c@.len(),
    ensures
        k == slot_from(consumers_view(c@), ints(order@), x as int, 0),
        k <= order@.len(),
{
    let mut k: usize = 0;
    while k < order.len() && !is_before(c, x, order[k])
        invariant
            k <= order@.len(),
            x < c@.len(),
            forall|i: int| 0 <= i < order@.len() ==> order@[i] < c@.len(),
            slot_from(consumers_view(c@), ints(order@), x as int, 0) == slot_from(
                consumers_view(c@),
                ints(order@),
                x as int,
                k as int,
            ),
        decreases order@.len() - k,
    {
        k += 1;
    }
    k
}

/// Ranks the element types that can take an output.
///
/// Kept are the types that take the output and whose name fits the prefix.
/// They are taken in the catalog's order, and each is put in front of the
/// first type ranked so far that it is a better match than: one that does
/// not take every format is a better match than one that does, and among
/// those that do not, one whose inputs take strictly less. Types that are
/// no better match than each other stay in the catalog's order.
pub fn rank(consumers: &Vec<Consumer>, prefix: Option<&str>) -> (out: Vec<String>)
    ensures
        names_view(out@) == ranked_names(consumers_view(consumers@), word_view(prefix)),
{
    let wanted = prefix_chars(prefix);
    let ghost c = consumers_view(consumers@);
    let ghost p = word_view(prefix);
    let n = consumers.len();
    let mut order: Vec<usize> = Vec::new();
    let mut j: usize = 0;
    assert(ints(order@) =~= ranking(c, p, 0));
    while j < n
        invariant
            n == consumers@.len(),
            j <= n,
            c == consumers_view(consumers@),
            p == word_view(prefix),
            chars_view(wanted) == p,
            forall|i: int| 0 <= i < order@.len() ==> order@[i] < n,
            ints(order@) == ranking(c, p, j as int),
        decreases n - j,
    {
        if consumers[j].accepts_output && fits_prefix(consumers[j].name.as_str(), &wanted) {
            let k = find_slot(consumers, &order, j);
            let ghost before = order@;
            order.insert(k, j);
            proof {
                before.insert_ensures(k as int, j);
                ints(before).insert_ensures(k as int, j as int);
                assert forall|i: int| 0 <= i < order@.len() implies order@[i] < n by {
                    if i > k {
                        assert(order@[(i - 1) + 1] == before[i - 1]);
                    }
                }
                assert(ints(order@) =~= ints(before).insert(k as int, j as int));
            }
        }
        j += 1;
    }
    let mut out: Vec<String> = Vec::new();
    let mut k: usize = 0;
    while k < order.len()
        invariant
            k <= order@.len(),
            n == consumers@.len(),
            c == consumers_view(consumers@),
            forall|i: int| 0 <= i < order@.len() ==> order@[i] < n,
            out@.len() == k,
            forall|i: int| 0 <= i < k ==> out@[i]@ == c[order@[i] as int].name,
        decreases order@.len() - k,
    {
        out.push(consumers[order[k]].name.clone());
        k += 1;
    }
    assert(names_view(out@) =~= ranked_names(c, p));
    out
}

} // verus!
