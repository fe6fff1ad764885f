//! Ranking of raw history lines: deduplicate and order by descending
//! frequency, breaking ties by descending last occurrence.

use vstd::prelude::*;

verus! {

/// How many elements of `s` equal `x`.
pub open spec fn occurrences<V>(s: Seq<V>, x: V) -> nat
    decreases s.len(),
{
    if s.len() == 0 {
        0
    } else {
        occurrences(s.drop_last(), x) + if s.last() == x {
            1nat
        } else {
            0nat
        }
    }
}

/// Index of the last element of `s` equal to `x`, or -1 if there is none.
pub open spec fn last_index<V>(s: Seq<V>, x: V) -> int
    decreases s.len(),
{
    if s.len() == 0 {
        -1
    } else if s.last() == x {
        s.len() - 1
    } else {
        last_index(s.drop_last(), x)
    }
}

/// The ranking order: `a` comes before `b` when it occurs more often in the
/// input, or equally often but later.
pub open spec fn ranks_before<V>(input: Seq<V>, a: V, b: V) -> bool {
    ||| occurrences(input, a) > occurrences(input, b)
    ||| (occurrences(input, a) == occurrences(input, b) && last_index(input, a) > last_index(
        input,
        b,
    ))
}

/// `out` is the ranking of `input`: each distinct element of `input` exactly
/// once, ordered by descending frequency with descending last occurrence as
/// the tie-break.
pub open spec fn ranked<V>(input: Seq<V>, out: Seq<V>) -> bool {
    &&& forall|i: int, j: int| 0 <= i < j < out.len() ==> out[i] != out[j]
    &&& forall|i: int| 0 <= i < out.len() ==> input.contains(#[trigger] out[i])
    &&& forall|k: int| 0 <= k < input.len() ==> out.contains(#[trigger] input[k])
    &&& forall|i: int, j: int| 0 <= i < j < out.len() ==> ranks_before(input, out[i], out[j])
}

pub proof fn lemma_occurrences_last_index<V>(s: Seq<V>, x: V)
    ensures
        -1 <= last_index(s, x) < s.len(),
        (occurrences(s, x) > 0) <==> (last_index(s, x) >= 0),
        last_index(s, x) >= 0 ==> s[last_index(s, x)] == x,
        forall|i: int| last_index(s, x) < i < s.len() ==> s[i] != x,
    decreases s.len(),
{
    if s.len() > 0 {
        lemma_occurrences_last_index(s.drop_last(), x);
        assert forall|i: int| last_index(s, x) < i < s.len() implies s[i] != x by {
            if i < s.len() - 1 {
                assert(s.drop_last()[i] == s[i]);
            }
        }
    }
}

pub proof fn lemma_occurrences_positive<V>(s: Seq<V>, x: V, i: int)
    requires
        0 <= i < s.len(),
        s[i] == x,
    ensures
        occurrences(s, x) > 0,
        last_index(s, x) >= i,
    decreases s.len(),
{
    if i < s.len() - 1 {
        lemma_occurrences_positive(s.drop_last(), x, i);
    }
}

/// Index of the first element of `s` equal to `x`, or -1 if there is none.
pub open spec fn first_index<V>(s: Seq<V>, x: V) -> int
    decreases s.len(),
{
    if s.len() == 0 {
        -1
    } else if s[0] == x {
        0
    } else {
        let r = first_index(s.subrange(1, s.len() as int), x);
        if r == -1 {
            -1
        } else {
            r + 1
        }
    }
}

pub proof fn lemma_first_index<V>(s: Seq<V>, x: V)
    ensures
        -1 <= first_index(s, x) < s.len(),
        first_index(s, x) >= 0 ==> s[first_index(s, x)] == x,
        forall|k: int| 0 <= k < first_index(s, x) ==> s[k] != x,
        forall|k: int| 0 <= k < s.len() && s[k] == x ==> 0 <= first_index(s, x) <= k,
    decreases s.len(),
{
    if s.len() > 0 && s[0] != x {
        let rest = s.subrange(1, s.len() as int);
        lemma_first_index(rest, x);
        assert(forall|k: int| 0 <= k < rest.len() ==> rest[k] == s[k + 1]);
        assert forall|k: int| 0 <= k < s.len() && s[k] == x implies 0 <= first_index(s, x)
            <= k by {
            assert(k > 0);
            assert(rest[k - 1] == x);
        }
    }
}

/// `out` holds each distinct element of `input` exactly once, in order of
/// first occurrence.
pub open spec fn uniqued<V>(input: Seq<V>, out: Seq<V>) -> bool {
    &&& forall|i: int, j: int| 0 <= i < j < out.len() ==> out[i] != out[j]
    &&& forall|i: int| 0 <= i < out.len() ==> input.contains(#[trigger] out[i])
    &&& forall|k: int| 0 <= k < input.len() ==> out.contains(#[trigger] input[k])
    &&& forall|i: int, j: int|
        0 <= i < j < out.len() ==> first_index(input, out[i]) < first_index(input, out[j])
}

/// An element that the ranker can compare and copy; its mathematical value is
/// its deep view.
pub trait RankItem: DeepView + Sized {
    fn same_as(&self, other: &Self) -> (r: bool)
        ensures
            r == (self.deep_view() == other.deep_view()),
    ;

    fn duplicate(&self) -> (r: Self)
        ensures
            r.deep_view() == self.deep_view(),
    ;
}

impl RankItem for String {
    fn same_as(&self, other: &String) -> (r: bool) {
        self.eq(other)
    }

    fn duplicate(&self) -> (r: String) {
        self.clone()
    }
}

impl RankItem for i32 {
    fn same_as(&self, other: &i32) -> (r: bool) {
        *self == *other
    }

    fn duplicate(&self) -> (r: i32) {
        *self
    }
}

/// Whether some element of `v` has the same value as `x`.
pub(crate) fn contains_item<T: RankItem>(v: &Vec<T>, x: &T) -> (r: bool)
    ensures
        r == v.deep_view().contains(x.deep_view()),
{
    let ghost vs = v.deep_view();
    let mut i: usize = 0;
    while i < v.len()
        invariant
            0 <= i <= v.len(),
            vs == v.deep_view(),
            vs.len() == v.len(),
            forall|k: int| 0 <= k < i ==> vs[k] != x.deep_view(),
        decreases v.len() - i,
    {
        if v[i].same_as(x) {
            proof {
                assert(vs[i as int] == x.deep_view());
            }
            return true;
        }
        i += 1;
    }
    false
}

fn count_occurrences<T: RankItem>(history: &Vec<T>, x: &T) -> (r: usize)
    ensures
        r == occurrences(history.deep_view(), x.deep_view()),
{
    let ghost h = history.deep_view();
    let mut count: usize = 0;
    let mut i: usize = 0;
    while i < history.len()
        invariant
            0 <= i <= history.len(),
            h == history.deep_view(),
            h.len() == history.len(),
            count == occurrences(h.subrange(0, i as int), x.deep_view()),
            count <= i,
        decreases history.len() - i,
    {
        proof {
            assert(h.subrange(0, i + 1).drop_last() =~= h.subrange(0, i as int));
            assert(h.subrange(0, i + 1).last() == h[i as int]);
        }
        if history[i].same_as(x) {
            count += 1;
        }
        i += 1;
    }
    proof {
        assert(h.subrange(0, h.len() as int) =~= h);
    }
    count
}

fn find_last_position<T: RankItem>(history: &Vec<T>, x: &T) -> (r: usize)
    requires
        occurrences(history.deep_view(), x.deep_view()) > 0,
    ensures
        r == last_index(history.deep_view(), x.deep_view()),
{
    let ghost h = history.deep_view();
    let mut best: usize = 0;
    let mut found = false;
    let mut i: usize = 0;
    while i < history.len()
        invariant
            0 <= i <= history.len(),
            h == history.deep_view(),
            h.len() == history.len(),
            found == (last_index(h.subrange(0, i as int), x.deep_view()) >= 0),
            found ==> best == last_index(h.subrange(0, i as int), x.deep_view()),
        decreases history.len() - i,
    {
        proof {
            assert(h.subrange(0, i + 1).drop_last() =~= h.subrange(0, i as int));
            assert(h.subrange(0, i + 1).last() == h[i as int]);
        }
        if history[i].same_as(x) {
            best = i;
            found = true;
        }
        i += 1;
    }
    proof {
        assert(h.subrange(0, h.len() as int) =~= h);
        if !found {
            lemma_occurrences_last_index(h, x.deep_view());
        }
    }
    best
}

/// Remove duplicates, keeping the first occurrence of each distinct value.
pub fn unique<T: RankItem>(v: &Vec<T>) -> (r: Vec<T>)
    ensures
        uniqued(v.deep_view(), r.deep_view()),
{
    let ghost h = v.deep_view();
    let mut out: Vec<T> = Vec::new();
    let mut i: usize = 0;
    while i < v.len()
        invariant
            0 <= i <= v.len(),
            h == v.deep_view(),
            h.len() == v.len(),
            forall|a: int, b: int|
                0 <= a < b < out.deep_view().len() ==> out.deep_view()[a] != out.deep_view()[b],
            forall|a: int|
                0 <= a < out.deep_view().len() ==> h.contains(#[trigger] out.deep_view()[a]),
            forall|k: int| 0 <= k < i ==> out.deep_view().contains(#[trigger] h[k]),
            forall|a: int|
                0 <= a < out.deep_view().len() ==> 0 <= first_index(h, #[trigger] out.deep_view()[a])
                    < i,
            forall|a: int, b: int|
                0 <= a < b < out.deep_view().len() ==> first_index(h, out.deep_view()[a])
                    < first_index(h, out.deep_view()[b]),
        decreases v.len() - i,
    {
        let present = contains_item(&out, &v[i]);
        let ghost old_out = out.deep_view();
        if !present {
            out.push(v[i].duplicate());
            proof {
                let x = h[i as int];
                assert(out.deep_view() =~= old_out.push(x));
                lemma_first_index(h, x);
                assert forall|k: int| 0 <= k < i implies h[k] != x by {
                    assert(old_out.contains(h[k]));
                }
                assert(first_index(h, x) == i);
                assert forall|k: int|
                    0 <= k < i && old_out.contains(#[trigger] h[k]) implies out.deep_view()
                    .contains(h[k]) by {
                    let a = choose|a: int| 0 <= a < old_out.len() && old_out[a] == h[k];
                    assert(out.deep_view()[a] == h[k]);
                }
                assert(out.deep_view().last() == x);
                assert(out.deep_view().contains(x));
            }
        } else {
            proof {
                assert(out.deep_view().contains(h[i as int]));
            }
        }
        i += 1;
    }
    out
}

struct Keyed<T> {
    freq: usize,
    last: usize,
    item: T,
}

/// Rank a history: each distinct element appears once in the result, ordered
/// by descending frequency over the whole input, ties broken by descending
/// last-occurrence position.
pub fn sort<T: RankItem>(history: Vec<T>) -> (r: Vec<T>)
    ensures
        ranked(history.deep_view(), r.deep_view()),
{
    let ghost h = history.deep_view();

    // Collect one representative of each distinct value.
    let mut uniq: Vec<T> = Vec::new();
    let mut i: usize = 0;
    while i < history.len()
        invariant
            0 <= i <= history.len(),
            h == history.deep_view(),
            h.len() == history.len(),
            forall|a: int, b: int|
                0 <= a < b < uniq.deep_view().len() ==> uniq.deep_view()[a] != uniq.deep_view()[b],
            forall|a: int|
                0 <= a < uniq.deep_view().len() ==> h.contains(#[trigger] uniq.deep_view()[a]),
            forall|k: int| 0 <= k < i ==> uniq.deep_view().contains(#[trigger] h[k]),
        decreases history.len() - i,
    {
        let present = contains_item(&uniq, &history[i]);
        if !present {
            let ghost old_uniq = uniq.deep_view();
            uniq.push(history[i].duplicate());
            proof {
                assert(uniq.deep_view() =~= old_uniq.push(h[i as int]));
                assert forall|k: int|
                    0 <= k < i && old_uniq.contains(#[trigger] h[k]) implies uniq.deep_view()
                    .contains(h[k]) by {
                    let a = choose|a: int| 0 <= a < old_uniq.len() && old_uniq[a] == h[k];
                    assert(uniq.deep_view()[a] == h[k]);
                }
                assert(uniq.deep_view().last() == h[i as int]);
                assert(uniq.deep_view().contains(h[i as int]));
            }
        } else {
            proof {
                assert(uniq.deep_view().contains(h[i as int]));
            }
        }
        i += 1;
    }

    // Attach the ranking keys.
    let mut keyed: Vec<Keyed<T>> = Vec::new();
    while uniq.len() > 0
        invariant
            h == history.deep_view(),
            forall|a: int, b: int|
                0 <= a < b < uniq.deep_view().len() ==> uniq.deep_view()[a] != uniq.deep_view()[b],
            forall|a: int|
                0 <= a < uniq.deep_view().len() ==> h.contains(#[trigger] uniq.deep_view()[a]),
            forall|a: int, b: int|
                0 <= a < b < keyed.len() ==> keyed[a].item.deep_view() != keyed[b].item.deep_view(),
            forall|a: int, b: int|
                0 <= a < keyed.len() && 0 <= b < uniq.deep_view().len()
                    ==> #[trigger] keyed[a].item.deep_view() != #[trigger] uniq.deep_view()[b],
            forall|a: int|
                0 <= a < keyed.len() ==> h.contains(#[trigger] keyed[a].item.deep_view()),
            forall|k: int|
                0 <= k < h.len()
                    ==> uniq.deep_view().contains(#[trigger] h[k]) || exists|a: int|
                    0 <= a < keyed.len() && keyed[a].item.deep_view() == h[k],
            forall|a: int|
                0 <= a < keyed.len() ==> (#[trigger] keyed[a].freq) == occurrences(
                    h,
                    keyed[a].item.deep_view(),
                ),
            forall|a: int|
                0 <= a < keyed.len() ==> (#[trigger] keyed[a].last) == last_index(
                    h,
                    keyed[a].item.deep_view(),
                ),
        decreases uniq.len(),
    {
        let ghost old_uniq = uniq.deep_view();
        let t = uniq.pop().unwrap();
        proof {
            assert(uniq.deep_view() =~= old_uniq.drop_last());
            assert(t.deep_view() == old_uniq.last());
            assert(h.contains(old_uniq.last()));
            let w = choose|k: int| 0 <= k < h.len() && h[k] == t.deep_view();
            lemma_occurrences_positive(h, t.deep_view(), w);
        }
        let f = count_occurrences(&history, &t);
        let l = find_last_position(&history, &t);
        let ghost old_keyed = keyed@;
        keyed.push(Keyed { freq: f, last: l, item: t });
        proof {
            assert forall|k: int|
                0 <= k < h.len() && (old_uniq.contains(#[trigger] h[k]) || exists|a: int|
                    0 <= a < old_keyed.len() && old_keyed[a].item.deep_view()
                        == h[k]) implies uniq.deep_view().contains(h[k]) || exists|a: int|
                0 <= a < keyed.len() && keyed[a].item.deep_view() == h[k] by {
                if old_uniq.contains(h[k]) {
                    let a = choose|a: int| 0 <= a < old_uniq.len() && old_uniq[a] == h[k];
                    if a < old_uniq.len() - 1 {
                        assert(uniq.deep_view()[a] == h[k]);
                        assert(uniq.deep_view().contains(h[k]));
                    } else {
                        assert(keyed[keyed.len() - 1].item.deep_view() == h[k]);
                    }
                } else {
                    let a = choose|a: int|
                        0 <= a < old_keyed.len() && old_keyed[a].item.deep_view() == h[k];
                    assert(keyed[a].item.deep_view() == h[k]);
                }
            }
        }
    }

    // Selection sort on the keys, best first.
    let mut out: Vec<T> = Vec::new();
    while keyed.len() > 0
        invariant
            h == history.deep_view(),
            forall|a: int, b: int|
                0 <= a < b < keyed.len() ==> keyed[a].item.deep_view() != keyed[b].item.deep_view(),
            forall|a: int|
                0 <= a < keyed.len() ==> h.contains(#[trigger] keyed[a].item.deep_view()),
            forall|a: int|
                0 <= a < keyed.len() ==> (#[trigger] keyed[a].freq) == occurrences(
                    h,
                    keyed[a].item.deep_view(),
                ),
            forall|a: int|
                0 <= a < keyed.len() ==> (#[trigger] keyed[a].last) == last_index(
                    h,
                    keyed[a].item.deep_view(),
                ),
            forall|a: int, b: int|
                0 <= a < b < out.deep_view().len() ==> out.deep_view()[a] != out.deep_view()[b],
            forall|a: int|
                0 <= a < out.deep_view().len() ==> h.contains(#[trigger] out.deep_view()[a]),
            forall|a: int, b: int|
                0 <= a < out.deep_view().len() && 0 <= b < keyed.len()
                    ==> #[trigger] out.deep_view()[a] != #[trigger] keyed[b].item.deep_view(),
            forall|a: int, b: int|
                0 <= a < out.deep_view().len() && 0 <= b < keyed.len() ==> ranks_before(
                    h,
                    #[trigger] out.deep_view()[a],
                    #[trigger] keyed[b].item.deep_view(),
                ),
            forall|a: int, b: int|
                0 <= a < b < out.deep_view().len() ==> ranks_before(
                    h,
                    out.deep_view()[a],
                    out.deep_view()[b],
                ),
            forall|k: int|
                0 <= k < h.len() ==> out.deep_view().contains(#[trigger] h[k]) || exists|a: int|
                    0 <= a < keyed.len() && keyed[a].item.deep_view() == h[k],
        decreases keyed.len(),
    {
        // Find the best remaining key.
        let mut m: usize = 0;
        let mut j: usize = 1;
        while j < keyed.len()
            invariant
                0 <= m < j <= keyed.len(),
                forall|b: int|
                    0 <= b < j ==> ((#[trigger] keyed[b].freq) < keyed[m as int].freq || (
                    keyed[b].freq == keyed[m as int].freq && keyed[b].last <= keyed[m as int].last)),
            decreases keyed.len() - j,
        {
            if keyed[j].freq > keyed[m].freq || (keyed[j].freq == keyed[m].freq && keyed[j].last
                > keyed[m].last) {
                m = j;
            }
            j += 1;
        }
        let ghost old_keyed = keyed@;
        let best = keyed.remove(m);
        proof {
            assert(keyed@ =~= old_keyed.subrange(0, m as int) + old_keyed.subrange(
                m + 1,
                old_keyed.len() as int,
            ));
            // Every remaining entry ranks at or below `best`, and strictly so
            // because distinct values have distinct last indices.
            assert forall|b: int| 0 <= b < keyed.len() implies ranks_before(
                h,
                best.item.deep_view(),
                #[trigger] keyed[b].item.deep_view(),
            ) by {
                let bv = keyed[b].item.deep_view();
                let ov = best.item.deep_view();
                assert(keyed[b] == old_keyed[if b < m { b } else { b + 1 }]);
                assert(bv != ov);
                if keyed[b].freq == best.freq && keyed[b].last == best.last {
                    lemma_occurrences_last_index(h, bv);
                    lemma_occurrences_last_index(h, ov);
                    let w = choose|k: int| 0 <= k < h.len() && h[k] == bv;
                    lemma_occurrences_positive(h, bv, w);
                    let w2 = choose|k: int| 0 <= k < h.len() && h[k] == ov;
                    lemma_occurrences_positive(h, ov, w2);
                    assert(h[last_index(h, bv)] == bv);
                    assert(h[last_index(h, ov)] == ov);
                    assert(false);
                }
            }
        }
        let ghost old_out = out.deep_view();
        out.push(best.item);
        proof {
            assert(out.deep_view() =~= old_out.push(best.item.deep_view()));
            assert forall|k: int|
                0 <= k < h.len() && (old_out.contains(#[trigger] h[k]) || exists|a: int|
                    0 <= a < old_keyed.len() && old_keyed[a].item.deep_view()
                        == h[k]) implies out.deep_view().contains(h[k]) || exists|a: int|
                0 <= a < keyed.len() && keyed[a].item.deep_view() == h[k] by {
                if old_out.contains(h[k]) {
                    let a = choose|a: int| 0 <= a < old_out.len() && old_out[a] == h[k];
                    assert(out.deep_view()[a] == h[k]);
                    assert(out.deep_view().contains(h[k]));
                } else {
                    let a = choose|a: int|
                        0 <= a < old_keyed.len() && old_keyed[a].item.deep_view() == h[k];
                    if a == m {
                        assert(out.deep_view().last() == h[k]);
                        assert(out.deep_view().contains(h[k]));
                    } else {
                        let a2 = if a < m {
                            a
                        } else {
                            a - 1
                        };
                        assert(keyed[a2].item.deep_view() == h[k]);
                    }
                }
            }
        }
    }
    proof {
        assert forall|k: int| 0 <= k < h.len() implies out.deep_view().contains(
            #[trigger] h[k],
        ) by {}
    }
    out
}

} // verus!
