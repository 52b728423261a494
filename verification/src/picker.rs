//! The Metric picker: the Metrics the shown Runs' sources offer, each once
//! and in text order, and the candidates left after the chosen Metrics and
//! the picker's filter.

use vstd::prelude::*;

use crate::ids::{DataSourceId, MetricKey, RunRef, RunRefView};
use crate::selection::run_views;
use crate::table_keys::{
    lemma_text_sign, lemma_text_sign_chain, strictly_increasing, text_sign, text_sign_of,
};
use crate::text::{chars_of, contains_chars, lowercase, occurs_in, to_lowercase, trim, trimmed};

verus! {

/// The texts of a list of Metric keys.
pub open spec fn key_texts(keys: Seq<MetricKey>) -> Seq<Seq<char>> {
    keys.map_values(|k: MetricKey| k@)
}

/// Whether some shown Run was read from `source_id`.
pub open spec fn source_in_view(visible: Seq<RunRefView>, source_id: Seq<char>) -> bool {
    exists|i: int| 0 <= i < visible.len() && #[trigger] visible[i].source_id == source_id
}

/// The Metric keys offered by the sources of shown Runs, source by source.
pub open spec fn offered_keys(visible: Seq<RunRefView>, sources: Seq<(DataSourceId, Vec<MetricKey>)>) -> Seq<
    Seq<char>,
>
    decreases sources.len(),
{
    if sources.len() == 0 {
        Seq::empty()
    } else {
        offered_keys(visible, sources.drop_last()) + if source_in_view(visible, sources.last().0@) {
            key_texts(sources.last().1@)
        } else {
            Seq::empty()
        }
    }
}

fn source_shown(visible: &Vec<RunRef>, source_id: &DataSourceId) -> (shown: bool)
    ensures
        shown == source_in_view(run_views(visible@), source_id@),
{
    let mut i: usize = 0;
    while i < visible.len()
        invariant
            i <= visible@.len(),
            forall|j: int| 0 <= j < i ==> run_views(visible@)[j].source_id != source_id@,
        decreases visible@.len() - i,
    {
        if visible[i].source_id.same_as(source_id) {
            proof {
                assert(run_views(visible@)[i as int].source_id == source_id@);
            }
            return true;
        }
        i = i + 1;
    }
    false
}

/// Inserts `key` into strictly increasing `keys` unless a key with its text
/// is there already.
fn insert_unique(keys: &mut Vec<MetricKey>, key: MetricKey)
    requires
        strictly_increasing(key_texts(old(keys)@)),
    ensures
        strictly_increasing(key_texts(final(keys)@)),
        forall|t: Seq<char>| #[trigger] key_texts(final(keys)@).contains(t) <==> (key_texts(old(keys)@).contains(t)
            || t == key@),
{
    let ghost before = key_texts(keys@);
    let mut p: usize = 0;
    let mut stop = false;
    while p < keys.len() && !stop
        invariant
            p <= keys@.len(),
            before == key_texts(keys@),
            keys@ == old(keys)@,
            strictly_increasing(before),
            forall|i: int| 0 <= i < p ==> text_sign(#[trigger] before[i], key@) < 0,
            stop ==> p < keys@.len() && text_sign(before[p as int], key@) > 0,
        decreases keys@.len() - p + if stop { 0int } else { 1int },
    {
        let sign = text_sign_of(keys[p].as_str(), key.as_str());
        if sign == 0 {
            proof {
                lemma_text_sign(before[p as int], key@);
                assert(before[p as int] == key@);
                assert forall|t: Seq<char>| #[trigger] key_texts(keys@).contains(t) <==> (before.contains(t)
                    || t == key@) by {
                    if t == key@ {
                        assert(before[p as int] == t);
                    }
                }
            }
            return;
        }
        if sign > 0 {
            stop = true;
        } else {
            p = p + 1;
        }
    }
    proof {
        assert forall|j: int| p <= j < before.len() implies text_sign(key@, #[trigger] before[j]) < 0 by {
            lemma_text_sign(before[p as int], key@);
            if j > p {
                lemma_text_sign_chain(key@, before[p as int], before[j]);
            }
        }
    }
    keys.insert(p, key);
    proof {
        let after = key_texts(keys@);
        assert(after =~= before.insert(p as int, key@));
        assert forall|i: int, j: int| 0 <= i < j < after.len() implies text_sign(#[trigger] after[i], #[trigger] after[j]) < 0 by {
            if j < p {
            } else if j == p {
            } else if i == p {
                lemma_text_sign(key@, before[j - 1]);
            } else if i < p {
                lemma_text_sign_chain(before[i], key@, before[j - 1]);
            } else {
            }
        }
        assert forall|t: Seq<char>| #[trigger] after.contains(t) <==> (before.contains(t) || t == key@) by {
            if after.contains(t) {
                let k = choose|k: int| 0 <= k < after.len() && after[k] == t;
                if k < p {
                    assert(before[k] == t);
                } else if k > p {
                    assert(before[k - 1] == t);
                }
            }
            if before.contains(t) {
                let k = choose|k: int| 0 <= k < before.len() && before[k] == t;
                if k < p {
                    assert(after[k] == t);
                } else {
                    assert(after[k + 1] == t);
                }
            }
            if t == key@ {
                assert(after[p as int] == t);
            }
        }
    }
}

/// The Metrics the picker offers: every Metric key of a source from which a
/// shown Run was read, each text once, in character order.
pub fn available_metric_keys(visible: &Vec<RunRef>, sources: &Vec<(DataSourceId, Vec<MetricKey>)>) -> (keys: Vec<
    MetricKey,
>)
    ensures
        strictly_increasing(key_texts(keys@)),
        forall|t: Seq<char>| #[trigger] key_texts(keys@).contains(t) <==> offered_keys(
            run_views(visible@),
            sources@,
        ).contains(t),
{
    let ghost shown = run_views(visible@);
    let mut keys: Vec<MetricKey> = Vec::new();
    let mut s: usize = 0;
    proof {
        assert(sources@.take(0) =~= Seq::<(DataSourceId, Vec<MetricKey>)>::empty());
        assert(key_texts(keys@) =~= Seq::<Seq<char>>::empty());
    }
    while s < sources.len()
        invariant
            s <= sources@.len(),
            shown == run_views(visible@),
            strictly_increasing(key_texts(keys@)),
            forall|t: Seq<char>| #[trigger] key_texts(keys@).contains(t) <==> offered_keys(
                shown,
                sources@.take(s as int),
            ).contains(t),
        decreases sources@.len() - s,
    {
        let ghost done = offered_keys(shown, sources@.take(s as int));
        proof {
            assert(sources@.take(s + 1).drop_last() =~= sources@.take(s as int));
            assert(sources@.take(s + 1).last() == sources@[s as int]);
        }
        let source_keys = &sources[s].1;
        if source_shown(visible, &sources[s].0) {
            let ghost added = key_texts(source_keys@);
            let mut j: usize = 0;
            while j < source_keys.len()
                invariant
                    j <= source_keys@.len(),
                    added == key_texts(source_keys@),
                    strictly_increasing(key_texts(keys@)),
                    forall|t: Seq<char>| #[trigger] key_texts(keys@).contains(t) <==> (done.contains(t)
                        || added.take(j as int).contains(t)),
                decreases source_keys@.len() - j,
            {
                let ghost previous = key_texts(keys@);
                insert_unique(&mut keys, source_keys[j].duplicate());
                proof {
                    assert(added[j as int] == source_keys@[j as int]@);
                    assert(added.take(j + 1)[j as int] == added[j as int]);
                    assert forall|t: Seq<char>| #[trigger] key_texts(keys@).contains(t) <==> (done.contains(t)
                        || added.take(j + 1).contains(t)) by {
                        assert(added.take(j + 1) =~= added.take(j as int).push(added[j as int]));
                        if added.take(j as int).contains(t) {
                            let k = choose|k: int| 0 <= k < j && #[trigger] added.take(j as int)[k] == t;
                            assert(added.take(j + 1)[k] == t);
                        }
                        if added.take(j + 1).contains(t) {
                            let k = choose|k: int| 0 <= k < j + 1 && #[trigger] added.take(j + 1)[k] == t;
                            if k < j {
                                assert(added.take(j as int)[k] == t);
                            }
                        }
                    }
                }
                j = j + 1;
            }
            proof {
                assert(added.take(j as int) =~= added);
                assert forall|t: Seq<char>| #[trigger] key_texts(keys@).contains(t) <==> offered_keys(
                    shown,
                    sources@.take(s + 1),
                ).contains(t) by {
                    let whole = done + added;
                    assert(offered_keys(shown, sources@.take(s + 1)) == whole);
                    if done.contains(t) {
                        let k = choose|k: int| 0 <= k < done.len() && done[k] == t;
                        assert(whole[k] == t);
                    }
                    if added.contains(t) {
                        let k = choose|k: int| 0 <= k < added.len() && added[k] == t;
                        assert(whole[done.len() + k] == t);
                    }
                    if whole.contains(t) {
                        let k = choose|k: int| 0 <= k < whole.len() && whole[k] == t;
                        if k < done.len() {
                            assert(done[k] == t);
                        } else {
                            assert(added[k - done.len()] == t);
                        }
                    }
                }
            }
        } else {
            proof {
                assert(offered_keys(shown, sources@.take(s + 1)) =~= done);
            }
        }
        s = s + 1;
    }
    proof {
        assert(sources@.take(s as int) =~= sources@);
    }
    keys
}

/// Whether a Metric is a picker candidate: not chosen already, and the
/// trimmed, lower-cased filter is empty or occurs in its lower-cased text.
pub open spec fn metric_candidate(key: Seq<char>, chosen: Seq<Seq<char>>, filter: Seq<char>) -> bool {
    let q = lowercase(trimmed(filter));
    !chosen.contains(key) && (q.len() == 0 || occurs_in(lowercase(key), q))
}

/// The picker's candidates, in the order they are offered.
pub fn metric_candidates(available: &Vec<MetricKey>, chosen: &Vec<MetricKey>, filter: &str) -> (candidates: Vec<
    MetricKey,
>)
    ensures
        key_texts(candidates@) == key_texts(available@).filter(
            |k: Seq<char>| metric_candidate(k, key_texts(chosen@), filter@),
        ),
{
    let query = chars_of(to_lowercase(trim(filter).as_str()).as_str());
    let ghost pred = |k: Seq<char>| metric_candidate(k, key_texts(chosen@), filter@);
    let ghost all = key_texts(available@);
    let mut candidates: Vec<MetricKey> = Vec::new();
    let mut i: usize = 0;
    proof {
        assert(all.take(0) =~= Seq::<Seq<char>>::empty());
        reveal(Seq::filter);
        assert(key_texts(candidates@) =~= all.take(0).filter(pred));
    }
    while i < available.len()
        invariant
            i <= available@.len(),
            all == key_texts(available@),
            query@ == lowercase(trimmed(filter@)),
            pred == (|k: Seq<char>| metric_candidate(k, key_texts(chosen@), filter@)),
            key_texts(candidates@) == all.take(i as int).filter(pred),
        decreases available@.len() - i,
    {
        let key = &available[i];
        let mut taken = false;
        let mut c: usize = 0;
        while c < chosen.len()
            invariant
                c <= chosen@.len(),
                taken == exists|j: int| 0 <= j < c && key_texts(chosen@)[j] == key@,
            decreases chosen@.len() - c,
        {
            if chosen[c].same_as(key) {
                taken = true;
            }
            proof {
                assert(key_texts(chosen@)[c as int] == chosen@[c as int]@);
            }
            c = c + 1;
        }
        let keep = !taken && (query.len() == 0 || contains_chars(
            &chars_of(to_lowercase(key.as_str()).as_str()),
            &query,
        ));
        proof {
            assert(all.take(i + 1).drop_last() =~= all.take(i as int));
            assert(all.take(i + 1).last() == key@);
            reveal(Seq::filter);
            assert(keep == pred(key@));
        }
        if keep {
            let ghost prev = candidates@;
            candidates.push(key.duplicate());
            proof {
                assert(key_texts(candidates@) =~= key_texts(prev).push(key@));
            }
        }
        i = i + 1;
    }
    proof {
        assert(all.take(i as int) =~= all);
    }
    candidates
}

} // verus!
