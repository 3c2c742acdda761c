//! Aggregated series: labels with their counts, in the order in which the labels were
//! met, and the run-length counting that produces them.

use vstd::prelude::*;

verus! {

/// What a series of labelled counts holds: each label as its characters, each count as
/// a number.
pub open spec fn series_view(series: Seq<(String, usize)>) -> Seq<(Seq<char>, nat)> {
    Seq::new(series.len(), |i: int| (series[i].0@, series[i].1 as nat))
}

/// What a list of strings holds, each as its characters.
pub open spec fn texts_view(texts: Seq<String>) -> Seq<Seq<char>> {
    Seq::new(texts.len(), |i: int| texts[i]@)
}

/// The labels of a series, in its order.
pub open spec fn series_labels(series: Seq<(Seq<char>, nat)>) -> Seq<Seq<char>> {
    Seq::new(series.len(), |i: int| series[i].0)
}

/// The run-length encoding of `labels`: every maximal run of equal neighbours becomes
/// one pair of the label and the length of the run.
pub open spec fn run_lengths(labels: Seq<Seq<char>>) -> Seq<(Seq<char>, nat)>
    decreases labels.len(),
{
    if labels.len() == 0 {
        Seq::empty()
    } else {
        let before = run_lengths(labels.drop_last());
        if before.len() > 0 && before.last().0 == labels.last() {
            before.update(before.len() - 1, (labels.last(), before.last().1 + 1))
        } else {
            before.push((labels.last(), 1))
        }
    }
}

/// The labels that a series stands for, each written out as often as it was counted.
pub open spec fn expand(series: Seq<(Seq<char>, nat)>) -> Seq<Seq<char>>
    decreases series.len(),
{
    if series.len() == 0 {
        Seq::empty()
    } else {
        expand(series.drop_last()) + Seq::new(series.last().1, |i: int| series.last().0)
    }
}

/// Whether equal labels stand together in `labels`: between two equal labels there is
/// no other label.
pub open spec fn equal_labels_adjoin(labels: Seq<Seq<char>>) -> bool {
    forall|i: int, j: int, k: int|
        0 <= i < j < k < labels.len() && #[trigger] labels[i] == #[trigger] labels[k]
            ==> #[trigger] labels[j] == labels[i]
}

/// Whether `series` is a run-length encoding of `labels`: written out it gives
/// `labels`, every count is positive, and neighbouring pairs differ in their label.
pub open spec fn is_run_encoding(series: Seq<(Seq<char>, nat)>, labels: Seq<Seq<char>>) -> bool {
    &&& expand(series) == labels
    &&& forall|k: int| 0 <= k < series.len() ==> (#[trigger] series[k]).1 > 0
    &&& forall|k: int|
        0 <= k < series.len() - 1 ==> (#[trigger] series[k]).0 != series[k + 1].0
}

/// No labels give an empty series.
pub proof fn lemma_run_lengths_empty()
    ensures
        run_lengths(Seq::empty()) == Seq::<(Seq<char>, nat)>::empty(),
{
}

/// What the last pair of the run lengths is, and which labels they hold: the last pair
/// carries the last label, every pair carries a label of the input, and every label of
/// the input is carried by a pair.
pub proof fn lemma_run_lengths_labels(labels: Seq<Seq<char>>)
    ensures
        labels.len() == 0 <==> run_lengths(labels).len() == 0,
        labels.len() > 0 ==> run_lengths(labels).last().0 == labels.last(),
        forall|k: int|
            0 <= k < run_lengths(labels).len() ==> labels.contains(
                (#[trigger] run_lengths(labels)[k]).0,
            ),
        forall|i: int|
            0 <= i < labels.len() ==> series_labels(run_lengths(labels)).contains(
                #[trigger] labels[i],
            ),
    decreases labels.len(),
{
    if labels.len() > 0 {
        let shorter = labels.drop_last();
        let before = run_lengths(shorter);
        let runs = run_lengths(labels);
        lemma_run_lengths_labels(shorter);
        assert forall|k: int| 0 <= k < runs.len() implies labels.contains(
            (#[trigger] runs[k]).0,
        ) by {
            if k < before.len() && runs[k].0 == before[k].0 {
                let i = choose|i: int| 0 <= i < shorter.len() && shorter[i] == before[k].0;
                assert(labels[i] == runs[k].0);
            } else {
                assert(labels[labels.len() - 1] == runs[k].0);
            }
        }
        assert forall|i: int| 0 <= i < labels.len() implies series_labels(runs).contains(
            #[trigger] labels[i],
        ) by {
            if i < shorter.len() {
                assert(shorter[i] == labels[i]);
                let k = choose|k: int|
                    0 <= k < series_labels(before).len() && series_labels(before)[k]
                        == shorter[i];
                assert(series_labels(runs)[k] == labels[i]);
            } else {
                assert(series_labels(runs)[runs.len() - 1] == labels[i]);
            }
        }
    }
}

/// The run lengths of `labels` are a run-length encoding of them.
pub proof fn lemma_run_lengths_encode(labels: Seq<Seq<char>>)
    ensures
        is_run_encoding(run_lengths(labels), labels),
    decreases labels.len(),
{
    if labels.len() > 0 {
        let shorter = labels.drop_last();
        let before = run_lengths(shorter);
        let runs = run_lengths(labels);
        let label = labels.last();
        lemma_run_lengths_encode(shorter);
        lemma_run_lengths_labels(shorter);
        if before.len() > 0 && before.last().0 == label {
            assert(runs.drop_last() =~= before.drop_last());
            assert(expand(runs) =~= expand(before).push(label));
        } else {
            assert(runs.drop_last() =~= before);
            assert(expand(runs) =~= expand(before).push(label));
        }
        assert(expand(runs) == labels) by {
            assert(shorter.push(label) =~= labels);
        }
        assert forall|k: int| 0 <= k < runs.len() implies (#[trigger] runs[k]).1 > 0 by {
            if k < before.len() {
                assert(before[k].1 > 0);
            }
        }
        assert forall|k: int| 0 <= k < runs.len() - 1 implies (#[trigger] runs[k]).0 != runs[k
            + 1].0 by {
            if k < before.len() - 1 {
                assert(before[k].0 != before[k + 1].0);
            }
        }
    } else {
        assert(expand(run_lengths(labels)) =~= labels);
    }
}

/// Where equal labels stand together in the input, no label occurs twice in the run
/// lengths.
pub proof fn lemma_run_lengths_no_duplicates(labels: Seq<Seq<char>>)
    requires
        equal_labels_adjoin(labels),
    ensures
        series_labels(run_lengths(labels)).no_duplicates(),
    decreases labels.len(),
{
    if labels.len() > 0 {
        let shorter = labels.drop_last();
        let before = run_lengths(shorter);
        let runs = run_lengths(labels);
        let label = labels.last();
        assert(equal_labels_adjoin(shorter)) by {
            assert forall|i: int, j: int, k: int|
                0 <= i < j < k < shorter.len() && #[trigger] shorter[i] == #[trigger] shorter[k]
                implies #[trigger] shorter[j] == shorter[i] by {
                assert(labels[i] == labels[k]);
                assert(labels[j] == labels[i]);
            }
        }
        lemma_run_lengths_no_duplicates(shorter);
        lemma_run_lengths_labels(shorter);
        if before.len() > 0 && before.last().0 == label {
            assert(series_labels(runs) =~= series_labels(before));
        } else {
            assert(series_labels(runs) =~= series_labels(before).push(label));
            assert forall|k: int| 0 <= k < before.len() implies series_labels(before)[k]
                != label by {
                if before[k].0 == label {
                    let i = choose|i: int| 0 <= i < shorter.len() && shorter[i] == before[k].0;
                    let j = shorter.len() - 1;
                    assert(labels[i] == labels[labels.len() - 1]);
                    assert(shorter[j] == before.last().0);
                    assert(i < j);
                    assert(labels[j] == labels[i]);
                }
            }
        }
    }
}

/// Labels that are all the same give one pair, whose count is the number of labels.
pub proof fn lemma_run_lengths_single(labels: Seq<Seq<char>>)
    requires
        labels.len() > 0,
        forall|i: int| 0 <= i < labels.len() ==> #[trigger] labels[i] == labels[0],
    ensures
        run_lengths(labels) == seq![(labels[0], labels.len())],
    decreases labels.len(),
{
    let shorter = labels.drop_last();
    if shorter.len() == 0 {
        assert(run_lengths(shorter) =~= Seq::empty());
        assert(run_lengths(labels) =~= seq![(labels[0], labels.len())]);
    } else {
        assert(shorter[0] == labels[0]);
        lemma_run_lengths_single(shorter);
        assert(run_lengths(labels) =~= seq![(labels[0], labels.len())]);
    }
}

/// The position in the input at which the pair `k` of a series begins: the sum of the
/// counts before it.
pub open spec fn run_start(series: Seq<(Seq<char>, nat)>, k: int) -> int
    decreases k,
{
    if k <= 0 {
        0
    } else {
        run_start(series, k - 1) + series[k - 1].1
    }
}

/// Written out, the first `k` pairs of a series come first, and they fill the
/// positions before the start of pair `k`.
proof fn lemma_expand_prefix(series: Seq<(Seq<char>, nat)>, k: int)
    requires
        0 <= k <= series.len(),
    ensures
        0 <= run_start(series, k) <= expand(series).len(),
        expand(series.take(k)).len() == run_start(series, k),
        expand(series.take(k)) == expand(series).take(run_start(series, k)),
    decreases series.len() - k,
{
    if k == series.len() {
        assert(series.take(k) =~= series);
        lemma_expand_length(series);
        assert(expand(series).take(expand(series).len() as int) =~= expand(series));
    } else {
        lemma_expand_prefix(series, k + 1);
        let longer = series.take(k + 1);
        assert(longer.drop_last() =~= series.take(k));
        assert(longer.last() == series[k]);
        lemma_expand_length(series.take(k));
        lemma_run_start_take(series, k, k);
        assert(expand(series.take(k)) =~= expand(series).take(run_start(series, k)));
    }
}

/// The start of a pair depends only on the pairs before it.
proof fn lemma_run_start_take(series: Seq<(Seq<char>, nat)>, prefix: int, k: int)
    requires
        0 <= k <= prefix <= series.len(),
    ensures
        run_start(series.take(prefix), k) == run_start(series, k),
    decreases k,
{
    if k > 0 {
        lemma_run_start_take(series, prefix, k - 1);
    }
}

/// Written out, a series is as long as its counts add up to.
proof fn lemma_expand_length(series: Seq<(Seq<char>, nat)>)
    ensures
        expand(series).len() == run_start(series, series.len() as int),
    decreases series.len(),
{
    if series.len() > 0 {
        lemma_expand_length(series.drop_last());
        lemma_run_start_take(series, series.len() - 1, series.len() - 1);
        assert(series.take(series.len() - 1) =~= series.drop_last());
    }
}

/// The pairs of the run lengths follow the input: pair `k` stands for the labels from
/// its start on, as many as its count says, and all of them are its label. The counts
/// of all pairs add up to the number of labels.
pub proof fn lemma_run_lengths_follow_input(labels: Seq<Seq<char>>, k: int, offset: int)
    requires
        0 <= k < run_lengths(labels).len(),
        0 <= offset < run_lengths(labels)[k].1,
    ensures
        0 <= run_start(run_lengths(labels), k) + offset < labels.len(),
        labels[run_start(run_lengths(labels), k) + offset] == run_lengths(labels)[k].0,
        run_start(run_lengths(labels), run_lengths(labels).len() as int) == labels.len(),
{
    let runs = run_lengths(labels);
    lemma_run_lengths_encode(labels);
    lemma_expand_length(runs);
    lemma_expand_prefix(runs, k);
    lemma_expand_prefix(runs, k + 1);
    let longer = runs.take(k + 1);
    assert(longer.drop_last() =~= runs.take(k));
    assert(longer.last() == runs[k]);
    let position = run_start(runs, k) + offset;
    assert(expand(longer)[position] == runs[k].0);
    assert(expand(longer)[position] == expand(runs).take(run_start(runs, k + 1))[position]);
}

/// A later pair begins at a later position of the input.
pub proof fn lemma_run_starts_ascend(labels: Seq<Seq<char>>, k: int, l: int)
    requires
        0 <= k < l <= run_lengths(labels).len(),
    ensures
        run_start(run_lengths(labels), k) < run_start(run_lengths(labels), l),
    decreases l - k,
{
    lemma_run_lengths_encode(labels);
    assert(run_lengths(labels)[l - 1].1 > 0);
    if k < l - 1 {
        lemma_run_starts_ascend(labels, k, l - 1);
    }
}

/// Only the run lengths encode their input: a series that written out gives `labels`,
/// with positive counts and with neighbours that differ in their label, is the run
/// lengths of `labels`.
pub proof fn lemma_run_encoding_unique(series: Seq<(Seq<char>, nat)>, labels: Seq<Seq<char>>)
    requires
        is_run_encoding(series, labels),
    ensures
        series == run_lengths(labels),
    decreases labels.len(),
{
    if series.len() == 0 {
        assert(series =~= run_lengths(labels));
    } else {
        let pair = series.last();
        let rest = series.drop_last();
        let tail = Seq::new(pair.1, |i: int| pair.0);
        assert(expand(series) == expand(rest) + tail);
        assert(tail[pair.1 - 1] == pair.0);
        assert(labels.last() == pair.0);
        let shorter = labels.drop_last();
        let fewer = if pair.1 == 1 {
            rest
        } else {
            rest.push((pair.0, (pair.1 - 1) as nat))
        };
        assert(is_run_encoding(fewer, shorter)) by {
            if pair.1 == 1 {
                assert(tail =~= seq![pair.0]);
                assert(shorter =~= expand(rest));
                assert forall|k: int| 0 <= k < fewer.len() implies (#[trigger] fewer[k]).1
                    > 0 by {
                    assert(series[k].1 > 0);
                }
                assert forall|k: int| 0 <= k < fewer.len() - 1 implies (#[trigger] fewer[k]).0
                    != fewer[k + 1].0 by {
                    assert(series[k].0 != series[k + 1].0);
                }
            } else {
                let shorter_tail = Seq::new((pair.1 - 1) as nat, |i: int| pair.0);
                assert(fewer.drop_last() =~= rest);
                assert(tail.drop_last() =~= shorter_tail);
                assert(expand(fewer) == expand(rest) + shorter_tail);
                assert(shorter =~= expand(fewer));
                assert forall|k: int| 0 <= k < fewer.len() implies (#[trigger] fewer[k]).1
                    > 0 by {
                    assert(series[k].1 > 0);
                }
                assert forall|k: int| 0 <= k < fewer.len() - 1 implies (#[trigger] fewer[k]).0
                    != fewer[k + 1].0 by {
                    assert(series[k].0 != series[k + 1].0);
                }
            }
        }
        lemma_run_encoding_unique(fewer, shorter);
        if pair.1 == 1 {
            if rest.len() > 0 {
                assert(series[rest.len() - 1].0 != series[rest.len() - 1 + 1].0);
            }
            assert(series =~= run_lengths(labels));
        } else {
            assert(series =~= run_lengths(labels));
        }
    }
}

/// Counts the runs of equal neighbours in `labels`.
///
/// The labels are scanned once; a pair is emitted whenever the label changes, and the
/// last run is emitted after the scan. No labels give no pairs.
pub fn count_label_runs(labels: &Vec<String>) -> (counts: Vec<(String, usize)>)
    ensures
        series_view(counts@) == run_lengths(texts_view(labels@)),
{
    let mut counts: Vec<(String, usize)> = Vec::new();
    if labels.len() == 0 {
        assert(series_view(counts@) =~= run_lengths(texts_view(labels@)));
        return counts;
    }
    let ghost all = texts_view(labels@);
    let mut current: String = labels[0].clone();
    let mut count: usize = 1;
    let mut index: usize = 1;
    proof {
        assert(all.take(1).drop_last() =~= Seq::<Seq<char>>::empty());
        assert(run_lengths(all.take(1).drop_last()) =~= Seq::<(Seq<char>, nat)>::empty());
        assert(all.take(1).last() == current@);
        assert(run_lengths(all.take(1)) =~= series_view(counts@).push((current@, 1nat)));
    }
    while index < labels.len()
        invariant
            1 <= index <= labels.len(),
            1 <= count <= index,
            all == texts_view(labels@),
            run_lengths(all.take(index as int)) == series_view(counts@).push(
                (current@, count as nat),
            ),
        decreases labels.len() - index,
    {
        let ghost before = series_view(counts@).push((current@, count as nat));
        proof {
            assert(all.take(index + 1).drop_last() =~= all.take(index as int));
            assert(all.take(index + 1).last() == labels@[index as int]@);
        }
        if labels[index] == current {
            count += 1;
            proof {
                assert(series_view(counts@).push((current@, count as nat)) =~= before.update(
                    before.len() - 1,
                    (current@, count as nat),
                ));
            }
        } else {
            counts.push((current, count));
            current = labels[index].clone();
            count = 1;
            proof {
                assert(series_view(counts@) =~= before);
            }
        }
        index += 1;
    }
    proof {
        assert(all.take(index as int) =~= all);
    }
    let ghost before = series_view(counts@).push((current@, count as nat));
    counts.push((current, count));
    assert(series_view(counts@) =~= before);
    counts
}

} // verus!
