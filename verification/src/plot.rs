//! Plot tasks and what is computed for a chart: colours, reconciled series, ratios and
//! the names of the files that go with a chart.

pub use crate::bucket::TimeResolution;
use crate::series::{series_labels, series_view, texts_view};
use vstd::prelude::*;
use vstd::string::{StrSliceExecFns, StringExecFns};

verus! {

/// What a task measures.
#[derive(Debug, PartialEq, Eq, Clone)]
pub enum Metric {
    /// The number of messages that contain a pattern.
    MentionCount { channel_pattern: String, message_pattern: String },
    /// The share of the messages with the first pattern among those with either.
    StringMessageCountRatio {
        channel_pattern: String,
        message_pattern1: String,
        message_pattern2: String,
    },
}

/// One chart to make: what to measure, at which resolution, where to write it and in
/// which colours.
#[derive(Debug, PartialEq, Eq, Clone)]
pub struct PlotTask {
    pub metric: Metric,
    pub resolution: TimeResolution,
    pub output_file_name: String,
    pub colors: Option<Vec<String>>,
}

/// A colour by its red, green and blue parts.
#[derive(Debug, PartialEq, Eq, Clone, Copy, Structural)]
pub struct Rgb {
    pub red: u8,
    pub green: u8,
    pub blue: u8,
}

/// Why a text is not a colour.
#[derive(Debug, PartialEq, Eq, Clone, Copy, Structural)]
pub enum ColorError {
    /// The text does not have six characters after its leading hash signs.
    Length,
    /// One of the six characters is not a digit in base sixteen.
    Digit,
}

/// The value of `c` as a digit in base sixteen, in either case of the letters.
pub open spec fn hex_digit_value(c: char) -> Option<int> {
    if '0' <= c <= '9' {
        Some(c as int - '0' as int)
    } else if 'a' <= c <= 'f' {
        Some(c as int - 'a' as int + 10)
    } else if 'A' <= c <= 'F' {
        Some(c as int - 'A' as int + 10)
    } else {
        None
    }
}

/// The number that the two digits `high` and `low` denote in base sixteen, or `None`
/// where one of them is no such digit.
pub open spec fn hex_pair_value(high: char, low: char) -> Option<int> {
    match (hex_digit_value(high), hex_digit_value(low)) {
        (Some(sixteens), Some(ones)) => Some(16 * sixteens + ones),
        _ => None,
    }
}

/// `text` without its leading hash signs.
pub open spec fn strip_hashes(text: Seq<char>) -> Seq<char>
    decreases text.len(),
{
    if text.len() > 0 && text[0] == '#' {
        strip_hashes(text.drop_first())
    } else {
        text
    }
}

/// The colour that `text` denotes: after any leading hash signs, exactly six digits in
/// base sixteen, two each for red, green and blue.
pub open spec fn spec_rgb_from_hex(text: Seq<char>) -> Result<Rgb, ColorError> {
    let hex = strip_hashes(text);
    if hex.len() != 6 {
        Err(ColorError::Length)
    } else {
        match (
            hex_pair_value(hex[0], hex[1]),
            hex_pair_value(hex[2], hex[3]),
            hex_pair_value(hex[4], hex[5]),
        ) {
            (Some(red), Some(green), Some(blue)) => Ok(
                Rgb { red: red as u8, green: green as u8, blue: blue as u8 },
            ),
            _ => Err(ColorError::Digit),
        }
    }
}

/// Once the first `start` characters are hash signs and the next one is not, the
/// text without its leading hash signs is the rest.
proof fn lemma_strip_hashes(text: Seq<char>, start: int)
    requires
        0 <= start <= text.len(),
        forall|i: int| 0 <= i < start ==> text[i] == '#',
        start == text.len() || text[start] != '#',
    ensures
        strip_hashes(text) == text.skip(start),
    decreases start,
{
    if start > 0 {
        lemma_strip_hashes(text.drop_first(), start - 1);
        assert(text.drop_first().skip(start - 1) =~= text.skip(start));
    } else {
        assert(text.skip(0) =~= text);
    }
}

fn hex_digit(c: char) -> (value: Option<u8>)
    ensures
        value matches Some(v) ==> hex_digit_value(c) == Some(v as int) && v < 16,
        value is None ==> hex_digit_value(c) is None,
{
    if '0' <= c && c <= '9' {
        Some((c as u32 - '0' as u32) as u8)
    } else if 'a' <= c && c <= 'f' {
        Some((c as u32 - 'a' as u32 + 10) as u8)
    } else if 'A' <= c && c <= 'F' {
        Some((c as u32 - 'A' as u32 + 10) as u8)
    } else {
        None
    }
}

fn hex_pair(high: char, low: char) -> (value: Option<u8>)
    ensures
        value matches Some(v) ==> hex_pair_value(high, low) == Some(v as int),
        value is None ==> hex_pair_value(high, low) is None,
{
    match (hex_digit(high), hex_digit(low)) {
        (Some(sixteens), Some(ones)) => Some(16 * sixteens + ones),
        _ => None,
    }
}

impl Rgb {
    /// The colour used where a task names none, or names one that cannot be read: blue.
    pub open spec fn spec_fallback() -> Rgb {
        Rgb { red: 0, green: 0, blue: 255 }
    }

    /// Returns the colour used where a task names none, or names one that cannot be
    /// read.
    #[verifier::when_used_as_spec(spec_fallback)]
    pub fn fallback() -> (color: Rgb)
        ensures
            color == Rgb::spec_fallback(),
    {
        Rgb { red: 0, green: 0, blue: 255 }
    }
}

impl PlotTask {
    /// Reads a colour from a text such as `#007f94`.
    ///
    /// Leading hash signs are skipped. What follows must be exactly six digits in base
    /// sixteen, in either case of the letters.
    pub fn rgb_from_hex(hex_str: &str) -> (color: Result<Rgb, ColorError>)
        ensures
            color == spec_rgb_from_hex(hex_str@),
    {
        let len = hex_str.unicode_len();
        let mut start: usize = 0;
        while start < len && hex_str.get_char(start) == '#'
            invariant
                start <= len,
                len == hex_str@.len(),
                forall|i: int| 0 <= i < start ==> hex_str@[i] == '#',
            decreases len - start,
        {
            start += 1;
        }
        proof {
            lemma_strip_hashes(hex_str@, start as int);
        }
        if len - start != 6 {
            return Err(ColorError::Length);
        }
        let red = hex_pair(hex_str.get_char(start), hex_str.get_char(start + 1));
        let green = hex_pair(hex_str.get_char(start + 2), hex_str.get_char(start + 3));
        let blue = hex_pair(hex_str.get_char(start + 4), hex_str.get_char(start + 5));
        match (red, green, blue) {
            (Some(red), Some(green), Some(blue)) => Ok(Rgb { red, green, blue }),
            _ => Err(ColorError::Digit),
        }
    }

    /// The colour at `index` of the task's colours, or the fallback colour where the
    /// task has no colour there or that colour cannot be read.
    pub open spec fn spec_custom_color(&self, index: int) -> Rgb {
        match self.colors {
            Some(colors) => if 0 <= index < colors.len() {
                match spec_rgb_from_hex(colors[index]@) {
                    Ok(color) => color,
                    Err(_) => Rgb::spec_fallback(),
                }
            } else {
                Rgb::spec_fallback()
            },
            None => Rgb::spec_fallback(),
        }
    }

    /// Returns the colour at `index` of the task's colours, or the fallback colour where
    /// the task has no colour there or that colour cannot be read.
    pub fn custom_color(&self, index: usize) -> (color: Rgb)
        ensures
            color == self.spec_custom_color(index as int),
    {
        if let Some(colors) = &self.colors {
            if index < colors.len() {
                return match PlotTask::rgb_from_hex(colors[index].as_str()) {
                    Ok(color) => color,
                    Err(_) => Rgb::fallback(),
                };
            }
        }
        Rgb::fallback()
    }
}

/// The labels that both series hold.
pub open spec fn shared_labels(
    first: Seq<(Seq<char>, nat)>,
    second: Seq<(Seq<char>, nat)>,
) -> Set<Seq<char>> {
    series_labels(first).to_set().intersect(series_labels(second).to_set())
}

/// The pairs of `series` whose label is in `labels`, in the order of `series`.
pub open spec fn restrict(series: Seq<(Seq<char>, nat)>, labels: Set<Seq<char>>) -> Seq<
    (Seq<char>, nat),
> {
    series.filter(|pair: (Seq<char>, nat)| labels.contains(pair.0))
}

/// What restricting a series without repeated labels keeps: again no label twice, and
/// exactly the labels of the series that are in `labels`.
pub proof fn lemma_restrict_labels(series: Seq<(Seq<char>, nat)>, labels: Set<Seq<char>>)
    requires
        series_labels(series).no_duplicates(),
    ensures
        series_labels(restrict(series, labels)).no_duplicates(),
        series_labels(restrict(series, labels)).to_set() == series_labels(
            series,
        ).to_set().intersect(labels),
    decreases series.len(),
{
    let keeps = |pair: (Seq<char>, nat)| labels.contains(pair.0);
    if series.len() == 0 {
        series.lemma_filter_len(keeps);
        assert(series_labels(restrict(series, labels)).to_set() =~= series_labels(
            series,
        ).to_set().intersect(labels));
    } else {
        let shorter = series.drop_last();
        let pair = series.last();
        let kept = restrict(shorter, labels);
        assert(series =~= shorter.push(pair));
        assert(series_labels(shorter) =~= series_labels(series).drop_last());
        assert(series_labels(shorter).no_duplicates());
        lemma_restrict_labels(shorter, labels);
        shorter.lemma_filter_push(pair, keeps);
        assert forall|i: int| 0 <= i < shorter.len() implies (#[trigger] shorter[i]).0
            != pair.0 by {
            assert(series_labels(series)[i] == shorter[i].0);
            assert(series_labels(series)[series.len() - 1] == pair.0);
        }
        assert(!series_labels(shorter).to_set().contains(pair.0)) by {
            if series_labels(shorter).contains(pair.0) {
                let i = choose|i: int|
                    0 <= i < series_labels(shorter).len() && series_labels(shorter)[i] == pair.0;
                assert(shorter[i].0 == pair.0);
            }
        }
        assert(series_labels(series) =~= series_labels(shorter).push(pair.0));
        series_labels(shorter).lemma_push_to_set_commute(pair.0);
        if labels.contains(pair.0) {
            assert(restrict(series, labels) == kept.push(pair));
            assert(series_labels(kept.push(pair)) =~= series_labels(kept).push(pair.0));
            series_labels(kept).lemma_push_to_set_commute(pair.0);
            assert(!series_labels(kept).to_set().contains(pair.0));
            assert forall|i: int| 0 <= i < series_labels(kept).len() implies series_labels(
                kept,
            )[i] != pair.0 by {
                assert(series_labels(kept).contains(series_labels(kept)[i]));
            }
        }
        assert(series_labels(restrict(series, labels)).to_set() =~= series_labels(
            series,
        ).to_set().intersect(labels));
    }
}

/// Two series that have no label in common are both reconciled to nothing.
pub proof fn lemma_disjoint_series_reconcile_empty(
    first: Seq<(Seq<char>, nat)>,
    second: Seq<(Seq<char>, nat)>,
)
    requires
        series_labels(first).to_set().disjoint(series_labels(second).to_set()),
    ensures
        restrict(first, shared_labels(first, second)).len() == 0,
        restrict(second, shared_labels(first, second)).len() == 0,
{
    let shared = shared_labels(first, second);
    let keeps = |pair: (Seq<char>, nat)| shared.contains(pair.0);
    if restrict(first, shared).len() > 0 {
        first.lemma_filter_pred(keeps, 0);
    }
    if restrict(second, shared).len() > 0 {
        second.lemma_filter_pred(keeps, 0);
    }
}

/// Two series in each of which no label occurs twice are reconciled to series of the
/// same length, and each of them holds the labels that the two have in common, each
/// once, and no others.
pub proof fn lemma_reconciled_series_align(
    first: Seq<(Seq<char>, nat)>,
    second: Seq<(Seq<char>, nat)>,
)
    requires
        series_labels(first).no_duplicates(),
        series_labels(second).no_duplicates(),
    ensures
        restrict(first, shared_labels(first, second)).len() == restrict(
            second,
            shared_labels(first, second),
        ).len(),
        series_labels(restrict(first, shared_labels(first, second))).no_duplicates(),
        series_labels(restrict(second, shared_labels(first, second))).no_duplicates(),
        series_labels(restrict(first, shared_labels(first, second))).to_set() == shared_labels(
            first,
            second,
        ),
        series_labels(restrict(second, shared_labels(first, second))).to_set() == shared_labels(
            first,
            second,
        ),
{
    let shared = shared_labels(first, second);
    lemma_restrict_labels(first, shared);
    lemma_restrict_labels(second, shared);
    let labels1 = series_labels(restrict(first, shared));
    let labels2 = series_labels(restrict(second, shared));
    assert(labels1.to_set() =~= shared);
    assert(labels2.to_set() =~= shared);
    labels1.unique_seq_to_set();
    labels2.unique_seq_to_set();
}

/// Restricting a series keeps its order: two pairs that are kept stand in the series
/// in the order in which they stand in what is kept.
pub proof fn lemma_restrict_keeps_order(
    series: Seq<(Seq<char>, nat)>,
    labels: Set<Seq<char>>,
    i: int,
    j: int,
)
    requires
        0 <= i < j < restrict(series, labels).len(),
    ensures
        exists|p: int, q: int|
            0 <= p < q < series.len() && #[trigger] series[p] == restrict(series, labels)[i]
                && #[trigger] series[q] == restrict(series, labels)[j],
    decreases series.len(),
{
    let keeps = |pair: (Seq<char>, nat)| labels.contains(pair.0);
    series.lemma_filter_len(keeps);
    let shorter = series.drop_last();
    let pair = series.last();
    let kept = restrict(shorter, labels);
    assert(series =~= shorter.push(pair));
    shorter.lemma_filter_push(pair, keeps);
    if j < kept.len() {
        lemma_restrict_keeps_order(shorter, labels, i, j);
        let (p, q) = choose|p: int, q: int|
            0 <= p < q < shorter.len() && #[trigger] shorter[p] == kept[i]
                && #[trigger] shorter[q] == kept[j];
        assert(series[p] == restrict(series, labels)[i] && series[q] == restrict(
            series,
            labels,
        )[j]);
    } else {
        assert(restrict(series, labels) == kept.push(pair));
        assert(shorter.contains(kept[i])) by {
            assert(kept.contains(kept[i]));
            shorter.lemma_filter_contains_rev(keeps, kept[i]);
        }
        let p = choose|p: int| 0 <= p < shorter.len() && shorter[p] == kept[i];
        let q = series.len() - 1;
        assert(series[p] == restrict(series, labels)[i] && series[q] == restrict(
            series,
            labels,
        )[j]);
    }
}

/// Tells whether `label` is among `labels`.
fn has_text(labels: &Vec<String>, label: &String) -> (found: bool)
    ensures
        found == texts_view(labels@).contains(label@),
{
    let mut index: usize = 0;
    while index < labels.len()
        invariant
            index <= labels.len(),
            forall|i: int| 0 <= i < index ==> texts_view(labels@)[i] != label@,
        decreases labels.len() - index,
    {
        if labels[index] == *label {
            assert(texts_view(labels@)[index as int] == label@);
            return true;
        }
        index += 1;
    }
    false
}

/// Returns the labels of `message_counts`, each once, in the order in which they are
/// first met.
pub fn label_set(message_counts: &Vec<(String, usize)>) -> (labels: Vec<String>)
    ensures
        texts_view(labels@).no_duplicates(),
        texts_view(labels@).to_set() == series_labels(series_view(message_counts@)).to_set(),
{
    let ghost all = series_labels(series_view(message_counts@));
    let mut labels: Vec<String> = Vec::new();
    let mut index: usize = 0;
    while index < message_counts.len()
        invariant
            index <= message_counts.len(),
            all == series_labels(series_view(message_counts@)),
            texts_view(labels@).no_duplicates(),
            forall|text: Seq<char>|
                texts_view(labels@).contains(text) <==> all.take(index as int).contains(text),
        decreases message_counts.len() - index,
    {
        let ghost before = texts_view(labels@);
        let ghost label = message_counts[index as int].0@;
        proof {
            let shorter = all.take(index as int);
            let longer = all.take(index + 1);
            assert(longer =~= shorter.push(label));
            assert forall|text: Seq<char>| longer.contains(text) <==> (shorter.contains(text)
                || text == label) by {
                if longer.contains(text) {
                    let i = choose|i: int| 0 <= i < longer.len() && longer[i] == text;
                    if i < index {
                        assert(shorter[i] == text);
                    }
                }
                if shorter.contains(text) {
                    let i = choose|i: int| 0 <= i < shorter.len() && shorter[i] == text;
                    assert(longer[i] == text);
                }
                if text == label {
                    assert(longer[index as int] == text);
                }
            }
        }
        if !has_text(&labels, &message_counts[index].0) {
            labels.push(message_counts[index].0.clone());
            proof {
                let after = texts_view(labels@);
                assert(after =~= before.push(label));
                assert forall|text: Seq<char>| after.contains(text) <==> (before.contains(text)
                    || text == label) by {
                    if after.contains(text) {
                        let i = choose|i: int| 0 <= i < after.len() && after[i] == text;
                        if i < before.len() {
                            assert(before[i] == text);
                        }
                    }
                    if before.contains(text) {
                        let i = choose|i: int| 0 <= i < before.len() && before[i] == text;
                        assert(after[i] == text);
                    }
                    if text == label {
                        assert(after[before.len() as int] == text);
                    }
                }
            }
        }
        index += 1;
    }
    proof {
        assert(all.take(index as int) =~= all);
        assert(texts_view(labels@).to_set() =~= all.to_set());
    }
    labels
}

/// Keeps the pairs of `series` whose label is both in `labels1` and in `labels2`.
fn keep_shared(series: &Vec<(String, usize)>, labels1: &Vec<String>, labels2: &Vec<String>) -> (kept:
    Vec<(String, usize)>)
    ensures
        series_view(kept@) == restrict(
            series_view(series@),
            texts_view(labels1@).to_set().intersect(texts_view(labels2@).to_set()),
        ),
{
    let ghost shared = texts_view(labels1@).to_set().intersect(texts_view(labels2@).to_set());
    let ghost keeps = |pair: (Seq<char>, nat)| shared.contains(pair.0);
    let ghost all = series_view(series@);
    let mut kept: Vec<(String, usize)> = Vec::new();
    let mut index: usize = 0;
    proof {
        assert(all.take(0) =~= Seq::empty());
        Seq::<(Seq<char>, nat)>::empty().lemma_filter_len(keeps);
        assert(series_view(kept@) =~= all.take(0).filter(keeps));
    }
    while index < series.len()
        invariant
            index <= series.len(),
            all == series_view(series@),
            shared == texts_view(labels1@).to_set().intersect(texts_view(labels2@).to_set()),
            keeps == |pair: (Seq<char>, nat)| shared.contains(pair.0),
            series_view(kept@) == all.take(index as int).filter(keeps),
        decreases series.len() - index,
    {
        let ghost before = series_view(kept@);
        let ghost pair = all[index as int];
        proof {
            assert(all.take(index + 1) =~= all.take(index as int).push(pair));
            all.take(index as int).lemma_filter_push(pair, keeps);
        }
        if has_text(labels1, &series[index].0) && has_text(labels2, &series[index].0) {
            kept.push((series[index].0.clone(), series[index].1));
            proof {
                assert(series_view(kept@) =~= before.push(pair));
            }
        }
        index += 1;
    }
    proof {
        assert(all.take(index as int) =~= all);
    }
    kept
}

/// Reconciles two series: each is cut down to the pairs whose label occurs in both,
/// and keeps its own order.
pub fn consolidate_labels(
    message_counts1: Vec<(String, usize)>,
    message_counts2: Vec<(String, usize)>,
) -> (reconciled: (Vec<(String, usize)>, Vec<(String, usize)>))
    ensures
        series_view(reconciled.0@) == restrict(
            series_view(message_counts1@),
            shared_labels(series_view(message_counts1@), series_view(message_counts2@)),
        ),
        series_view(reconciled.1@) == restrict(
            series_view(message_counts2@),
            shared_labels(series_view(message_counts1@), series_view(message_counts2@)),
        ),
{
    let labels1 = label_set(&message_counts1);
    let labels2 = label_set(&message_counts2);
    let filtered_message_counts1 = keep_shared(&message_counts1, &labels1, &labels2);
    let filtered_message_counts2 = keep_shared(&message_counts2, &labels1, &labels2);
    (filtered_message_counts1, filtered_message_counts2)
}

/// A share as a fraction of whole numbers. The denominator is never zero and the
/// numerator never exceeds it.
#[derive(Debug, PartialEq, Eq, Clone, Copy, Structural)]
pub struct Ratio {
    pub numerator: u128,
    pub denominator: u128,
}

/// The share of `count1` in the sum of `count1` and `count2`. Where both are zero the
/// share is zero, zero over one.
pub open spec fn ratio_of(count1: nat, count2: nat) -> Ratio {
    if count1 + count2 == 0 {
        Ratio { numerator: 0, denominator: 1 }
    } else {
        Ratio { numerator: count1 as u128, denominator: (count1 + count2) as u128 }
    }
}

/// The smallest of three lengths.
pub open spec fn shortest(a: nat, b: nat, c: nat) -> nat {
    if a <= b && a <= c {
        a
    } else if b <= c {
        b
    } else {
        c
    }
}

/// The ratio series of two aligned series under `labels`: position by position, the
/// label and the share of the first count in the sum of both. The series ends where
/// the shortest of the three ends.
pub open spec fn ratio_series(
    labels: Seq<Seq<char>>,
    first: Seq<(Seq<char>, nat)>,
    second: Seq<(Seq<char>, nat)>,
) -> Seq<(Seq<char>, Ratio)> {
    Seq::new(
        shortest(labels.len(), first.len(), second.len()),
        |i: int| (labels[i], ratio_of(first[i].1, second[i].1)),
    )
}

/// What a series of labelled ratios holds, each label as its characters.
pub open spec fn ratios_view(ratios: Seq<(String, Ratio)>) -> Seq<(Seq<char>, Ratio)> {
    Seq::new(ratios.len(), |i: int| (ratios[i].0@, ratios[i].1))
}

/// Computes for every label the share of the first count in the sum of both counts.
///
/// The three lists are read position by position, up to the end of the shortest. A
/// position where both counts are zero gets the ratio zero.
pub fn calculate_time_series_ratios(
    labels: &Vec<String>,
    message_counts1: &Vec<(String, usize)>,
    message_counts2: &Vec<(String, usize)>,
) -> (ratios: Vec<(String, Ratio)>)
    ensures
        ratios_view(ratios@) == ratio_series(
            texts_view(labels@),
            series_view(message_counts1@),
            series_view(message_counts2@),
        ),
        forall|i: int|
            0 <= i < ratios.len() ==> 0 < (#[trigger] ratios[i]).1.denominator
                && ratios[i].1.numerator <= ratios[i].1.denominator,
{
    let mut len = labels.len();
    if message_counts1.len() < len {
        len = message_counts1.len();
    }
    if message_counts2.len() < len {
        len = message_counts2.len();
    }
    let mut ratios: Vec<(String, Ratio)> = Vec::new();
    let mut index: usize = 0;
    while index < len
        invariant
            index <= len,
            len == shortest(
                labels.len() as nat,
                message_counts1.len() as nat,
                message_counts2.len() as nat,
            ),
            ratios.len() == index,
            forall|i: int|
                0 <= i < index ==> (#[trigger] ratios[i]).0@ == labels[i]@ && ratios[i].1
                    == ratio_of(message_counts1[i].1 as nat, message_counts2[i].1 as nat),
            forall|i: int|
                0 <= i < index ==> 0 < (#[trigger] ratios[i]).1.denominator
                    && ratios[i].1.numerator <= ratios[i].1.denominator,
        decreases len - index,
    {
        let count1 = message_counts1[index].1 as u128;
        let count2 = message_counts2[index].1 as u128;
        let ratio = if count1 + count2 == 0 {
            Ratio { numerator: 0, denominator: 1 }
        } else {
            Ratio { numerator: count1, denominator: count1 + count2 }
        };
        ratios.push((labels[index].clone(), ratio));
        index += 1;
    }
    assert(ratios_view(ratios@) =~= ratio_series(
        texts_view(labels@),
        series_view(message_counts1@),
        series_view(message_counts2@),
    ));
    ratios
}

/// The name of the table that goes with a chart: the name of the chart's file, then a
/// hyphen and the description where there is one, then `.csv`.
pub open spec fn spec_csv_file_name(
    description: Option<Seq<char>>,
    output_file_name: Seq<char>,
) -> Seq<char> {
    match description {
        Some(description) => output_file_name + "-"@ + description + ".csv"@,
        None => output_file_name + ".csv"@,
    }
}

/// Returns the name of the table that goes with the chart in `output_file_name`.
pub fn csv_file_name(description: Option<&str>, output_file_name: &str) -> (name: String)
    ensures
        name@ == spec_csv_file_name(
            match description {
                Some(description) => Some(description@),
                None => None,
            },
            output_file_name@,
        ),
{
    let mut name = String::from_str(output_file_name);
    if let Some(description) = description {
        name.append("-");
        name.append(description);
    }
    name.append(".csv");
    name
}

/// Whether `largest` is the largest count of `series`, or zero where the series is
/// empty.
pub open spec fn is_largest_count(largest: nat, series: Seq<(Seq<char>, nat)>) -> bool {
    &&& forall|i: int| 0 <= i < series.len() ==> (#[trigger] series[i]).1 <= largest
    &&& if series.len() == 0 {
        largest == 0
    } else {
        exists|i: int| 0 <= i < series.len() && (#[trigger] series[i]).1 == largest
    }
}

/// Returns the largest count of `message_counts`, or zero where there is none.
pub fn largest_count(message_counts: &Vec<(String, usize)>) -> (largest: usize)
    ensures
        is_largest_count(largest as nat, series_view(message_counts@)),
{
    let ghost series = series_view(message_counts@);
    let mut largest: usize = 0;
    let mut index: usize = 0;
    while index < message_counts.len()
        invariant
            index <= message_counts.len(),
            series == series_view(message_counts@),
            is_largest_count(largest as nat, series.take(index as int)),
        decreases message_counts.len() - index,
    {
        let ghost before = series.take(index as int);
        let ghost after = series.take(index + 1);
        let ghost previous = largest;
        if message_counts[index].1 > largest {
            largest = message_counts[index].1;
        }
        proof {
            assert forall|i: int| 0 <= i < after.len() implies (#[trigger] after[i]).1
                <= largest by {
                if i < index {
                    assert(before[i].1 <= previous);
                }
            }
            if largest == previous && index > 0 {
                let i = choose|i: int| 0 <= i < before.len() && (#[trigger] before[i]).1 == previous;
                assert(after[i].1 == largest);
            } else {
                assert(after[index as int].1 == largest);
            }
        }
        index += 1;
    }
    assert(series.take(index as int) =~= series);
    largest
}

/// Returns the labels of `message_counts`, one for each pair, in their order.
pub fn labels_of(message_counts: &Vec<(String, usize)>) -> (labels: Vec<String>)
    ensures
        texts_view(labels@) == series_labels(series_view(message_counts@)),
{
    let mut labels: Vec<String> = Vec::new();
    let mut index: usize = 0;
    while index < message_counts.len()
        invariant
            index <= message_counts.len(),
            labels.len() == index,
            forall|i: int| 0 <= i < index ==> (#[trigger] labels[i])@ == message_counts[i].0@,
        decreases message_counts.len() - index,
    {
        labels.push(message_counts[index].0.clone());
        index += 1;
    }
    assert(texts_view(labels@) =~= series_labels(series_view(message_counts@)));
    labels
}

/// Returns a copy of `message_counts`.
pub fn copy_series(message_counts: &Vec<(String, usize)>) -> (copy: Vec<(String, usize)>)
    ensures
        series_view(copy@) == series_view(message_counts@),
{
    let mut copy: Vec<(String, usize)> = Vec::new();
    let mut index: usize = 0;
    while index < message_counts.len()
        invariant
            index <= message_counts.len(),
            copy.len() == index,
            forall|i: int|
                0 <= i < index ==> (#[trigger] copy[i]).0@ == message_counts[i].0@ && copy[i].1
                    == message_counts[i].1,
        decreases message_counts.len() - index,
    {
        copy.push((message_counts[index].0.clone(), message_counts[index].1));
        index += 1;
    }
    assert(series_view(copy@) =~= series_view(message_counts@));
    copy
}

/// What a list of colours holds, each as its characters.
pub open spec fn colors_view(colors: Option<Vec<String>>) -> Option<Seq<Seq<char>>> {
    match colors {
        Some(colors) => Some(texts_view(colors@)),
        None => None,
    }
}

/// The path of the file `file_name` placed in `directory`, as the platform that the
/// library is built for joins the two.
pub uninterp spec fn joined_path(directory: Seq<char>, file_name: Seq<char>) -> Seq<char>;

/// Joins the name of a file to the directory it is to stand in.
///
/// Calls `std::path::Path::join` on `directory` with `file_name`. What it returns
/// depends on the two texts alone; how they are joined is the platform's rule for
/// paths and is not stated here. Both texts are valid UTF-8, so the joined path is
/// too and nothing is lost in turning it into a string.
#[verifier::external_body]
pub(crate) fn join_path(directory: &str, file_name: &str) -> (joined: String)
    ensures
        joined@ == joined_path(directory@, file_name@),
{
    std::path::Path::new(directory).join(file_name).to_string_lossy().into_owned()
}

fn copy_metric(metric: &Metric) -> (copy: Metric)
    ensures
        copy == *metric,
{
    match metric {
        Metric::MentionCount { channel_pattern, message_pattern } => Metric::MentionCount {
            channel_pattern: channel_pattern.clone(),
            message_pattern: message_pattern.clone(),
        },
        Metric::StringMessageCountRatio {
            channel_pattern,
            message_pattern1,
            message_pattern2,
        } => Metric::StringMessageCountRatio {
            channel_pattern: channel_pattern.clone(),
            message_pattern1: message_pattern1.clone(),
            message_pattern2: message_pattern2.clone(),
        },
    }
}

fn copy_texts(texts: &Vec<String>) -> (copy: Vec<String>)
    ensures
        texts_view(copy@) == texts_view(texts@),
{
    let mut copy: Vec<String> = Vec::new();
    let mut index: usize = 0;
    while index < texts.len()
        invariant
            index <= texts.len(),
            copy.len() == index,
            forall|i: int| 0 <= i < index ==> (#[trigger] copy[i])@ == texts[i]@,
        decreases texts.len() - index,
    {
        copy.push(texts[index].clone());
        index += 1;
    }
    assert(texts_view(copy@) =~= texts_view(texts@));
    copy
}

impl PlotTask {
    /// Returns the task with `output_file_name` as the name of its chart's file, and
    /// everything else as it is.
    pub fn with_output_file_name(&self, output_file_name: String) -> (task: PlotTask)
        ensures
            task.output_file_name == output_file_name,
            task.metric == self.metric,
            task.resolution == self.resolution,
            colors_view(task.colors) == colors_view(self.colors),
    {
        let colors = match &self.colors {
            Some(colors) => Some(copy_texts(colors)),
            None => None,
        };
        PlotTask {
            metric: copy_metric(&self.metric),
            resolution: self.resolution,
            output_file_name,
            colors,
        }
    }

    /// Returns the task with the name of its chart's file placed in `output_dir`, and
    /// everything else as it is.
    pub fn with_output_dir(&self, output_dir: &str) -> (task: PlotTask)
        ensures
            task.output_file_name@ == joined_path(output_dir@, self.output_file_name@),
            task.metric == self.metric,
            task.resolution == self.resolution,
            colors_view(task.colors) == colors_view(self.colors),
    {
        self.with_output_file_name(join_path(output_dir, self.output_file_name.as_str()))
    }
}

/// Places the chart of every task in `output_dir`.
pub fn with_output_dirs(tasks: &Vec<PlotTask>, output_dir: &str) -> (placed: Vec<PlotTask>)
    ensures
        placed.len() == tasks.len(),
        forall|i: int|
            0 <= i < tasks.len() ==> (#[trigger] placed[i]).output_file_name@ == joined_path(
                output_dir@,
                tasks[i].output_file_name@,
            ) && placed[i].metric == tasks[i].metric && placed[i].resolution
                == tasks[i].resolution && colors_view(placed[i].colors) == colors_view(
                tasks[i].colors,
            ),
{
    let mut placed: Vec<PlotTask> = Vec::new();
    let mut index: usize = 0;
    while index < tasks.len()
        invariant
            index <= tasks.len(),
            placed.len() == index,
            forall|i: int|
                0 <= i < index ==> (#[trigger] placed[i]).output_file_name@ == joined_path(
                    output_dir@,
                    tasks[i].output_file_name@,
                ) && placed[i].metric == tasks[i].metric && placed[i].resolution
                    == tasks[i].resolution && colors_view(placed[i].colors) == colors_view(
                    tasks[i].colors,
                ),
        decreases tasks.len() - index,
    {
        placed.push(tasks[index].with_output_dir(output_dir));
        index += 1;
    }
    placed
}

/// What is needed to draw the bar chart of one series and to write its table.
#[derive(Debug)]
pub struct CounterPlot {
    /// The file that the chart is written to.
    pub output_file_name: String,
    /// The file that the table of the series is written to.
    pub csv_file_name: String,
    pub caption: String,
    /// The labels along the horizontal axis.
    pub labels: Vec<String>,
    /// The bars, and the rows of the table.
    pub message_counts: Vec<(String, usize)>,
    /// The height of the highest bar.
    pub largest_count: usize,
    pub color: Rgb,
}

impl CounterPlot {
    /// Whether this is the bar chart that `task` asks for, of the messages that mention
    /// `message_pattern`, counted as `message_counts`.
    pub open spec fn describes(
        &self,
        task: PlotTask,
        message_pattern: Seq<char>,
        message_counts: Seq<(Seq<char>, nat)>,
    ) -> bool {
        &&& self.output_file_name@ == task.output_file_name@
        &&& self.csv_file_name@ == spec_csv_file_name(None, task.output_file_name@)
        &&& self.caption@ == "Slack messages mentioning '"@ + message_pattern + "' over time"@
        &&& texts_view(self.labels@) == series_labels(message_counts)
        &&& series_view(self.message_counts@) == message_counts
        &&& is_largest_count(self.largest_count as nat, message_counts)
        &&& self.color == task.spec_custom_color(0)
    }
}

/// Prepares the bar chart of `message_counts` for `task`, with the table that goes
/// with it.
pub fn counter_plot(
    task: &PlotTask,
    message_pattern: &str,
    message_counts: &Vec<(String, usize)>,
) -> (plot: CounterPlot)
    ensures
        plot.describes(*task, message_pattern@, series_view(message_counts@)),
{
    let mut caption = String::from_str("Slack messages mentioning '");
    caption.append(message_pattern);
    caption.append("' over time");
    CounterPlot {
        output_file_name: task.output_file_name.clone(),
        csv_file_name: csv_file_name(None, task.output_file_name.as_str()),
        caption,
        labels: labels_of(message_counts),
        message_counts: copy_series(message_counts),
        largest_count: largest_count(message_counts),
        color: task.custom_color(0),
    }
}

/// The position of the last of `count` items, or zero where there is none.
pub open spec fn spec_last_index(count: nat) -> nat {
    if count == 0 {
        0
    } else {
        (count - 1) as nat
    }
}

/// Returns the position of the last of `count` items, or zero where there is none.
pub fn last_index(count: usize) -> (index: usize)
    ensures
        index == spec_last_index(count as nat),
{
    if count == 0 {
        0
    } else {
        count - 1
    }
}

/// What is needed to draw the line chart of the ratio of two series and to write the
/// tables of the two.
#[derive(Debug)]
pub struct RatioPlot {
    /// The file that the chart is written to.
    pub output_file_name: String,
    /// The file that the table of the first reconciled series is written to.
    pub csv_file_name1: String,
    /// The file that the table of the second reconciled series is written to.
    pub csv_file_name2: String,
    pub caption: String,
    /// The labels along the horizontal axis: those of the first reconciled series.
    pub shared_labels: Vec<String>,
    /// Where the horizontal axis ends: the position of the last label, or zero where no
    /// label is shared.
    pub x_axis_end: usize,
    /// The first series, reconciled with the second.
    pub message_counts1: Vec<(String, usize)>,
    /// The second series, reconciled with the first.
    pub message_counts2: Vec<(String, usize)>,
    /// The points of the line.
    pub time_series: Vec<(String, Ratio)>,
    pub color: Rgb,
}

impl RatioPlot {
    /// Whether this is the line chart that `task` asks for, of the ratio between the
    /// messages that mention `message_pattern1`, counted as `msg_counts1`, and those
    /// that mention `message_pattern2`, counted as `msg_counts2`.
    pub open spec fn describes(
        &self,
        task: PlotTask,
        message_pattern1: Seq<char>,
        msg_counts1: Seq<(Seq<char>, nat)>,
        message_pattern2: Seq<char>,
        msg_counts2: Seq<(Seq<char>, nat)>,
    ) -> bool {
        let shared = shared_labels(msg_counts1, msg_counts2);
        let reconciled1 = restrict(msg_counts1, shared);
        let reconciled2 = restrict(msg_counts2, shared);
        &&& self.output_file_name@ == task.output_file_name@
        &&& self.csv_file_name1@ == spec_csv_file_name(
            Some("counts-pattern1"@),
            task.output_file_name@,
        )
        &&& self.csv_file_name2@ == spec_csv_file_name(
            Some("counts-pattern2"@),
            task.output_file_name@,
        )
        &&& self.caption@ == "Slack ratio between '"@ + message_pattern1 + "' and '"@
            + message_pattern2 + "' over time"@
        &&& series_view(self.message_counts1@) == reconciled1
        &&& series_view(self.message_counts2@) == reconciled2
        &&& texts_view(self.shared_labels@) == series_labels(reconciled1)
        &&& self.x_axis_end == spec_last_index(reconciled1.len())
        &&& ratios_view(self.time_series@) == ratio_series(
            series_labels(reconciled1),
            reconciled1,
            reconciled2,
        )
        &&& self.color == task.spec_custom_color(0)
    }
}

/// Prepares the line chart of the ratio between two series for `task`, with the
/// tables that go with it.
///
/// The two series are reconciled first, so that both speak of the same labels. Each
/// point of the line is the share of the first count in the sum of both.
pub fn ratio_plot(
    task: &PlotTask,
    message_pattern1: &str,
    msg_counts1: &Vec<(String, usize)>,
    message_pattern2: &str,
    msg_counts2: &Vec<(String, usize)>,
) -> (plot: RatioPlot)
    ensures
        plot.describes(
            *task,
            message_pattern1@,
            series_view(msg_counts1@),
            message_pattern2@,
            series_view(msg_counts2@),
        ),
{
    let (message_counts1, message_counts2) = consolidate_labels(
        copy_series(msg_counts1),
        copy_series(msg_counts2),
    );
    let shared_labels = labels_of(&message_counts1);
    let time_series = calculate_time_series_ratios(
        &shared_labels,
        &message_counts1,
        &message_counts2,
    );
    let mut caption = String::from_str("Slack ratio between '");
    caption.append(message_pattern1);
    caption.append("' and '");
    caption.append(message_pattern2);
    caption.append("' over time");
    RatioPlot {
        output_file_name: task.output_file_name.clone(),
        csv_file_name1: csv_file_name(Some("counts-pattern1"), task.output_file_name.as_str()),
        csv_file_name2: csv_file_name(Some("counts-pattern2"), task.output_file_name.as_str()),
        caption,
        x_axis_end: last_index(shared_labels.len()),
        shared_labels,
        message_counts1,
        message_counts2,
        time_series,
        color: task.custom_color(0),
    }
}

} // verus!
