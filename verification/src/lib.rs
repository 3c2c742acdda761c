//! Counts chat messages per calendar bucket and prepares the charts drawn from those counts.
//!
//! Messages of a chat archive are filtered by channel and text pattern, counted per day,
//! month or year, and the counts are turned into descriptions of bar charts and ratio
//! line charts. Reading archives, decoding JSON and drawing are left to the caller.

pub mod bucket;
pub mod plot;
pub mod series;
pub mod slack;
pub mod text;
pub mod timestamp;

use crate::bucket::{bucket_label, label_spans, utc_label, TimeResolution};
use crate::plot::{counter_plot, ratio_plot, CounterPlot, Metric, PlotTask, RatioPlot};
use crate::series::{
    count_label_runs, equal_labels_adjoin, lemma_run_lengths_follow_input,
    lemma_run_lengths_no_duplicates, lemma_run_lengths_single, lemma_run_starts_ascend,
    run_lengths, run_start, series_labels, series_view, texts_view,
};
use crate::slack::{all_have_time, sorted_by_time, Message, MessageInChannel};
use crate::text::{lemma_empty_pattern_occurs, occurs_in, str_contains};
use crate::timestamp::in_utc_range;
use vstd::prelude::*;

verus! {

/// The label of the bucket that `record` falls in at `resolution`.
pub open spec fn record_label(record: MessageInChannel, resolution: TimeResolution) -> Seq<char> {
    utc_label(record.message.spec_time()->0, resolution.spec_pattern())
}

/// The bucket labels of `records`, one for each record, in their order.
pub open spec fn record_labels(
    records: Seq<MessageInChannel>,
    resolution: TimeResolution,
) -> Seq<Seq<char>> {
    Seq::new(records.len(), |i: int| record_label(records[i], resolution))
}

/// The records that a list of references points to.
pub open spec fn referents(records: Seq<&MessageInChannel>) -> Seq<MessageInChannel> {
    Seq::new(records.len(), |i: int| *records[i])
}

/// Whether `record` is selected by the two patterns: its channel contains
/// `channel_pattern` and its effective text contains `message_pattern`.
pub open spec fn record_matches(
    record: MessageInChannel,
    channel_pattern: Seq<char>,
    message_pattern: Seq<char>,
) -> bool {
    occurs_in(channel_pattern, record.channel@) && record.message.spec_contains(message_pattern)
}

/// The records among `records` that the two patterns select, in their order.
pub open spec fn matching_records(
    records: Seq<MessageInChannel>,
    channel_pattern: Seq<char>,
    message_pattern: Seq<char>,
) -> Seq<MessageInChannel> {
    records.filter(|record: MessageInChannel| record_matches(record, channel_pattern, message_pattern))
}

/// The empty text pattern selects every message, also one whose effective text is
/// empty.
pub proof fn lemma_empty_text_pattern_matches(message: Message)
    ensures
        message.spec_contains(Seq::empty()),
{
    lemma_empty_pattern_occurs(message.text@);
}

/// The empty channel pattern selects every channel: with it a record is selected
/// exactly when its message contains the text pattern.
pub proof fn lemma_empty_channel_pattern_matches(
    record: MessageInChannel,
    message_pattern: Seq<char>,
)
    ensures
        record_matches(record, Seq::empty(), message_pattern) == record.message.spec_contains(
            message_pattern,
        ),
{
    lemma_empty_pattern_occurs(record.channel@);
}

/// No records give an empty series.
pub proof fn lemma_no_records_no_counts(resolution: TimeResolution)
    ensures
        run_lengths(record_labels(Seq::empty(), resolution)).len() == 0,
{
    assert(record_labels(Seq::empty(), resolution) =~= Seq::empty());
}

/// Records that all fall in one bucket give one pair: the label of the bucket with
/// the number of the records.
pub proof fn lemma_one_bucket_one_pair(records: Seq<MessageInChannel>, resolution: TimeResolution)
    requires
        records.len() > 0,
        forall|i: int|
            0 <= i < records.len() ==> record_label(#[trigger] records[i], resolution)
                == record_label(records[0], resolution),
    ensures
        run_lengths(record_labels(records, resolution)) == seq![
            (record_label(records[0], resolution), records.len()),
        ],
{
    let labels = record_labels(records, resolution);
    assert forall|i: int| 0 <= i < labels.len() implies #[trigger] labels[i] == labels[0] by {
        assert(record_label(records[i], resolution) == record_label(records[0], resolution));
    }
    lemma_run_lengths_single(labels);
}

/// The pairs of a series come in the order of the records: every pair carries the
/// label of the record at which it begins, and a later pair begins at a later record.
/// So where the records stand in ascending order of time, the labels do too.
pub proof fn lemma_counts_follow_time(
    records: Seq<MessageInChannel>,
    resolution: TimeResolution,
    k: int,
    l: int,
)
    requires
        all_have_time(records),
        sorted_by_time(records),
        0 <= k < l < run_lengths(record_labels(records, resolution)).len(),
    ensures
        ({
            let counts = run_lengths(record_labels(records, resolution));
            let first = run_start(counts, k);
            let second = run_start(counts, l);
            &&& 0 <= first < second < records.len()
            &&& counts[k].0 == record_label(records[first], resolution)
            &&& counts[l].0 == record_label(records[second], resolution)
            &&& records[first].message.spec_time()->0 <= records[second].message.spec_time()->0
        }),
{
    let labels = record_labels(records, resolution);
    let counts = run_lengths(labels);
    crate::series::lemma_run_lengths_encode(labels);
    assert(counts[k].1 > 0 && counts[l].1 > 0);
    lemma_run_lengths_follow_input(labels, k, 0);
    lemma_run_lengths_follow_input(labels, l, 0);
    lemma_run_starts_ascend(labels, k, l);
    let first = run_start(counts, k);
    let second = run_start(counts, l);
    assert(records[first].message.has_time() && records[second].message.has_time());
}

/// Converts the time of a message to the label of its bucket at `resolution`.
pub fn time_by_resolution(msg: &MessageInChannel, resolution: &TimeResolution) -> (label: String)
    requires
        msg.message.has_time(),
    ensures
        label@ == record_label(*msg, *resolution),
        label_spans(msg.message.spec_time()->0, resolution.spec_pattern(), label@),
{
    bucket_label(msg.message.time(), resolution)
}

/// Groups messages by bucket and counts them.
///
/// The messages are taken in the order given and never sorted: each run of messages
/// with the same label becomes one pair. Where the messages stand in ascending order
/// of time, every bucket is one run, so no label occurs twice.
pub fn group_messages_by_time(
    messages_to_plot: &Vec<&MessageInChannel>,
    resolution: &TimeResolution,
) -> (counts: Vec<(String, usize)>)
    requires
        forall|i: int|
            0 <= i < messages_to_plot.len() ==> (#[trigger] messages_to_plot[i]).message.has_time(),
    ensures
        series_view(counts@) == run_lengths(
            record_labels(referents(messages_to_plot@), *resolution),
        ),
        sorted_by_time(referents(messages_to_plot@)) ==> series_labels(
            series_view(counts@),
        ).no_duplicates(),
{
    let ghost records = referents(messages_to_plot@);
    let mut labels: Vec<String> = Vec::new();
    let mut index: usize = 0;
    while index < messages_to_plot.len()
        invariant
            index <= messages_to_plot.len(),
            labels.len() == index,
            records == referents(messages_to_plot@),
            forall|i: int|
                0 <= i < messages_to_plot.len() ==> (
                #[trigger] messages_to_plot[i]).message.has_time(),
            forall|i: int|
                0 <= i < index ==> (#[trigger] labels[i])@ == record_label(records[i], *resolution),
            forall|i: int|
                0 <= i < index ==> label_spans(
                    records[i].message.spec_time()->0,
                    resolution.spec_pattern(),
                    (#[trigger] labels[i])@,
                ),
        decreases messages_to_plot.len() - index,
    {
        let label = time_by_resolution(messages_to_plot[index], resolution);
        labels.push(label);
        index += 1;
    }
    let counts = count_label_runs(&labels);
    proof {
        let texts = texts_view(labels@);
        assert(texts =~= record_labels(records, *resolution));
        if sorted_by_time(records) {
            assert forall|i: int, j: int, k: int|
                0 <= i < j < k < texts.len() && #[trigger] texts[i] == #[trigger] texts[k]
                implies #[trigger] texts[j] == texts[i] by {
                let pattern = resolution.spec_pattern();
                let earlier = records[i].message.spec_time()->0;
                let between = records[j].message.spec_time()->0;
                let later = records[k].message.spec_time()->0;
                assert(messages_to_plot[i].message.has_time());
                assert(messages_to_plot[j].message.has_time());
                assert(messages_to_plot[k].message.has_time());
                assert(in_utc_range(earlier) && in_utc_range(later));
                assert(earlier <= between <= later);
                assert(utc_label(earlier, pattern) == utc_label(later, pattern));
                assert(label_spans(between, pattern, labels[j]@));
            }
            assert(equal_labels_adjoin(texts));
            lemma_run_lengths_no_duplicates(texts);
        }
    }
    counts
}

/// Selects the messages whose channel contains `channel_pattern` and whose effective
/// text contains `message_pattern`, and counts them per bucket.
///
/// The empty pattern selects everything. Only the selected messages need a time.
pub fn filter_and_count_messages(
    messages: &[MessageInChannel],
    channel_pattern: &str,
    message_pattern: &str,
    resolution: &TimeResolution,
) -> (counts: Vec<(String, usize)>)
    requires
        forall|i: int|
            0 <= i < messages.len() && record_matches(
                #[trigger] messages[i],
                channel_pattern@,
                message_pattern@,
            ) ==> messages[i].message.has_time(),
    ensures
        series_view(counts@) == run_lengths(
            record_labels(
                matching_records(messages@, channel_pattern@, message_pattern@),
                *resolution,
            ),
        ),
        sorted_by_time(messages@) ==> series_labels(series_view(counts@)).no_duplicates(),
{
    let ghost selects = |record: MessageInChannel|
        record_matches(record, channel_pattern@, message_pattern@);
    let mut messages_to_plot: Vec<&MessageInChannel> = Vec::new();
    let ghost mut origin: Seq<int> = Seq::empty();
    let mut index: usize = 0;
    proof {
        assert(messages@.take(0).filter(selects) =~= Seq::empty()) by {
            assert(messages@.take(0) =~= Seq::empty());
            Seq::<MessageInChannel>::empty().lemma_filter_len(selects);
        }
        assert(referents(messages_to_plot@) =~= messages@.take(0).filter(selects));
    }
    while index < messages.len()
        invariant
            index <= messages.len(),
            selects == |record: MessageInChannel|
                record_matches(record, channel_pattern@, message_pattern@),
            referents(messages_to_plot@) == messages@.take(index as int).filter(selects),
            origin.len() == messages_to_plot.len(),
            forall|k: int|
                0 <= k < origin.len() ==> 0 <= #[trigger] origin[k] < index && *messages_to_plot[k]
                    == messages[origin[k]] && selects(messages[origin[k]]),
            forall|k: int, l: int| 0 <= k < l < origin.len() ==> origin[k] < origin[l],
        decreases messages.len() - index,
    {
        let record = &messages[index];
        let ghost before = referents(messages_to_plot@);
        proof {
            assert(messages@.take(index + 1) =~= messages@.take(index as int).push(*record));
            messages@.take(index as int).lemma_filter_push(*record, selects);
        }
        if str_contains(record.channel.as_str(), channel_pattern) && record.message.contains(
            message_pattern,
        ) {
            messages_to_plot.push(record);
            proof {
                origin = origin.push(index as int);
                assert(referents(messages_to_plot@) =~= before.push(*record));
            }
        }
        index += 1;
    }
    proof {
        assert(messages@.take(index as int) =~= messages@);
        assert forall|i: int| 0 <= i < messages_to_plot.len() implies (
        #[trigger] messages_to_plot[i]).message.has_time() by {
            assert(record_matches(messages[origin[i]], channel_pattern@, message_pattern@));
        }
        if sorted_by_time(messages@) {
            let selected = referents(messages_to_plot@);
            assert forall|i: int, j: int|
                0 <= i <= j < selected.len() && (#[trigger] selected[i]).message.has_time() && (
                #[trigger] selected[j]).message.has_time() implies selected[i].message.spec_time()->0
                <= selected[j].message.spec_time()->0 by {
                assert(selected[i] == messages@[origin[i]]);
                assert(selected[j] == messages@[origin[j]]);
                assert(origin[i] <= origin[j]);
            }
        }
    }
    group_messages_by_time(&messages_to_plot, resolution)
}

/// The chart that was prepared for a task.
#[derive(Debug)]
pub enum Chart {
    /// The bar chart of a count.
    Counter(CounterPlot),
    /// The line chart of a ratio.
    Ratio(RatioPlot),
}

/// The counts per bucket of the messages that the two patterns select.
pub open spec fn message_counts(
    messages: Seq<MessageInChannel>,
    channel_pattern: Seq<char>,
    message_pattern: Seq<char>,
    resolution: TimeResolution,
) -> Seq<(Seq<char>, nat)> {
    run_lengths(
        record_labels(matching_records(messages, channel_pattern, message_pattern), resolution),
    )
}

/// Whether every message that the two patterns select has a time.
pub open spec fn selected_have_time(
    messages: Seq<MessageInChannel>,
    channel_pattern: Seq<char>,
    message_pattern: Seq<char>,
) -> bool {
    forall|i: int|
        0 <= i < messages.len() && record_matches(
            #[trigger] messages[i],
            channel_pattern,
            message_pattern,
        ) ==> messages[i].message.has_time()
}

/// Whether `task` can be carried out on `messages`: every message that it counts has
/// a time.
pub open spec fn task_is_ready(task: PlotTask, messages: Seq<MessageInChannel>) -> bool {
    match task.metric {
        Metric::MentionCount { channel_pattern, message_pattern } => selected_have_time(
            messages,
            channel_pattern@,
            message_pattern@,
        ),
        Metric::StringMessageCountRatio {
            channel_pattern,
            message_pattern1,
            message_pattern2,
        } => selected_have_time(messages, channel_pattern@, message_pattern1@)
            && selected_have_time(messages, channel_pattern@, message_pattern2@),
    }
}

/// Whether `chart` is what `task` asks for on `messages`: for a count, the bar chart
/// of the messages with the pattern; for a ratio, the line chart of the two counts,
/// both taken with the task's channel pattern and resolution.
pub open spec fn chart_shows(chart: Chart, task: PlotTask, messages: Seq<MessageInChannel>) -> bool {
    match task.metric {
        Metric::MentionCount { channel_pattern, message_pattern } => chart matches Chart::Counter(
            plot,
        ) && plot.describes(
            task,
            message_pattern@,
            message_counts(messages, channel_pattern@, message_pattern@, task.resolution),
        ),
        Metric::StringMessageCountRatio {
            channel_pattern,
            message_pattern1,
            message_pattern2,
        } => chart matches Chart::Ratio(plot) && plot.describes(
            task,
            message_pattern1@,
            message_counts(messages, channel_pattern@, message_pattern1@, task.resolution),
            message_pattern2@,
            message_counts(messages, channel_pattern@, message_pattern2@, task.resolution),
        ),
    }
}

/// Carries out one task on `messages` and returns the chart to draw.
pub fn process_task(task: &PlotTask, messages: &[MessageInChannel]) -> (chart: Chart)
    requires
        task_is_ready(*task, messages@),
    ensures
        chart_shows(chart, *task, messages@),
{
    match &task.metric {
        Metric::MentionCount { channel_pattern, message_pattern } => {
            let message_counts = filter_and_count_messages(
                messages,
                channel_pattern.as_str(),
                message_pattern.as_str(),
                &task.resolution,
            );
            Chart::Counter(counter_plot(task, message_pattern.as_str(), &message_counts))
        },
        Metric::StringMessageCountRatio { channel_pattern, message_pattern1, message_pattern2 } => {
            let message_counts1 = filter_and_count_messages(
                messages,
                channel_pattern.as_str(),
                message_pattern1.as_str(),
                &task.resolution,
            );
            let message_counts2 = filter_and_count_messages(
                messages,
                channel_pattern.as_str(),
                message_pattern2.as_str(),
                &task.resolution,
            );
            Chart::Ratio(
                ratio_plot(
                    task,
                    message_pattern1.as_str(),
                    &message_counts1,
                    message_pattern2.as_str(),
                    &message_counts2,
                ),
            )
        },
    }
}

/// Carries out every task on `messages` and returns the charts to draw, one for each
/// task, in the order of the tasks. The tasks do not depend on each other.
pub fn process_tasks(tasks: &[PlotTask], messages: &[MessageInChannel]) -> (charts: Vec<Chart>)
    requires
        forall|i: int| 0 <= i < tasks.len() ==> task_is_ready(#[trigger] tasks[i], messages@),
    ensures
        charts.len() == tasks.len(),
        forall|i: int|
            0 <= i < tasks.len() ==> chart_shows(#[trigger] charts[i], tasks[i], messages@),
{
    let mut charts: Vec<Chart> = Vec::new();
    let mut index: usize = 0;
    while index < tasks.len()
        invariant
            index <= tasks.len(),
            charts.len() == index,
            forall|i: int| 0 <= i < tasks.len() ==> task_is_ready(#[trigger] tasks[i], messages@),
            forall|i: int|
                0 <= i < index ==> chart_shows(#[trigger] charts[i], tasks[i], messages@),
        decreases tasks.len() - index,
    {
        charts.push(process_task(&tasks[index], messages));
        index += 1;
    }
    charts
}

} // verus!
