use plotters::style::{RGBColor, BLUE};
use slackrs::plot::{
    calculate_time_series_ratios, consolidate_labels, copy_series, counter_plot, csv_file_name,
    label_set, labels_of, largest_count, last_index, ratio_plot, with_output_dirs, ColorError, Metric,
    PlotTask, Ratio, Rgb, TimeResolution,
};
use std::path::PathBuf;

#[test]
fn test_consolidate_labels() {
    let (result1, result2) = consolidate_labels(
        vec![("2024-03".to_string(), 1), ("2024-04".to_string(), 2)],
        vec![("2024-04".to_string(), 3)],
    );
    assert_eq!(
        result1,
        vec![("2024-04".to_string(), 2)],
        "Consolidated labels for message counts 1"
    );
    assert_eq!(
        result2,
        vec![("2024-04".to_string(), 3)],
        "Consolidated labels for message counts 2"
    );

    let (result3, result4) = consolidate_labels(
        vec![("2024-04".to_string(), 4)],
        vec![("2024-03".to_string(), 5), ("2024-04".to_string(), 6)],
    );
    assert_eq!(
        result3,
        vec![("2024-04".to_string(), 4)],
        "Consolidated labels for message counts 3"
    );
    assert_eq!(
        result4,
        vec![("2024-04".to_string(), 6)],
        "Consolidated labels for message counts 4"
    );
}

#[test]
fn test_rgb_from_hex() {
    let result = PlotTask::rgb_from_hex("#007f94");
    let color = result.unwrap();
    assert_eq!(
        RGBColor(color.red, color.green, color.blue),
        RGBColor(0, 127, 148),
        "RGB color from hex"
    );
}

#[test]
fn test_rgb_from_hex_invalid() {
    assert!(PlotTask::rgb_from_hex("#007f9").is_err()); // Invalid length
}

fn pairs(items: &[(&str, usize)]) -> Vec<(String, usize)> {
    items.iter().map(|(label, count)| (label.to_string(), *count)).collect()
}

fn texts(items: &[&str]) -> Vec<String> {
    items.iter().map(|text| text.to_string()).collect()
}

fn task_with_colors(colors: Option<Vec<String>>) -> PlotTask {
    PlotTask {
        metric: Metric::MentionCount {
            channel_pattern: "".to_string(),
            message_pattern: "@group".to_string(),
        },
        resolution: TimeResolution::Daily,
        output_file_name: "group-mentions.png".to_string(),
        colors,
    }
}

fn as_float(ratio: &Ratio) -> f64 {
    ratio.numerator as f64 / ratio.denominator as f64
}

#[test]
fn disjoint_series_are_reconciled_to_nothing() {
    let (first, second) = consolidate_labels(
        pairs(&[("2024-01", 1), ("2024-02", 2)]),
        pairs(&[("2024-03", 3), ("2024-04", 4)]),
    );
    assert!(first.is_empty());
    assert!(second.is_empty());
    let (first, second) = consolidate_labels(Vec::new(), pairs(&[("2024-03", 3)]));
    assert!(first.is_empty());
    assert!(second.is_empty());
}

#[test]
fn reconciled_series_keep_their_own_order() {
    let (first, second) = consolidate_labels(
        pairs(&[("a", 1), ("b", 2), ("c", 3), ("d", 4)]),
        pairs(&[("d", 5), ("x", 6), ("b", 7), ("a", 8)]),
    );
    assert_eq!(first, pairs(&[("a", 1), ("b", 2), ("d", 4)]));
    assert_eq!(second, pairs(&[("d", 5), ("b", 7), ("a", 8)]));
}

#[test]
fn repeated_labels_are_all_kept() {
    let (first, second) = consolidate_labels(
        pairs(&[("a", 1), ("b", 2), ("a", 3)]),
        pairs(&[("a", 4)]),
    );
    assert_eq!(first, pairs(&[("a", 1), ("a", 3)]));
    assert_eq!(second, pairs(&[("a", 4)]));
}

#[test]
fn label_set_holds_each_label_once() {
    assert_eq!(
        label_set(&pairs(&[("a", 1), ("b", 2), ("a", 3), ("c", 0), ("b", 9)])),
        texts(&["a", "b", "c"])
    );
    assert!(label_set(&Vec::new()).is_empty());
}

#[test]
fn ratio_of_equal_counts_is_a_half() {
    let ratios = calculate_time_series_ratios(
        &texts(&["2024-03"]),
        &pairs(&[("2024-03", 2)]),
        &pairs(&[("2024-03", 2)]),
    );
    assert_eq!(ratios.len(), 1);
    assert_eq!(ratios[0].0, "2024-03");
    assert_eq!(ratios[0].1, Ratio { numerator: 2, denominator: 4 });
    assert_eq!(as_float(&ratios[0].1), 0.5);
}

#[test]
fn ratio_of_two_zero_counts_is_zero() {
    let ratios = calculate_time_series_ratios(
        &texts(&["2024-03"]),
        &pairs(&[("2024-03", 0)]),
        &pairs(&[("2024-03", 0)]),
    );
    assert_eq!(ratios[0].1, Ratio { numerator: 0, denominator: 1 });
    assert_eq!(as_float(&ratios[0].1), 0.0);
}

#[test]
fn ratio_against_a_zero_count_is_one() {
    let ratios = calculate_time_series_ratios(
        &texts(&["2024-03"]),
        &pairs(&[("2024-03", 3)]),
        &pairs(&[("2024-03", 0)]),
    );
    assert_eq!(ratios[0].1, Ratio { numerator: 3, denominator: 3 });
    assert_eq!(as_float(&ratios[0].1), 1.0);
}

#[test]
fn ratio_of_a_zero_count_is_zero() {
    let ratios = calculate_time_series_ratios(
        &texts(&["2024-03"]),
        &pairs(&[("2024-03", 0)]),
        &pairs(&[("2024-03", 5)]),
    );
    assert_eq!(ratios[0].1, Ratio { numerator: 0, denominator: 5 });
}

#[test]
fn ratios_follow_the_labels_position_by_position() {
    let ratios = calculate_time_series_ratios(
        &texts(&["x", "y", "z"]),
        &pairs(&[("a", 1), ("b", 3), ("c", 0)]),
        &pairs(&[("d", 3), ("e", 1), ("f", 0)]),
    );
    let labels: Vec<&str> = ratios.iter().map(|(label, _)| label.as_str()).collect();
    assert_eq!(labels, vec!["x", "y", "z"]);
    let values: Vec<f64> = ratios.iter().map(|(_, ratio)| as_float(ratio)).collect();
    assert_eq!(values, vec![0.25, 0.75, 0.0]);
}

#[test]
fn ratios_end_with_the_shortest_list() {
    let ratios = calculate_time_series_ratios(
        &texts(&["x", "y", "z"]),
        &pairs(&[("a", 1), ("b", 3)]),
        &pairs(&[("d", 3), ("e", 1), ("f", 0)]),
    );
    assert_eq!(ratios.len(), 2);
    let ratios = calculate_time_series_ratios(
        &texts(&["x"]),
        &pairs(&[("a", 1), ("b", 3)]),
        &pairs(&[("d", 3), ("e", 1), ("f", 0)]),
    );
    assert_eq!(ratios.len(), 1);
    let ratios = calculate_time_series_ratios(&texts(&["x"]), &pairs(&[("a", 1)]), &Vec::new());
    assert!(ratios.is_empty());
}

#[test]
fn ratio_of_the_largest_counts_does_not_overflow() {
    let ratios = calculate_time_series_ratios(
        &texts(&["x"]),
        &pairs(&[("a", usize::MAX)]),
        &pairs(&[("a", usize::MAX)]),
    );
    assert_eq!(
        ratios[0].1,
        Ratio { numerator: usize::MAX as u128, denominator: 2 * (usize::MAX as u128) }
    );
    assert_eq!(as_float(&ratios[0].1), 0.5);
}

#[test]
fn color_is_read_in_either_case() {
    assert_eq!(
        PlotTask::rgb_from_hex("#E27505"),
        Ok(Rgb { red: 0xe2, green: 0x75, blue: 0x05 })
    );
    assert_eq!(
        PlotTask::rgb_from_hex("aAbBcC"),
        Ok(Rgb { red: 0xaa, green: 0xbb, blue: 0xcc })
    );
    assert_eq!(PlotTask::rgb_from_hex("000000"), Ok(Rgb { red: 0, green: 0, blue: 0 }));
    assert_eq!(
        PlotTask::rgb_from_hex("ffffff"),
        Ok(Rgb { red: 255, green: 255, blue: 255 })
    );
}

#[test]
fn color_skips_every_leading_hash_sign() {
    assert_eq!(
        PlotTask::rgb_from_hex("###007f94"),
        Ok(Rgb { red: 0, green: 127, blue: 148 })
    );
    assert_eq!(PlotTask::rgb_from_hex("007#94"), Err(ColorError::Digit));
}

#[test]
fn color_with_a_sign_is_refused() {
    assert_eq!(PlotTask::rgb_from_hex("#+f+0+a"), Err(ColorError::Digit));
    assert_eq!(PlotTask::rgb_from_hex("+f+f+f"), Err(ColorError::Digit));
    assert_eq!(PlotTask::rgb_from_hex("#f+0000"), Err(ColorError::Digit));
    assert_eq!(PlotTask::rgb_from_hex("#-f0000"), Err(ColorError::Digit));
    assert_eq!(PlotTask::rgb_from_hex("#++0000"), Err(ColorError::Digit));
    let task = task_with_colors(Some(texts(&["+f+f+f"])));
    assert_eq!(task.custom_color(0), Rgb::fallback());
}

#[test]
fn color_of_a_wrong_length_is_refused() {
    assert_eq!(PlotTask::rgb_from_hex("#007f9"), Err(ColorError::Length));
    assert_eq!(PlotTask::rgb_from_hex("#007f940"), Err(ColorError::Length));
    assert_eq!(PlotTask::rgb_from_hex(""), Err(ColorError::Length));
    assert_eq!(PlotTask::rgb_from_hex("###"), Err(ColorError::Length));
}

#[test]
fn color_with_a_wrong_digit_is_refused() {
    assert_eq!(PlotTask::rgb_from_hex("#00gf94"), Err(ColorError::Digit));
    assert_eq!(PlotTask::rgb_from_hex("#007f9 "), Err(ColorError::Digit));
    assert_eq!(PlotTask::rgb_from_hex("#007f9é"), Err(ColorError::Digit));
    assert!(PlotTask::rgb_from_hex("1é234").is_err());
    assert!(PlotTask::rgb_from_hex("aééb").is_err());
}

#[test]
fn custom_color_reads_the_color_at_the_index() {
    let task = task_with_colors(Some(texts(&["#e27505", "#55332c", "#505050"])));
    assert_eq!(task.custom_color(0), Rgb { red: 0xe2, green: 0x75, blue: 0x05 });
    assert_eq!(task.custom_color(2), Rgb { red: 0x50, green: 0x50, blue: 0x50 });
}

#[test]
fn custom_color_falls_back_to_blue() {
    let blue = Rgb { red: BLUE.0, green: BLUE.1, blue: BLUE.2 };
    assert_eq!(Rgb::fallback(), blue);
    let task = task_with_colors(Some(texts(&["#e27505", "no color"])));
    assert_eq!(task.custom_color(1), blue);
    assert_eq!(task.custom_color(2), blue);
    assert_eq!(task.custom_color(usize::MAX), blue);
    assert_eq!(task_with_colors(None).custom_color(0), blue);
    assert_eq!(task_with_colors(Some(Vec::new())).custom_color(0), blue);
}

#[test]
fn output_dir_is_joined_to_the_file_name() {
    let task = task_with_colors(Some(texts(&["#e27505"])));
    let placed = task.with_output_dir("./tests/output");
    let expected = PathBuf::from("./tests/output").join("group-mentions.png");
    assert_eq!(placed.output_file_name, expected.to_str().unwrap());
    assert_ne!(placed.output_file_name, "./tests/output");
    assert_ne!(placed.output_file_name, "group-mentions.png");
    assert_eq!(placed.metric, task.metric);
    assert_eq!(placed.resolution, task.resolution);
    assert_eq!(placed.colors, task.colors);
}

#[test]
fn output_file_name_is_replaced_alone() {
    let task = task_with_colors(None);
    let renamed = task.with_output_file_name("other.png".to_string());
    assert_eq!(renamed.output_file_name, "other.png");
    assert_eq!(renamed.metric, task.metric);
    assert_eq!(renamed.resolution, TimeResolution::Daily);
    assert_eq!(renamed.colors, None);
}

#[test]
fn every_task_is_placed_in_the_output_dir() {
    let tasks = vec![task_with_colors(None), task_with_colors(Some(texts(&["#000000"])))];
    let placed = with_output_dirs(&tasks, "charts");
    assert_eq!(placed.len(), 2);
    let expected = PathBuf::from("charts").join("group-mentions.png");
    assert_eq!(placed[0].output_file_name, expected.to_str().unwrap());
    assert_eq!(placed[1].colors, Some(texts(&["#000000"])));
    assert!(with_output_dirs(&Vec::new(), "charts").is_empty());
}

#[test]
fn table_is_named_after_the_chart() {
    assert_eq!(csv_file_name(None, "out/chart.png"), "out/chart.png.csv");
    assert_eq!(
        csv_file_name(Some("counts-pattern1"), "out/chart.png"),
        "out/chart.png-counts-pattern1.csv"
    );
    assert_eq!(csv_file_name(Some(""), ""), "-.csv");
    assert_eq!(csv_file_name(None, ""), ".csv");
}

#[test]
fn largest_count_is_zero_without_counts() {
    assert_eq!(largest_count(&Vec::new()), 0);
    assert_eq!(largest_count(&pairs(&[("a", 3), ("b", 7), ("c", 7), ("d", 1)])), 7);
    assert_eq!(largest_count(&pairs(&[("a", 0)])), 0);
}

#[test]
fn labels_and_copy_follow_the_series() {
    let series = pairs(&[("a", 3), ("b", 7), ("a", 1)]);
    assert_eq!(labels_of(&series), texts(&["a", "b", "a"]));
    assert_eq!(copy_series(&series), series);
}

#[test]
fn bar_chart_of_a_series() {
    let task = task_with_colors(Some(texts(&["#55332c"])));
    let series = pairs(&[("2024-03-01", 2), ("2024-03-02", 5)]);
    let plot = counter_plot(&task, "@group", &series);
    assert_eq!(plot.output_file_name, "group-mentions.png");
    assert_eq!(plot.csv_file_name, "group-mentions.png.csv");
    assert_eq!(plot.caption, "Slack messages mentioning '@group' over time");
    assert_eq!(plot.labels, texts(&["2024-03-01", "2024-03-02"]));
    assert_eq!(plot.message_counts, series);
    assert_eq!(plot.largest_count, 5);
    assert_eq!(plot.color, Rgb { red: 0x55, green: 0x33, blue: 0x2c });
}

#[test]
fn line_chart_of_two_series() {
    let task = task_with_colors(None);
    let first = pairs(&[("2024-03", 1), ("2024-04", 2), ("2024-05", 0)]);
    let second = pairs(&[("2024-04", 6), ("2024-05", 0), ("2024-06", 1)]);
    let plot = ratio_plot(&task, "special", &first, "message", &second);
    assert_eq!(plot.output_file_name, "group-mentions.png");
    assert_eq!(plot.csv_file_name1, "group-mentions.png-counts-pattern1.csv");
    assert_eq!(plot.csv_file_name2, "group-mentions.png-counts-pattern2.csv");
    assert_eq!(plot.caption, "Slack ratio between 'special' and 'message' over time");
    assert_eq!(plot.shared_labels, texts(&["2024-04", "2024-05"]));
    assert_eq!(plot.x_axis_end, 1);
    assert_eq!(plot.message_counts1, pairs(&[("2024-04", 2), ("2024-05", 0)]));
    assert_eq!(plot.message_counts2, pairs(&[("2024-04", 6), ("2024-05", 0)]));
    let values: Vec<f64> = plot.time_series.iter().map(|(_, ratio)| as_float(ratio)).collect();
    assert_eq!(values, vec![0.25, 0.0]);
    assert_eq!(plot.color, Rgb::fallback());
}

#[test]
fn line_chart_without_shared_labels_is_empty() {
    let task = task_with_colors(None);
    let plot = ratio_plot(
        &task,
        "special",
        &pairs(&[("2024-03", 1)]),
        "message",
        &pairs(&[("2024-04", 6)]),
    );
    assert!(plot.shared_labels.is_empty());
    assert!(plot.message_counts1.is_empty());
    assert!(plot.message_counts2.is_empty());
    assert!(plot.time_series.is_empty());
    assert_eq!(plot.x_axis_end, 0);
}

#[test]
fn last_index_is_zero_for_nothing() {
    assert_eq!(last_index(0), 0);
    assert_eq!(last_index(1), 0);
    assert_eq!(last_index(2), 1);
    assert_eq!(last_index(usize::MAX), usize::MAX - 1);
}
