use std::io::Cursor;

use calamine::{open_workbook_from_rs, Data, Reader, Xlsx};
use perf_monitor::aggregator::{summarize, SummaryStats};
use perf_monitor::metric::MetricKind;
use perf_monitor::report::{
    average_label_of, build_report, check_report, data_name_of, max_label_of, report_file_name,
    stamped_file_name, write_report, Report, ReportError,
};
use perf_monitor::sample::Sample;
use perf_monitor::series::Series;
use rust_xlsxwriter::{Workbook, Worksheet};

fn series_of(values: &[f64]) -> Series {
    Series::from_samples(
        values.iter().map(|value| Sample::from_micros((value * 1e6).round() as u64)).collect(),
    )
}

fn units(sample: Sample) -> f64 {
    sample.micros as f64 / 1e6
}

/// Saves the sheet in a workbook of its own and reads the cells back.
fn cells_of(sheet: Worksheet, name: &str) -> calamine::Range<Data> {
    let mut workbook = Workbook::new();
    workbook.push_worksheet(sheet);
    let bytes = workbook.save_to_buffer().unwrap();
    let mut saved: Xlsx<_> = open_workbook_from_rs(Cursor::new(bytes)).unwrap();
    saved.worksheet_range(name).unwrap()
}

fn text_at(cells: &calamine::Range<Data>, row: u32, col: u32) -> Option<String> {
    match cells.get_value((row, col)) {
        Some(Data::String(text)) => Some(text.clone()),
        Some(Data::Empty) | None => None,
        other => panic!("unexpected cell {other:?}"),
    }
}

#[test]
fn mean_and_max_of_three_samples() {
    let stats = summarize(MetricKind::Cpu, &series_of(&[10.0, 20.0, 30.0])).unwrap();
    assert_eq!(units(stats.mean), 20.0);
    assert_eq!(units(stats.max), 30.0);
    assert_eq!(stats.sum, 60_000_000);
}

#[test]
fn memory_statistics_are_in_megabytes() {
    let stats = summarize(MetricKind::Memory, &series_of(&[2048.0, 4096.0])).unwrap();
    assert_eq!(units(stats.mean), 3.0);
    assert_eq!(units(stats.max), 4.0);
    assert_eq!(stats.sum, 6_144_000_000);
}

#[test]
fn statistics_round_down_to_a_millionth() {
    let stats = summarize(MetricKind::Cpu, &series_of(&[1.0, 1.0, 2.0])).unwrap();
    assert_eq!(stats.mean, Sample::from_micros(1_333_333));
    let stats = summarize(MetricKind::Memory, &series_of(&[1.0, 2.0])).unwrap();
    assert_eq!(stats.mean, Sample::from_micros(1_464));
    assert_eq!(stats.max, Sample::from_micros(1_953));
}

#[test]
fn statistics_of_one_sample() {
    let stats = summarize(MetricKind::Cpu, &series_of(&[7.5])).unwrap();
    assert_eq!(stats.max, stats.mean);
    assert_eq!(stats.max, Sample::from_micros(7_500_000));
}

#[test]
fn statistics_of_no_sample_are_none() {
    assert_eq!(summarize(MetricKind::Cpu, &Series::new()), None);
    assert_eq!(summarize(MetricKind::Memory, &Series::new()), None);
}

#[test]
fn statistics_of_the_greatest_samples_do_not_overflow() {
    let series = Series::from_samples(vec![Sample::from_micros(u64::MAX); 3]);
    let stats = summarize(MetricKind::Cpu, &series).unwrap();
    assert_eq!(stats.sum, 3 * u64::MAX as u128);
    assert_eq!(stats.mean, Sample::from_micros(u64::MAX));
    assert_eq!(stats.max, Sample::from_micros(u64::MAX));
}

#[test]
fn max_is_at_least_mean() {
    for values in [vec![0.0, 0.0], vec![1.0, 2.0, 3.0, 100.0], vec![5.0, 4.0, 3.0], vec![2.5]] {
        for kind in [MetricKind::Cpu, MetricKind::Memory] {
            let stats = summarize(kind, &series_of(&values)).unwrap();
            assert!(stats.max.micros >= stats.mean.micros);
        }
    }
}

#[test]
fn summarizing_twice_gives_the_same() {
    let series = series_of(&[3.0, 1.5, 9.25]);
    let first: Option<SummaryStats> = summarize(MetricKind::Memory, &series);
    let second = summarize(MetricKind::Memory, &series);
    assert_eq!(first, second);
    assert_eq!(series.len(), 3);
    assert_eq!(series.get(1), Some(Sample::from_micros(1_500_000)));
}

#[test]
fn report_holds_samples_and_statistics_as_text() {
    let report = build_report(MetricKind::Cpu, &series_of(&[10.0, 20.5, 30.0])).unwrap();
    assert_eq!(report.kind, MetricKind::Cpu);
    assert_eq!(report.values, vec!["10", "20.5", "30"]);
    assert_eq!(report.max, "30");
    assert_eq!(report.average, "20.166666");
}

#[test]
fn report_of_no_sample_is_refused() {
    assert_eq!(build_report(MetricKind::Cpu, &Series::new()).unwrap_err(), ReportError::NoData);
}

#[test]
fn labels_and_names() {
    assert_eq!(max_label_of(MetricKind::Cpu), "Cpu Max");
    assert_eq!(max_label_of(MetricKind::Memory), "Mem Max");
    assert_eq!(average_label_of(MetricKind::Cpu), "Cpu Average");
    assert_eq!(average_label_of(MetricKind::Memory), "Mem Average");
    assert_eq!(data_name_of(MetricKind::Cpu), "Cpu Data");
    assert_eq!(data_name_of(MetricKind::Memory), "Memory Data");
}

#[test]
fn file_name_holds_the_stamp() {
    assert_eq!(report_file_name(MetricKind::Cpu, "20240131_235959"), "cpu_data_20240131_235959.xlsx");
    assert_eq!(report_file_name(MetricKind::Memory, "20240131_235959"), "mem_data_20240131_235959.xlsx");
}

#[test]
fn stamped_file_name_shows_date_and_time() {
    assert_eq!(
        stamped_file_name(MetricKind::Cpu, 0).unwrap(),
        "cpu_data_19700101_000000.xlsx"
    );
    assert_eq!(
        stamped_file_name(MetricKind::Memory, 1_700_000_000).unwrap(),
        "mem_data_20231114_221320.xlsx"
    );
    assert_eq!(
        stamped_file_name(MetricKind::Cpu, 951_782_400 + 86_399).unwrap(),
        "cpu_data_20000229_235959.xlsx"
    );
    assert_eq!(stamped_file_name(MetricKind::Cpu, i64::MAX), None);
    assert_eq!(stamped_file_name(MetricKind::Cpu, i64::MIN), None);
}

#[test]
fn sheet_holds_the_rows_of_the_report() {
    let report = build_report(MetricKind::Cpu, &series_of(&[10.0, 20.0, 30.0])).unwrap();
    let mut sheet = Worksheet::new();
    assert_eq!(write_report(&mut sheet, &report), Ok(()));
    assert_eq!(sheet.name(), "Cpu Data");
    let cells = cells_of(sheet, "Cpu Data");
    assert_eq!(text_at(&cells, 0, 1).as_deref(), Some("10"));
    assert_eq!(text_at(&cells, 1, 1).as_deref(), Some("20"));
    assert_eq!(text_at(&cells, 2, 1).as_deref(), Some("30"));
    assert_eq!(text_at(&cells, 0, 0), None);
    assert_eq!(text_at(&cells, 3, 0).as_deref(), Some("Cpu Max"));
    assert_eq!(text_at(&cells, 3, 1).as_deref(), Some("30"));
    assert_eq!(text_at(&cells, 4, 0).as_deref(), Some("Cpu Average"));
    assert_eq!(text_at(&cells, 4, 1).as_deref(), Some("20"));
    assert_eq!(text_at(&cells, 5, 0), None);
    assert_eq!(text_at(&cells, 5, 1), None);
    assert_eq!(cells.end(), Some((4, 1)));
}

#[test]
fn sheet_of_memory_report_is_in_megabytes() {
    let report = build_report(MetricKind::Memory, &series_of(&[2048.0, 4096.0])).unwrap();
    let mut workbook = Workbook::new();
    let sheet = workbook.add_worksheet();
    assert_eq!(write_report(sheet, &report), Ok(()));
    let bytes = workbook.save_to_buffer().unwrap();
    let mut saved: Xlsx<_> = open_workbook_from_rs(Cursor::new(bytes)).unwrap();
    let cells = saved.worksheet_range("Memory Data").unwrap();
    assert_eq!(text_at(&cells, 0, 1).as_deref(), Some("2048"));
    assert_eq!(text_at(&cells, 1, 1).as_deref(), Some("4096"));
    assert_eq!(text_at(&cells, 2, 0).as_deref(), Some("Mem Max"));
    assert_eq!(text_at(&cells, 2, 1).as_deref(), Some("4"));
    assert_eq!(text_at(&cells, 3, 0).as_deref(), Some("Mem Average"));
    assert_eq!(text_at(&cells, 3, 1).as_deref(), Some("3"));
}

#[test]
fn sheet_keeps_cells_that_the_report_does_not_fill() {
    let report = build_report(MetricKind::Cpu, &series_of(&[1.0])).unwrap();
    let mut sheet = Worksheet::new();
    sheet.write_string(0, 0, "kept").unwrap();
    sheet.write_string(0, 1, "replaced").unwrap();
    sheet.write_string(7, 3, "far").unwrap();
    assert_eq!(write_report(&mut sheet, &report), Ok(()));
    let cells = cells_of(sheet, "Cpu Data");
    assert_eq!(text_at(&cells, 0, 0).as_deref(), Some("kept"));
    assert_eq!(text_at(&cells, 0, 1).as_deref(), Some("1"));
    assert_eq!(text_at(&cells, 7, 3).as_deref(), Some("far"));
}

#[test]
fn sheet_passes_over_empty_texts() {
    let report = Report {
        kind: MetricKind::Cpu,
        values: vec!["1".to_string(), String::new(), "3".to_string()],
        max: String::new(),
        average: "2".to_string(),
    };
    assert_eq!(check_report(&report), None);
    let mut sheet = Worksheet::new();
    sheet.write_string(1, 1, "old").unwrap();
    assert_eq!(write_report(&mut sheet, &report), Ok(()));
    let cells = cells_of(sheet, "Cpu Data");
    assert_eq!(text_at(&cells, 0, 1).as_deref(), Some("1"));
    assert_eq!(text_at(&cells, 1, 1).as_deref(), Some("old"));
    assert_eq!(text_at(&cells, 2, 1).as_deref(), Some("3"));
    assert_eq!(text_at(&cells, 3, 0).as_deref(), Some("Cpu Max"));
    assert_eq!(text_at(&cells, 3, 1), None);
    assert_eq!(text_at(&cells, 4, 1).as_deref(), Some("2"));
}

#[test]
fn sheet_refuses_a_text_that_is_too_long() {
    let long = "x".repeat(32_768);
    let fits = "é".repeat(32_767);
    let mut report = Report {
        kind: MetricKind::Cpu,
        values: vec![fits.clone()],
        max: fits.clone(),
        average: fits,
    };
    assert_eq!(check_report(&report), None);
    let mut sheet = Worksheet::new();
    assert_eq!(write_report(&mut sheet, &report), Ok(()));

    report.average = long.clone();
    assert_eq!(check_report(&report), Some(ReportError::CellTooLong));
    report.average = String::new();
    report.values.push(long);
    assert_eq!(check_report(&report), Some(ReportError::CellTooLong));
    let mut sheet = Worksheet::new();
    sheet.set_name("Before").unwrap();
    assert_eq!(write_report(&mut sheet, &report), Err(ReportError::CellTooLong));
    assert_eq!(sheet.name(), "Before");
}

#[test]
fn sheet_refuses_more_rows_than_it_has() {
    let mut report = Report {
        kind: MetricKind::Memory,
        values: vec![String::from("1"); 1_048_574],
        max: "1".to_string(),
        average: "1".to_string(),
    };
    assert_eq!(check_report(&report), None);
    report.values.push("1".to_string());
    assert_eq!(check_report(&report), Some(ReportError::TooManyRows));
    let mut sheet = Worksheet::new();
    assert_eq!(write_report(&mut sheet, &report), Err(ReportError::TooManyRows));
    assert_eq!(sheet.name(), "");
}

#[test]
fn sheet_takes_a_report_that_fills_it_to_the_last_row() {
    let report = Report {
        kind: MetricKind::Memory,
        values: vec![String::from("1"); 1_048_574],
        max: "1".to_string(),
        average: "1".to_string(),
    };
    let mut sheet = Worksheet::new();
    assert_eq!(write_report(&mut sheet, &report), Ok(()));
    assert!(sheet.write_string(1_048_575, 0, "last row").is_ok());
    assert!(sheet.write_string(1_048_576, 0, "no row").is_err());
}

#[test]
fn reports_of_a_run_have_matching_summary_rows() {
    let cpu = series_of(&[12.5, 14.0, 11.5, 13.0]);
    let memory = series_of(&[2048.0]);
    for (kind, series) in [(MetricKind::Cpu, &cpu), (MetricKind::Memory, &memory)] {
        let stats = summarize(kind, series).unwrap();
        let report = build_report(kind, series).unwrap();
        assert_eq!(report.values.len(), series.len());
        assert_eq!(report.max, stats.max.to_text());
        assert_eq!(report.average, stats.mean.to_text());
        assert!(stats.max.micros >= stats.mean.micros);
        if series.len() == 1 {
            assert_eq!(stats.max, stats.mean);
        }
        let mut sheet = Worksheet::new();
        assert_eq!(write_report(&mut sheet, &report), Ok(()));
        let cells = cells_of(sheet, data_name_of(kind));
        let rows = series.len() as u32;
        assert_eq!(text_at(&cells, rows, 1), Some(report.max.clone()));
        assert_eq!(text_at(&cells, rows + 1, 1), Some(report.average.clone()));
    }
}
