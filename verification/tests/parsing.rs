use perf_monitor::metric::MetricKind;
use perf_monitor::parser::{
    parse_cpu_line, parse_cpu_output, parse_memory_output, parse_output,
};
use perf_monitor::sample::Sample;
use perf_monitor::text::{chars_of, fields_of, has_text, lines_of, string_of};

fn micros(value: u64) -> Sample {
    Sample::from_micros(value)
}

fn strings(parts: Vec<Vec<char>>) -> Vec<String> {
    parts.iter().map(string_of).collect()
}

#[test]
fn cpu_line_ninth_field_without_percent() {
    let line = "12345 u0_a123 10 -10 4.5G 210M 120M S 37.5% 3.1 0:12.34 com.example.app";
    assert_eq!(parse_cpu_line(line), micros(37_500_000));
}

#[test]
fn cpu_line_ninth_field_plain_number() {
    let line = "12345 u0_a123 10 -10 4.5G 210M 120M S 37.5 3.1 0:12.34 com.example.app";
    assert_eq!(parse_cpu_line(line), micros(37_500_000));
}

#[test]
fn cpu_line_with_too_few_fields_gives_zero() {
    assert_eq!(parse_cpu_line("1 2 3 4 5 6 7 8"), micros(0));
    assert_eq!(parse_cpu_line(""), micros(0));
    assert_eq!(parse_cpu_line("   \t  "), micros(0));
}

#[test]
fn cpu_line_with_malformed_field_gives_zero() {
    assert_eq!(parse_cpu_line("1 2 3 4 5 6 7 8 abc 10"), micros(0));
    assert_eq!(parse_cpu_line("1 2 3 4 5 6 7 8 -3.0 10"), micros(0));
    assert_eq!(parse_cpu_line("1 2 3 4 5 6 7 8 NaN 10"), micros(0));
    assert_eq!(parse_cpu_line("1 2 3 4 5 6 7 8 inf 10"), micros(0));
    assert_eq!(parse_cpu_line("1 2 3 4 5 6 7 8 % 10"), micros(0));
}

#[test]
fn cpu_line_strips_one_percent_only() {
    assert_eq!(parse_cpu_line("1 2 3 4 5 6 7 8 5% 10"), micros(5_000_000));
    assert_eq!(parse_cpu_line("1 2 3 4 5 6 7 8 5%% 10"), micros(0));
    assert_eq!(parse_cpu_line("1 2 3 4 5 6 7 8 %5 10"), micros(0));
}

#[test]
fn cpu_line_fields_are_split_on_any_white_space() {
    assert_eq!(parse_cpu_line("1\t2  3\u{a0}4\r5 6\u{3000}7 8 1.25%"), micros(1_250_000));
}

#[test]
fn cpu_output_takes_first_line_only() {
    let output = " 1 2 3 4 5 6 7 8 12.3 x\n 1 2 3 4 5 6 7 8 99.9 x\n";
    assert_eq!(parse_cpu_output(output), Some(micros(12_300_000)));
}

#[test]
fn cpu_output_empty_gives_no_sample() {
    assert_eq!(parse_cpu_output(""), None);
    assert_eq!(parse_output(MetricKind::Cpu, ""), vec![]);
}

#[test]
fn cpu_output_with_empty_first_line_gives_zero() {
    assert_eq!(parse_cpu_output("\n1 2 3 4 5 6 7 8 9.0"), Some(micros(0)));
    assert_eq!(parse_output(MetricKind::Cpu, "\n"), vec![micros(0)]);
}

#[test]
fn memory_output_one_sample_per_marker_line() {
    let output =
        "App Summary\n  TOTAL PSS:   204800   TOTAL RSS:   300000\nother\n TOTAL PSS: 1.5\n";
    assert_eq!(
        parse_memory_output(output),
        vec![micros(204_800_000_000), micros(1_500_000)]
    );
    assert_eq!(parse_output(MetricKind::Memory, output).len(), 2);
}

#[test]
fn memory_output_without_marker_gives_nothing() {
    assert_eq!(parse_memory_output("TOTAL  PSS: 12\nTOTAL PSS 12\ntotal pss: 12\n"), vec![]);
    assert_eq!(parse_memory_output(""), vec![]);
}

#[test]
fn memory_line_uses_third_field_of_the_line() {
    assert_eq!(parse_memory_output("x TOTAL PSS: 77 88"), vec![micros(0)]);
    assert_eq!(parse_memory_output("TOTAL PSS:"), vec![micros(0)]);
    assert_eq!(parse_memory_output("TOTAL PSS:12"), vec![micros(0)]);
    assert_eq!(parse_memory_output("TOTAL PSS: 12K"), vec![micros(0)]);
    assert_eq!(parse_memory_output("\r\nTOTAL PSS: 12\r\n"), vec![micros(12_000_000)]);
}

#[test]
fn lines_end_at_line_feeds() {
    assert_eq!(strings(lines_of(&chars_of("a\nb"))), vec!["a", "b"]);
    assert_eq!(strings(lines_of(&chars_of("a\nb\n"))), vec!["a", "b"]);
    assert_eq!(strings(lines_of(&chars_of("a\n\nb"))), vec!["a", "", "b"]);
    assert_eq!(strings(lines_of(&chars_of("\n"))), vec![""]);
    assert_eq!(strings(lines_of(&chars_of(""))), Vec::<String>::new());
}

#[test]
fn fields_are_runs_without_white_space() {
    assert_eq!(strings(fields_of(&chars_of("  a  bc\td "))), vec!["a", "bc", "d"]);
    assert_eq!(strings(fields_of(&chars_of("   "))), Vec::<String>::new());
    assert_eq!(strings(fields_of(&chars_of("x"))), vec!["x"]);
}

#[test]
fn marker_is_found_anywhere_in_a_line() {
    let marker = chars_of("TOTAL PSS:");
    assert!(has_text(&chars_of("TOTAL PSS:"), &marker));
    assert!(has_text(&chars_of("xxTOTAL PSS:yy"), &marker));
    assert!(!has_text(&chars_of("TOTAL PSS"), &marker));
    assert!(!has_text(&chars_of(""), &marker));
    assert!(has_text(&chars_of(""), &chars_of("")));
}
