use portscan::decimal::{append_decimal, decimal_string};
use portscan::report::{render_report, render_row};
use portscan::request::{parse_arguments, parse_decimal, UsageError, USAGE_EXIT_CODE};
use portscan::scan::scan;
use portscan::services::{load_services, ServiceTable};
use std::cell::Cell;

fn args(words: &[&str]) -> Vec<String> {
    words.iter().map(|word| word.to_string()).collect()
}

fn services(text: &[&str]) -> ServiceTable {
    let lines: Vec<String> = text.iter().map(|line| line.to_string()).collect();
    match load_services(&lines) {
        Ok(table) => table,
        Err(_) => panic!("the pattern was refused"),
    }
}

#[test]
fn decimal_of_small_numbers() {
    assert_eq!(decimal_string(0), "0");
    assert_eq!(decimal_string(7), "7");
    assert_eq!(decimal_string(10), "10");
    assert_eq!(decimal_string(80), "80");
    assert_eq!(decimal_string(65535), "65535");
}

#[test]
fn decimal_of_negative_numbers() {
    assert_eq!(decimal_string(-1), "-1");
    assert_eq!(decimal_string(-4096), "-4096");
}

#[test]
fn decimal_of_the_extremes() {
    assert_eq!(decimal_string(i32::MAX), "2147483647");
    assert_eq!(decimal_string(i32::MIN), "-2147483648");
}

#[test]
fn decimal_agrees_with_the_standard_notation() {
    for n in [0, 1, 9, 10, 11, 99, 100, 101, 1000, 12345, 65535, 65536, -7, -10, -65535] {
        assert_eq!(decimal_string(n), n.to_string());
    }
}

#[test]
fn decimal_is_appended() {
    let mut text = String::from("port ");
    append_decimal(&mut text, 443);
    assert_eq!(text, "port 443");
}

#[test]
fn parse_reads_plain_numbers() {
    assert_eq!(parse_decimal("4"), Some(4));
    assert_eq!(parse_decimal("0"), Some(0));
    assert_eq!(parse_decimal("65535"), Some(65535));
    assert_eq!(parse_decimal("0004"), Some(4));
}

#[test]
fn parse_reads_signs() {
    assert_eq!(parse_decimal("+4"), Some(4));
    assert_eq!(parse_decimal("-4"), Some(-4));
    assert_eq!(parse_decimal("-0"), Some(0));
}

#[test]
fn parse_refuses_what_is_no_number() {
    for text in ["", "+", "-", "four", "4x", "x4", " 4", "4 ", "4.0", "--4", "+-4", "1_000", "٣"] {
        assert_eq!(parse_decimal(text), None);
    }
}

#[test]
fn parse_refuses_what_does_not_fit() {
    assert_eq!(parse_decimal("2147483647"), Some(i32::MAX));
    assert_eq!(parse_decimal("2147483648"), None);
    assert_eq!(parse_decimal("-2147483648"), Some(i32::MIN));
    assert_eq!(parse_decimal("-2147483649"), None);
    assert_eq!(parse_decimal("99999999999999999999999999"), None);
    assert_eq!(parse_decimal("-99999999999999999999999999"), None);
    assert_eq!(parse_decimal("00000000000000000000000012"), Some(12));
}

#[test]
fn parse_agrees_with_the_standard_parser() {
    for text in ["12", "-12", "+12", "", "-", "2147483648", "abc", "007", "4294967296"] {
        assert_eq!(parse_decimal(text), text.parse::<i32>().ok());
    }
}

#[test]
fn arguments_with_host_and_threads_are_accepted() {
    match parse_arguments(&args(&["scanner", "localhost", "8"])) {
        Ok(request) => {
            assert_eq!(request.host, "localhost");
            assert_eq!(request.worker_count, 8);
        }
        Err(_) => panic!("the arguments are in order"),
    }
}

#[test]
fn one_thread_is_enough() {
    match parse_arguments(&args(&["scanner", "10.0.0.1", "1"])) {
        Ok(request) => {
            assert_eq!(request.host, "10.0.0.1");
            assert_eq!(request.worker_count, 1);
        }
        Err(_) => panic!("the arguments are in order"),
    }
}

#[test]
fn further_arguments_are_ignored() {
    match parse_arguments(&args(&["scanner", "localhost", "2", "more"])) {
        Ok(request) => assert_eq!(request.worker_count, 2),
        Err(_) => panic!("the arguments are in order"),
    }
}

#[test]
fn missing_arguments_are_refused() {
    assert_eq!(parse_arguments(&args(&[])).err(), Some(UsageError::MissingArguments));
    assert_eq!(parse_arguments(&args(&["scanner"])).err(), Some(UsageError::MissingArguments));
    assert_eq!(
        parse_arguments(&args(&["scanner", "localhost"])).err(),
        Some(UsageError::MissingArguments)
    );
}

#[test]
fn unreadable_thread_count_is_refused() {
    assert_eq!(
        parse_arguments(&args(&["scanner", "localhost", "many"])).err(),
        Some(UsageError::UnreadableThreadCount)
    );
}

#[test]
fn invalid_thread_count_is_refused_before_any_probe() {
    let probes = Cell::new(0);
    let probe = |_host: &String, _port: i32| {
        probes.set(probes.get() + 1);
        true
    };
    let parsed = parse_arguments(&args(&["scanner", "localhost", "0"]));
    let output = match parsed {
        Ok(request) => {
            let open = scan(&request.host, request.worker_count, &probe);
            (render_report(&open, &ServiceTable::new()), 0)
        }
        Err(reason) => (vec![reason.message("scanner")], USAGE_EXIT_CODE),
    };
    assert_eq!(output.0, vec!["Invalid thread count '0', must be >= 1.".to_string()]);
    assert_eq!(output.1, 1);
    assert_eq!(probes.get(), 0);
}

#[test]
fn negative_thread_count_is_refused() {
    let parsed = parse_arguments(&args(&["scanner", "localhost", "-3"]));
    assert_eq!(parsed.err(), Some(UsageError::InvalidThreadCount(-3)));
    assert_eq!(
        UsageError::InvalidThreadCount(-3).message("scanner"),
        "Invalid thread count '-3', must be >= 1."
    );
}

#[test]
fn usage_names_the_program() {
    assert_eq!(
        UsageError::MissingArguments.message("./scanner"),
        "Usage: \n\t./scanner HOST THREADS"
    );
    assert_eq!(
        UsageError::UnreadableThreadCount.message("scan"),
        "Usage: \n\tscan HOST THREADS"
    );
}

#[test]
fn all_closed_host_reports_no_open_ports() {
    let host = String::from("quiet.example");
    let open = scan(&host, 4, &|_host: &String, _port: i32| false);
    let report = render_report(&open, &services(&["echo 7/tcp"]));
    assert_eq!(report, vec!["No open ports".to_string()]);
}

#[test]
fn single_open_port_gives_a_single_row() {
    let host = String::from("echo.example");
    let open = scan(&host, 1, &|_host: &String, port: i32| port == 7);
    assert_eq!(open, vec![7]);
    let named = render_report(&open, &services(&["echo 7/tcp"]));
    assert_eq!(
        named,
        vec![
            "\nNUMBER \t| SERVICE".to_string(),
            "---------------------------------------".to_string(),
            "7 \t| echo".to_string(),
            "---------------------------------------".to_string(),
        ]
    );
    let nameless = render_report(&open, &ServiceTable::new());
    assert_eq!(nameless.len(), 4);
    assert_eq!(nameless[2], "7 \t| ");
}

#[test]
fn report_has_a_row_and_a_divider_for_each_port() {
    let table = services(&["ssh 22/tcp", "http 80/tcp"]);
    let report = render_report(&vec![22, 80, 8080], &table);
    assert_eq!(
        report,
        vec![
            "\nNUMBER \t| SERVICE".to_string(),
            "---------------------------------------".to_string(),
            "22 \t| ssh".to_string(),
            "---------------------------------------".to_string(),
            "80 \t| http".to_string(),
            "---------------------------------------".to_string(),
            "8080 \t| ".to_string(),
            "---------------------------------------".to_string(),
        ]
    );
}

#[test]
fn row_shows_number_and_name() {
    let table = services(&["https 443/tcp"]);
    assert_eq!(render_row(443, &table), "443 \t| https");
    assert_eq!(render_row(444, &table), "444 \t| ");
}
