use portscan::scan::{get_open_ports, scan, sort_ports, OpenPortSet};
use std::cell::Cell;

fn host() -> String {
    String::from("scanme.example")
}

#[test]
fn local_scan_reports_what_the_probe_accepts() {
    let open = get_open_ports(&host(), 1, 100, &|_host: &String, port: i32| {
        port == 7 || port == 22 || port == 80
    });
    assert_eq!(open, vec![7, 22, 80]);
}

#[test]
fn local_scan_leaves_the_upper_bound_out() {
    let open = get_open_ports(&host(), 20, 23, &|_host: &String, _port: i32| true);
    assert_eq!(open, vec![20, 21, 22]);
}

#[test]
fn local_scan_of_an_empty_segment_probes_nothing() {
    let calls = Cell::new(0);
    let open = get_open_ports(&host(), 5, 5, &|_host: &String, _port: i32| {
        calls.set(calls.get() + 1);
        true
    });
    assert!(open.is_empty());
    assert_eq!(calls.get(), 0);
}

#[test]
fn local_scan_of_a_reversed_segment_probes_nothing() {
    let calls = Cell::new(0);
    let open = get_open_ports(&host(), 9, 3, &|_host: &String, _port: i32| {
        calls.set(calls.get() + 1);
        true
    });
    assert!(open.is_empty());
    assert_eq!(calls.get(), 0);
}

#[test]
fn local_scan_probes_each_port_once_in_order() {
    let last = Cell::new(9);
    let calls = Cell::new(0);
    let open = get_open_ports(&host(), 10, 20, &|_host: &String, port: i32| {
        assert_eq!(port, last.get() + 1);
        last.set(port);
        calls.set(calls.get() + 1);
        port % 2 == 0
    });
    assert_eq!(calls.get(), 10);
    assert_eq!(open, vec![10, 12, 14, 16, 18]);
}

#[test]
fn local_scan_hands_the_host_to_the_probe() {
    let open = get_open_ports(&host(), 1, 4, &|name: &String, port: i32| {
        name == "scanme.example" && port == 2
    });
    assert_eq!(open, vec![2]);
}

#[test]
fn sort_orders_ascending() {
    assert_eq!(sort_ports(&vec![443, 22, 8080, 80, 7]), vec![7, 22, 80, 443, 8080]);
}

#[test]
fn sort_of_nothing_is_nothing() {
    assert_eq!(sort_ports(&vec![]), Vec::<i32>::new());
}

#[test]
fn sort_keeps_a_single_port() {
    assert_eq!(sort_ports(&vec![65535]), vec![65535]);
}

#[test]
fn sort_keeps_repeated_ports() {
    assert_eq!(sort_ports(&vec![7, 3, 7, 3, 1]), vec![1, 3, 3, 7, 7]);
}

#[test]
fn sort_handles_descending_input() {
    let input: Vec<i32> = (1..=1000).rev().collect();
    let expected: Vec<i32> = (1..=1000).collect();
    assert_eq!(sort_ports(&input), expected);
}

#[test]
fn sort_leaves_the_input_alone() {
    let input = vec![3, 1, 2];
    let sorted = sort_ports(&input);
    assert_eq!(input, vec![3, 1, 2]);
    assert_eq!(sorted, vec![1, 2, 3]);
}

#[test]
fn open_port_set_starts_empty() {
    let set = OpenPortSet::new();
    assert!(set.is_empty());
    assert_eq!(set.len(), 0);
    assert_eq!(set.into_sorted(), Vec::<i32>::new());
}

#[test]
fn open_port_set_merges_in_any_order() {
    let mut set = OpenPortSet::new();
    set.absorb(&vec![40000, 50000]);
    set.insert(22);
    set.absorb(&vec![]);
    set.absorb(&vec![8080, 9090]);
    set.insert(7);
    assert!(!set.is_empty());
    assert_eq!(set.len(), 6);
    assert_eq!(set.into_sorted(), vec![7, 22, 8080, 9090, 40000, 50000]);
}

#[test]
fn open_port_set_drops_nothing_and_adds_nothing() {
    let mut set = OpenPortSet::new();
    set.absorb(&vec![5, 1]);
    set.absorb(&vec![5]);
    assert_eq!(set.into_sorted(), vec![1, 5, 5]);
}

#[test]
fn scan_finds_every_open_port_exactly_once() {
    let open_ports = [1, 7, 22, 80, 443, 16383, 16384, 32767, 49150, 65532];
    for workers in [1, 2, 3, 4, 5, 64, 1000] {
        let width = 65535 / workers;
        let reach = 1 + workers * width;
        let found = scan(&host(), workers, &|_host: &String, port: i32| {
            open_ports.contains(&port)
        });
        let expected: Vec<i32> =
            open_ports.iter().copied().filter(|port| *port < reach).collect();
        assert_eq!(found, expected);
    }
}

#[test]
fn scan_output_is_strictly_ascending() {
    let found = scan(&host(), 16, &|_host: &String, port: i32| port % 1000 == 0);
    assert_eq!(found.len(), 65);
    for i in 1..found.len() {
        assert!(found[i - 1] < found[i]);
    }
}

#[test]
fn scan_probes_each_covered_port_once() {
    let calls = Cell::new(0u32);
    let found = scan(&host(), 4, &|_host: &String, _port: i32| {
        calls.set(calls.get() + 1);
        false
    });
    assert!(found.is_empty());
    assert_eq!(calls.get(), 4 * (65535 / 4));
}

#[test]
fn scan_skips_the_ports_the_division_left_over() {
    let found = scan(&host(), 4, &|_host: &String, port: i32| port >= 65530);
    assert_eq!(found, vec![65530, 65531, 65532]);
    let found = scan(&host(), 1, &|_host: &String, port: i32| port >= 65530);
    assert_eq!(found, vec![65530, 65531, 65532, 65533, 65534, 65535]);
}

#[test]
fn scan_with_more_workers_than_ports_probes_nothing() {
    let calls = Cell::new(0u32);
    let found = scan(&host(), 70000, &|_host: &String, _port: i32| {
        calls.set(calls.get() + 1);
        true
    });
    assert!(found.is_empty());
    assert_eq!(calls.get(), 0);
}

#[test]
fn scan_of_a_host_with_everything_open_lists_every_port() {
    let found = scan(&host(), 3, &|_host: &String, _port: i32| true);
    let expected: Vec<i32> = (1..65536).collect();
    assert_eq!(found, expected);
}
