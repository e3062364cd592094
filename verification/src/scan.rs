//! The scan itself: walking a segment with a probe, collecting what the
//! workers find, and putting the findings in order.

use crate::decimal::{append_decimal, decimal_text};
use crate::partition::{
    covered_ports, is_partition, lemma_partition_coverage, lemma_segment_bounds, partition,
    segment_start, FIRST_PORT, PORT_LIMIT,
};
use vstd::prelude::*;
use vstd::string::StringExecFns;

verus! {

/// Each element is smaller than the one after it.
pub open spec fn strictly_ascending(ports: Seq<i32>) -> bool {
    forall|i: int, j: int| 0 <= i < j < ports.len() ==> ports[i] < ports[j]
}

/// No element is larger than one that comes after it.
pub open spec fn ascending(ports: Seq<i32>) -> bool {
    forall|i: int, j: int| 0 <= i < j < ports.len() ==> ports[i] <= ports[j]
}

/// What separates the host from the port in an address.
pub const ADDRESS_BREAK: &'static str = ":";

/// The address that a probe connects to: the host as it was given, a colon,
/// and the port in decimal notation.
pub open spec fn address_text(host: Seq<char>, port: int) -> Seq<char> {
    host + ADDRESS_BREAK@ + decimal_text(port)
}

/// Writes the address of a port of the host.
pub fn probe_address(host: &String, port: i32) -> (address: String)
    ensures
        address@ == address_text(host@, port as int),
{
    let mut address = host.clone();
    address.append(ADDRESS_BREAK);
    append_decimal(&mut address, port);
    address
}

/// Probes every port of `[start, finish)` once, in increasing order, and
/// returns those for which the probe answered `true`.
///
/// The probe is whatever decides that a port is open; the scan draws no
/// distinction between the ways in which it may answer `false`.
pub fn get_open_ports<P: Fn(&String, i32) -> bool>(
    host: &String,
    start: i32,
    finish: i32,
    probe: &P,
) -> (open: Vec<i32>)
    requires
        forall|port: i32| start <= port < finish ==> call_requires(*probe, (host, port)),
    ensures
        strictly_ascending(open@),
        forall|i: int| 0 <= i < open.len() ==> start <= #[trigger] open[i] < finish,
        forall|port: i32|
            start <= port < finish ==> call_ensures(
                *probe,
                (host, port),
                #[trigger] open@.contains(port),
            ),
{
    let mut open: Vec<i32> = Vec::new();
    let mut port: i32 = start;
    while port < finish
        invariant
            start <= port <= finish || (finish < start && port == start),
            forall|p: i32| start <= p < finish ==> call_requires(*probe, (host, p)),
            strictly_ascending(open@),
            forall|i: int| 0 <= i < open.len() ==> start <= #[trigger] open[i] < port,
            forall|p: i32|
                start <= p < port ==> call_ensures(*probe, (host, p), #[trigger] open@.contains(p)),
        decreases finish - port,
    {
        let ghost before = open@;
        let answer = probe(host, port);
        if answer {
            open.push(port);
        }
        proof {
            assert forall|p: i32| start <= p < port + 1 implies call_ensures(
                *probe,
                (host, p),
                #[trigger] open@.contains(p),
            ) by {
                if p < port {
                    assert(before.contains(p) == open@.contains(p)) by {
                        if before.contains(p) {
                            let k = choose|k: int| 0 <= k < before.len() && before[k] == p;
                            assert(open@[k] == p);
                        }
                        if open@.contains(p) {
                            let k = choose|k: int| 0 <= k < open@.len() && open@[k] == p;
                            assert(k < before.len());
                            assert(before[k] == p);
                        }
                    }
                } else {
                    if answer {
                        assert(open@[open@.len() - 1] == port);
                    } else {
                        assert(!open@.contains(port));
                    }
                }
            }
        }
        port = port + 1;
    }
    open
}

/// Interleaves two ascending lists into one.
fn merge_ascending(left: &Vec<i32>, right: &Vec<i32>) -> (merged: Vec<i32>)
    requires
        ascending(left@),
        ascending(right@),
    ensures
        ascending(merged@),
        merged@.to_multiset() == left@.to_multiset().add(right@.to_multiset()),
{
    let mut merged: Vec<i32> = Vec::new();
    let mut i: usize = 0;
    let mut j: usize = 0;
    proof {
        broadcast use vstd::multiset::group_multiset_axioms;

        let nothing = Seq::<i32>::empty();
        assert(left@.take(0) =~= nothing);
        assert(right@.take(0) =~= nothing);
        vstd::seq_lib::to_multiset_len(nothing);
        assert(nothing.to_multiset() =~= vstd::multiset::Multiset::empty());
    }
    while i < left.len() || j < right.len()
        invariant
            i <= left.len(),
            j <= right.len(),
            ascending(left@),
            ascending(right@),
            ascending(merged@),
            merged@.to_multiset() =~= left@.take(i as int).to_multiset().add(
                right@.take(j as int).to_multiset(),
            ),
            forall|k: int| 0 <= k < merged.len() && i < left.len() ==> merged[k] <= left[i as int],
            forall|k: int|
                0 <= k < merged.len() && j < right.len() ==> merged[k] <= right[j as int],
        decreases left.len() - i + right.len() - j,
    {
        let from_left = if j >= right.len() {
            true
        } else if i >= left.len() {
            false
        } else {
            left[i] <= right[j]
        };
        if from_left {
            proof {
                assert(left@.take(i + 1) =~= left@.take(i as int).push(left[i as int]));
                vstd::seq_lib::to_multiset_build(left@.take(i as int), left[i as int]);
                vstd::seq_lib::to_multiset_build(merged@, left[i as int]);
            }
            merged.push(left[i]);
            i = i + 1;
        } else {
            proof {
                assert(right@.take(j + 1) =~= right@.take(j as int).push(right[j as int]));
                vstd::seq_lib::to_multiset_build(right@.take(j as int), right[j as int]);
                vstd::seq_lib::to_multiset_build(merged@, right[j as int]);
            }
            merged.push(right[j]);
            j = j + 1;
        }
    }
    assert(left@.take(i as int) =~= left@);
    assert(right@.take(j as int) =~= right@);
    merged
}

/// Sorts the part of `ports` between the indices `low` and `high`.
fn sort_between(ports: &Vec<i32>, low: usize, high: usize) -> (sorted: Vec<i32>)
    requires
        low <= high <= ports.len(),
    ensures
        ascending(sorted@),
        sorted@.to_multiset() == ports@.subrange(low as int, high as int).to_multiset(),
    decreases high - low,
{
    if high - low < 2 {
        let mut sorted: Vec<i32> = Vec::new();
        if high - low == 1 {
            sorted.push(ports[low]);
        }
        assert(sorted@ =~= ports@.subrange(low as int, high as int));
        sorted
    } else {
        let middle = low + (high - low) / 2;
        let left = sort_between(ports, low, middle);
        let right = sort_between(ports, middle, high);
        proof {
            let lower = ports@.subrange(low as int, middle as int);
            let upper = ports@.subrange(middle as int, high as int);
            assert(ports@.subrange(low as int, high as int) =~= lower + upper);
            vstd::seq_lib::lemma_multiset_commutative(lower, upper);
        }
        merge_ascending(&left, &right)
    }
}

/// Returns the ports of `ports` in ascending order: the same ports, each as
/// often as it occurs in `ports`.
pub fn sort_ports(ports: &Vec<i32>) -> (sorted: Vec<i32>)
    ensures
        ascending(sorted@),
        sorted@.to_multiset() == ports@.to_multiset(),
        ports@.no_duplicates() ==> strictly_ascending(sorted@),
{
    let sorted = sort_between(ports, 0, ports.len());
    proof {
        assert(ports@.subrange(0, ports.len() as int) =~= ports@);
        if ports@.no_duplicates() {
            lemma_distinct_ascending_is_strict(ports@, sorted@);
        }
    }
    sorted
}

/// Ordering a list changes neither which ports it holds nor how many.
pub proof fn lemma_same_ports(ports: Seq<i32>, sorted: Seq<i32>)
    requires
        sorted.to_multiset() == ports.to_multiset(),
    ensures
        sorted.len() == ports.len(),
        forall|port: i32| sorted.contains(port) <==> ports.contains(port),
{
    vstd::seq_lib::to_multiset_len(ports);
    vstd::seq_lib::to_multiset_len(sorted);
    assert forall|port: i32| sorted.contains(port) <==> ports.contains(port) by {
        vstd::seq_lib::to_multiset_contains(ports, port);
        vstd::seq_lib::to_multiset_contains(sorted, port);
    }
}

/// When no port was found twice, the ordered list holds no port twice
/// either, and so ascends strictly.
pub proof fn lemma_distinct_ascending_is_strict(ports: Seq<i32>, sorted: Seq<i32>)
    requires
        ports.no_duplicates(),
        ascending(sorted),
        sorted.to_multiset() == ports.to_multiset(),
    ensures
        strictly_ascending(sorted),
        sorted.no_duplicates(),
{
    ports.lemma_multiset_has_no_duplicates();
    sorted.lemma_multiset_has_no_duplicates_conv();
}

/// The ports that the workers of one scan have found open so far, in the
/// order in which they were handed in. Ports are only ever added.
pub struct OpenPortSet {
    ports: Vec<i32>,
}

impl View for OpenPortSet {
    type V = Seq<i32>;

    closed spec fn view(&self) -> Seq<i32> {
        self.ports@
    }
}

impl OpenPortSet {
    /// A collection that holds no port yet.
    pub fn new() -> (set: OpenPortSet)
        ensures
            set@ == Seq::<i32>::empty(),
    {
        OpenPortSet { ports: Vec::new() }
    }

    /// Adds one port that a worker found open.
    pub fn insert(&mut self, port: i32)
        ensures
            final(self)@ == old(self)@.push(port),
    {
        self.ports.push(port);
    }

    /// Adds all the ports that one worker found, in the worker's order.
    pub fn absorb(&mut self, found: &Vec<i32>)
        ensures
            final(self)@ == old(self)@ + found@,
    {
        let mut i: usize = 0;
        while i < found.len()
            invariant
                i <= found.len(),
                self.ports@ == old(self).ports@ + found@.take(i as int),
            decreases found.len() - i,
        {
            self.ports.push(found[i]);
            i = i + 1;
            assert(found@.take(i as int) =~= found@.take(i - 1).push(found[i - 1]));
        }
        assert(found@.take(i as int) =~= found@);
    }

    /// How many findings were handed in.
    pub fn len(&self) -> (count: usize)
        ensures
            count == self@.len(),
    {
        self.ports.len()
    }

    /// Whether nothing was found.
    pub fn is_empty(&self) -> (empty: bool)
        ensures
            empty == (self@.len() == 0),
    {
        self.ports.len() == 0
    }

    /// Ends the collecting and hands out the findings in ascending order:
    /// every port as often as it was handed in, none dropped, none added.
    pub fn into_sorted(self) -> (sorted: Vec<i32>)
        ensures
            ascending(sorted@),
            sorted@.to_multiset() == self@.to_multiset(),
            self@.no_duplicates() ==> strictly_ascending(sorted@),
    {
        sort_ports(&self.ports)
    }
}

/// Whatever the workers found is in the ordered list, as often as it was
/// found, and the list holds nothing else.
pub proof fn lemma_merge_complete(
    earlier: Seq<i32>,
    found: Seq<i32>,
    sorted: Seq<i32>,
    port: i32,
)
    requires
        sorted.to_multiset() == (earlier + found).to_multiset(),
    ensures
        sorted.to_multiset().count(port) == earlier.to_multiset().count(port)
            + found.to_multiset().count(port),
        sorted.contains(port) <==> earlier.contains(port) || found.contains(port),
        (earlier + found).no_duplicates() && sorted.contains(port) ==> sorted.to_multiset().count(
            port,
        ) == 1,
{
    vstd::seq_lib::lemma_multiset_commutative(earlier, found);
    vstd::seq_lib::to_multiset_contains(earlier, port);
    vstd::seq_lib::to_multiset_contains(found, port);
    vstd::seq_lib::to_multiset_contains(sorted, port);
    if (earlier + found).no_duplicates() {
        (earlier + found).lemma_multiset_has_no_duplicates();
    }
}

/// Scans the host with `worker_count` workers, one after the other: splits
/// the port space, walks every segment with the probe, merges the findings
/// and returns them in ascending order.
///
/// A port is in the result exactly when it lies in some worker's segment and
/// the probe answered `true` for it; no port is probed twice, so none is
/// listed twice.
pub fn scan<P: Fn(&String, i32) -> bool>(host: &String, worker_count: i32, probe: &P) -> (open:
    Vec<i32>)
    requires
        worker_count >= 1,
        forall|port: i32| FIRST_PORT <= port < PORT_LIMIT ==> call_requires(*probe, (host, port)),
    ensures
        strictly_ascending(open@),
        forall|i: int|
            0 <= i < open.len() ==> covered_ports(worker_count as int).contains(
                #[trigger] open[i] as int,
            ),
        forall|port: i32|
            covered_ports(worker_count as int).contains(port as int) ==> call_ensures(
                *probe,
                (host, port),
                #[trigger] open@.contains(port),
            ),
{
    let segments = partition(worker_count);
    let mut found = OpenPortSet::new();
    let mut index: usize = 0;
    proof {
        lemma_segment_bounds(worker_count as int, 0, 0);
    }
    while index < segments.len()
        invariant
            worker_count >= 1,
            index <= segments.len(),
            is_partition(segments@, worker_count as int),
            forall|port: i32|
                FIRST_PORT <= port < PORT_LIMIT ==> call_requires(*probe, (host, port)),
            strictly_ascending(found@),
            forall|i: int|
                0 <= i < found@.len() ==> FIRST_PORT <= #[trigger] found@[i] < segment_start(
                    worker_count as int,
                    index as int,
                ),
            forall|port: i32|
                FIRST_PORT <= port < segment_start(worker_count as int, index as int)
                    ==> call_ensures(*probe, (host, port), #[trigger] found@.contains(port)),
        decreases segments.len() - index,
    {
        let segment = segments[index];
        proof {
            lemma_segment_bounds(worker_count as int, index as int, index + 1);
        }
        let ghost earlier = found@;
        let here = get_open_ports(host, segment.start, segment.finish, probe);
        found.absorb(&here);
        proof {
            let reach = segment_start(worker_count as int, index as int);
            assert(segment.start == reach);
            assert(segment.finish == segment_start(worker_count as int, index + 1));
            assert forall|port: i32|
                FIRST_PORT <= port < segment.finish implies call_ensures(
                *probe,
                (host, port),
                #[trigger] found@.contains(port),
            ) by {
                if port < reach {
                    if found@.contains(port) {
                        let k = choose|k: int| 0 <= k < found@.len() && found@[k] == port;
                        if k >= earlier.len() {
                            assert(found@[k] == here@[k - earlier.len()]);
                        }
                        assert(earlier[k] == port);
                    }
                    if earlier.contains(port) {
                        let k = choose|k: int| 0 <= k < earlier.len() && earlier[k] == port;
                        assert(found@[k] == port);
                    }
                    assert(found@.contains(port) == earlier.contains(port));
                } else {
                    if found@.contains(port) {
                        let k = choose|k: int| 0 <= k < found@.len() && found@[k] == port;
                        if k < earlier.len() {
                            assert(found@[k] == earlier[k]);
                        }
                        assert(here@[k - earlier.len()] == port);
                    }
                    if here@.contains(port) {
                        let k = choose|k: int| 0 <= k < here@.len() && here@[k] == port;
                        assert(found@[earlier.len() + k] == port);
                    }
                    assert(found@.contains(port) == here@.contains(port));
                }
            }
        }
        index = index + 1;
    }
    let open = found.into_sorted();
    proof {
        lemma_partition_coverage(worker_count as int);
        lemma_same_ports(found@, open@);
        assert(found@.no_duplicates());
        assert forall|i: int| 0 <= i < open.len() implies covered_ports(
            worker_count as int,
        ).contains(#[trigger] open[i] as int) by {
            assert(open@.contains(open[i]));
            let k = choose|k: int| 0 <= k < found@.len() && found@[k] == open[i];
        }
    }
    open
}

} // verus!
