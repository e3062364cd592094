//! Division of the port space into one contiguous segment per worker.

use vstd::prelude::*;

verus! {

/// The lowest port that is ever probed.
pub const FIRST_PORT: i32 = 1;

/// One past the highest port that exists.
pub const PORT_LIMIT: i32 = 65536;

/// A half-open interval `[start, finish)` of ports, the share of one worker.
#[derive(Clone, Copy, Debug, PartialEq, Eq, Structural)]
pub struct PortRange {
    pub start: i32,
    pub finish: i32,
}

impl PortRange {
    /// Whether `port` lies inside the interval.
    pub open spec fn covers(self, port: int) -> bool {
        self.start <= port < self.finish
    }

    /// The ports of the interval, as a set.
    pub open spec fn ports(self) -> Set<int> {
        Set::new(|port: int| self.covers(port))
    }
}

/// The number of ports in the whole port space.
pub open spec fn total_ports() -> int {
    PORT_LIMIT - FIRST_PORT
}

/// The number of ports each worker gets: the port space divided by the
/// number of workers, rounded down.
pub open spec fn segment_width(worker_count: int) -> int {
    total_ports() / worker_count
}

/// Where the segment with the given index begins.
pub open spec fn segment_start(worker_count: int, index: int) -> int {
    FIRST_PORT + index * segment_width(worker_count)
}

/// Where the segment with the given index ends.
pub open spec fn segment_finish(worker_count: int, index: int) -> int {
    segment_start(worker_count, index) + segment_width(worker_count)
}

/// The list of segments that `worker_count` workers share: as many as there
/// are workers, all of the same width, laid out from `FIRST_PORT` upwards.
pub open spec fn is_partition(segments: Seq<PortRange>, worker_count: int) -> bool {
    &&& segments.len() == worker_count
    &&& forall|i: int|
        0 <= i < segments.len() ==> {
            &&& (#[trigger] segments[i]).start == segment_start(worker_count, i)
            &&& segments[i].finish == segment_finish(worker_count, i)
        }
}

/// The ports that some worker probes.
pub open spec fn covered_ports(worker_count: int) -> Set<int> {
    Set::new(
        |port: int|
            exists|i: int|
                0 <= i < worker_count && segment_start(worker_count, i) <= port < #[trigger] segment_finish(
                    worker_count,
                    i,
                ),
    )
}

/// The width is never negative, and all the workers' segments together fit
/// into the port space.
pub proof fn lemma_width_bounds(worker_count: int)
    requires
        worker_count >= 1,
    ensures
        0 <= segment_width(worker_count) <= total_ports(),
        worker_count * segment_width(worker_count) <= total_ports(),
        total_ports() - worker_count * segment_width(worker_count) < worker_count,
{
    let w = worker_count;
    let t = total_ports();
    assert(0 <= t / w <= t && w * (t / w) <= t && t - w * (t / w) < w) by (nonlinear_arith)
        requires
            w >= 1,
            t >= 0,
    ;
}

/// Segment boundaries grow with the index and stay inside the port space.
pub proof fn lemma_segment_bounds(worker_count: int, i: int, j: int)
    requires
        worker_count >= 1,
        0 <= i <= j <= worker_count,
    ensures
        FIRST_PORT <= segment_start(worker_count, i) <= segment_start(worker_count, j) <= FIRST_PORT
            + worker_count * segment_width(worker_count) <= PORT_LIMIT,
        segment_start(worker_count, i + 1) == segment_finish(worker_count, i),
{
    lemma_width_bounds(worker_count);
    let s = segment_width(worker_count);
    let w = worker_count;
    assert(0 <= i * s <= j * s <= w * s && (i + 1) * s == i * s + s) by (nonlinear_arith)
        requires
            0 <= i <= j <= w,
            s >= 0,
    ;
}

/// Splits the port space among `worker_count` workers.
///
/// The width of a segment is the number of ports divided by the number of
/// workers, rounded down; the ports that are left over when the division has
/// a remainder belong to no segment.
pub fn partition(worker_count: i32) -> (segments: Vec<PortRange>)
    requires
        worker_count >= 1,
    ensures
        is_partition(segments@, worker_count as int),
{
    let step: i32 = (PORT_LIMIT - FIRST_PORT) / worker_count;
    let mut segments: Vec<PortRange> = Vec::new();
    let mut start: i32 = FIRST_PORT;
    let mut index: i32 = 0;
    proof {
        lemma_segment_bounds(worker_count as int, 0, 0);
    }
    while index < worker_count
        invariant
            worker_count >= 1,
            0 <= index <= worker_count,
            step == segment_width(worker_count as int),
            start == segment_start(worker_count as int, index as int),
            segments.len() == index,
            forall|i: int|
                0 <= i < index ==> {
                    &&& (#[trigger] segments[i]).start == segment_start(worker_count as int, i)
                    &&& segments[i].finish == segment_finish(worker_count as int, i)
                },
        decreases worker_count - index,
    {
        proof {
            lemma_segment_bounds(worker_count as int, index as int, index + 1);
        }
        let finish: i32 = start + step;
        segments.push(PortRange { start, finish });
        start = finish;
        index = index + 1;
    }
    segments
}

/// Consecutive segments touch: each one ends where the next one begins.
pub proof fn lemma_segments_contiguous(segments: Seq<PortRange>, worker_count: int, i: int)
    requires
        worker_count >= 1,
        is_partition(segments, worker_count),
        0 <= i,
        i + 1 < worker_count,
    ensures
        segments[i].finish == segments[i + 1].start,
{
    lemma_segment_bounds(worker_count, i, i + 1);
}

/// Every segment is a well-formed interval inside the port space.
pub proof fn lemma_segments_in_port_space(segments: Seq<PortRange>, worker_count: int, i: int)
    requires
        worker_count >= 1,
        is_partition(segments, worker_count),
        0 <= i < worker_count,
    ensures
        FIRST_PORT <= segments[i].start <= segments[i].finish <= PORT_LIMIT,
        segments[i].finish - segments[i].start == segment_width(worker_count),
{
    lemma_segment_bounds(worker_count, i, i + 1);
}

/// No port belongs to two different segments.
pub proof fn lemma_segments_disjoint(
    segments: Seq<PortRange>,
    worker_count: int,
    i: int,
    j: int,
)
    requires
        worker_count >= 1,
        is_partition(segments, worker_count),
        0 <= i < worker_count,
        0 <= j < worker_count,
        i != j,
    ensures
        segments[i].ports().disjoint(segments[j].ports()),
{
    if i < j {
        lemma_segment_bounds(worker_count, i + 1, j);
        lemma_segment_bounds(worker_count, i, i + 1);
    } else {
        lemma_segment_bounds(worker_count, j + 1, i);
        lemma_segment_bounds(worker_count, j, j + 1);
    }
}

/// A port is probed by some worker exactly when one of the segments holds
/// it.
pub proof fn lemma_covered_by_segments(segments: Seq<PortRange>, worker_count: int, port: int)
    requires
        worker_count >= 1,
        is_partition(segments, worker_count),
    ensures
        covered_ports(worker_count).contains(port) <==> exists|i: int|
            0 <= i < segments.len() && (#[trigger] segments[i]).covers(port),
{
    if covered_ports(worker_count).contains(port) {
        let i = choose|i: int|
            0 <= i < worker_count && segment_start(worker_count, i) <= port
                < #[trigger] segment_finish(worker_count, i);
        assert(segments[i].covers(port));
    }
    if exists|i: int| 0 <= i < segments.len() && (#[trigger] segments[i]).covers(port) {
        let i = choose|i: int| 0 <= i < segments.len() && (#[trigger] segments[i]).covers(port);
        assert(segment_start(worker_count, i) <= port < segment_finish(worker_count, i));
    }
}

/// The segments together cover exactly the ports from `FIRST_PORT` up to the
/// end of the last segment, all of them real ports, and their number is the
/// worker count times the width: what the division leaves over is excluded,
/// always the same trailing ports.
pub proof fn lemma_partition_coverage(worker_count: int)
    requires
        worker_count >= 1,
    ensures
        covered_ports(worker_count) == vstd::set_lib::set_int_range(
            FIRST_PORT as int,
            FIRST_PORT + worker_count * segment_width(worker_count),
        ),
        covered_ports(worker_count).subset_of(
            vstd::set_lib::set_int_range(FIRST_PORT as int, PORT_LIMIT as int),
        ),
        covered_ports(worker_count).finite(),
        covered_ports(worker_count).len() == worker_count * (total_ports() / worker_count),
{
    let w = worker_count;
    let s = segment_width(w);
    let covered = covered_ports(w);
    let span = vstd::set_lib::set_int_range(FIRST_PORT as int, FIRST_PORT + w * s);
    lemma_width_bounds(w);
    assert(0 <= w * s) by (nonlinear_arith)
        requires
            w >= 1,
            s >= 0,
    ;
    assert forall|port: int| covered.contains(port) implies span.contains(port) by {
        let i = choose|i: int|
            0 <= i < w && segment_start(w, i) <= port < #[trigger] segment_finish(w, i);
        lemma_segment_bounds(w, i, i + 1);
    }
    assert forall|port: int| span.contains(port) implies covered.contains(port) by {
        let offset = port - FIRST_PORT;
        let i = offset / s;
        assert(s > 0 && 0 <= i < w && i * s <= offset < i * s + s) by (nonlinear_arith)
            requires
                0 <= offset < w * s,
                w >= 1,
                s >= 0,
                i == offset / s,
        ;
        assert(segment_start(w, i) <= port < segment_finish(w, i));
    }
    assert(covered =~= span);
    vstd::set_lib::lemma_int_range(FIRST_PORT as int, FIRST_PORT + w * s);
}

} // verus!
