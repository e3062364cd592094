//! The table that is shown to the user once the scan is over.

use crate::decimal::{append_decimal, decimal_text};
use crate::services::{get_service_name, service_name, ServiceTable};
use vstd::prelude::*;
use vstd::string::StringExecFns;

verus! {

/// What is shown when no port answered.
pub const NO_OPEN_PORTS: &'static str = "No open ports";

/// The heading of the table, after an empty line.
pub const TABLE_HEADER: &'static str = "\nNUMBER \t| SERVICE";

/// The line that closes the heading and every row.
pub const TABLE_DIVIDER: &'static str = "---------------------------------------";

/// What stands between the port and the service's name.
pub const COLUMN_BREAK: &'static str = " \t| ";

/// The row for one open port: the number, then the service's name, which is
/// empty when the table knows none.
pub open spec fn row_text(port: int, table: Map<Seq<char>, Seq<char>>) -> Seq<char> {
    decimal_text(port) + COLUMN_BREAK@ + service_name(table, port)
}

/// The lines of the report. Without open ports it is the one line that says
/// so. Else it is the heading and a divider, then for each port, in the
/// order given, its row and a divider.
pub open spec fn report_lines(ports: Seq<i32>, table: Map<Seq<char>, Seq<char>>) -> Seq<
    Seq<char>,
> {
    if ports.len() == 0 {
        seq![NO_OPEN_PORTS@]
    } else {
        Seq::new(
            2 + 2 * ports.len(),
            |i: int|
                if i == 0 {
                    TABLE_HEADER@
                } else if i % 2 == 1 {
                    TABLE_DIVIDER@
                } else {
                    row_text(ports[i / 2 - 1] as int, table)
                },
        )
    }
}

/// Writes the row for one open port.
pub fn render_row(port: i32, table: &ServiceTable) -> (row: String)
    ensures
        row@ == row_text(port as int, table@),
{
    let mut row = String::new();
    append_decimal(&mut row, port);
    row.append(COLUMN_BREAK);
    let name = get_service_name(table, &port);
    row.append(name.as_str());
    row
}

/// Writes the report on a finished scan, line by line.
pub fn render_report(ports: &Vec<i32>, table: &ServiceTable) -> (lines: Vec<String>)
    ensures
        lines.deep_view() == report_lines(ports@, table@),
{
    let mut lines: Vec<String> = Vec::new();
    if ports.len() == 0 {
        lines.push(String::from_str(NO_OPEN_PORTS));
        assert(lines.deep_view() =~= report_lines(ports@, table@));
        return lines;
    }
    lines.push(String::from_str(TABLE_HEADER));
    lines.push(String::from_str(TABLE_DIVIDER));
    let ghost wanted = report_lines(ports@, table@);
    let mut i: usize = 0;
    while i < ports.len()
        invariant
            i <= ports.len(),
            0 < ports.len(),
            wanted == report_lines(ports@, table@),
            lines.len() == 2 + 2 * i,
            forall|k: int| 0 <= k < lines.len() ==> (#[trigger] lines[k])@ == wanted[k],
        decreases ports.len() - i,
    {
        lines.push(render_row(ports[i], table));
        lines.push(String::from_str(TABLE_DIVIDER));
        i = i + 1;
    }
    assert(lines.deep_view() =~= wanted);
    lines
}

} // verus!
