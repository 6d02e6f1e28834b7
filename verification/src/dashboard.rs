//! The health dashboard: a fixed-width text board with the status of the
//! stack, the counts of its components and the first anomalies.
//!
//! Percentages and averages reach the board as finished numerals; the board
//! lays them out.

use vstd::prelude::*;
use vstd::string::*;
use crate::anomaly::Anomaly;
use crate::health::AndonStatus;
use crate::registry::{summary_of, HealthSummary, StackDiagnostics};
use crate::text::{blank, decimal, decimal_text, pad_end, pad_start, padded_end, padded_start, spaces};

verus! {

/// The most anomalies that the board lists.
pub const LISTED_ANOMALIES: usize = 5;

/// The numerals that the board shows beside the counts.
#[derive(Debug, Clone)]
pub struct DashboardFigures {
    /// Share of green components in percent, without decimals.
    pub healthy_pct: String,
    /// Share of yellow components in percent, without decimals.
    pub warning_pct: String,
    /// Share of red components in percent, without decimals.
    pub critical_pct: String,
    /// Average demo score, with one decimal place.
    pub avg_demo_score: String,
    /// Average coverage in percent, with one decimal place.
    pub avg_coverage: String,
}

/// The line of one count: a title, the count right-aligned in three
/// columns, and its share in brackets.
pub open spec fn share_line(head: Seq<char>, count: nat, share: Seq<char>, tail: Seq<char>) -> Seq<char> {
    head + padded_start(decimal_text(count), 3) + " ("@ + share + "%)"@ + tail
}

/// The head of the board, down to the empty line under the status.
pub open spec fn board_head(stamp: Seq<char>, status: AndonStatus) -> Seq<char> {
    "┌─────────────────────────────────────────────────────────────────────────┐\n"@ + "│                  SOVEREIGN AI STACK HEALTH DASHBOARD                    │\n"@ + "│                  Timestamp: "@ + padded_end(stamp, 40) + " │\n"@
        + "├─────────────────────────────────────────────────────────────────────────┤\n"@ + "│                                                                         │\n"@ + "│  ANDON STATUS: "@ + status.display_text() + " "@ + spaces(55) + "│\n"@
        + "│                                                                         │\n"@
}

/// The summary block of the board.
pub open spec fn board_summary(summary: HealthSummary, figures: DashboardFigures) -> Seq<char> {
    "│  ═══════════════════════════════════════════════════════════════════   │\n"@ + "│  STACK SUMMARY                                                          │\n"@ + "│  ═══════════════════════════════════════════════════════════════════   │\n"@ + "│                                                                         │\n"@
        + "│  Total Components:    "@ + padded_start(decimal_text(summary.total_components as nat), 3) + "                                              │\n"@
        + share_line("│  Healthy:             "@, summary.green_count as nat, figures.healthy_pct@, "                                         │\n"@)
        + share_line("│  Warnings:            "@, summary.yellow_count as nat, figures.warning_pct@, "                                         │\n"@)
        + share_line("│  Critical:            "@, summary.red_count as nat, figures.critical_pct@, "                                         │\n"@)
        + "│  Average Demo Score:  "@ + figures.avg_demo_score@ + "/100                                          │\n"@
        + "│  Average Coverage:    "@ + figures.avg_coverage@ + "%                                             │\n"@
        + "│                                                                         │\n"@
}

/// The line of one anomaly: a mark, red for a critical one, then the
/// component and the description.
pub open spec fn anomaly_line(anomaly: Anomaly) -> Seq<char> {
    "│  "@ + (if anomaly.spec_is_critical() {
        "🔴"@
    } else {
        "⚠️"@
    }) + "  "@ + anomaly.component@ + ": "@ + anomaly.description@ + "                               │\n"@
}

/// The lines of the first `count` anomalies.
pub open spec fn anomaly_lines(anomalies: Seq<Anomaly>, count: nat) -> Seq<char>
    decreases count,
{
    if count == 0 || count > anomalies.len() {
        Seq::empty()
    } else {
        anomaly_lines(anomalies, (count - 1) as nat) + anomaly_line(anomalies[count - 1])
    }
}

/// The number of anomalies that the board lists: at most five.
pub open spec fn listed(anomalies: Seq<Anomaly>) -> nat {
    if anomalies.len() <= LISTED_ANOMALIES {
        anomalies.len()
    } else {
        LISTED_ANOMALIES as nat
    }
}

/// The anomaly block of the board; nothing where there is no anomaly.
pub open spec fn board_anomalies(anomalies: Seq<Anomaly>) -> Seq<char> {
    if anomalies.len() == 0 {
        Seq::empty()
    } else {
        "│  ═══════════════════════════════════════════════════════════════════   │\n"@ + "│  ANOMALIES DETECTED                                                     │\n"@ + "│  ═══════════════════════════════════════════════════════════════════   │\n"@ + "│                                                                         │\n"@
            + anomaly_lines(anomalies, listed(anomalies)) + "│                                                                         │\n"@
    }
}

/// The whole board.
pub open spec fn board_text(
    summary: HealthSummary,
    stamp: Seq<char>,
    figures: DashboardFigures,
    anomalies: Seq<Anomaly>,
) -> Seq<char> {
    board_head(stamp, summary.andon_status) + board_summary(summary, figures) + board_anomalies(anomalies)
        + "└─────────────────────────────────────────────────────────────────────────┘\n"@
}

fn share_text(head: &str, count: usize, share: &str, tail: &str) -> (line: String)
    ensures
        line@ == share_line(head@, count as nat, share@, tail@),
{
    let mut line = String::from_str(head);
    line.append(pad_start(decimal(count as u64).as_str(), 3).as_str());
    line.append(" (");
    line.append(share);
    line.append("%)");
    line.append(tail);
    line
}

fn head_block(stamp: &str, status: AndonStatus) -> (out: String)
    ensures
        out@ == board_head(stamp@, status),
{
    let mut out = String::from_str("┌─────────────────────────────────────────────────────────────────────────┐\n");
    out.append("│                  SOVEREIGN AI STACK HEALTH DASHBOARD                    │\n");
    out.append("│                  Timestamp: ");
    out.append(pad_end(stamp, 40).as_str());
    out.append(" │\n");
    out.append("├─────────────────────────────────────────────────────────────────────────┤\n");
    out.append("│                                                                         │\n");
    out.append("│  ANDON STATUS: ");
    out.append(status.display().as_str());
    out.append(" ");
    out.append(blank(55).as_str());
    out.append("│\n");
    out.append("│                                                                         │\n");
    out
}

fn summary_block(summary: &HealthSummary, figures: &DashboardFigures) -> (out: String)
    ensures
        out@ == board_summary(*summary, *figures),
{
    let mut out = String::from_str("│  ═══════════════════════════════════════════════════════════════════   │\n");
    out.append("│  STACK SUMMARY                                                          │\n");
    out.append("│  ═══════════════════════════════════════════════════════════════════   │\n");
    out.append("│                                                                         │\n");
    out.append("│  Total Components:    ");
    out.append(pad_start(decimal(summary.total_components as u64).as_str(), 3).as_str());
    out.append("                                              │\n");
    out.append(share_text("│  Healthy:             ", summary.green_count, figures.healthy_pct.as_str(), "                                         │\n").as_str());
    out.append(share_text("│  Warnings:            ", summary.yellow_count, figures.warning_pct.as_str(), "                                         │\n").as_str());
    out.append(share_text("│  Critical:            ", summary.red_count, figures.critical_pct.as_str(), "                                         │\n").as_str());
    out.append("│  Average Demo Score:  ");
    out.append(figures.avg_demo_score.as_str());
    out.append("/100                                          │\n");
    out.append("│  Average Coverage:    ");
    out.append(figures.avg_coverage.as_str());
    out.append("%                                             │\n");
    out.append("│                                                                         │\n");
    out
}

fn anomaly_text(anomaly: &Anomaly) -> (line: String)
    ensures
        line@ == anomaly_line(*anomaly),
{
    let mut line = String::from_str("│  ");
    if anomaly.is_critical() {
        line.append("🔴");
    } else {
        line.append("⚠️");
    }
    line.append("  ");
    line.append(anomaly.component.as_str());
    line.append(": ");
    line.append(anomaly.description.as_str());
    line.append("                               │\n");
    line
}

fn anomaly_block(anomalies: &Vec<Anomaly>) -> (out: String)
    ensures
        out@ == board_anomalies(anomalies@),
{
    if anomalies.len() == 0 {
        return String::new();
    }
    let count: usize = if anomalies.len() <= LISTED_ANOMALIES {
        anomalies.len()
    } else {
        LISTED_ANOMALIES
    };
    let mut lines = String::new();
    let mut i: usize = 0;
    while i < count
        invariant
            i <= count,
            count <= anomalies@.len(),
            lines@ == anomaly_lines(anomalies@, i as nat),
        decreases count - i,
    {
        lines.append(anomaly_text(&anomalies[i]).as_str());
        i += 1;
    }
    let mut out = String::from_str("│  ═══════════════════════════════════════════════════════════════════   │\n");
    out.append("│  ANOMALIES DETECTED                                                     │\n");
    out.append("│  ═══════════════════════════════════════════════════════════════════   │\n");
    out.append("│                                                                         │\n");
    out.append(lines.as_str());
    out.append("│                                                                         │\n");
    out
}

/// Lays out the board for a summary, the time `stamp` at which it is drawn,
/// the figures and the anomalies, of which the first five are listed.
pub fn render_board(summary: &HealthSummary, stamp: &str, figures: &DashboardFigures, anomalies: &Vec<Anomaly>) -> (out:
    String)
    ensures
        out@ == board_text(*summary, stamp@, *figures, anomalies@),
{
    let mut out = head_block(stamp, summary.andon_status);
    out.append(summary_block(summary, figures).as_str());
    out.append(anomaly_block(anomalies).as_str());
    out.append("└─────────────────────────────────────────────────────────────────────────┘\n");
    out
}

/// The time at which the board is drawn, as `chrono::Utc::now()` gives it
/// and `format("%Y-%m-%d %H:%M:%S")` writes it. The text depends on the
/// clock, so nothing is claimed of it. `Utc::now()` gives up where the
/// system clock stands before 1970.
#[verifier::external_body]
fn timestamp_now() -> (stamp: String) {
    chrono::Utc::now().format("%Y-%m-%d %H:%M:%S").to_string()
}

/// Draws the dashboard of the engine as it is now: its health summary, the
/// current time, the figures, and the first five recorded anomalies.
pub fn render_dashboard(diagnostics: &StackDiagnostics, figures: &DashboardFigures) -> (out: String)
    ensures
        exists|stamp: Seq<char>|
            out@ == #[trigger] board_text(
                summary_of(diagnostics.nodes()),
                stamp,
                *figures,
                diagnostics.recorded_anomalies(),
            ),
{
    let summary = diagnostics.health_summary();
    let stamp = timestamp_now();
    let out = render_board(&summary, stamp.as_str(), figures, diagnostics.anomalies());
    assert(out@ == board_text(summary_of(diagnostics.nodes()), stamp@, *figures, diagnostics.recorded_anomalies()));
    out
}

/// A board without anomalies has no anomaly block, and a board never lists
/// more than five anomalies.
pub proof fn lemma_board_lists_at_most_five(anomalies: Seq<Anomaly>)
    ensures
        listed(anomalies) <= LISTED_ANOMALIES,
        listed(anomalies) <= anomalies.len(),
        anomalies.len() == 0 ==> board_anomalies(anomalies) == Seq::<char>::empty(),
{
}

} // verus!
