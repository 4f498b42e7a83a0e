//! Connections, and why they were lost.

use crate::viewer::plot;
use crate::viewer::plot::{Group, PageView, PlotOpts, Section, Unit};
use vstd::prelude::*;

verus! {

/// The plots of "Connections".
pub open spec fn connections_texts() -> plot::GroupTexts {
    plot::GroupTexts {
        name: "Connections"@,
        id: "connections"@,
        plots: seq![
            plot::line(
                "Active Connections"@,
                "connections-active"@,
                Unit::Count,
                "connections_active"@,
            ),
            plot::line(
                "Connection Failures/sec"@,
                "connections-failed"@,
                Unit::Rate,
                "irate(connections_failed[10s])"@,
            ),
        ],
    }
}

fn connections() -> (r: Group)
    ensures
        r.texts() == connections_texts(),
{
    let mut g = Group::new("Connections", "connections");
    g.plot_promql(
        PlotOpts::line("Active Connections", "connections-active", Unit::Count),
        "connections_active",
    );
    g.plot_promql(
        PlotOpts::line("Connection Failures/sec", "connections-failed", Unit::Rate),
        "irate(connections_failed[10s])",
    );
    assert(g.texts().plots =~= connections_texts().plots);
    g
}

/// The plots of "Disconnect Reasons".
pub open spec fn disconnects_texts() -> plot::GroupTexts {
    plot::GroupTexts {
        name: "Disconnect Reasons"@,
        id: "disconnects"@,
        plots: seq![
            plot::line(
                "EOF"@,
                "disconnect-eof"@,
                Unit::Rate,
                "irate(disconnects_eof[10s])"@,
            ),
            plot::line(
                "Recv Error"@,
                "disconnect-recv-error"@,
                Unit::Rate,
                "irate(disconnects_recv_error[10s])"@,
            ),
            plot::line(
                "Send Error"@,
                "disconnect-send-error"@,
                Unit::Rate,
                "irate(disconnects_send_error[10s])"@,
            ),
            plot::line(
                "Closed Event"@,
                "disconnect-closed-event"@,
                Unit::Rate,
                "irate(disconnects_closed_event[10s])"@,
            ),
            plot::line(
                "Error Event"@,
                "disconnect-error-event"@,
                Unit::Rate,
                "irate(disconnects_error_event[10s])"@,
            ),
            plot::line(
                "Connect Failed"@,
                "disconnect-connect-failed"@,
                Unit::Rate,
                "irate(disconnects_connect_failed[10s])"@,
            ),
        ],
    }
}

fn disconnects() -> (r: Group)
    ensures
        r.texts() == disconnects_texts(),
{
    let mut g = Group::new("Disconnect Reasons", "disconnects");
    g.plot_promql(
        PlotOpts::line("EOF", "disconnect-eof", Unit::Rate),
        "irate(disconnects_eof[10s])",
    );
    g.plot_promql(
        PlotOpts::line("Recv Error", "disconnect-recv-error", Unit::Rate),
        "irate(disconnects_recv_error[10s])",
    );
    g.plot_promql(
        PlotOpts::line("Send Error", "disconnect-send-error", Unit::Rate),
        "irate(disconnects_send_error[10s])",
    );
    g.plot_promql(
        PlotOpts::line("Closed Event", "disconnect-closed-event", Unit::Rate),
        "irate(disconnects_closed_event[10s])",
    );
    g.plot_promql(
        PlotOpts::line("Error Event", "disconnect-error-event", Unit::Rate),
        "irate(disconnects_error_event[10s])",
    );
    g.plot_promql(
        PlotOpts::line("Connect Failed", "disconnect-connect-failed", Unit::Rate),
        "irate(disconnects_connect_failed[10s])",
    );
    assert(g.texts().plots =~= disconnects_texts().plots);
    g
}

/// Connections, and why they were lost.
pub fn generate(sections: Vec<Section>) -> (r: PageView)
    ensures
        r.sections == sections,
        r.group_texts() == seq![connections_texts(), disconnects_texts()],
{
    let mut view = PageView::new(sections);
    view.group(connections());
    view.group(disconnects());
    assert(view.group_texts() =~= seq![connections_texts(), disconnects_texts()]);
    view
}

} // verus!
