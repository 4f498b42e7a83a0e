//! Requests, bytes and operations per second.

use crate::viewer::plot;
use crate::viewer::plot::{Group, PageView, PlotOpts, Section, Unit};
use vstd::prelude::*;

verus! {

/// The plots of "Request/Response Rates".
pub open spec fn requests_texts() -> plot::GroupTexts {
    plot::GroupTexts {
        name: "Request/Response Rates"@,
        id: "request-rates"@,
        plots: seq![
            plot::line(
                "Responses/sec"@,
                "responses-received"@,
                Unit::Rate,
                "irate(responses_received[10s])"@,
            ),
            plot::line(
                "Error Rate"@,
                "error-rate"@,
                Unit::Percentage,
                "irate(request_errors[10s]) / irate(requests_sent[10s])"@,
            ),
        ],
    }
}

fn requests() -> (r: Group)
    ensures
        r.texts() == requests_texts(),
{
    let mut g = Group::new("Request/Response Rates", "request-rates");
    g.plot_promql(
        PlotOpts::line("Responses/sec", "responses-received", Unit::Rate),
        "irate(responses_received[10s])",
    );
    g.plot_promql(
        PlotOpts::line("Error Rate", "error-rate", Unit::Percentage),
        "irate(request_errors[10s]) / irate(requests_sent[10s])",
    );
    assert(g.texts().plots =~= requests_texts().plots);
    g
}

/// The plots of "Network Throughput".
pub open spec fn bytes_texts() -> plot::GroupTexts {
    plot::GroupTexts {
        name: "Network Throughput"@,
        id: "bytes"@,
        plots: seq![
            plot::line(
                "TX Bytes/sec"@,
                "bytes-tx"@,
                Unit::Datarate,
                "irate(bytes_tx[10s])"@,
            ),
            plot::line(
                "RX Bytes/sec"@,
                "bytes-rx"@,
                Unit::Datarate,
                "irate(bytes_rx[10s])"@,
            ),
        ],
    }
}

fn bytes() -> (r: Group)
    ensures
        r.texts() == bytes_texts(),
{
    let mut g = Group::new("Network Throughput", "bytes");
    g.plot_promql(
        PlotOpts::line("TX Bytes/sec", "bytes-tx", Unit::Datarate),
        "irate(bytes_tx[10s])",
    );
    g.plot_promql(
        PlotOpts::line("RX Bytes/sec", "bytes-rx", Unit::Datarate),
        "irate(bytes_rx[10s])",
    );
    assert(g.texts().plots =~= bytes_texts().plots);
    g
}

/// The plots of "Operation Rates".
pub open spec fn ops_texts() -> plot::GroupTexts {
    plot::GroupTexts {
        name: "Operation Rates"@,
        id: "operations"@,
        plots: seq![
            plot::line(
                "GET/sec"@,
                "get-rate"@,
                Unit::Rate,
                "irate(get_count[10s])"@,
            ),
            plot::line(
                "SET/sec"@,
                "set-rate"@,
                Unit::Rate,
                "irate(set_count[10s])"@,
            ),
            plot::line(
                "DELETE/sec"@,
                "delete-rate"@,
                Unit::Rate,
                "irate(delete_count[10s])"@,
            ),
        ],
    }
}

fn ops() -> (r: Group)
    ensures
        r.texts() == ops_texts(),
{
    let mut g = Group::new("Operation Rates", "operations");
    g.plot_promql(
        PlotOpts::line("GET/sec", "get-rate", Unit::Rate),
        "irate(get_count[10s])",
    );
    g.plot_promql(
        PlotOpts::line("SET/sec", "set-rate", Unit::Rate),
        "irate(set_count[10s])",
    );
    g.plot_promql(
        PlotOpts::line("DELETE/sec", "delete-rate", Unit::Rate),
        "irate(delete_count[10s])",
    );
    assert(g.texts().plots =~= ops_texts().plots);
    g
}

/// Requests, bytes and operations per second.
pub fn generate(sections: Vec<Section>) -> (r: PageView)
    ensures
        r.sections == sections,
        r.group_texts() == seq![requests_texts(), bytes_texts(), ops_texts()],
{
    let mut view = PageView::new(sections);
    view.group(requests());
    view.group(bytes());
    view.group(ops());
    assert(view.group_texts() =~= seq![requests_texts(), bytes_texts(), ops_texts()]);
    view
}

} // verus!
