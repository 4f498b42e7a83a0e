//! The key metrics.

use crate::viewer::plot;
use crate::viewer::plot::{Group, PageView, PlotOpts, Section, Unit};
use vstd::prelude::*;

verus! {

/// The plots of "Key Metrics".
pub open spec fn metrics_texts() -> plot::GroupTexts {
    plot::GroupTexts {
        name: "Key Metrics"@,
        id: "key-metrics"@,
        plots: seq![
            plot::line(
                "Throughput"@,
                "throughput"@,
                Unit::Rate,
                "irate(responses_received[10s])"@,
            ),
            plot::line(
                "Hit Rate"@,
                "hit-rate"@,
                Unit::Percentage,
                "irate(cache_hits[10s]) / (irate(cache_hits[10s]) + irate(cache_misses[10s]))"@,
            ),
            plot::scatter(
                "Latency"@,
                "latency"@,
                Unit::Time,
                "histogram_percentiles([0.5, 0.9, 0.99, 0.999, 0.9999], response_latency)"@,
            ),
            plot::line(
                "Error Rate"@,
                "error-rate"@,
                Unit::Percentage,
                "irate(request_errors[10s]) / irate(requests_sent[10s])"@,
            ),
            plot::line(
                "TX Bandwidth"@,
                "bandwidth-tx"@,
                Unit::Bitrate,
                "irate(bytes_tx[10s]) * 8"@,
            ),
            plot::line(
                "RX Bandwidth"@,
                "bandwidth-rx"@,
                Unit::Bitrate,
                "irate(bytes_rx[10s]) * 8"@,
            ),
        ],
    }
}

fn metrics() -> (r: Group)
    ensures
        r.texts() == metrics_texts(),
{
    let mut g = Group::new("Key Metrics", "key-metrics");
    g.plot_promql(
        PlotOpts::line("Throughput", "throughput", Unit::Rate),
        "irate(responses_received[10s])",
    );
    g.plot_promql(
        PlotOpts::line("Hit Rate", "hit-rate", Unit::Percentage),
        "irate(cache_hits[10s]) / (irate(cache_hits[10s]) + irate(cache_misses[10s]))",
    );
    g.plot_promql(
        PlotOpts::scatter("Latency", "latency", Unit::Time).with_log_scale(true),
        "histogram_percentiles([0.5, 0.9, 0.99, 0.999, 0.9999], response_latency)",
    );
    g.plot_promql(
        PlotOpts::line("Error Rate", "error-rate", Unit::Percentage),
        "irate(request_errors[10s]) / irate(requests_sent[10s])",
    );
    g.plot_promql(
        PlotOpts::line("TX Bandwidth", "bandwidth-tx", Unit::Bitrate),
        "irate(bytes_tx[10s]) * 8",
    );
    g.plot_promql(
        PlotOpts::line("RX Bandwidth", "bandwidth-rx", Unit::Bitrate),
        "irate(bytes_rx[10s]) * 8",
    );
    assert(g.texts().plots =~= metrics_texts().plots);
    g
}

/// The key metrics.
pub fn generate(sections: Vec<Section>) -> (r: PageView)
    ensures
        r.sections == sections,
        r.group_texts() == seq![metrics_texts()],
{
    let mut view = PageView::new(sections);
    view.group(metrics());
    assert(view.group_texts() =~= seq![metrics_texts()]);
    view
}

} // verus!
