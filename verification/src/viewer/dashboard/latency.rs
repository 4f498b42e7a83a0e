//! Latency percentiles.

use crate::viewer::plot;
use crate::viewer::plot::{Group, PageView, PlotOpts, Section, Unit};
use vstd::prelude::*;

verus! {

/// The plots of "Latency Percentiles".
pub open spec fn latency_texts() -> plot::GroupTexts {
    plot::GroupTexts {
        name: "Latency Percentiles"@,
        id: "latency-percentiles"@,
        plots: seq![
            plot::scatter(
                "Response"@,
                "response-latency-pct"@,
                Unit::Time,
                "histogram_percentiles([0.5, 0.9, 0.99, 0.999, 0.9999], response_latency)"@,
            ),
            plot::scatter(
                "GET"@,
                "get-latency-pct"@,
                Unit::Time,
                "histogram_percentiles([0.5, 0.9, 0.99, 0.999, 0.9999], get_latency)"@,
            ),
            plot::scatter(
                "SET"@,
                "set-latency-pct"@,
                Unit::Time,
                "histogram_percentiles([0.5, 0.9, 0.99, 0.999, 0.9999], set_latency)"@,
            ),
            plot::scatter(
                "DELETE"@,
                "delete-latency-pct"@,
                Unit::Time,
                "histogram_percentiles([0.5, 0.9, 0.99, 0.999, 0.9999], delete_latency)"@,
            ),
        ],
    }
}

fn latency() -> (r: Group)
    ensures
        r.texts() == latency_texts(),
{
    let mut g = Group::new("Latency Percentiles", "latency-percentiles");
    g.plot_promql(
        PlotOpts::scatter("Response", "response-latency-pct", Unit::Time).with_log_scale(true),
        "histogram_percentiles([0.5, 0.9, 0.99, 0.999, 0.9999], response_latency)",
    );
    g.plot_promql(
        PlotOpts::scatter("GET", "get-latency-pct", Unit::Time).with_log_scale(true),
        "histogram_percentiles([0.5, 0.9, 0.99, 0.999, 0.9999], get_latency)",
    );
    g.plot_promql(
        PlotOpts::scatter("SET", "set-latency-pct", Unit::Time).with_log_scale(true),
        "histogram_percentiles([0.5, 0.9, 0.99, 0.999, 0.9999], set_latency)",
    );
    g.plot_promql(
        PlotOpts::scatter("DELETE", "delete-latency-pct", Unit::Time).with_log_scale(true),
        "histogram_percentiles([0.5, 0.9, 0.99, 0.999, 0.9999], delete_latency)",
    );
    assert(g.texts().plots =~= latency_texts().plots);
    g
}

/// Latency percentiles.
pub fn generate(sections: Vec<Section>) -> (r: PageView)
    ensures
        r.sections == sections,
        r.group_texts() == seq![latency_texts()],
{
    let mut view = PageView::new(sections);
    view.group(latency());
    assert(view.group_texts() =~= seq![latency_texts()]);
    view
}

} // verus!
