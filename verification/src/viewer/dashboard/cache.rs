//! Cache hit and miss rates, and the operations.

use crate::viewer::plot;
use crate::viewer::plot::{Group, PageView, PlotOpts, Section, Unit};
use vstd::prelude::*;

verus! {

/// The plots of "Cache Rates".
pub open spec fn rates_texts() -> plot::GroupTexts {
    plot::GroupTexts {
        name: "Cache Rates"@,
        id: "cache-rates"@,
        plots: seq![
            plot::line(
                "Hit Rate"@,
                "hit-rate"@,
                Unit::Rate,
                "irate(cache_hits[10s])"@,
            ),
            plot::line(
                "Miss Rate"@,
                "miss-rate"@,
                Unit::Rate,
                "irate(cache_misses[10s])"@,
            ),
        ],
    }
}

fn rates() -> (r: Group)
    ensures
        r.texts() == rates_texts(),
{
    let mut g = Group::new("Cache Rates", "cache-rates");
    g.plot_promql(
        PlotOpts::line("Hit Rate", "hit-rate", Unit::Rate),
        "irate(cache_hits[10s])",
    );
    g.plot_promql(
        PlotOpts::line("Miss Rate", "miss-rate", Unit::Rate),
        "irate(cache_misses[10s])",
    );
    assert(g.texts().plots =~= rates_texts().plots);
    g
}

/// The plots of "Operations".
pub open spec fn ops_texts() -> plot::GroupTexts {
    plot::GroupTexts {
        name: "Operations"@,
        id: "operations"@,
        plots: seq![
            plot::line(
                "GET/sec"@,
                "get-rate"@,
                Unit::Rate,
                "irate(get_count[10s])"@,
            ),
            plot::line(
                "SET/sec"@,
                "set-rate"@,
                Unit::Rate,
                "irate(set_count[10s])"@,
            ),
            plot::line(
                "DELETE/sec"@,
                "delete-rate"@,
                Unit::Rate,
                "irate(delete_count[10s])"@,
            ),
        ],
    }
}

fn ops() -> (r: Group)
    ensures
        r.texts() == ops_texts(),
{
    let mut g = Group::new("Operations", "operations");
    g.plot_promql(
        PlotOpts::line("GET/sec", "get-rate", Unit::Rate),
        "irate(get_count[10s])",
    );
    g.plot_promql(
        PlotOpts::line("SET/sec", "set-rate", Unit::Rate),
        "irate(set_count[10s])",
    );
    g.plot_promql(
        PlotOpts::line("DELETE/sec", "delete-rate", Unit::Rate),
        "irate(delete_count[10s])",
    );
    assert(g.texts().plots =~= ops_texts().plots);
    g
}

/// Cache hit and miss rates, and the operations.
pub fn generate(sections: Vec<Section>) -> (r: PageView)
    ensures
        r.sections == sections,
        r.group_texts() == seq![rates_texts(), ops_texts()],
{
    let mut view = PageView::new(sections);
    view.group(rates());
    view.group(ops());
    assert(view.group_texts() =~= seq![rates_texts(), ops_texts()]);
    view
}

} // verus!
