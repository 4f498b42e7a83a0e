use cachecannon::viewer::dashboard::{cache, generate, sections};
use cachecannon::viewer::plot::{page_key, Group, Style, Unit};

#[test]
fn the_navigation_names_what_there_is() {
    let names = |server, client| -> Vec<String> {
        sections(server, client).into_iter().map(|s| s.name).collect()
    };
    assert_eq!(
        names(false, false),
        vec!["Overview", "Throughput", "Latency", "Cache", "Connections"]
    );
    assert_eq!(names(true, true)[5..], ["Server Metrics", "Client Metrics"]);
    assert_eq!(sections(false, true)[5].route, "/client");
}

#[test]
fn pages_are_kept_by_their_routes() {
    assert_eq!(page_key("/overview"), "overview.json");
    let group = |name: &str| vec![Group::new(name, "id")];
    let keys = |server, client| -> Vec<String> {
        generate(server, client).into_iter().map(|p| p.key).collect()
    };
    assert_eq!(
        keys(None, None),
        vec!["overview.json", "throughput.json", "latency.json", "cache.json", "connections.json"]
    );
    assert_eq!(keys(Some(group("CPU")), None)[5..], ["server.json"]);
    assert_eq!(keys(None, Some(group("CPU")))[5..], ["client.json"]);
    let pages = generate(Some(group("CPU")), Some(group("Network")));
    assert_eq!(pages.len(), 7);
    assert!(pages.iter().all(|p| p.view.sections.len() == 7));
    assert_eq!(pages[5].view.groups[0].name, "CPU");
    assert_eq!(pages[6].view.groups[0].name, "Network");
    // Every entry of the navigation leads to a page.
    for (page, section) in pages.iter().zip(&pages[0].view.sections) {
        assert_eq!(page.key, page_key(&section.route));
    }
}

#[test]
fn plots_show_their_queries() {
    let pages = generate(None, None);
    let latency = &pages[2].view.groups[0];
    assert_eq!(latency.plots.len(), 4);
    assert_eq!(latency.plots[1].opts.title, "GET");
    assert_eq!(latency.plots[1].opts.style, Style::Scatter);
    assert!(latency.plots[1].opts.log_scale);
    assert_eq!(
        latency.plots[1].promql_query,
        "histogram_percentiles([0.5, 0.9, 0.99, 0.999, 0.9999], get_latency)"
    );
    let view = cache::generate(sections(false, false));
    assert_eq!(view.groups.len(), 2);
    assert_eq!(view.groups[0].id, "cache-rates");
    assert_eq!(view.groups[0].plots[0].opts.unit, Unit::Rate);
    assert_eq!(pages[4].view.groups[1].plots.len(), 6);
    assert_eq!(pages[0].view.groups[0].plots.len(), 6);
    assert_eq!(pages[1].view.groups.len(), 3);
}
