//! The pages of the dashboard.

pub mod cache;
pub mod connections;
pub mod latency;
pub mod overview;
pub mod throughput;

use crate::viewer::plot;
use crate::viewer::plot::{Group, PageView, Section};
use vstd::prelude::*;
use vstd::string::*;

verus! {

/// A page, under the name it is kept by.
#[derive(Clone, Debug)]
pub struct Page {
    pub key: String,
    pub view: PageView,
}

/// The pages that there always are: name and route.
pub open spec fn benchmark_pages() -> Seq<(Seq<char>, Seq<char>)> {
    seq![
        ("Overview"@, "/overview"@),
        ("Throughput"@, "/throughput"@),
        ("Latency"@, "/latency"@),
        ("Cache"@, "/cache"@),
        ("Connections"@, "/connections"@),
    ]
}

/// All pages, given which recordings there are.
pub open spec fn all_pages(server: bool, client: bool) -> Seq<(Seq<char>, Seq<char>)> {
    let s = if server {
        benchmark_pages().push(("Server Metrics"@, "/server"@))
    } else {
        benchmark_pages()
    };
    if client {
        s.push(("Client Metrics"@, "/client"@))
    } else {
        s
    }
}

/// The texts of a list of sections.
pub open spec fn section_texts(sections: Seq<Section>) -> Seq<(Seq<char>, Seq<char>)> {
    sections.map_values(|s: Section| (s.name@, s.route@))
}

fn put(sections: &mut Vec<Section>, name: &str, route: &str)
    ensures
        section_texts(final(sections)@) == section_texts(old(sections)@).push((name@, route@)),
{
    let ghost before = section_texts(sections@);
    sections.push(Section { name: String::from_str(name), route: String::from_str(route) });
    assert(section_texts(sections@) =~= before.push((name@, route@)));
}

/// The navigation: the pages that there always are, and one for each recording
/// of the server's and the client's machine that there is.
pub fn sections(server: bool, client: bool) -> (r: Vec<Section>)
    ensures
        section_texts(r@) == all_pages(server, client),
{
    let mut r: Vec<Section> = Vec::new();
    put(&mut r, "Overview", "/overview");
    put(&mut r, "Throughput", "/throughput");
    put(&mut r, "Latency", "/latency");
    put(&mut r, "Cache", "/cache");
    put(&mut r, "Connections", "/connections");
    assert(section_texts(r@) =~= benchmark_pages());
    if server {
        put(&mut r, "Server Metrics", "/server");
    }
    if client {
        put(&mut r, "Client Metrics", "/client");
    }
    r
}

/// A page for every entry of the navigation, which each of them carries whole.
/// The plots of the server's and of the client's machine rest on what was
/// recorded there, so they are handed in, where there is such a recording.
pub fn generate(server: Option<Vec<Group>>, client: Option<Vec<Group>>) -> (r: Vec<Page>)
    ensures
        ({
            let all = all_pages(server is Some, client is Some);
            &&& r@.len() == all.len()
            &&& forall|i: int|
                0 <= i < r@.len() ==> {
                    &&& (#[trigger] r@[i]).key@ == plot::page_key_text(all[i].1)
                    &&& section_texts(r@[i].view.sections@) == all
                }
        }),
        r@[0].view.group_texts() == seq![overview::metrics_texts()],
        r@[1].view.group_texts() == seq![
            throughput::requests_texts(),
            throughput::bytes_texts(),
            throughput::ops_texts(),
        ],
        r@[2].view.group_texts() == seq![latency::latency_texts()],
        r@[3].view.group_texts() == seq![cache::rates_texts(), cache::ops_texts()],
        r@[4].view.group_texts() == seq![
            connections::connections_texts(),
            connections::disconnects_texts(),
        ],
        server matches Some(g) ==> r@[5].view.groups == g,
        client matches Some(g) ==> r@.last().view.groups == g,
{
    proof {
        reveal_strlit("/overview");
        reveal_strlit("/throughput");
        reveal_strlit("/latency");
        reveal_strlit("/cache");
        reveal_strlit("/connections");
        reveal_strlit("/server");
        reveal_strlit("/client");
    }
    let (with_server, with_client) = (server.is_some(), client.is_some());
    let mut r: Vec<Page> = Vec::new();
    r.push(
        Page {
            key: plot::page_key("/overview"),
            view: overview::generate(sections(with_server, with_client)),
        },
    );
    r.push(
        Page {
            key: plot::page_key("/throughput"),
            view: throughput::generate(sections(with_server, with_client)),
        },
    );
    r.push(
        Page {
            key: plot::page_key("/latency"),
            view: latency::generate(sections(with_server, with_client)),
        },
    );
    r.push(Page { key: plot::page_key("/cache"), view: cache::generate(sections(with_server, with_client)) });
    r.push(
        Page {
            key: plot::page_key("/connections"),
            view: connections::generate(sections(with_server, with_client)),
        },
    );
    if let Some(groups) = server {
        let view = PageView { sections: sections(with_server, with_client), groups };
        r.push(Page { key: plot::page_key("/server"), view });
    }
    if let Some(groups) = client {
        let view = PageView { sections: sections(with_server, with_client), groups };
        r.push(Page { key: plot::page_key("/client"), view });
    }
    r
}

} // verus!
