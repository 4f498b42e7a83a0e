//! What a dashboard is made of.

use crate::text;
use vstd::prelude::*;
use vstd::string::*;

verus! {

/// The unit of an axis.
#[derive(Clone, Copy, Debug, PartialEq, Eq, Structural)]
pub enum Unit {
    Count,
    Rate,
    Time,
    Percentage,
    Bitrate,
    Datarate,
}

/// How a plot is drawn.
#[derive(Clone, Copy, Debug, PartialEq, Eq, Structural)]
pub enum Style {
    Line,
    Scatter,
}

/// How a plot looks.
#[derive(Clone, Debug)]
pub struct PlotOpts {
    pub title: String,
    pub id: String,
    pub style: Style,
    pub unit: Unit,
    pub log_scale: bool,
}

/// A plot and the query that it shows.
#[derive(Clone, Debug)]
pub struct Plot {
    pub opts: PlotOpts,
    pub promql_query: String,
}

/// A group of plots.
#[derive(Clone, Debug)]
pub struct Group {
    pub name: String,
    pub id: String,
    pub plots: Vec<Plot>,
}

/// A page of the navigation.
#[derive(Clone, Debug)]
pub struct Section {
    pub name: String,
    pub route: String,
}

/// A page: the navigation and its groups.
#[derive(Clone, Debug)]
pub struct PageView {
    pub sections: Vec<Section>,
    pub groups: Vec<Group>,
}

/// A plot, with its texts.
pub struct PlotTexts {
    pub title: Seq<char>,
    pub id: Seq<char>,
    pub style: Style,
    pub unit: Unit,
    pub log_scale: bool,
    pub query: Seq<char>,
}

/// A group, with its texts.
pub struct GroupTexts {
    pub name: Seq<char>,
    pub id: Seq<char>,
    pub plots: Seq<PlotTexts>,
}

/// A line plot.
pub open spec fn line(title: Seq<char>, id: Seq<char>, unit: Unit, query: Seq<char>) -> PlotTexts {
    PlotTexts { title, id, style: Style::Line, unit, log_scale: false, query }
}

/// A scatter plot on a logarithmic scale.
pub open spec fn scatter(title: Seq<char>, id: Seq<char>, unit: Unit, query: Seq<char>) -> PlotTexts {
    PlotTexts { title, id, style: Style::Scatter, unit, log_scale: true, query }
}

impl Plot {
    /// The plot, with its texts.
    pub open spec fn texts(self) -> PlotTexts {
        PlotTexts {
            title: self.opts.title@,
            id: self.opts.id@,
            style: self.opts.style,
            unit: self.opts.unit,
            log_scale: self.opts.log_scale,
            query: self.promql_query@,
        }
    }
}

impl PlotOpts {
    /// A line.
    pub fn line(title: &str, id: &str, unit: Unit) -> (r: Self)
        ensures
            r.title@ == title@,
            r.id@ == id@,
            r.style == Style::Line,
            r.unit == unit,
            !r.log_scale,
    {
        PlotOpts {
            title: String::from_str(title),
            id: String::from_str(id),
            style: Style::Line,
            unit,
            log_scale: false,
        }
    }

    /// Points.
    pub fn scatter(title: &str, id: &str, unit: Unit) -> (r: Self)
        ensures
            r.title@ == title@,
            r.id@ == id@,
            r.style == Style::Scatter,
            r.unit == unit,
            !r.log_scale,
    {
        PlotOpts {
            title: String::from_str(title),
            id: String::from_str(id),
            style: Style::Scatter,
            unit,
            log_scale: false,
        }
    }

    /// On a logarithmic scale, or not.
    pub fn with_log_scale(self, log_scale: bool) -> (r: Self)
        ensures
            r == (PlotOpts { log_scale, ..self }),
    {
        PlotOpts {
            title: self.title,
            id: self.id,
            style: self.style,
            unit: self.unit,
            log_scale,
        }
    }
}

impl Group {
    /// The group, with its texts.
    pub open spec fn texts(self) -> GroupTexts {
        GroupTexts {
            name: self.name@,
            id: self.id@,
            plots: self.plots@.map_values(|p: Plot| p.texts()),
        }
    }

    /// An empty group.
    pub fn new(name: &str, id: &str) -> (r: Self)
        ensures
            r.texts() == (GroupTexts { name: name@, id: id@, plots: Seq::empty() }),
    {
        let r = Group { name: String::from_str(name), id: String::from_str(id), plots: Vec::new() };
        assert(r.texts().plots =~= Seq::<PlotTexts>::empty());
        r
    }

    /// Adds a plot of a query.
    pub fn plot_promql(&mut self, opts: PlotOpts, query: &str)
        ensures
            final(self).texts() == (GroupTexts {
                plots: old(self).texts().plots.push(
                    PlotTexts {
                        title: opts.title@,
                        id: opts.id@,
                        style: opts.style,
                        unit: opts.unit,
                        log_scale: opts.log_scale,
                        query: query@,
                    },
                ),
                ..old(self).texts()
            }),
    {
        let ghost before = self.texts().plots;
        let plot = Plot { opts, promql_query: String::from_str(query) };
        let ghost t = plot.texts();
        self.plots.push(plot);
        assert(self.texts().plots =~= before.push(t));
    }
}

impl PageView {
    /// The groups, with their texts.
    pub open spec fn group_texts(self) -> Seq<GroupTexts> {
        self.groups@.map_values(|g: Group| g.texts())
    }

    /// A page without groups.
    pub fn new(sections: Vec<Section>) -> (r: Self)
        ensures
            r.sections == sections,
            r.group_texts() == Seq::<GroupTexts>::empty(),
    {
        let r = PageView { sections, groups: Vec::new() };
        assert(r.group_texts() =~= Seq::<GroupTexts>::empty());
        r
    }

    /// Adds a group.
    pub fn group(&mut self, group: Group)
        ensures
            final(self).sections == old(self).sections,
            final(self).group_texts() == old(self).group_texts().push(group.texts()),
    {
        let ghost before = self.group_texts();
        self.groups.push(group);
        assert(self.group_texts() =~= before.push(group.texts()));
    }
}

/// The name under which a page is kept: its route without the slash.
pub open spec fn page_key_text(route: Seq<char>) -> Seq<char> {
    route.skip(1) + ".json"@
}

/// The name under which a page is kept.
pub fn page_key(route: &str) -> (r: String)
    requires
        route@.len() > 0,
    ensures
        r@ == page_key_text(route@),
{
    let t = text::chars_of(route);
    let rest = text::part(&t, 1, t.len());
    assert(rest@ =~= route@.skip(1));
    let mut r = String::new();
    text::push_chars(&mut r, &rest);
    assert(r@ =~= rest@);
    r.append(".json");
    r
}

} // verus!
