//! Which elements of a recognized plan are imported.
//!
//! A plan holds chains, and may state the edges and the arcs of the chains once
//! more as lines and arcs. Those are left out, so that nothing is drawn twice.

use acadrust::xdata::ExtendedDataRecord;
use acadrust::EntityType;
use vstd::prelude::*;

use crate::console::{Reply, Said};
use crate::entities::{
    entity_data, entity_layer, entity_line, entity_mesh, entity_point, put_on,
};
use crate::layers::{file_name, file_name_of, is_plain_path, optional_view};
use crate::lists::{add_text_once, distinct};
use crate::records::{plan_record, record_application, record_values, XDATA_PLAN};
use crate::text::{decimal, decimal_text, views};

verus! {

/// An element of a plan and the layer that it belongs on.
#[derive(Debug, PartialEq)]
pub struct On<T> {
    pub what: T,
    pub layer: String,
}

/// The layers of some elements.
pub open spec fn layers_of<T>(list: Seq<On<T>>) -> Seq<Seq<char>> {
    list.map_values(|x: On<T>| x.layer@)
}

/// What tells a segment from others: its ends as rounded numbers, in an order that
/// does not depend on its direction.
#[derive(Debug, Clone, Copy, PartialEq, Eq, Structural)]
pub struct SegKey {
    pub x1: i64,
    pub y1: i64,
    pub x2: i64,
    pub y2: i64,
}

/// A chain: the keys of its edges, and how many points it has when a last point
/// that repeats the first is dropped.
#[derive(Debug, PartialEq)]
pub struct Chain {
    pub edges: Vec<SegKey>,
    pub points: usize,
}

/// A plan. Of an arc it says of each arc in the chains whether the two are the
/// same.
#[derive(Debug, PartialEq)]
pub struct Plan<C, T> {
    pub polylines: Vec<On<Chain>>,
    pub lines: Vec<On<SegKey>>,
    pub arcs: Vec<On<Vec<bool>>>,
    pub circles: Vec<On<C>>,
    pub texts: Vec<On<T>>,
}

/// What an element is.
#[derive(Debug, Clone, Copy, PartialEq, Eq, Structural)]
pub enum Kind {
    Polyline,
    Line,
    Arc,
    Circle,
    Text,
}

/// An element of a plan: the list that it is in, and its place there.
#[derive(Debug, Clone, Copy, PartialEq, Eq, Structural)]
pub struct Element {
    pub kind: Kind,
    pub index: usize,
}

/// The edges of some chains.
pub open spec fn chain_edges(chains: Seq<On<Chain>>) -> Seq<SegKey>
    decreases chains.len(),
{
    if chains.len() == 0 {
        Seq::empty()
    } else {
        chain_edges(chains.drop_last()) + chains.last().what.edges@
    }
}

/// Which chains are drawn: those of two points or more.
pub open spec fn drawn_chains(chains: Seq<On<Chain>>) -> Seq<bool> {
    chains.map_values(|c: On<Chain>| c.what.points >= 2)
}

/// Which lines are drawn: those that are no edges of chains.
pub open spec fn drawn_lines(lines: Seq<On<SegKey>>, edges: Seq<SegKey>) -> Seq<bool> {
    lines.map_values(|l: On<SegKey>| !edges.contains(l.what))
}

/// Which arcs are drawn: those that are no arcs of chains.
pub open spec fn drawn_arcs(arcs: Seq<On<Vec<bool>>>) -> Seq<bool> {
    arcs.map_values(|a: On<Vec<bool>>| !a.what@.contains(true))
}

/// All of a number of elements.
pub open spec fn all_of(n: nat) -> Seq<bool> {
    Seq::new(n, |i: int| true)
}

/// The elements of a list that are drawn, in order.
pub open spec fn chosen(kind: Kind, keep: Seq<bool>) -> Seq<Element>
    decreases keep.len(),
{
    if keep.len() == 0 {
        Seq::empty()
    } else {
        let before = chosen(kind, keep.drop_last());
        if keep.last() {
            before.push(Element { kind, index: (keep.len() - 1) as usize })
        } else {
            before
        }
    }
}

/// The layers of the elements of a list that are drawn, in order.
pub open spec fn chosen_layers(keep: Seq<bool>, layers: Seq<Seq<char>>) -> Seq<Seq<char>>
    decreases keep.len(),
{
    if keep.len() == 0 {
        Seq::empty()
    } else {
        let before = chosen_layers(keep.drop_last(), layers);
        if keep.last() {
            before.push(layers[keep.len() - 1])
        } else {
            before
        }
    }
}

/// How many elements of a list are not drawn.
pub open spec fn left_out(keep: Seq<bool>) -> nat
    decreases keep.len(),
{
    if keep.len() == 0 {
        0
    } else {
        left_out(keep.drop_last()) + if keep.last() {
            0nat
        } else {
            1nat
        }
    }
}

/// Every element of a list is drawn or left out.
pub proof fn law_chosen_or_left_out(kind: Kind, keep: Seq<bool>)
    ensures
        chosen(kind, keep).len() + left_out(keep) == keep.len(),
    decreases keep.len(),
{
    if keep.len() > 0 {
        law_chosen_or_left_out(kind, keep.drop_last());
    }
}

/// The elements of a plan that are drawn, in order: chains first, then lines,
/// arcs, circles and texts.
pub open spec fn drawn<C, T>(plan: Plan<C, T>) -> Seq<Element> {
    chosen(Kind::Polyline, drawn_chains(plan.polylines@)) + chosen(
        Kind::Line,
        drawn_lines(plan.lines@, chain_edges(plan.polylines@)),
    ) + chosen(Kind::Arc, drawn_arcs(plan.arcs@)) + chosen(
        Kind::Circle,
        all_of(plan.circles@.len()),
    ) + chosen(Kind::Text, all_of(plan.texts@.len()))
}

/// The layers that a plan is drawn on, each of them once.
pub open spec fn drawn_layers<C, T>(plan: Plan<C, T>) -> Seq<Seq<char>> {
    distinct(
        chosen_layers(drawn_chains(plan.polylines@), layers_of(plan.polylines@)) + chosen_layers(
            drawn_lines(plan.lines@, chain_edges(plan.polylines@)),
            layers_of(plan.lines@),
        ) + chosen_layers(drawn_arcs(plan.arcs@), layers_of(plan.arcs@)) + chosen_layers(
            all_of(plan.circles@.len()),
            layers_of(plan.circles@),
        ) + chosen_layers(all_of(plan.texts@.len()), layers_of(plan.texts@)),
    )
}

/// How many lines and arcs of a plan only repeat its chains.
pub open spec fn repeated<C, T>(plan: Plan<C, T>) -> nat {
    left_out(drawn_lines(plan.lines@, chain_edges(plan.polylines@))) + left_out(
        drawn_arcs(plan.arcs@),
    )
}

/// Every element of a plan is drawn, repeats a chain, or is a chain of fewer than
/// two points.
pub proof fn law_nothing_is_lost<C, T>(plan: Plan<C, T>)
    ensures
        drawn(plan).len() + repeated(plan) + left_out(drawn_chains(plan.polylines@))
            == plan.polylines@.len() + plan.lines@.len() + plan.arcs@.len() + plan.circles@.len()
            + plan.texts@.len(),
{
    law_chosen_or_left_out(Kind::Polyline, drawn_chains(plan.polylines@));
    law_chosen_or_left_out(Kind::Line, drawn_lines(plan.lines@, chain_edges(plan.polylines@)));
    law_chosen_or_left_out(Kind::Arc, drawn_arcs(plan.arcs@));
    lemma_all_chosen(Kind::Circle, plan.circles@.len());
    lemma_all_chosen(Kind::Text, plan.texts@.len());
}

proof fn lemma_all_chosen(kind: Kind, n: nat)
    ensures
        chosen(kind, all_of(n)).len() == n,
    decreases n,
{
    if n > 0 {
        lemma_all_chosen(kind, (n - 1) as nat);
        assert(all_of(n).drop_last() =~= all_of((n - 1) as nat));
    }
}

/// Where an element that is drawn stands in the list that it is from.
proof fn lemma_chosen(kind: Kind, keep: Seq<bool>, x: Element)
    requires
        keep.len() <= usize::MAX,
    ensures
        chosen(kind, keep).contains(x) <==> x.kind == kind && x.index < keep.len()
            && keep[x.index as int],
    decreases keep.len(),
{
    if keep.len() > 0 {
        let before = keep.drop_last();
        lemma_chosen(kind, before, x);
        let c = chosen(kind, keep);
        let d = chosen(kind, before);
        if d.contains(x) {
            let k = choose|k: int| 0 <= k < d.len() && d[k] == x;
            assert(c[k] == x);
        }
        if keep.last() {
            assert(c[d.len() as int] == Element { kind, index: (keep.len() - 1) as usize });
        }
        if c.contains(x) && !d.contains(x) {
            let k = choose|k: int| 0 <= k < c.len() && c[k] == x;
            if k < d.len() {
                assert(d[k] == x);
            }
        }
    }
}

/// The edges of some chains are the edges of each of them.
pub(crate) proof fn lemma_edges(chains: Seq<On<Chain>>, key: SegKey)
    ensures
        chain_edges(chains).contains(key) <==> exists|i: int|
            0 <= i < chains.len() && (#[trigger] chains[i]).what.edges@.contains(key),
    decreases chains.len(),
{
    if chains.len() > 0 {
        let before = chains.drop_last();
        lemma_edges(before, key);
        lemma_either(chain_edges(before), chains.last().what.edges@, key);
        if chain_edges(before).contains(key) {
            let i = choose|i: int| 0 <= i < before.len() && (#[trigger] before[i]).what.edges@.contains(key);
            assert(chains[i] == before[i]);
        }
        if chains.last().what.edges@.contains(key) {
            assert(chains[chains.len() - 1].what.edges@.contains(key));
        }
        if exists|i: int| 0 <= i < chains.len() && (#[trigger] chains[i]).what.edges@.contains(key) {
            let i = choose|i: int| 0 <= i < chains.len() && (#[trigger] chains[i]).what.edges@.contains(key);
            if i < before.len() {
                assert(before[i] == chains[i]);
            }
        }
    }
}

/// Which element of a plan is drawn, and which only repeats a chain: a chain of two
/// points or more, a line that is the edge of no chain, whichever of the chains it
/// may be, an arc that is no arc of a chain, every circle and every text.
pub proof fn law_what_is_drawn<C, T>(plan: Plan<C, T>, x: Element)
    requires
        plan.polylines@.len() <= usize::MAX,
        plan.lines@.len() <= usize::MAX,
        plan.arcs@.len() <= usize::MAX,
        plan.circles@.len() <= usize::MAX,
        plan.texts@.len() <= usize::MAX,
    ensures
        drawn(plan).contains(x) <==> {
            let i = x.index as int;
            match x.kind {
                Kind::Polyline => i < plan.polylines@.len() && plan.polylines@[i].what.points >= 2,
                Kind::Line => i < plan.lines@.len() && !exists|k: int|
                    0 <= k < plan.polylines@.len() && (
                    #[trigger] plan.polylines@[k]).what.edges@.contains(plan.lines@[i].what),
                Kind::Arc => i < plan.arcs@.len() && !exists|k: int|
                    0 <= k < plan.arcs@[i].what@.len() && #[trigger] plan.arcs@[i].what@[k],
                Kind::Circle => i < plan.circles@.len(),
                Kind::Text => i < plan.texts@.len(),
            }
        },
{
    let a = chosen(Kind::Polyline, drawn_chains(plan.polylines@));
    let b = chosen(Kind::Line, drawn_lines(plan.lines@, chain_edges(plan.polylines@)));
    let c = chosen(Kind::Arc, drawn_arcs(plan.arcs@));
    let d = chosen(Kind::Circle, all_of(plan.circles@.len()));
    let e = chosen(Kind::Text, all_of(plan.texts@.len()));
    lemma_chosen(Kind::Polyline, drawn_chains(plan.polylines@), x);
    lemma_chosen(Kind::Line, drawn_lines(plan.lines@, chain_edges(plan.polylines@)), x);
    lemma_chosen(Kind::Arc, drawn_arcs(plan.arcs@), x);
    lemma_chosen(Kind::Circle, all_of(plan.circles@.len()), x);
    lemma_chosen(Kind::Text, all_of(plan.texts@.len()), x);
    lemma_either(a, b, x);
    lemma_either(a + b, c, x);
    lemma_either(a + b + c, d, x);
    lemma_either(a + b + c + d, e, x);
    let i = x.index as int;
    if x.kind == Kind::Line && i < plan.lines@.len() {
        lemma_edges(plan.polylines@, plan.lines@[i].what);
    }
    if x.kind == Kind::Arc && i < plan.arcs@.len() {
        let same = plan.arcs@[i].what@;
        if exists|k: int| 0 <= k < same.len() && #[trigger] same[k] {
            let k = choose|k: int| 0 <= k < same.len() && #[trigger] same[k];
            assert(same[k] == true);
        }
        if same.contains(true) {
            let k = choose|k: int| 0 <= k < same.len() && same[k] == true;
            assert(same[k]);
        }
    }
}

proof fn lemma_either<A>(a: Seq<A>, b: Seq<A>, x: A)
    ensures
        (a + b).contains(x) <==> a.contains(x) || b.contains(x),
{
    if a.contains(x) {
        let k = choose|k: int| 0 <= k < a.len() && a[k] == x;
        assert((a + b)[k] == x);
    }
    if b.contains(x) {
        let k = choose|k: int| 0 <= k < b.len() && b[k] == x;
        assert((a + b)[a.len() + k] == x);
    }
    if (a + b).contains(x) {
        let k = choose|k: int| 0 <= k < (a + b).len() && (a + b)[k] == x;
        if k < a.len() {
            assert(a[k] == x);
        } else {
            assert(b[k - a.len()] == x);
        }
    }
}

/// Tests whether a segment is among some edges.
fn has_edge(edges: &Vec<SegKey>, key: SegKey) -> (r: bool)
    ensures
        r == edges@.contains(key),
{
    let mut i: usize = 0;
    while i < edges.len()
        invariant
            i <= edges.len(),
            forall|j: int| 0 <= j < i ==> edges@[j] != key,
        decreases edges.len() - i,
    {
        if edges[i] == key {
            assert(edges@[i as int] == key);
            return true;
        }
        i += 1;
    }
    false
}

/// Tests whether any of some answers is yes.
fn any_of(answers: &Vec<bool>) -> (r: bool)
    ensures
        r == answers@.contains(true),
{
    let mut i: usize = 0;
    while i < answers.len()
        invariant
            i <= answers.len(),
            forall|j: int| 0 <= j < i ==> answers@[j] == false,
        decreases answers.len() - i,
    {
        if answers[i] {
            assert(answers@[i as int] == true);
            return true;
        }
        i += 1;
    }
    false
}

/// What has been chosen from a plan so far.
struct Progress {
    placed: Vec<Element>,
    layers: Vec<String>,
}

impl Progress {
    /// Goes through one list of the plan. Returns how many elements are left out.
    fn go_through<T>(
        &mut self,
        kind: Kind,
        keep: &Vec<bool>,
        list: &Vec<On<T>>,
        Ghost(done): Ghost<Seq<Seq<char>>>,
    ) -> (dropped: usize)
        requires
            keep@.len() == list@.len(),
            views(old(self).layers@) == distinct(done),
        ensures
            final(self).placed@ == old(self).placed@ + chosen(kind, keep@),
            views(final(self).layers@) == distinct(done + chosen_layers(keep@, layers_of(list@))),
            dropped == left_out(keep@),
    {
        let ghost before = self.placed@;
        let ghost all = layers_of(list@);
        let mut dropped: usize = 0;
        let mut i: usize = 0;
        proof {
            assert(keep@.take(0) =~= Seq::empty());
            assert(before + chosen(kind, keep@.take(0)) =~= before);
            assert(done + chosen_layers(keep@.take(0), all) =~= done);
        }
        while i < list.len()
            invariant
                i <= list.len(),
                keep@.len() == list@.len(),
                all == layers_of(list@),
                dropped <= i,
                dropped == left_out(keep@.take(i as int)),
                self.placed@ == before + chosen(kind, keep@.take(i as int)),
                views(self.layers@) == distinct(done + chosen_layers(keep@.take(i as int), all)),
            decreases list.len() - i,
        {
            proof {
                assert(keep@.take(i + 1).drop_last() =~= keep@.take(i as int));
            }
            if keep[i] {
                self.placed.push(Element { kind, index: i });
                add_text_once(&mut self.layers, list[i].layer.as_str());
                proof {
                    let now = done + chosen_layers(keep@.take(i as int), all);
                    let next = done + chosen_layers(keep@.take(i + 1), all);
                    assert(all[i as int] == list@[i as int].layer@);
                    assert(next =~= now.push(all[i as int]));
                    assert(next.drop_last() =~= now);
                    assert(self.placed@ =~= before + chosen(kind, keep@.take(i + 1)));
                }
            } else {
                dropped += 1;
            }
            i += 1;
        }
        assert(keep@.take(i as int) =~= keep@);
        dropped
    }
}

/// The edges of some chains.
fn edges_in(chains: &Vec<On<Chain>>) -> (r: Vec<SegKey>)
    ensures
        r@ == chain_edges(chains@),
{
    let mut r: Vec<SegKey> = Vec::new();
    let mut i: usize = 0;
    assert(chains@.take(0) =~= Seq::empty());
    while i < chains.len()
        invariant
            i <= chains.len(),
            r@ == chain_edges(chains@.take(i as int)),
        decreases chains.len() - i,
    {
        let edges = &chains[i].what.edges;
        let ghost before = r@;
        let mut j: usize = 0;
        while j < edges.len()
            invariant
                j <= edges.len(),
                r@ =~= before + edges@.take(j as int),
            decreases edges.len() - j,
        {
            r.push(edges[j]);
            j += 1;
        }
        proof {
            assert(edges@.take(j as int) =~= edges@);
            assert(chains@.take(i + 1).drop_last() =~= chains@.take(i as int));
        }
        i += 1;
    }
    assert(chains@.take(i as int) =~= chains@);
    r
}

/// Says that a plan cannot be understood, and why.
pub fn bad_plan(why: &str) -> (r: Reply)
    ensures
        r@ == Said::Error("LS_IMPORTPLAN: invalid plan JSON: "@ + why@),
{
    Reply::Error("LS_IMPORTPLAN: invalid plan JSON: ".to_string().concat(why))
}

/// What comes of an import of a plan: the elements to draw, and what is said.
#[derive(Debug, PartialEq)]
pub struct PlanImport {
    pub elements: Vec<Element>,
    pub report: Reply,
}

/// What an import of a plan says when it is done.
pub open spec fn plan_report(n: nat, layers: nat, repeated: nat, source: Seq<char>) -> Said {
    let note = if repeated > 0 {
        " ("@ + decimal(repeated) + " element(s) already covered by polylines skipped)"@
    } else {
        Seq::empty()
    };
    Said::Output(
        "LS_IMPORTPLAN: "@ + decimal(n) + " entities on "@ + decimal(layers) + " layer(s) from "@
            + source + "."@ + note,
    )
}

/// Says what an import of a plan has done.
fn report_plan(n: usize, layers: usize, repeated: usize, source: &str) -> (r: Reply)
    ensures
        r@ == plan_report(n as nat, layers as nat, repeated as nat, source@),
{
    let note = if repeated > 0 {
        " (".to_string().concat(decimal_text(repeated).as_str()).concat(
            " element(s) already covered by polylines skipped)",
        )
    } else {
        String::new()
    };
    Reply::Output(
        "LS_IMPORTPLAN: ".to_string().concat(decimal_text(n).as_str()).concat(
            " entities on ",
        ).concat(decimal_text(layers).as_str()).concat(" layer(s) from ").concat(source).concat(
            ".",
        ).concat(note.as_str()),
    )
}

/// Takes every element of a list.
fn every(n: usize) -> (r: Vec<bool>)
    ensures
        r@ == all_of(n as nat),
{
    let mut r: Vec<bool> = Vec::new();
    while r.len() < n
        invariant
            r@.len() <= n,
            forall|i: int| 0 <= i < r@.len() ==> r@[i],
        decreases n - r.len(),
    {
        r.push(true);
    }
    assert(r@ =~= all_of(n as nat));
    r
}

/// Imports a plan: chooses the elements to draw and says what was chosen.
pub fn import_plan<C, T>(plan: &Plan<C, T>, source: &str) -> (r: PlanImport)
    requires
        plan.lines@.len() + plan.arcs@.len() <= usize::MAX,
    ensures
        r.elements@ == drawn(*plan),
        forall|i: int|
            0 <= i < plan.lines@.len() ==> (r.elements@.contains(
                Element { kind: Kind::Line, index: i as usize },
            ) <==> !exists|k: int|
                0 <= k < plan.polylines@.len() && (
                #[trigger] plan.polylines@[k]).what.edges@.contains((#[trigger] plan.lines@[i]).what)),
        r.report@ == plan_report(
            drawn(*plan).len(),
            drawn_layers(*plan).len(),
            repeated(*plan),
            source@,
        ),
{
    let edges = edges_in(&plan.polylines);
    let mut chains: Vec<bool> = Vec::new();
    let mut i: usize = 0;
    while i < plan.polylines.len()
        invariant
            i <= plan.polylines.len(),
            chains@ =~= drawn_chains(plan.polylines@).take(i as int),
        decreases plan.polylines.len() - i,
    {
        chains.push(plan.polylines[i].what.points >= 2);
        i += 1;
    }
    let mut lines: Vec<bool> = Vec::new();
    let mut j: usize = 0;
    while j < plan.lines.len()
        invariant
            j <= plan.lines.len(),
            lines@ =~= drawn_lines(plan.lines@, edges@).take(j as int),
        decreases plan.lines.len() - j,
    {
        lines.push(!has_edge(&edges, plan.lines[j].what));
        j += 1;
    }
    let mut arcs: Vec<bool> = Vec::new();
    let mut k: usize = 0;
    while k < plan.arcs.len()
        invariant
            k <= plan.arcs.len(),
            arcs@ =~= drawn_arcs(plan.arcs@).take(k as int),
        decreases plan.arcs.len() - k,
    {
        arcs.push(!any_of(&plan.arcs[k].what));
        k += 1;
    }
    assert(chains@ =~= drawn_chains(plan.polylines@));
    assert(lines@ =~= drawn_lines(plan.lines@, edges@));
    assert(arcs@ =~= drawn_arcs(plan.arcs@));
    let mut p = Progress { placed: Vec::new(), layers: Vec::new() };
    let ghost none: Seq<Seq<char>> = Seq::empty();
    assert(views(p.layers@) =~= distinct(none));
    p.go_through(Kind::Polyline, &chains, &plan.polylines, Ghost(none));
    let ghost one = none + chosen_layers(chains@, layers_of(plan.polylines@));
    proof {
        law_chosen_or_left_out(Kind::Line, lines@);
        law_chosen_or_left_out(Kind::Arc, arcs@);
    }
    let a = p.go_through(Kind::Line, &lines, &plan.lines, Ghost(one));
    let ghost two = one + chosen_layers(lines@, layers_of(plan.lines@));
    let b = p.go_through(Kind::Arc, &arcs, &plan.arcs, Ghost(two));
    let ghost three = two + chosen_layers(arcs@, layers_of(plan.arcs@));
    let circles = every(plan.circles.len());
    p.go_through(Kind::Circle, &circles, &plan.circles, Ghost(three));
    let ghost four = three + chosen_layers(circles@, layers_of(plan.circles@));
    let texts = every(plan.texts.len());
    p.go_through(Kind::Text, &texts, &plan.texts, Ghost(four));
    proof {
        let five = four + chosen_layers(texts@, layers_of(plan.texts@));
        assert(one =~= chosen_layers(chains@, layers_of(plan.polylines@)));
        assert(p.placed@ =~= drawn(*plan));
        assert(views(p.layers@) == distinct(five));
        assert(views(p.layers@).len() == p.layers@.len());
    }
    proof {
        assert forall|i: int| 0 <= i < plan.lines@.len() implies (p.placed@.contains(
            Element { kind: Kind::Line, index: i as usize },
        ) <==> !exists|k: int|
            0 <= k < plan.polylines@.len() && (#[trigger] plan.polylines@[k]).what.edges@.contains(
                (#[trigger] plan.lines@[i]).what,
            )) by {
            law_what_is_drawn(*plan, Element { kind: Kind::Line, index: i as usize });
        }
    }
    let report = report_plan(p.placed.len(), p.layers.len(), a + b, source);
    PlanImport { elements: p.placed, report }
}

/// What the file of a plan is called: by its name, or by its path where it has no
/// name.
pub open spec fn source_of(name: Option<Seq<char>>, path: Seq<char>) -> Seq<char> {
    match name {
        Some(n) => n,
        None => path,
    }
}

/// Calls the file of a plan by its name, or by its path where it has none.
pub fn source_name(name: Option<String>, path: &str) -> (r: String)
    ensures
        r@ == source_of(optional_view(name), path@),
{
    match name {
        Some(n) => n,
        None => path.to_string(),
    }
}

/// Names the file that a plan comes from: the last component of its path, or the
/// whole path where that names nothing. What is a component depends on the platform
/// for paths that platforms read differently.
pub fn plan_source(path: &str) -> (r: String)
    ensures
        is_plain_path(path@) ==> r@ == source_of(file_name_of(path@), path@),
{
    source_name(file_name(path), path)
}

/// Puts an element of a plan on its layer, and makes the record that tags it with
/// the plan's file.
pub fn place(e: EntityType, layer: &str, source: &str) -> (r: (EntityType, ExtendedDataRecord))
    ensures
        entity_layer(r.0) == layer@,
        entity_data(r.0) == entity_data(e),
        entity_point(r.0) == entity_point(e),
        entity_line(r.0) == entity_line(e),
        entity_mesh(r.0) == entity_mesh(e),
        record_application(r.1) == XDATA_PLAN@,
        record_values(r.1) == seq![Some(source@)],
{
    (put_on(e, layer), plan_record(source))
}

} // verus!
