//! What holds of every plan that is imported.

use vstd::prelude::*;

use crate::lists::law_distinct;
use crate::plan::{
    all_of, chain_edges, chosen, chosen_layers, drawn, drawn_arcs, drawn_chains, drawn_layers,
    drawn_lines, law_chosen_or_left_out, layers_of, left_out, repeated, Element, Kind, On, Plan,
};

verus! {

/// The place of a list among the lists of a plan.
pub open spec fn rank(kind: Kind) -> int {
    match kind {
        Kind::Polyline => 0,
        Kind::Line => 1,
        Kind::Arc => 2,
        Kind::Circle => 3,
        Kind::Text => 4,
    }
}

/// One element is drawn before another.
pub open spec fn comes_before(a: Element, b: Element) -> bool {
    rank(a.kind) < rank(b.kind) || (a.kind == b.kind && a.index < b.index)
}

/// What is drawn of one list, in its order.
proof fn lemma_chosen_order(kind: Kind, keep: Seq<bool>)
    requires
        keep.len() <= usize::MAX,
    ensures
        forall|i: int|
            0 <= i < chosen(kind, keep).len() ==> (#[trigger] chosen(kind, keep)[i]).kind == kind
                && chosen(kind, keep)[i].index < keep.len(),
        forall|i: int, j: int|
            0 <= i < j < chosen(kind, keep).len() ==> comes_before(
                #[trigger] chosen(kind, keep)[i],
                #[trigger] chosen(kind, keep)[j],
            ),
    decreases keep.len(),
{
    if keep.len() > 0 {
        let before = keep.drop_last();
        lemma_chosen_order(kind, before);
        let c = chosen(kind, keep);
        let d = chosen(kind, before);
        assert forall|i: int| 0 <= i < c.len() implies (#[trigger] c[i]).kind == kind && c[i].index
            < keep.len() by {
            if i < d.len() {
                assert(c[i] == d[i]);
            }
        }
        assert forall|i: int, j: int| 0 <= i < j < c.len() implies comes_before(
            #[trigger] c[i],
            #[trigger] c[j],
        ) by {
            assert(c[i] == d[i]);
            if j < d.len() {
                assert(c[j] == d[j]);
            }
        }
    }
}

/// Elements of one kind behind elements of earlier kinds.
proof fn lemma_order_behind(a: Seq<Element>, b: Seq<Element>, r: int)
    requires
        forall|i: int, j: int| 0 <= i < j < a.len() ==> comes_before(#[trigger] a[i], #[trigger] a[j]),
        forall|i: int, j: int| 0 <= i < j < b.len() ==> comes_before(#[trigger] b[i], #[trigger] b[j]),
        forall|i: int| 0 <= i < a.len() ==> rank((#[trigger] a[i]).kind) < r,
        forall|i: int| 0 <= i < b.len() ==> rank((#[trigger] b[i]).kind) == r,
    ensures
        forall|i: int, j: int|
            0 <= i < j < (a + b).len() ==> comes_before(#[trigger] (a + b)[i], #[trigger] (a + b)[j]),
        forall|i: int| 0 <= i < (a + b).len() ==> rank((#[trigger] (a + b)[i]).kind) < r + 1,
{
    let c = a + b;
    assert forall|i: int| 0 <= i < c.len() implies rank((#[trigger] c[i]).kind) < r + 1 by {
        if i < a.len() {
            assert(c[i] == a[i]);
        } else {
            assert(c[i] == b[i - a.len()]);
        }
    }
    assert forall|i: int, j: int| 0 <= i < j < c.len() implies comes_before(
        #[trigger] c[i],
        #[trigger] c[j],
    ) by {
        if j < a.len() {
            assert(c[i] == a[i] && c[j] == a[j]);
        } else if i < a.len() {
            assert(c[i] == a[i] && c[j] == b[j - a.len()]);
        } else {
            assert(c[i] == b[i - a.len()] && c[j] == b[j - a.len()]);
        }
    }
}

/// The elements of a plan are drawn list by list, chains first, then lines, arcs,
/// circles and texts, and in the order of the plan within a list. So none is drawn
/// twice.
pub proof fn law_drawn_in_order<C, T>(plan: Plan<C, T>)
    requires
        plan.polylines@.len() <= usize::MAX,
        plan.lines@.len() <= usize::MAX,
        plan.arcs@.len() <= usize::MAX,
        plan.circles@.len() <= usize::MAX,
        plan.texts@.len() <= usize::MAX,
    ensures
        forall|i: int, j: int|
            0 <= i < j < drawn(plan).len() ==> comes_before(
                #[trigger] drawn(plan)[i],
                #[trigger] drawn(plan)[j],
            ),
        drawn(plan).no_duplicates(),
{
    let none: Seq<Element> = Seq::empty();
    let a = chosen(Kind::Polyline, drawn_chains(plan.polylines@));
    let b = chosen(Kind::Line, drawn_lines(plan.lines@, chain_edges(plan.polylines@)));
    let c = chosen(Kind::Arc, drawn_arcs(plan.arcs@));
    let d = chosen(Kind::Circle, all_of(plan.circles@.len()));
    let e = chosen(Kind::Text, all_of(plan.texts@.len()));
    lemma_chosen_order(Kind::Polyline, drawn_chains(plan.polylines@));
    lemma_chosen_order(Kind::Line, drawn_lines(plan.lines@, chain_edges(plan.polylines@)));
    lemma_chosen_order(Kind::Arc, drawn_arcs(plan.arcs@));
    lemma_chosen_order(Kind::Circle, all_of(plan.circles@.len()));
    lemma_chosen_order(Kind::Text, all_of(plan.texts@.len()));
    lemma_order_behind(none, a, 0);
    assert(none + a =~= a);
    lemma_order_behind(a, b, 1);
    lemma_order_behind(a + b, c, 2);
    lemma_order_behind(a + b + c, d, 3);
    lemma_order_behind(a + b + c + d, e, 4);
    let all = drawn(plan);
    assert forall|i: int, j: int| 0 <= i < all.len() && 0 <= j < all.len() && i != j implies all[i] != all[j] by {
        if i < j {
            assert(comes_before(all[i], all[j]));
        } else {
            assert(comes_before(all[j], all[i]));
        }
    }
}

/// The elements of one kind.
pub open spec fn of_kind(list: Seq<Element>, kind: Kind) -> Seq<Element> {
    list.filter(|x: Element| x.kind == kind)
}

/// What is chosen from a list is of one kind.
proof fn lemma_of_kind(kind: Kind, keep: Seq<bool>, other: Kind)
    ensures
        of_kind(chosen(kind, keep), other) == (if other == kind {
            chosen(kind, keep)
        } else {
            Seq::empty()
        }),
    decreases keep.len(),
{
    reveal(Seq::filter);
    if keep.len() > 0 {
        lemma_of_kind(kind, keep.drop_last(), other);
        let before = chosen(kind, keep.drop_last());
        let x = Element { kind, index: (keep.len() - 1) as usize };
        assert(before.push(x).drop_last() =~= before);
    }
}

proof fn lemma_kinds_of_parts<C, T>(plan: Plan<C, T>, kind: Kind)
    ensures
        of_kind(drawn(plan), kind) == (match kind {
            Kind::Polyline => chosen(kind, drawn_chains(plan.polylines@)),
            Kind::Line => chosen(kind, drawn_lines(plan.lines@, chain_edges(plan.polylines@))),
            Kind::Arc => chosen(kind, drawn_arcs(plan.arcs@)),
            Kind::Circle => chosen(kind, all_of(plan.circles@.len())),
            Kind::Text => chosen(kind, all_of(plan.texts@.len())),
        }),
{
    let a = chosen(Kind::Polyline, drawn_chains(plan.polylines@));
    let b = chosen(Kind::Line, drawn_lines(plan.lines@, chain_edges(plan.polylines@)));
    let c = chosen(Kind::Arc, drawn_arcs(plan.arcs@));
    let d = chosen(Kind::Circle, all_of(plan.circles@.len()));
    let e = chosen(Kind::Text, all_of(plan.texts@.len()));
    lemma_kind_apart(a, b, kind);
    lemma_kind_apart(a + b, c, kind);
    lemma_kind_apart(a + b + c, d, kind);
    lemma_kind_apart(a + b + c + d, e, kind);
    lemma_of_kind(Kind::Polyline, drawn_chains(plan.polylines@), kind);
    lemma_of_kind(Kind::Line, drawn_lines(plan.lines@, chain_edges(plan.polylines@)), kind);
    lemma_of_kind(Kind::Arc, drawn_arcs(plan.arcs@), kind);
    lemma_of_kind(Kind::Circle, all_of(plan.circles@.len()), kind);
    lemma_of_kind(Kind::Text, all_of(plan.texts@.len()), kind);
    let none: Seq<Element> = Seq::empty();
    assert(none + none =~= none);
    assert(a + none =~= a && none + b =~= b && b + none =~= b && none + c =~= c && c + none =~= c);
    assert(none + d =~= d && d + none =~= d && none + e =~= e);
}

proof fn lemma_kind_apart(a: Seq<Element>, b: Seq<Element>, kind: Kind)
    ensures
        of_kind(a + b, kind) == of_kind(a, kind) + of_kind(b, kind),
{
    Seq::filter_distributes_over_add(a, b, |x: Element| x.kind == kind);
    assert(of_kind(a + b, kind) =~= of_kind(a, kind) + of_kind(b, kind));
}

proof fn lemma_drawn_and_hidden<C, T>(plan: Plan<C, T>)
    ensures
        left_out(drawn_lines(plan.lines@, chain_edges(plan.polylines@))) + of_kind(
            drawn(plan),
            Kind::Line,
        ).len() == plan.lines@.len(),
        left_out(drawn_arcs(plan.arcs@)) + of_kind(drawn(plan), Kind::Arc).len() == plan.arcs@.len(),
{
    let lines = drawn_lines(plan.lines@, chain_edges(plan.polylines@));
    let arcs = drawn_arcs(plan.arcs@);
    assert(left_out(lines) + of_kind(drawn(plan), Kind::Line).len() == lines.len()) by {
        lemma_kinds_of_parts(plan, Kind::Line);
        law_chosen_or_left_out(Kind::Line, lines);
    }
    assert(left_out(arcs) + of_kind(drawn(plan), Kind::Arc).len() == arcs.len()) by {
        lemma_kinds_of_parts(plan, Kind::Arc);
        law_chosen_or_left_out(Kind::Arc, arcs);
    }
}

/// The lines and the arcs that are said to repeat chains are those that are not
/// drawn: drawn and repeated together, they are all there are.
pub proof fn law_repeated_is_what_is_not_drawn<C, T>(plan: Plan<C, T>)
    ensures
        repeated(plan) + of_kind(drawn(plan), Kind::Line).len() + of_kind(drawn(plan), Kind::Arc).len()
            == plan.lines@.len() + plan.arcs@.len(),
{
    lemma_drawn_and_hidden(plan);
}

/// The layer of an element of a plan.
pub open spec fn layer_in<C, T>(plan: Plan<C, T>, x: Element) -> Seq<char> {
    let i = x.index as int;
    match x.kind {
        Kind::Polyline => plan.polylines@[i].layer@,
        Kind::Line => plan.lines@[i].layer@,
        Kind::Arc => plan.arcs@[i].layer@,
        Kind::Circle => plan.circles@[i].layer@,
        Kind::Text => plan.texts@[i].layer@,
    }
}

/// The layers of elements of a list, in order.
spec fn are_layers<X>(c: Seq<Element>, l: Seq<Seq<char>>, list: Seq<On<X>>) -> bool {
    &&& l.len() == c.len()
    &&& forall|i: int|
        0 <= i < c.len() ==> (#[trigger] c[i]).index < list.len() && l[i] == list[c[i].index as int].layer@
}

/// The layers of what is chosen are the layers of the chosen elements, in order.
proof fn lemma_chosen_layers<X>(kind: Kind, keep: Seq<bool>, list: Seq<On<X>>)
    requires
        keep.len() <= list.len() <= usize::MAX,
    ensures
        are_layers(chosen(kind, keep), chosen_layers(keep, layers_of(list)), list),
    decreases keep.len(),
{
    if keep.len() > 0 {
        lemma_chosen_layers(kind, keep.drop_last(), list);
        let c = chosen(kind, keep);
        let d = chosen(kind, keep.drop_last());
        let l = chosen_layers(keep, layers_of(list));
        let m = chosen_layers(keep.drop_last(), layers_of(list));
        assert forall|i: int| 0 <= i < c.len() implies (#[trigger] c[i]).index < list.len() && l[i]
            == list[c[i].index as int].layer@ by {
            if i < d.len() {
                assert(c[i] == d[i]);
                assert(l[i] == m[i]);
            }
        }
    }
}

/// The layers of the drawn elements, in order.
proof fn lemma_layers_join<C, T>(
    plan: Plan<C, T>,
    a: Seq<Element>,
    la: Seq<Seq<char>>,
    b: Seq<Element>,
    lb: Seq<Seq<char>>,
)
    requires
        a.len() == la.len(),
        b.len() == lb.len(),
        forall|i: int| 0 <= i < a.len() ==> #[trigger] la[i] == layer_in(plan, a[i]),
        forall|i: int| 0 <= i < b.len() ==> #[trigger] lb[i] == layer_in(plan, b[i]),
    ensures
        (a + b).len() == (la + lb).len(),
        forall|i: int| 0 <= i < (a + b).len() ==> #[trigger] (la + lb)[i] == layer_in(plan, (a + b)[i]),
{
    assert forall|i: int| 0 <= i < (a + b).len() implies #[trigger] (la + lb)[i] == layer_in(
        plan,
        (a + b)[i],
    ) by {
        if i < a.len() {
            assert((la + lb)[i] == la[i]);
        } else {
            assert((la + lb)[i] == lb[i - a.len()]);
        }
    }
}

/// The layers that a plan is said to be drawn on are those of the elements that are
/// drawn, each of them once.
pub proof fn law_layers_are_those_of_what_is_drawn<C, T>(plan: Plan<C, T>)
    requires
        plan.polylines@.len() <= usize::MAX,
        plan.lines@.len() <= usize::MAX,
        plan.arcs@.len() <= usize::MAX,
        plan.circles@.len() <= usize::MAX,
        plan.texts@.len() <= usize::MAX,
    ensures
        drawn_layers(plan).no_duplicates(),
        forall|l: Seq<char>| #[trigger]
            drawn_layers(plan).contains(l) <==> exists|i: int|
                0 <= i < drawn(plan).len() && layer_in(plan, #[trigger] drawn(plan)[i]) == l,
{
    let ka = drawn_chains(plan.polylines@);
    let kb = drawn_lines(plan.lines@, chain_edges(plan.polylines@));
    let kc = drawn_arcs(plan.arcs@);
    let kd = all_of(plan.circles@.len());
    let ke = all_of(plan.texts@.len());
    let a = chosen(Kind::Polyline, ka);
    let b = chosen(Kind::Line, kb);
    let c = chosen(Kind::Arc, kc);
    let d = chosen(Kind::Circle, kd);
    let e = chosen(Kind::Text, ke);
    let la = chosen_layers(ka, layers_of(plan.polylines@));
    let lb = chosen_layers(kb, layers_of(plan.lines@));
    let lc = chosen_layers(kc, layers_of(plan.arcs@));
    let ld = chosen_layers(kd, layers_of(plan.circles@));
    let le = chosen_layers(ke, layers_of(plan.texts@));
    lemma_chosen_layers(Kind::Polyline, ka, plan.polylines@);
    lemma_chosen_layers(Kind::Line, kb, plan.lines@);
    lemma_chosen_layers(Kind::Arc, kc, plan.arcs@);
    lemma_chosen_layers(Kind::Circle, kd, plan.circles@);
    lemma_chosen_layers(Kind::Text, ke, plan.texts@);
    lemma_chosen_order(Kind::Polyline, ka);
    lemma_chosen_order(Kind::Line, kb);
    lemma_chosen_order(Kind::Arc, kc);
    lemma_chosen_order(Kind::Circle, kd);
    lemma_chosen_order(Kind::Text, ke);
    assert forall|i: int| 0 <= i < a.len() implies #[trigger] la[i] == layer_in(plan, a[i]) by {
        assert(a[i].kind == Kind::Polyline);
    }
    assert forall|i: int| 0 <= i < b.len() implies #[trigger] lb[i] == layer_in(plan, b[i]) by {
        assert(b[i].kind == Kind::Line);
    }
    assert forall|i: int| 0 <= i < c.len() implies #[trigger] lc[i] == layer_in(plan, c[i]) by {
        assert(c[i].kind == Kind::Arc);
    }
    assert forall|i: int| 0 <= i < d.len() implies #[trigger] ld[i] == layer_in(plan, d[i]) by {
        assert(d[i].kind == Kind::Circle);
    }
    assert forall|i: int| 0 <= i < e.len() implies #[trigger] le[i] == layer_in(plan, e[i]) by {
        assert(e[i].kind == Kind::Text);
    }
    lemma_layers_join(plan, a, la, b, lb);
    lemma_layers_join(plan, a + b, la + lb, c, lc);
    lemma_layers_join(plan, a + b + c, la + lb + lc, d, ld);
    lemma_layers_join(plan, a + b + c + d, la + lb + lc + ld, e, le);
    let all = la + lb + lc + ld + le;
    let list = drawn(plan);
    law_distinct(all);
    assert forall|l: Seq<char>| #[trigger] drawn_layers(plan).contains(l) <==> exists|i: int|
        0 <= i < list.len() && layer_in(plan, #[trigger] list[i]) == l by {
        assert(drawn_layers(plan).contains(l) <==> all.contains(l));
        if all.contains(l) {
            let i = choose|i: int| 0 <= i < all.len() && all[i] == l;
            assert(layer_in(plan, list[i]) == l);
        }
        if exists|i: int| 0 <= i < list.len() && layer_in(plan, #[trigger] list[i]) == l {
            let i = choose|i: int| 0 <= i < list.len() && layer_in(plan, #[trigger] list[i]) == l;
            assert(all[i] == l);
        }
    }
}

} // verus!
