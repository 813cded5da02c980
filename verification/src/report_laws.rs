//! What holds of every method that is chosen and of everything that is said.

use vstd::prelude::*;

use crate::adjust::{
    aligned, combined_report_of, helmert_report_of, measured, method_of, three_point_report_of,
    too_few_shots, unsuited_shots, CombinedTexts, Fit, Method, ThreePointTexts, HELMERT_HEAD,
};
use crate::console::Said;
use crate::import::{preview_of, row, place_of};
use crate::dispatch::ImportView;
use crate::entities::vector_text;
use crate::pnezd::Record;
use crate::reports::{joined, triangles_in, volume_report_of, CutFill, GridVolume, Named};
use crate::results::{combined_lines, three_point_lines};
use crate::text::decimal;

verus! {

/// How many shots carry a distance, against which of them do.
proof fn lemma_measured(shots: Seq<bool>)
    ensures
        measured(shots) <= shots.len(),
        measured(shots) == 0 <==> forall|i: int| 0 <= i < shots.len() ==> !#[trigger] shots[i],
        measured(shots) >= 2 <==> exists|i: int, j: int|
            0 <= i < j < shots.len() && #[trigger] shots[i] && #[trigger] shots[j],
    decreases shots.len(),
{
    if shots.len() > 0 {
        let before = shots.drop_last();
        let n = before.len() as int;
        lemma_measured(before);
        assert forall|i: int| 0 <= i < n implies before[i] == #[trigger] shots[i] by {}
        if measured(shots) == 0 {
            assert forall|i: int| 0 <= i < shots.len() implies !#[trigger] shots[i] by {
                if i < n {
                    assert(!before[i]);
                }
            }
        }
        if forall|i: int| 0 <= i < shots.len() ==> !#[trigger] shots[i] {
            assert forall|i: int| 0 <= i < n implies !#[trigger] before[i] by {
                assert(!shots[i]);
            }
            assert(!shots[n]);
        }
        if measured(before) >= 2 {
            let (i, j) = choose|i: int, j: int|
                0 <= i < j < before.len() && #[trigger] before[i] && #[trigger] before[j];
            assert(shots[i] && shots[j]);
        } else if measured(shots) >= 2 {
            assert(measured(before) == 1);
            let i = choose|i: int| 0 <= i < n && #[trigger] before[i];
            assert(shots[i] && shots[n]);
        }
        if exists|i: int, j: int| 0 <= i < j < shots.len() && #[trigger] shots[i] && #[trigger] shots[j] {
            let (i, j) = choose|i: int, j: int|
                0 <= i < j < shots.len() && #[trigger] shots[i] && #[trigger] shots[j];
            assert(before[i]);
            if j < n {
                assert(before[j]);
            }
        }
    }
}

/// Which method takes some shots: the combined one whenever two shots carry a
/// distance, however many shots there are, and the three-point one for three shots
/// none of which carries a distance. Any other shots are refused, and one shot or
/// none as too few.
pub proof fn law_method_by_distances(path: Seq<char>, shots: Seq<bool>)
    ensures
        method_of(path, shots) == Ok::<Method, Seq<char>>(Method::Combined) <==> exists|i: int, j: int|
            0 <= i < j < shots.len() && #[trigger] shots[i] && #[trigger] shots[j],
        method_of(path, shots) == Ok::<Method, Seq<char>>(Method::ThreePoint) <==> shots == seq![
            false,
            false,
            false,
        ],
        shots.len() < 2 ==> method_of(path, shots) == Err::<Method, Seq<char>>(
            too_few_shots(path, shots.len()),
        ),
        method_of(path, shots) is Err && shots.len() >= 2 ==> method_of(path, shots) == Err::<
            Method,
            Seq<char>,
        >(unsuited_shots(shots.len(), measured(shots))),
{
    lemma_measured(shots);
    if shots.len() == 3 && measured(shots) == 0 {
        assert(shots =~= seq![false, false, false]);
    }
    if shots == seq![false, false, false] {
        assert forall|i: int| 0 <= i < shots.len() implies !#[trigger] shots[i] by {}
    }
}

/// The count of shots with a distance that a refusal gives grows by one with each of
/// them, and with no other.
pub proof fn law_distances_are_counted(a: Seq<bool>, b: Seq<bool>)
    ensures
        measured(a + b) == measured(a) + measured(b),
        measured(seq![true]) == 1,
        measured(seq![false]) == 0,
    decreases b.len(),
{
    if b.len() == 0 {
        assert(a + b =~= a);
    } else {
        law_distances_are_counted(a, b.drop_last());
        assert((a + b).drop_last() =~= a + b.drop_last());
        assert((a + b).last() == b.last());
    }
    assert(seq![true].drop_last() =~= Seq::empty());
    assert(seq![false].drop_last() =~= Seq::empty());
    assert(measured(seq![true].drop_last()) == 0);
    assert(measured(seq![false].drop_last()) == 0);
}

/// The report of a fit has its head, seven steps, and then a row for every pair,
/// numbered from one, with the residual of that pair.
pub proof fn law_every_residual_of_a_fit_is_reported(f: Fit, i: int)
    requires
        0 <= i < f.residuals@.len(),
    ensures
        helmert_report_of(f).len() == 8 + f.residuals@.len(),
        helmert_report_of(f)[0] == Said::Output(HELMERT_HEAD@),
        helmert_report_of(f)[8 + i] == Said::Output(
            "            pair "@ + aligned(decimal((i + 1) as nat), 2) + ": "@ + f.residuals@[i]@,
        ),
{
}

/// The report of a station by the combined method has five lines of figures, and then
/// a row for each shot, up to twelve of them, with its own name and residual.
pub proof fn law_residuals_of_shots_are_reported(t: CombinedTexts, i: int)
    requires
        0 <= i < t.residuals@.len(),
    ensures
        combined_report_of(t).len() == 5 + (if t.residuals@.len() <= 12 {
            t.residuals@.len()
        } else {
            12
        }),
        i < 12 ==> combined_report_of(t)[5 + i] == Said::Output(
            "            "@ + aligned(t.residuals@[i].0@, 6) + ": "@ + t.residuals@[i].1@,
        ),
        combined_lines(t).len() == 6 + t.residuals@.len(),
        combined_lines(t)[6 + i] == "            "@ + aligned(t.residuals@[i].0@, 6) + ": "@
            + t.residuals@[i].1@,
{
}

/// A station is reported by easting and northing, in this order, by either method,
/// and a warning stands in the report if and only if there is something to warn of.
pub proof fn law_stations_are_reported_alike(c: CombinedTexts, t: ThreePointTexts)
    requires
        c.east@ == t.east@,
        c.north@ == t.north@,
        c.orientation@ == t.orientation@,
    ensures
        combined_report_of(c)[1] == Said::Output("  station (E,N) : "@ + c.east@ + ", "@ + c.north@),
        combined_report_of(c)[1] == three_point_report_of(t)[1],
        combined_report_of(c)[2] == three_point_report_of(t)[2],
        combined_lines(c)[2] == three_point_lines(t)[2],
        combined_lines(c)[3] == three_point_lines(t)[3],
        combined_report_of(c)[3] == Said::Output("  scale check   : "@ + c.scale@) <==> !c.blunder,
        three_point_report_of(t)[4] == Said::Output("  amplification : "@ + t.amplification@ + "x"@)
            <==> !t.danger,
{
    reveal_strlit("  <-- WARNING: strays from 1.0 (distance/EDM blunder?)");
    reveal_strlit("  <-- WARNING: near danger circle");
    let none: Seq<char> = Seq::empty();
    let s = "  scale check   : "@ + c.scale@;
    let a = "  amplification : "@ + t.amplification@ + "x"@;
    assert(s + none =~= s);
    assert(a + none =~= a);
    if c.blunder {
        assert(combined_report_of(c)[3] == Said::Output(
            s + "  <-- WARNING: strays from 1.0 (distance/EDM blunder?)"@,
        ));
        assert((s + "  <-- WARNING: strays from 1.0 (distance/EDM blunder?)"@).len() > s.len());
    } else {
        assert(combined_report_of(c)[3] == Said::Output(s + none));
    }
    if t.danger {
        assert(three_point_report_of(t)[4] == Said::Output(a + "  <-- WARNING: near danger circle"@));
        assert((a + "  <-- WARNING: near danger circle"@).len() > a.len());
    } else {
        assert(three_point_report_of(t)[4] == Said::Output(a + none));
    }
}

/// The report of a volume names the upper surface and then the lower one, and has a
/// line for the grid method if and only if that was asked for.
pub proof fn law_a_volume_is_top_minus_bottom(
    top: (Seq<char>, nat),
    bottom: (Seq<char>, nat),
    exact: CutFill,
    grid: Option<GridVolume>,
)
    ensures
        ({
            let r = volume_report_of(top, bottom, exact, grid);
            &&& r.len() == (if grid is Some {
                3nat
            } else {
                2nat
            })
            &&& r[0] == Said::Output("LS_VOLUME: "@ + top.0 + " (top) minus "@ + bottom.0 + " (bottom)."@)
            &&& r[1] == Said::Output(
                "LS_VOLUME (exact TIN overlay): cut "@ + exact.cut@ + ", fill "@ + exact.fill@
                    + ", net "@ + exact.net@ + " [top "@ + decimal(top.1) + " pts, bottom "@ + decimal(
                    bottom.1,
                ) + " pts]."@,
            )
            &&& r.take(2) == volume_report_of(top, bottom, exact, None)
        }),
{
    let r = volume_report_of(top, bottom, exact, grid);
    assert(r.take(2) =~= volume_report_of(top, bottom, exact, None));
    reveal_strlit("LS_VOLUME (exact TIN overlay): cut ");
    reveal_strlit("LS_VOLUME ");
    reveal_strlit("(exact TIN overlay): ");
    reveal_strlit("cut ");
    reveal_strlit(" pts]");
    reveal_strlit(".");
    reveal_strlit(" pts].");
    assert("LS_VOLUME "@ + "(exact TIN overlay): "@ + "cut "@ =~= "LS_VOLUME (exact TIN overlay): cut "@);
    assert(" pts]"@ + "."@ =~= " pts]."@);
    let mid = exact.cut@ + ", fill "@ + exact.fill@ + ", net "@ + exact.net@ + " [top "@ + decimal(top.1)
        + " pts, bottom "@ + decimal(bottom.1);
    let said = "LS_VOLUME "@ + crate::reports::exact_of(exact, top.1, bottom.1) + "."@;
    assert(said =~= "LS_VOLUME (exact TIN overlay): cut "@ + mid + " pts]."@);
    assert("LS_VOLUME (exact TIN overlay): cut "@ + exact.cut@ + ", fill "@ + exact.fill@ + ", net "@
        + exact.net@ + " [top "@ + decimal(top.1) + " pts, bottom "@ + decimal(bottom.1) + " pts]."@
        =~= "LS_VOLUME (exact TIN overlay): cut "@ + mid + " pts]."@);
}

/// Texts are joined with the separator between any two of them and nowhere else.
pub proof fn law_joining(a: Seq<Seq<char>>, b: Seq<Seq<char>>, separator: Seq<char>)
    ensures
        a.len() == 1 ==> joined(a, separator) == a[0],
        a.len() == 0 ==> joined(a, separator).len() == 0,
        a.len() > 0 && b.len() > 0 ==> joined(a + b, separator) == joined(a, separator) + separator
            + joined(b, separator),
    decreases b.len(),
{
    if a.len() > 0 && b.len() > 0 {
        let c = b.drop_last();
        law_joining(a, c, separator);
        assert((a + b).drop_last() =~= a + c);
        assert((a + b).last() == b.last());
        if c.len() == 0 {
            assert(a + c =~= a);
        } else {
            assert(joined(a, separator) + separator + joined(c, separator) + separator + b.last()
                =~= joined(a, separator) + separator + (joined(c, separator) + separator + b.last()));
        }
    }
}

/// The triangles of some surfaces are those of each of them.
pub proof fn law_triangles_add_up(a: Seq<Named>, n: Named, b: Seq<Named>)
    ensures
        triangles_in(a + b) == triangles_in(a) + triangles_in(b),
        triangles_in(seq![n]) == n.surface.triangles@.len(),
    decreases b.len(),
{
    if b.len() == 0 {
        assert(a + b =~= a);
    } else {
        law_triangles_add_up(a, n, b.drop_last());
        assert((a + b).drop_last() =~= a + b.drop_last());
        assert((a + b).last() == b.last());
    }
    assert(seq![n].drop_last() =~= Seq::empty());
    assert(triangles_in(seq![n].drop_last()) == 0);
}

/// A preview has a head, a row for each of the first five points, in their order and
/// with their own coordinates, and a last line where there are more.
pub proof fn law_a_preview_shows_the_first_points(
    q: ImportView,
    points: Seq<Record>,
    skipped: nat,
    i: int,
)
    requires
        0 <= i < points.len(),
    ensures
        ({
            let p = preview_of(q, points, skipped);
            &&& p.len() == (if points.len() > 5 {
                7nat
            } else {
                1 + points.len()
            })
            &&& i < 5 ==> p[1 + i] == Said::Output(
                row(points[i].number, vector_text(place_of(points[i])), points[i].description),
            )
            &&& points.len() > 5 ==> p[6] == Said::Output(
                "  \u{2026} and "@ + decimal((points.len() - 5) as nat) + " more"@,
            )
        }),
{
}

} // verus!
