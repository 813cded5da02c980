//! The data that the add-on leaves on entities, and how it is read back.
//!
//! Points, plan elements and surface geometry carry a record of texts under a
//! registered application name, so that it goes with the drawing into its file.

use acadrust::xdata::{ExtendedData, ExtendedDataRecord, XDataValue};
use vstd::prelude::*;

use crate::text::views;

verus! {

/// The application that carries the number and the description of a point.
pub const XDATA_POINT: &'static str = "LANDSURVEY_POINT";

/// The application that carries the file name of an imported plan.
pub const XDATA_PLAN: &'static str = "LANDSURVEY_PLAN";

/// The application that carries the name of a surface and the kind of an entity
/// drawn for it: `TIN`, `CUTFILL`, `CONTOUR` or `LABEL`.
pub const XDATA_SURFACE: &'static str = "LANDSURVEY_SURFACE";

/// A record of one application: its values in order.
#[verifier::external_type_specification]
#[verifier::external_body]
pub struct ExRecord(ExtendedDataRecord);

/// The records of one entity.
#[verifier::external_type_specification]
#[verifier::external_body]
pub struct ExRecords(ExtendedData);

/// The application that a record belongs to.
pub uninterp spec fn record_application(r: ExtendedDataRecord) -> Seq<char>;

/// The values that a record holds, in order: the text of each string value, and
/// nothing for a value of another kind.
pub uninterp spec fn record_values(r: ExtendedDataRecord) -> Seq<Option<Seq<char>>>;

/// The records that an entity holds, in order: the application and the values of
/// each.
pub uninterp spec fn entity_records(x: ExtendedData) -> Seq<(Seq<char>, Seq<Option<Seq<char>>>)>;

/// `ExtendedDataRecord::new` makes a record of an application that holds no value.
#[verifier::external_body]
fn new_record(application: &str) -> (r: ExtendedDataRecord)
    ensures
        record_application(r) == application@,
        record_values(r) == Seq::<Option<Seq<char>>>::empty(),
{
    ExtendedDataRecord::new(application)
}

/// `ExtendedDataRecord::add_value`, given a string value, adds its text behind the
/// values of a record and leaves the application.
#[verifier::external_body]
fn add_text(r: &mut ExtendedDataRecord, text: &str)
    ensures
        record_application(*final(r)) == record_application(*old(r)),
        record_values(*final(r)) == record_values(*old(r)).push(Some(text@)),
{
    r.add_value(XDataValue::String(text.to_string()));
}

/// The index of the first record of an application; the number of records if
/// there is none.
pub open spec fn first_record(
    records: Seq<(Seq<char>, Seq<Option<Seq<char>>>)>,
    application: Seq<char>,
) -> int
    decreases records.len(),
{
    if records.len() == 0 || records[0].0 == application {
        0
    } else {
        1 + first_record(records.skip(1), application)
    }
}

/// `ExtendedData::get_record` gives the first record of an application.
#[verifier::external_body]
fn find_record<'a>(x: &'a ExtendedData, application: &str) -> (r: Option<&'a ExtendedDataRecord>)
    ensures
        match r {
            Some(rec) => {
                let k = first_record(entity_records(*x), application@);
                &&& k < entity_records(*x).len()
                &&& record_values(*rec) == entity_records(*x)[k].1
            },
            None => first_record(entity_records(*x), application@) == entity_records(*x).len(),
        },
{
    x.get_record(application)
}

/// The texts of optional strings.
pub open spec fn optional_views(v: Seq<Option<String>>) -> Seq<Option<Seq<char>>> {
    v.map_values(|s: Option<String>| crate::layers::optional_view(s))
}

/// The field `values` of an `ExtendedDataRecord`, value by value: the text of each
/// string value, and nothing for a value of another kind.
#[verifier::external_body]
fn values_in(r: &ExtendedDataRecord) -> (v: Vec<Option<String>>)
    ensures
        optional_views(v@) == record_values(*r),
{
    r.values.iter().map(|v| match v {
        XDataValue::String(s) => Some(s.clone()),
        _ => None,
    }).collect()
}

/// The texts among some values, in order.
pub open spec fn texts(values: Seq<Option<Seq<char>>>) -> Seq<Seq<char>>
    decreases values.len(),
{
    if values.len() == 0 {
        Seq::empty()
    } else {
        let before = texts(values.drop_last());
        match values.last() {
            Some(s) => before.push(s),
            None => before,
        }
    }
}

/// The texts that an entity carries for an application, if it has a record of it.
pub open spec fn texts_of(
    records: Seq<(Seq<char>, Seq<Option<Seq<char>>>)>,
    application: Seq<char>,
) -> Option<Seq<Seq<char>>> {
    let k = first_record(records, application);
    if k < records.len() {
        Some(texts(records[k].1))
    } else {
        None
    }
}

/// Reads the texts that an entity carries for an application.
fn texts_in(x: &ExtendedData, application: &str) -> (r: Option<Vec<String>>)
    ensures
        match r {
            Some(v) => texts_of(entity_records(*x), application@) == Some(views(v@)),
            None => texts_of(entity_records(*x), application@) is None,
        },
{
    let rec = match find_record(x, application) {
        Some(rec) => rec,
        None => return None,
    };
    let values = values_in(rec);
    let ghost all = record_values(*rec);
    let mut out: Vec<String> = Vec::new();
    let mut i: usize = 0;
    proof {
        assert(views(out@) =~= texts(all.take(0)));
    }
    while i < values.len()
        invariant
            i <= values.len(),
            optional_views(values@) == all,
            views(out@) == texts(all.take(i as int)),
        decreases values.len() - i,
    {
        proof {
            assert(all.take(i + 1).drop_last() =~= all.take(i as int));
            assert(all.take(i + 1).last() == crate::layers::optional_view(values@[i as int]));
        }
        if let Some(s) = &values[i] {
            let text = s.clone();
            proof {
                crate::text::lemma_views_push(out@, text);
            }
            out.push(text);
        }
        i += 1;
    }
    assert(all.take(i as int) =~= all);
    Some(out)
}

/// Two texts as a record of an application holds them.
pub open spec fn pair_record(application: Seq<char>, a: Seq<char>, b: Seq<char>) -> (
    Seq<char>,
    Seq<Option<Seq<char>>>,
) {
    (application, seq![Some(a), Some(b)])
}

/// Makes the record of a point: its number and its description.
pub fn point_record(number: &str, description: &str) -> (r: ExtendedDataRecord)
    ensures
        (record_application(r), record_values(r)) == pair_record(
            XDATA_POINT@,
            number@,
            description@,
        ),
{
    let mut r = new_record(XDATA_POINT);
    add_text(&mut r, number);
    add_text(&mut r, description);
    assert(record_values(r) =~= seq![Some(number@), Some(description@)]);
    r
}

/// Makes the record of an entity drawn for a surface: the surface's name and the
/// kind of the entity.
pub fn surface_record(name: &str, kind: &str) -> (r: ExtendedDataRecord)
    ensures
        (record_application(r), record_values(r)) == pair_record(XDATA_SURFACE@, name@, kind@),
{
    let mut r = new_record(XDATA_SURFACE);
    add_text(&mut r, name);
    add_text(&mut r, kind);
    assert(record_values(r) =~= seq![Some(name@), Some(kind@)]);
    r
}

/// Makes the record of a plan element: the name of the plan's file.
pub fn plan_record(source: &str) -> (r: ExtendedDataRecord)
    ensures
        record_application(r) == XDATA_PLAN@,
        record_values(r) == seq![Some(source@)],
{
    let mut r = new_record(XDATA_PLAN);
    add_text(&mut r, source);
    assert(record_values(r) =~= seq![Some(source@)]);
    r
}

/// The name and the kind that an entity's records give it as part of a surface.
pub open spec fn surface_tag_of(records: Seq<(Seq<char>, Seq<Option<Seq<char>>>)>) -> Option<
    (Seq<char>, Seq<char>),
> {
    match texts_of(records, XDATA_SURFACE@) {
        Some(t) if t.len() >= 2 => Some((t[0], t[1])),
        _ => None,
    }
}

/// Reads the name and the kind of an entity that was drawn for a surface.
pub fn surface_tag(x: &ExtendedData) -> (r: Option<(String, String)>)
    ensures
        match r {
            Some((name, kind)) => surface_tag_of(entity_records(*x)) == Some((name@, kind@)),
            None => surface_tag_of(entity_records(*x)) is None,
        },
{
    match texts_in(x, XDATA_SURFACE) {
        Some(t) => {
            assert(views(t@).len() == t@.len());
            if t.len() >= 2 {
                Some((t[0].clone(), t[1].clone()))
            } else {
                None
            }
        },
        None => None,
    }
}

/// The number and the description that an entity's records give it as a point;
/// one that is missing is empty.
pub open spec fn point_tag_of(records: Seq<(Seq<char>, Seq<Option<Seq<char>>>)>) -> Option<
    (Seq<char>, Seq<char>),
> {
    match texts_of(records, XDATA_POINT@) {
        Some(t) => Some((crate::pnezd::column(t, 0), crate::pnezd::column(t, 1))),
        None => None,
    }
}

/// Reads the number and the description of an imported point.
pub fn point_tag(x: &ExtendedData) -> (r: Option<(String, String)>)
    ensures
        match r {
            Some((number, description)) => point_tag_of(entity_records(*x)) == Some(
                (number@, description@),
            ),
            None => point_tag_of(entity_records(*x)) is None,
        },
{
    match texts_in(x, XDATA_POINT) {
        Some(t) => {
            assert(views(t@).len() == t@.len());
            let number = if t.len() > 0 {
                t[0].clone()
            } else {
                String::new()
            };
            let description = if t.len() > 1 {
                t[1].clone()
            } else {
                String::new()
            };
            Some((number, description))
        },
        None => None,
    }
}

proof fn lemma_first_record_last(
    records: Seq<(Seq<char>, Seq<Option<Seq<char>>>)>,
    r: (Seq<char>, Seq<Option<Seq<char>>>),
)
    requires
        first_record(records, r.0) == records.len(),
    ensures
        first_record(records.push(r), r.0) == records.len(),
    decreases records.len(),
{
    if records.len() > 0 {
        lemma_first_record_bound(records.skip(1), r.0);
        lemma_first_record_last(records.skip(1), r);
        assert(records.push(r).skip(1) =~= records.skip(1).push(r));
    }
}

proof fn lemma_first_record_bound(
    records: Seq<(Seq<char>, Seq<Option<Seq<char>>>)>,
    application: Seq<char>,
)
    ensures
        0 <= first_record(records, application) <= records.len(),
    decreases records.len(),
{
    if records.len() > 0 {
        lemma_first_record_bound(records.skip(1), application);
    }
}

proof fn lemma_pair_texts(a: Seq<char>, b: Seq<char>)
    ensures
        texts(seq![Some(a), Some(b)]) == seq![a, b],
{
    let two = seq![Some(a), Some(b)];
    let one = two.drop_last();
    assert(one =~= seq![Some(a)]);
    assert(one.drop_last() =~= Seq::empty());
    assert(texts(one.drop_last()) =~= Seq::empty());
    assert(texts(one) =~= seq![a]);
    assert(texts(two) =~= seq![a, b]);
}

/// What was written on an entity for a surface is read back from it: an entity
/// without such a record that gets one has its name and kind.
pub proof fn law_surface_tags_read_back(
    records: Seq<(Seq<char>, Seq<Option<Seq<char>>>)>,
    name: Seq<char>,
    kind: Seq<char>,
)
    requires
        texts_of(records, XDATA_SURFACE@) is None,
    ensures
        surface_tag_of(records.push(pair_record(XDATA_SURFACE@, name, kind))) == Some((name, kind)),
{
    let r = pair_record(XDATA_SURFACE@, name, kind);
    lemma_first_record_bound(records, XDATA_SURFACE@);
    lemma_first_record_last(records, r);
    lemma_pair_texts(name, kind);
}

/// What was written on an entity for a point is read back from it.
pub proof fn law_point_tags_read_back(
    records: Seq<(Seq<char>, Seq<Option<Seq<char>>>)>,
    number: Seq<char>,
    description: Seq<char>,
)
    requires
        texts_of(records, XDATA_POINT@) is None,
    ensures
        point_tag_of(records.push(pair_record(XDATA_POINT@, number, description))) == Some(
            (number, description),
        ),
{
    let r = pair_record(XDATA_POINT@, number, description);
    lemma_first_record_bound(records, XDATA_POINT@);
    lemma_first_record_last(records, r);
    lemma_pair_texts(number, description);
}

/// Tagging an entity for a surface leaves what it carries as a point, and the
/// other way round.
pub proof fn law_tags_are_apart(
    records: Seq<(Seq<char>, Seq<Option<Seq<char>>>)>,
    a: Seq<char>,
    b: Seq<char>,
)
    ensures
        point_tag_of(records.push(pair_record(XDATA_SURFACE@, a, b))) == point_tag_of(records),
        surface_tag_of(records.push(pair_record(XDATA_POINT@, a, b))) == surface_tag_of(records),
{
    reveal_strlit("LANDSURVEY_POINT");
    reveal_strlit("LANDSURVEY_SURFACE");
    assert(XDATA_POINT@.len() != XDATA_SURFACE@.len());
    lemma_other_record(records, pair_record(XDATA_SURFACE@, a, b), XDATA_POINT@);
    lemma_other_record(records, pair_record(XDATA_POINT@, a, b), XDATA_SURFACE@);
}

proof fn lemma_other_record(
    records: Seq<(Seq<char>, Seq<Option<Seq<char>>>)>,
    r: (Seq<char>, Seq<Option<Seq<char>>>),
    application: Seq<char>,
)
    requires
        r.0 != application,
    ensures
        ({
            let k = first_record(records, application);
            first_record(records.push(r), application) == if k < records.len() {
                k
            } else {
                k + 1
            }
        }),
        texts_of(records.push(r), application) == texts_of(records, application),
    decreases records.len(),
{
    lemma_first_record_bound(records, application);
    if records.len() == 0 {
        assert(records.push(r).skip(1) =~= records);
        assert(records.push(r)[0] == r);
    } else if records[0].0 == application {
        assert(records.push(r)[0] == records[0]);
    } else {
        lemma_other_record(records.skip(1), r, application);
        lemma_first_record_bound(records.skip(1), application);
        assert(records.push(r).skip(1) =~= records.skip(1).push(r));
        assert(records.push(r)[0] == records[0]);
    }
}

/// Texts as the values of a record.
pub open spec fn as_values(t: Seq<Seq<char>>) -> Seq<Option<Seq<char>>> {
    t.map_values(|s: Seq<char>| Some(s))
}

/// The texts of a record are read in order, and values of other kinds are passed over.
pub proof fn law_texts_are_read_in_order(
    a: Seq<Option<Seq<char>>>,
    t: Seq<Seq<char>>,
    b: Seq<Option<Seq<char>>>,
)
    ensures
        texts(a + b) == texts(a) + texts(b),
        texts(as_values(t)) == t,
        texts(seq![None]).len() == 0,
    decreases b.len(), t.len(),
{
    if b.len() == 0 {
        assert(a + b =~= a);
        assert(texts(a) + texts(b) =~= texts(a));
        if t.len() > 0 {
            law_texts_are_read_in_order(a, t.drop_last(), b);
            assert(as_values(t).drop_last() =~= as_values(t.drop_last()));
            assert(texts(as_values(t)) =~= t);
        } else {
            assert(texts(as_values(t)) =~= t);
        }
    } else {
        law_texts_are_read_in_order(a, t, b.drop_last());
        assert((a + b).drop_last() =~= a + b.drop_last());
        assert((a + b).last() == b.last());
        assert(texts(a + b) =~= texts(a) + texts(b));
    }
    let none: Seq<Option<Seq<char>>> = Seq::empty();
    assert(seq![None::<Seq<char>>].drop_last() =~= none);
    assert(texts(none).len() == 0);
}

/// An entity with one record of texts: as a point it has the first text for its
/// number and the second for its description, each empty where it is missing; as part
/// of a surface it has the first for its name and the second for its kind, and is no
/// part where either is missing.
pub proof fn law_tags_by_their_texts(t: Seq<Seq<char>>)
    ensures
        point_tag_of(seq![(XDATA_POINT@, as_values(t))]) == Some(
            (
                if t.len() > 0 {
                    t[0]
                } else {
                    Seq::empty()
                },
                if t.len() > 1 {
                    t[1]
                } else {
                    Seq::empty()
                },
            ),
        ),
        surface_tag_of(seq![(XDATA_SURFACE@, as_values(t))]) == (if t.len() >= 2 {
            Some((t[0], t[1]))
        } else {
            None
        }),
        point_tag_of(Seq::empty()) is None,
        surface_tag_of(Seq::empty()) is None,
{
    law_texts_are_read_in_order(Seq::empty(), t, Seq::empty());
    let p = seq![(XDATA_POINT@, as_values(t))];
    let s = seq![(XDATA_SURFACE@, as_values(t))];
    assert(first_record(p, XDATA_POINT@) == 0);
    assert(first_record(s, XDATA_SURFACE@) == 0);
}

} // verus!
