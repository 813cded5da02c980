//! Lists without repetitions.

use vstd::prelude::*;

use crate::text::{lemma_views_push, same, views};

verus! {

/// The items of a list, each at its first place alone.
pub open spec fn distinct<A>(list: Seq<A>) -> Seq<A>
    decreases list.len(),
{
    if list.len() == 0 {
        Seq::empty()
    } else {
        let before = distinct(list.drop_last());
        if before.contains(list.last()) {
            before
        } else {
            before.push(list.last())
        }
    }
}

/// A list without repetitions holds the same items as the list, and none of them
/// twice.
pub proof fn law_distinct<A>(list: Seq<A>)
    ensures
        distinct(list).no_duplicates(),
        forall|x: A| distinct(list).contains(x) <==> #[trigger] list.contains(x),
    decreases list.len(),
{
    if list.len() > 0 {
        let before = list.drop_last();
        let last = list.last();
        law_distinct(before);
        let d = distinct(before);
        assert forall|x: A| distinct(list).contains(x) <==> #[trigger] list.contains(x) by {
            if list.contains(x) {
                let k = choose|k: int| 0 <= k < list.len() && list[k] == x;
                if k < before.len() {
                    assert(before[k] == x);
                    assert(before.contains(x));
                    let j = choose|j: int| 0 <= j < d.len() && d[j] == x;
                    assert(distinct(list)[j] == x);
                } else if !d.contains(last) {
                    assert(distinct(list)[d.len() as int] == x);
                }
            }
            if distinct(list).contains(x) {
                let j = choose|j: int| 0 <= j < distinct(list).len() && distinct(list)[j] == x;
                if j < d.len() {
                    assert(d[j] == x);
                    assert(before.contains(x));
                    let k = choose|k: int| 0 <= k < before.len() && before[k] == x;
                    assert(list[k] == x);
                } else {
                    assert(list[list.len() - 1] == x);
                }
            }
        }
    } else {
        assert(forall|x: A| !list.contains(x));
        assert(distinct(list) =~= Seq::empty());
    }
}

/// The items of a list come in the order of their first places: what a list begins
/// with comes first, and an item behind it comes last if it is new.
pub proof fn law_first_places_come_first<A>(a: Seq<A>, b: Seq<A>, x: A)
    ensures
        distinct(a).len() <= distinct(a + b).len(),
        distinct(a + b).take(distinct(a).len() as int) == distinct(a),
        a.contains(x) ==> distinct(a.push(x)) == distinct(a),
        !a.contains(x) ==> distinct(a.push(x)) == distinct(a).push(x),
    decreases b.len(),
{
    law_distinct(a);
    assert(a.push(x).drop_last() =~= a);
    assert(distinct(a).contains(x) <==> a.contains(x));
    if b.len() == 0 {
        assert(a + b =~= a);
        assert(distinct(a).take(distinct(a).len() as int) =~= distinct(a));
    } else {
        law_first_places_come_first(a, b.drop_last(), x);
        assert((a + b).drop_last() =~= a + b.drop_last());
        assert(distinct(a + b).take(distinct(a).len() as int) =~= distinct(a + b.drop_last()).take(
            distinct(a).len() as int,
        ));
    }
}

/// Adds a text to a list of texts unless it is there.
pub(crate) fn add_text_once(list: &mut Vec<String>, s: &str)
    ensures
        views(final(list)@) == (if views(old(list)@).contains(s@) {
            views(old(list)@)
        } else {
            views(old(list)@).push(s@)
        }),
{
    let mut i: usize = 0;
    let ghost before = list@;
    while i < list.len()
        invariant
            i <= list.len(),
            list@ == before,
            forall|j: int| 0 <= j < i ==> #[trigger] views(before)[j] != s@,
        decreases list.len() - i,
    {
        if same(list[i].as_str(), s) {
            assert(views(before)[i as int] == s@);
            return ;
        }
        assert(views(before)[i as int] != s@);
        i += 1;
    }
    let text = s.to_string();
    proof {
        lemma_views_push(list@, text);
    }
    list.push(text);
}

} // verus!
