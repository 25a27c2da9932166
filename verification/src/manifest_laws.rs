//! What holds of the manifest of probes when it is brought up to date more
//! than once.

use crate::app::App;
use crate::manifest_gen::{
    all_listed, first_named, id_fits, ids_rise, law_sorting_orders_and_keeps, leading_up_to,
    lemma_all_listed_prefix, lemma_first_named, listed_description, listed_name, manifest_of,
    merged_all, no_ids, sorted_by_id, sorted_into, ProbeView,
};
use vstd::prelude::*;
use vstd::seq_lib::to_multiset_contains;

verus! {

/// Whether no two lines of a list have one name.
pub open spec fn names_distinct(list: Seq<ProbeView>) -> bool {
    forall|i: int, j: int| 0 <= i < j < list.len() ==> list[i].name != list[j].name
}

/// Whether a list has a line with the given name.
pub open spec fn named(list: Seq<ProbeView>, name: Seq<char>) -> bool {
    exists|i: int| 0 <= i < list.len() && (#[trigger] list[i]).name == name
}

/// The description that a line named `name` has once the first `k` probes
/// of `app` have been brought in: that of the last of them that is listed
/// under this name, or `otherwise` when none is.
pub open spec fn last_description(
    app: &App,
    name: Seq<char>,
    k: int,
    otherwise: Seq<char>,
) -> Seq<char>
    decreases k,
{
    if k <= 0 {
        otherwise
    } else if listed_name(app, k - 1) == name {
        listed_description(app, k - 1)
    } else {
        last_description(app, name, k - 1, otherwise)
    }
}

/// Line `i` of a list, with the description it has once the first `k`
/// probes of `app` have been brought in.
pub open spec fn redescribed_line(app: &App, list: Seq<ProbeView>, k: int, i: int) -> ProbeView {
    ProbeView {
        description: last_description(app, list[i].name, k, list[i].description),
        ..list[i]
    }
}

/// A list with the descriptions its lines have once the first `k` probes of
/// `app` have been brought in.
pub open spec fn redescribed(app: &App, list: Seq<ProbeView>, k: int) -> Seq<ProbeView> {
    Seq::new(list.len(), |i: int| redescribed_line(app, list, k, i))
}

/// Whether every line of a list has the description that bringing in the
/// first `k` probes of `app` gives it.
pub open spec fn settled(app: &App, list: Seq<ProbeView>, k: int) -> bool {
    forall|i: int| 0 <= i < list.len() ==> #[trigger] redescribed_line(app, list, k, i) == list[i]
}

/// Bringing probes into a list whose names differ leaves the names
/// different, gives every line the description of the last probe listed
/// under its name, and lists every probe that was brought in.
pub proof fn lemma_first_run(
    list: Seq<ProbeView>,
    component_id: Seq<char>,
    app: &App,
    ids: Seq<u32>,
    k: int,
)
    requires
        names_distinct(list),
        0 <= k,
    ensures
        names_distinct(merged_all(list, component_id, app, ids, k)),
        settled(app, merged_all(list, component_id, app, ids, k), k),
        forall|j: int|
            0 <= j < k ==> named(
                merged_all(list, component_id, app, ids, k),
                #[trigger] listed_name(app, j),
            ),
    decreases k,
{
    if k > 0 {
        lemma_first_run(list, component_id, app, ids, k - 1);
        let before = merged_all(list, component_id, app, ids, k - 1);
        let after = merged_all(list, component_id, app, ids, k);
        let name = listed_name(app, k - 1);
        let at = first_named(before, name);
        lemma_first_named(before, name);
        assert forall|i: int| 0 <= i < before.len() implies (#[trigger] after[i]).name
            == before[i].name by {}
        assert forall|i: int| 0 <= i < after.len() implies #[trigger] redescribed_line(
            app,
            after,
            k,
            i,
        ) == after[i] by {
            if i < before.len() && i != at {
                assert(redescribed_line(app, before, k - 1, i) == before[i]);
                assert(before[i].name != name) by {
                    if at >= 0 {
                        if i < at {
                            assert(before[i].name != before[at].name);
                        } else {
                            assert(before[at].name != before[i].name);
                        }
                    }
                }
            }
        }
        assert forall|j: int| 0 <= j < k implies named(after, #[trigger] listed_name(app, j)) by {
            if j < k - 1 {
                let i = choose|i: int|
                    0 <= i < before.len() && (#[trigger] before[i]).name == listed_name(app, j);
                assert(after[i].name == listed_name(app, j));
            } else if at >= 0 {
                assert(after[at].name == name);
            } else {
                assert(after[before.len() as int].name == name);
            }
        }
    }
}

/// Sorting a list moves its lines without changing any: what holds of
/// every line, and of every two lines, before holds after.
pub proof fn lemma_sorting_keeps_lines(app: &App, list: Seq<ProbeView>, k: int)
    requires
        names_distinct(list),
        settled(app, list, k),
    ensures
        ids_rise(sorted_by_id(list)),
        names_distinct(sorted_by_id(list)),
        settled(app, sorted_by_id(list), k),
        forall|name: Seq<char>| named(list, name) ==> #[trigger] named(sorted_by_id(list), name),
{
    broadcast use to_multiset_contains;

    let out = sorted_by_id(list);
    law_sorting_orders_and_keeps(list);
    assert(list.no_duplicates());
    list.lemma_multiset_has_no_duplicates();
    out.lemma_multiset_has_no_duplicates_conv();
    assert forall|i: int| 0 <= i < out.len() implies list.contains(#[trigger] out[i]) by {
        assert(out.contains(out[i]));
        assert(out.to_multiset().count(out[i]) > 0);
    }
    assert forall|i: int, j: int| 0 <= i < j < out.len() implies out[i].name != out[j].name by {
        assert(list.contains(out[i]));
        assert(list.contains(out[j]));
        let a = choose|a: int| 0 <= a < list.len() && list[a] == out[i];
        let b = choose|b: int| 0 <= b < list.len() && list[b] == out[j];
        assert(out[i] != out[j]);
        if a < b {
            assert(list[a].name != list[b].name);
        } else {
            assert(list[b].name != list[a].name);
        }
    }
    assert forall|i: int| 0 <= i < out.len() implies #[trigger] redescribed_line(app, out, k, i)
        == out[i] by {
        assert(list.contains(out[i]));
        let a = choose|a: int| 0 <= a < list.len() && list[a] == out[i];
        assert(redescribed_line(app, list, k, a) == list[a]);
    }
    assert forall|name: Seq<char>| named(list, name) implies #[trigger] named(out, name) by {
        let a = choose|a: int| 0 <= a < list.len() && (#[trigger] list[a]).name == name;
        assert(list.contains(list[a]));
        assert(list.to_multiset().count(list[a]) > 0);
        assert(out.contains(list[a]));
        let b = choose|b: int| 0 <= b < out.len() && out[b] == list[a];
        assert(out[b].name == name);
    }
}

/// Bringing probes into a list that lists them all under names that differ
/// draws no identifier and changes descriptions only.
pub proof fn lemma_second_run(list: Seq<ProbeView>, component_id: Seq<char>, app: &App, k: int)
    requires
        names_distinct(list),
        0 <= k,
        forall|j: int| 0 <= j < k ==> named(list, #[trigger] listed_name(app, j)),
    ensures
        merged_all(list, component_id, app, no_ids(app), k) == redescribed(app, list, k),
        all_listed(list, component_id, app, k),
    decreases k,
{
    if k > 0 {
        lemma_second_run(list, component_id, app, k - 1);
        let before = merged_all(list, component_id, app, no_ids(app), k - 1);
        let after = merged_all(list, component_id, app, no_ids(app), k);
        let name = listed_name(app, k - 1);
        let at = first_named(before, name);
        lemma_first_named(before, name);
        assert(named(list, listed_name(app, k - 1)));
        let w = choose|w: int| 0 <= w < list.len() && (#[trigger] list[w]).name == name;
        assert(before[w].name == name);
        assert(at >= 0);
        assert forall|i: int| 0 <= i < list.len() implies after[i] == redescribed_line(
            app,
            list,
            k,
            i,
        ) by {
            assert(before[i] == redescribed_line(app, list, k - 1, i));
            if i != at {
                if i < at {
                    assert(list[i].name != list[at].name);
                } else {
                    assert(list[at].name != list[i].name);
                }
            }
        }
        assert(after =~= redescribed(app, list, k));
    } else {
        assert(merged_all(list, component_id, app, no_ids(app), k) =~= redescribed(app, list, k));
    }
}

/// In a list whose identifiers rise, the lines up to a place all count as
/// leading when the line at that place is looked for.
pub proof fn lemma_leading_is_all(list: Seq<ProbeView>, id: u32)
    requires
        forall|i: int| 0 <= i < list.len() ==> (#[trigger] list[i]).id <= id,
    ensures
        leading_up_to(list, id) == list.len(),
    decreases list.len(),
{
    if list.len() > 0 {
        let rest = list.skip(1);
        assert forall|i: int| 0 <= i < rest.len() implies (#[trigger] rest[i]).id <= id by {
            assert(rest[i] == list[i + 1]);
        }
        lemma_leading_is_all(rest, id);
    }
}

/// Lines whose identifiers rise already are put into a sorted list one
/// behind the other.
pub proof fn lemma_sorted_stays(sorted: Seq<ProbeView>, rest: Seq<ProbeView>)
    requires
        ids_rise(sorted + rest),
    ensures
        sorted_into(sorted, rest) == sorted + rest,
    decreases rest.len(),
{
    let all = sorted + rest;
    if rest.len() == 0 {
        assert(all =~= sorted);
    } else {
        assert forall|i: int| 0 <= i < sorted.len() implies (#[trigger] sorted[i]).id
            <= rest[0].id by {
            assert(all[i] == sorted[i]);
            assert(all[sorted.len() as int] == rest[0]);
        }
        lemma_leading_is_all(sorted, rest[0].id);
        let next = sorted.insert(sorted.len() as int, rest[0]);
        assert(next + rest.skip(1) =~= all);
        lemma_sorted_stays(next, rest.skip(1));
    }
}

/// Bringing a manifest up to date twice is bringing it up to date once:
/// the second time every probe is listed, no identifier is drawn, and the
/// list comes back as it went in. This holds of a manifest that lists no
/// name twice.
pub proof fn law_second_run_reproduces(
    list: Seq<ProbeView>,
    component_id: Seq<char>,
    app: &App,
    ids: Seq<u32>,
    out: Seq<ProbeView>,
)
    requires
        names_distinct(list),
        manifest_of(list, component_id, app, ids, out),
    ensures
        all_listed(out, component_id, app, app.probes@.len() as int),
        manifest_of(out, component_id, app, no_ids(app), out),
{
    let n = app.probes@.len() as int;
    let once = merged_all(list, component_id, app, ids, n);
    lemma_first_run(list, component_id, app, ids, n);
    lemma_sorting_keeps_lines(app, once, n);
    assert forall|j: int| 0 <= j < n implies named(out, #[trigger] listed_name(app, j)) by {
        assert(named(once, listed_name(app, j)));
    }
    lemma_second_run(out, component_id, app, n);
    let twice = merged_all(out, component_id, app, no_ids(app), n);
    assert(twice =~= out) by {
        assert forall|i: int| 0 <= i < out.len() implies twice[i] == out[i] by {
            assert(redescribed_line(app, out, n, i) == out[i]);
        }
    }
    assert(Seq::<ProbeView>::empty() + out =~= out);
    lemma_sorted_stays(Seq::empty(), out);
    assert forall|k: int| 0 <= k < n implies #[trigger] id_fits(
        out,
        component_id,
        app,
        no_ids(app),
        k,
    ) by {
        lemma_all_listed_prefix(out, component_id, app, k + 1, n);
    }
}

} // verus!
