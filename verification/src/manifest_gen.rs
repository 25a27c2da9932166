//! The manifest of instrumentation probes.
//!
//! A component keeps a list of its probes. Every probe that the application
//! declares is brought into that list: a probe that is listed already gets
//! its description renewed, a new one is appended under a fresh identifier.
//! The list is kept in the order of the identifiers.

use crate::app::App;
use crate::id_gen::{drawn_id, id_gen, MAX_ID};
use vstd::utf8::encode_utf8;
use vstd::prelude::*;
use vstd::string::{StrSliceExecFns, StringExecFns};

verus! {

/// The name of the command-line tool that writes manifests and headers.
pub const PROBE_CLI: &'static str = "modality-probe";

/// A component, as its manifest describes it.
#[derive(Clone, Debug)]
pub struct Component {
    pub name: String,
    pub id: String,
    pub code_hash: Option<String>,
    pub instrumentation_hash: Option<String>,
    pub tags: Vec<String>,
}

/// The identifier of a probe.
#[derive(Clone, Copy, Debug, PartialEq, Eq, Hash, Default, Structural)]
pub struct ProbeId(pub u32);

/// One line of the list of probes.
#[derive(Clone, Debug)]
pub struct Probe {
    pub component_id: String,
    pub id: ProbeId,
    pub name: String,
    pub description: String,
    pub tags: String,
    pub file: String,
    pub line: String,
}

/// The list of probes of a component.
#[derive(Clone, Debug)]
pub struct Probes(pub Vec<Probe>);

/// What a line of the list of probes says.
pub struct ProbeView {
    pub component_id: Seq<char>,
    pub id: u32,
    pub name: Seq<char>,
    pub description: Seq<char>,
    pub tags: Seq<char>,
    pub file: Seq<char>,
    pub line: Seq<char>,
}

impl View for Probe {
    type V = ProbeView;

    open spec fn view(&self) -> ProbeView {
        ProbeView {
            component_id: self.component_id@,
            id: self.id.0,
            name: self.name@,
            description: self.description@,
            tags: self.tags@,
            file: self.file@,
            line: self.line@,
        }
    }
}

/// What each line of a list says.
pub open spec fn lines(list: Seq<Probe>) -> Seq<ProbeView> {
    Seq::new(list.len(), |k: int| list[k]@)
}

impl View for Probes {
    type V = Seq<ProbeView>;

    open spec fn view(&self) -> Seq<ProbeView> {
        lines(self.0@)
    }
}

/// `file` below the directory `dir`: the two are joined by one `/`, unless
/// `dir` is empty or ends in one.
pub open spec fn joined(dir: Seq<char>, file: Seq<char>) -> Seq<char> {
    if dir.len() == 0 || dir.last() == '/' {
        dir + file
    } else {
        dir + "/"@ + file
    }
}

/// The path of `file` in the directory `dir`.
fn join(dir: &str, file: &str) -> (path: String)
    ensures
        path@ == joined(dir@, file@),
{
    let n = dir.unicode_len();
    let mut path = String::from_str(dir);
    if n > 0 && dir.get_char(n - 1) != '/' {
        path.append("/");
    }
    path.append(file);
    path
}

impl Component {
    /// Where the manifest of the component in `component_directory` is.
    pub fn component_manifest_path(component_directory: &str) -> (path: String)
        ensures
            path@ == joined(component_directory@, "Component.toml"@),
    {
        join(component_directory, "Component.toml")
    }

    /// Where the list of probes of the component in `component_directory`
    /// is.
    pub fn probes_manifest_path(component_directory: &str) -> (path: String)
        ensures
            path@ == joined(component_directory@, "probes.csv"@),
    {
        join(component_directory, "probes.csv")
    }
}

/// What `str::to_uppercase` returns for `text`: the text in upper case.
/// Nothing else is known of it here.
pub uninterp spec fn uppercase(text: Seq<char>) -> Seq<char>;

/// Puts `text` into upper case with `str::to_uppercase`. That the result is
/// what that function returns for this text is not proved here.
#[verifier::external_body]
fn to_uppercase(text: &str) -> (upper: String)
    ensures
        upper@ == uppercase(text@),
{
    text.to_uppercase()
}

/// The description of a probe that was declared without one.
pub open spec fn default_description(task: Seq<char>) -> Seq<char> {
    "Probe for task "@ + task
}

/// The tags of a probe that is added to the list.
pub open spec fn new_probe_tags() -> Seq<char> {
    "RTIC;task"@
}

/// Position of the first line with the given name, or -1.
pub open spec fn first_named(list: Seq<ProbeView>, name: Seq<char>) -> int
    decreases list.len(),
{
    if list.len() == 0 {
        -1
    } else if list[0].name == name {
        0
    } else {
        let rest = first_named(list.skip(1), name);
        if rest < 0 {
            -1
        } else {
            rest + 1
        }
    }
}

/// What `first_named` yields: the first line with the name, or -1 when no
/// line has it.
pub proof fn lemma_first_named(list: Seq<ProbeView>, name: Seq<char>)
    ensures
        -1 <= first_named(list, name) < list.len(),
        first_named(list, name) >= 0 ==> list[first_named(list, name)].name == name,
        forall|k: int|
            0 <= k < list.len() && (first_named(list, name) < 0 || k < first_named(list, name))
                ==> (#[trigger] list[k]).name != name,
    decreases list.len(),
{
    if list.len() > 0 && list[0].name != name {
        let rest = list.skip(1);
        lemma_first_named(rest, name);
        assert forall|k: int|
            0 <= k < list.len() && (first_named(list, name) < 0 || k < first_named(
                list,
                name,
            )) implies (#[trigger] list[k]).name != name by {
            if k > 0 {
                assert(rest[k - 1] == list[k]);
            }
        }
    }
}

/// The list after a probe with the given name has been brought in: the
/// first line with that name gets the description; without such a line, a
/// new line with the identifier `id` is appended.
pub open spec fn merged(
    list: Seq<ProbeView>,
    component_id: Seq<char>,
    name: Seq<char>,
    description: Seq<char>,
    id: u32,
) -> Seq<ProbeView> {
    let at = first_named(list, name);
    if at >= 0 {
        list.update(at, ProbeView { description, ..list[at] })
    } else {
        list.push(
            ProbeView {
                component_id,
                id,
                name,
                description,
                tags: new_probe_tags(),
                file: Seq::empty(),
                line: Seq::empty(),
            },
        )
    }
}

/// Number of leading lines whose identifier is at most `id`.
pub open spec fn leading_up_to(list: Seq<ProbeView>, id: u32) -> int
    decreases list.len(),
{
    if list.len() == 0 || list[0].id > id {
        0
    } else {
        1 + leading_up_to(list.skip(1), id)
    }
}

/// The lines of `rest` put one by one into `sorted`, each behind the
/// leading lines whose identifier is not higher.
pub open spec fn sorted_into(sorted: Seq<ProbeView>, rest: Seq<ProbeView>) -> Seq<ProbeView>
    decreases rest.len(),
{
    if rest.len() == 0 {
        sorted
    } else {
        sorted_into(sorted.insert(leading_up_to(sorted, rest[0].id), rest[0]), rest.skip(1))
    }
}

/// The list in the order of the identifiers; lines with one identifier
/// keep the order they had.
pub open spec fn sorted_by_id(list: Seq<ProbeView>) -> Seq<ProbeView> {
    sorted_into(Seq::empty(), list)
}

/// Whether the identifiers of a list never fall.
pub open spec fn ids_rise(list: Seq<ProbeView>) -> bool {
    forall|i: int, j: int| 0 <= i < j < list.len() ==> list[i].id <= list[j].id
}

/// What `leading_up_to` yields: the lines before it have identifiers up to
/// `id`, the line at it has a higher one.
pub proof fn lemma_leading_up_to(list: Seq<ProbeView>, id: u32)
    ensures
        0 <= leading_up_to(list, id) <= list.len(),
        forall|k: int| 0 <= k < leading_up_to(list, id) ==> (#[trigger] list[k]).id <= id,
        leading_up_to(list, id) < list.len() ==> list[leading_up_to(list, id)].id > id,
    decreases list.len(),
{
    if !(list.len() == 0 || list[0].id > id) {
        let rest = list.skip(1);
        lemma_leading_up_to(rest, id);
        assert forall|k: int| 0 <= k < leading_up_to(list, id) implies (#[trigger] list[k]).id
            <= id by {
            if k > 0 {
                assert(rest[k - 1] == list[k]);
            }
        }
    }
}

/// A line put behind the leading lines whose identifier is not higher
/// leaves the identifiers of the list rising.
pub proof fn lemma_insert_keeps_order(sorted: Seq<ProbeView>, line: ProbeView)
    requires
        ids_rise(sorted),
    ensures
        ids_rise(sorted.insert(leading_up_to(sorted, line.id), line)),
{
    let at = leading_up_to(sorted, line.id);
    let next = sorted.insert(at, line);
    lemma_leading_up_to(sorted, line.id);
    assert forall|i: int, j: int| 0 <= i < j < next.len() implies next[i].id <= next[j].id by {
        if j < at {
        } else if j == at {
        } else if i < at {
            assert(next[j] == sorted[j - 1]);
        } else if i == at {
            assert(next[j] == sorted[j - 1]);
            assert(sorted[at].id <= sorted[j - 1].id);
        } else {
            assert(next[i] == sorted[i - 1]);
            assert(next[j] == sorted[j - 1]);
        }
    }
}

/// Sorting puts the lines in the order of their identifiers and neither
/// drops nor adds a line.
pub proof fn lemma_sorted_into(sorted: Seq<ProbeView>, rest: Seq<ProbeView>)
    requires
        ids_rise(sorted),
    ensures
        ids_rise(sorted_into(sorted, rest)),
        sorted_into(sorted, rest).to_multiset() == sorted.to_multiset().add(rest.to_multiset()),
    decreases rest.len(),
{
    broadcast use vstd::multiset::group_multiset_axioms;

    if rest.len() == 0 {
        assert(rest.to_multiset() =~= vstd::multiset::Multiset::<ProbeView>::empty()) by {
            rest.to_multiset_ensures();
        }
        assert(sorted.to_multiset().add(rest.to_multiset()) =~= sorted.to_multiset());
    } else {
        let at = leading_up_to(sorted, rest[0].id);
        let next = sorted.insert(at, rest[0]);
        lemma_leading_up_to(sorted, rest[0].id);
        lemma_insert_keeps_order(sorted, rest[0]);
        lemma_sorted_into(next, rest.skip(1));
        vstd::seq_lib::to_multiset_insert(sorted, at, rest[0]);
        assert(rest.skip(1) =~= rest.remove(0));
        vstd::seq_lib::to_multiset_remove(rest, 0);
        rest.to_multiset_ensures();
        assert(rest.contains(rest[0]));
        assert(next.to_multiset().add(rest.skip(1).to_multiset()) =~= sorted.to_multiset().add(
            rest.to_multiset(),
        ));
    }
}

/// The lines of a list that carry the identifier `id`, in the order they
/// have in the list.
pub open spec fn lines_with_id(list: Seq<ProbeView>, id: u32) -> Seq<ProbeView>
    decreases list.len(),
{
    if list.len() == 0 {
        Seq::empty()
    } else if list.last().id == id {
        lines_with_id(list.drop_last(), id).push(list.last())
    } else {
        lines_with_id(list.drop_last(), id)
    }
}

/// The lines with an identifier are the first line, if it carries the
/// identifier, followed by those among the rest.
pub proof fn lemma_lines_with_id_front(list: Seq<ProbeView>, id: u32)
    requires
        list.len() > 0,
    ensures
        lines_with_id(list, id) == if list[0].id == id {
            seq![list[0]] + lines_with_id(list.skip(1), id)
        } else {
            lines_with_id(list.skip(1), id)
        },
    decreases list.len(),
{
    let rest = list.skip(1);
    if list.len() == 1 {
        assert(rest =~= Seq::<ProbeView>::empty());
        assert(list.drop_last() =~= Seq::<ProbeView>::empty());
        assert(lines_with_id(list, id) =~= if list[0].id == id {
            seq![list[0]] + lines_with_id(rest, id)
        } else {
            lines_with_id(rest, id)
        });
    } else {
        lemma_lines_with_id_front(list.drop_last(), id);
        assert(list.drop_last().skip(1) =~= rest.drop_last());
        assert(rest.last() == list.last());
        assert(lines_with_id(list, id) =~= if list[0].id == id {
            seq![list[0]] + lines_with_id(rest, id)
        } else {
            lines_with_id(rest, id)
        });
    }
}

/// A line put into a list joins the lines with its identifier behind all of
/// them when none of them stands at or behind the place it is put, and
/// leaves the lines with any other identifier as they were.
pub proof fn lemma_lines_with_id_insert(list: Seq<ProbeView>, at: int, line: ProbeView, id: u32)
    requires
        0 <= at <= list.len(),
        line.id == id ==> forall|k: int| at <= k < list.len() ==> (#[trigger] list[k]).id != id,
    ensures
        lines_with_id(list.insert(at, line), id) == if line.id == id {
            lines_with_id(list, id).push(line)
        } else {
            lines_with_id(list, id)
        },
    decreases list.len(),
{
    let grown = list.insert(at, line);
    if at == list.len() {
        assert(grown.drop_last() =~= list);
    } else {
        assert(grown.drop_last() =~= list.drop_last().insert(at, line));
        assert(grown.last() == list.last());
        lemma_lines_with_id_insert(list.drop_last(), at, line, id);
        assert(line.id == id ==> list[list.len() - 1].id != id);
    }
}

/// Sorting keeps, for each identifier, the lines that carry it in the order
/// in which they were put in.
pub proof fn lemma_sorted_into_keeps_order(sorted: Seq<ProbeView>, rest: Seq<ProbeView>, id: u32)
    requires
        ids_rise(sorted),
    ensures
        lines_with_id(sorted_into(sorted, rest), id) == lines_with_id(sorted, id) + lines_with_id(
            rest,
            id,
        ),
    decreases rest.len(),
{
    if rest.len() == 0 {
        assert(lines_with_id(sorted, id) + lines_with_id(rest, id) =~= lines_with_id(sorted, id));
    } else {
        let at = leading_up_to(sorted, rest[0].id);
        let next = sorted.insert(at, rest[0]);
        lemma_leading_up_to(sorted, rest[0].id);
        assert forall|k: int| at <= k < sorted.len() implies (#[trigger] sorted[k]).id
            != rest[0].id by {
            assert(sorted[at].id <= sorted[k].id);
        }
        lemma_lines_with_id_insert(sorted, at, rest[0], id);
        lemma_insert_keeps_order(sorted, rest[0]);
        lemma_sorted_into_keeps_order(next, rest.skip(1), id);
        lemma_lines_with_id_front(rest, id);
        assert(lines_with_id(next, id) + lines_with_id(rest.skip(1), id) =~= lines_with_id(
            sorted,
            id,
        ) + lines_with_id(rest, id));
    }
}

/// Sorting by identifier is stable: the lines that carry one identifier
/// stand in the sorted list in the order they had before.
pub proof fn law_sorting_is_stable(list: Seq<ProbeView>, id: u32)
    ensures
        lines_with_id(sorted_by_id(list), id) == lines_with_id(list, id),
{
    lemma_sorted_into_keeps_order(Seq::empty(), list, id);
    assert(lines_with_id(Seq::<ProbeView>::empty(), id) + lines_with_id(list, id)
        =~= lines_with_id(list, id));
}

/// Sorting by identifier yields a list whose identifiers never fall and
/// which holds exactly the lines it was given.
pub proof fn law_sorting_orders_and_keeps(list: Seq<ProbeView>)
    ensures
        ids_rise(sorted_by_id(list)),
        sorted_by_id(list).to_multiset() == list.to_multiset(),
        sorted_by_id(list).len() == list.len(),
{
    broadcast use vstd::multiset::group_multiset_axioms;

    lemma_sorted_into(Seq::empty(), list);
    let none = Seq::<ProbeView>::empty();
    none.to_multiset_ensures();
    assert(none.to_multiset() =~= vstd::multiset::Multiset::<ProbeView>::empty());
    assert(none.to_multiset().add(list.to_multiset()) =~= list.to_multiset());
    sorted_by_id(list).to_multiset_ensures();
    list.to_multiset_ensures();
}

impl Probes {
    /// Position of the first line named `name`.
    pub fn position(&self, name: &String) -> (at: Option<usize>)
        ensures
            match at {
                Some(k) => k == first_named(self@, name@),
                None => first_named(self@, name@) < 0,
            },
    {
        let ghost all = self@;
        let mut k: usize = 0;
        assert(all.skip(0) =~= all);
        while k < self.0.len()
            invariant
                all == self@,
                k <= self.0@.len(),
                first_named(all, name@) == if first_named(all.skip(k as int), name@) < 0 {
                    -1
                } else {
                    k + first_named(all.skip(k as int), name@)
                },
            decreases self.0@.len() - k,
        {
            assert(all.skip(k as int)[0] == self.0@[k as int]@);
            if self.0[k].name == *name {
                return Some(k);
            }
            assert(all.skip(k as int).skip(1) =~= all.skip(k + 1));
            k += 1;
        }
        None
    }

    /// Brings a probe into the list: the first line named `name` gets
    /// `description`; without such a line, a new line with the identifier
    /// `id` is appended, for the component `component_id`.
    pub fn merge(&mut self, component_id: &String, name: String, description: String, id: u32)
        ensures
            final(self)@ == merged(old(self)@, component_id@, name@, description@, id),
    {
        let ghost before = self@;
        proof {
            lemma_first_named(before, name@);
        }
        match self.position(&name) {
            Some(at) => {
                self.0[at].description = description;
                assert(self@ =~= merged(before, component_id@, name@, description@, id));
            },
            None => {
                self.0.push(
                    Probe {
                        component_id: component_id.clone(),
                        id: ProbeId(id),
                        name,
                        description,
                        tags: tags_of_new_probe(),
                        file: String::new(),
                        line: String::new(),
                    },
                );
                assert(self@ =~= merged(before, component_id@, name@, description@, id));
            },
        }
    }

    /// Puts every name of the list into upper case.
    pub fn normalize_names(&mut self)
        ensures
            final(self)@.len() == old(self)@.len(),
            forall|k: int|
                0 <= k < final(self)@.len() ==> #[trigger] final(self)@[k] == (ProbeView {
                    name: uppercase(old(self)@[k].name),
                    ..old(self)@[k]
                }),
    {
        let ghost before = self@;
        let mut k: usize = 0;
        while k < self.0.len()
            invariant
                k <= self.0@.len(),
                self@.len() == before.len(),
                forall|j: int|
                    0 <= j < k ==> #[trigger] self@[j] == (ProbeView {
                        name: uppercase(before[j].name),
                        ..before[j]
                    }),
                forall|j: int| k <= j < self@.len() ==> #[trigger] self@[j] == before[j],
            decreases self.0@.len() - k,
        {
            let ghost here = self@;
            let upper = to_uppercase(self.0[k].name.as_str());
            self.0[k].name = upper;
            assert forall|j: int| 0 <= j < self@.len() && j != k implies #[trigger] self@[j]
                == here[j] by {}
            assert(here[k as int] == before[k as int]);
            assert(self@[k as int] == (ProbeView {
                name: uppercase(before[k as int].name),
                ..before[k as int]
            }));
            k += 1;
        }
    }

    /// Puts the list in the order of the identifiers. Lines with one
    /// identifier keep the order they had.
    pub fn sort_by_id(&mut self)
        ensures
            final(self)@ == sorted_by_id(old(self)@),
    {
        let ghost before = self@;
        let mut sorted: Vec<Probe> = Vec::new();
        assert(lines(sorted@) =~= Seq::<ProbeView>::empty());
        while self.0.len() > 0
            invariant
                sorted_into(lines(sorted@), self@) == sorted_by_id(before),
            decreases self.0@.len(),
        {
            let ghost rest = self@;
            let ghost done = lines(sorted@);
            let probe = self.0.remove(0);
            assert(self@ =~= rest.skip(1));
            assert(probe@ == rest[0]);
            let mut at: usize = 0;
            assert(done.skip(0) =~= done);
            while at < sorted.len() && sorted[at].id.0 <= probe.id.0
                invariant
                    done == lines(sorted@),
                    at <= sorted@.len(),
                    leading_up_to(done, probe.id.0) == at + leading_up_to(
                        done.skip(at as int),
                        probe.id.0,
                    ),
                decreases sorted@.len() - at,
            {
                assert(done.skip(at as int).skip(1) =~= done.skip(at + 1));
                at += 1;
            }
            sorted.insert(at, probe);
            assert(lines(sorted@) =~= done.insert(at as int, rest[0]));
        }
        self.0 = sorted;
    }
}

/// The tags of a probe that is added to the list.
fn tags_of_new_probe() -> (tags: String)
    ensures
        tags@ == new_probe_tags(),
{
    String::from_str("RTIC;task")
}

/// The name under which probe `k` of `app` is listed.
pub open spec fn listed_name(app: &App, k: int) -> Seq<char> {
    uppercase(app.probes@[k].name@)
}

/// The name under which probe `p` of `app` is listed, which is also the name
/// of the constant that holds its identifier: its name in upper case.
/// `None` when the application has no such probe.
pub fn probe_constant(app: &App, p: usize) -> (name: Option<String>)
    ensures
        name is Some == (p < app.probes@.len()),
        name matches Some(text) ==> text@ == listed_name(app, p as int),
{
    if p < app.probes.len() {
        Some(to_uppercase(app.probes[p].name.as_str()))
    } else {
        None
    }
}

/// The description under which probe `k` of `app` is listed: the one it
/// was declared with, or one that names its task.
pub open spec fn listed_description(app: &App, k: int) -> Seq<char> {
    match app.probes@[k].description {
        Some(text) => text@,
        None => default_description(app.probes@[k].task@),
    }
}

/// The list after the first `n` probes of `app` have been brought in, the
/// new ones among them under the identifiers `ids`.
pub open spec fn merged_all(
    list: Seq<ProbeView>,
    component_id: Seq<char>,
    app: &App,
    ids: Seq<u32>,
    n: int,
) -> Seq<ProbeView>
    decreases n,
{
    if n <= 0 {
        list
    } else {
        merged(
            merged_all(list, component_id, app, ids, n - 1),
            component_id,
            listed_name(app, n - 1),
            listed_description(app, n - 1),
            ids[n - 1],
        )
    }
}

/// The list depends on the identifiers of the probes brought in so far
/// only.
pub proof fn lemma_merged_all_prefix(
    list: Seq<ProbeView>,
    component_id: Seq<char>,
    app: &App,
    a: Seq<u32>,
    b: Seq<u32>,
    n: int,
)
    requires
        n <= a.len(),
        n <= b.len(),
        forall|k: int| 0 <= k < n ==> a[k] == b[k],
    ensures
        merged_all(list, component_id, app, a, n) == merged_all(list, component_id, app, b, n),
    decreases n,
{
    if n > 0 {
        lemma_merged_all_prefix(list, component_id, app, a, b, n - 1);
    }
}

/// The identifiers when none is drawn: one for each probe of `app`, each 0.
pub open spec fn no_ids(app: &App) -> Seq<u32> {
    Seq::new(app.probes@.len(), |k: int| 0u32)
}

/// Whether each of the first `n` probes of `app` is listed by the time it
/// is brought in, so that no identifier has to be drawn.
pub open spec fn all_listed(list: Seq<ProbeView>, component_id: Seq<char>, app: &App, n: int) -> bool
    decreases n,
{
    n <= 0 || (all_listed(list, component_id, app, n - 1) && first_named(
        merged_all(list, component_id, app, no_ids(app), n - 1),
        listed_name(app, n - 1),
    ) >= 0)
}

/// When the first `m` probes are listed in time, so are the first `n` of
/// them.
pub proof fn lemma_all_listed_prefix(
    list: Seq<ProbeView>,
    component_id: Seq<char>,
    app: &App,
    n: int,
    m: int,
)
    requires
        n <= m,
        all_listed(list, component_id, app, m),
    ensures
        all_listed(list, component_id, app, n),
    decreases m - n,
{
    if n < m {
        lemma_all_listed_prefix(list, component_id, app, n, m - 1);
    }
}

/// Whether probe `k` of `app` is listed by the time it is brought in, the
/// probes before it having been brought in under the identifiers `ids`.
pub open spec fn listed_in_time(
    list: Seq<ProbeView>,
    component_id: Seq<char>,
    app: &App,
    ids: Seq<u32>,
    k: int,
) -> bool {
    first_named(merged_all(list, component_id, app, ids, k), listed_name(app, k)) >= 0
}

/// Whether `ids[k]` is the identifier that belongs to probe `k` of `app`:
/// for a probe that is listed by the time it is brought in none is drawn,
/// and the entry is 0; for one that is appended it is what the search for
/// an identifier of its name came back with, which lies between 1 and
/// `MAX_ID`, `MAX_ID` itself left out.
pub open spec fn id_fits(
    list: Seq<ProbeView>,
    component_id: Seq<char>,
    app: &App,
    ids: Seq<u32>,
    k: int,
) -> bool {
    if listed_in_time(list, component_id, app, ids, k) {
        ids[k] == 0
    } else {
        1 <= ids[k] < MAX_ID && drawn_id(encode_utf8(app.probes@[k].name@), ids[k])
    }
}

/// Whether `out` is what the manifest becomes when the probes of `app` are
/// brought into `list` under the identifiers `ids`: there is one entry for
/// each declared probe, each is the identifier that belongs to its probe,
/// and `out` is the list with every probe brought in, in the order of the
/// identifiers.
pub open spec fn manifest_of(
    list: Seq<ProbeView>,
    component_id: Seq<char>,
    app: &App,
    ids: Seq<u32>,
    out: Seq<ProbeView>,
) -> bool {
    &&& ids.len() == app.probes@.len()
    &&& forall|k: int|
        0 <= k < ids.len() ==> #[trigger] id_fits(list, component_id, app, ids, k)
    &&& out == sorted_by_id(merged_all(list, component_id, app, ids, app.probes@.len() as int))
}

/// Whether an identifier belongs to a probe depends on the identifiers of
/// the probes up to it only.
pub proof fn lemma_id_fits_prefix(
    list: Seq<ProbeView>,
    component_id: Seq<char>,
    app: &App,
    a: Seq<u32>,
    b: Seq<u32>,
    k: int,
)
    requires
        0 <= k < a.len(),
        k < b.len(),
        forall|j: int| 0 <= j <= k ==> a[j] == b[j],
    ensures
        id_fits(list, component_id, app, a, k) == id_fits(list, component_id, app, b, k),
{
    lemma_merged_all_prefix(list, component_id, app, a, b, k);
}

/// Brings the manifest of a component up to date with the probes that the
/// application declares.
///
/// Each declared probe is looked up under its name in upper case. One that
/// is listed gets its description renewed; one that is not is appended
/// under a fresh identifier, with the tags `RTIC;task`. In the end the list
/// is put in the order of the identifiers.
///
/// Fresh identifiers are drawn at random, so the list that comes back is
/// known only up to them: each is what the search for an identifier of the
/// probe's name came back with, and lies between 1 and `MAX_ID`, `MAX_ID`
/// itself left out. `None` comes back only when no identifier was found
/// for a new probe; when every declared probe is listed already, nothing
/// is drawn and the list that comes back is known exactly.
pub fn manifest_gen(component: &Component, probes: Probes, app: &App) -> (updated: Option<Probes>)
    ensures
        updated matches Some(out) ==> exists|ids: Seq<u32>|
            #[trigger] manifest_of(probes@, component.id@, app, ids, out@),
        all_listed(probes@, component.id@, app, app.probes@.len() as int) ==> updated is Some
            && manifest_of(probes@, component.id@, app, no_ids(app), updated->Some_0@),
{
    let mut list = probes;
    let ghost mut ids: Seq<u32> = Seq::empty();
    let mut k: usize = 0;
    while k < app.probes.len()
        invariant
            k <= app.probes@.len(),
            ids.len() == k,
            forall|j: int|
                0 <= j < ids.len() ==> #[trigger] id_fits(probes@, component.id@, app, ids, j),
            list@ == merged_all(probes@, component.id@, app, ids, k as int),
            all_listed(probes@, component.id@, app, k as int) ==> ids == no_ids(app).take(k as int),
        decreases app.probes@.len() - k,
    {
        proof {
            if all_listed(probes@, component.id@, app, app.probes@.len() as int) {
                lemma_all_listed_prefix(
                    probes@,
                    component.id@,
                    app,
                    k + 1,
                    app.probes@.len() as int,
                );
            }
            if all_listed(probes@, component.id@, app, k as int) {
                lemma_merged_all_prefix(probes@, component.id@, app, ids, no_ids(app), k as int);
            }
        }
        let declared = &app.probes[k];
        let name = to_uppercase(declared.name.as_str());
        let description = match &declared.description {
            Some(text) => text.clone(),
            None => {
                let mut text = String::from_str("Probe for task ");
                text.append(declared.task.as_str());
                text
            },
        };
        let id: u32 = match list.position(&name) {
            Some(_) => 0,
            None => match id_gen(declared.name.as_str()) {
                Some(fresh) => fresh,
                None => {
                    return None;
                },
            },
        };
        proof {
            let longer = ids.push(id);
            lemma_merged_all_prefix(probes@, component.id@, app, ids, longer, k as int);
            assert forall|j: int| 0 <= j < longer.len() implies #[trigger] id_fits(
                probes@,
                component.id@,
                app,
                longer,
                j,
            ) by {
                if j < k {
                    lemma_id_fits_prefix(probes@, component.id@, app, ids, longer, j);
                    assert(id_fits(probes@, component.id@, app, ids, j));
                }
            }
            if all_listed(probes@, component.id@, app, k + 1) {
                assert(longer =~= no_ids(app).take(k + 1));
            }
            ids = longer;
        }
        list.merge(&component.id, name, description, id);
        k += 1;
    }
    list.sort_by_id();
    let ghost out = list@;
    proof {
        if all_listed(probes@, component.id@, app, k as int) {
            assert(no_ids(app).take(k as int) =~= no_ids(app));
        }
        assert(manifest_of(probes@, component.id@, app, ids, out));
        assert(exists|w: Seq<u32>| #[trigger] manifest_of(probes@, component.id@, app, w, out));
    }
    let updated = Some(list);
    assert(updated matches Some(o) ==> o@ == out);
    assert(updated matches Some(o) ==> exists|w: Seq<u32>|
        #[trigger] manifest_of(probes@, component.id@, app, w, o@));
    updated
}

/// The name of the command-line tool on a system where programs end in
/// `exe_suffix`.
pub fn cli_name(exe_suffix: &str) -> (name: String)
    ensures
        name@ == PROBE_CLI@ + exe_suffix@,
{
    let mut name = String::from_str(PROBE_CLI);
    name.append(exe_suffix);
    name
}

/// The arguments with which the command-line tool writes the manifests of
/// the component in `component_dir`.
pub fn manifest_gen_args(component_dir: &str) -> (args: Vec<String>)
    ensures
        args@.len() == 11,
        args@[0]@ == "manifest-gen"@,
        args@[1]@ == "--verbose"@,
        args@[2]@ == "--lang"@,
        args@[3]@ == "rust"@,
        args@[4]@ == "--file-extension"@,
        args@[5]@ == "rs"@,
        args@[6]@ == "--component-name"@,
        args@[7]@ == "modality-component"@,
        args@[8]@ == "--output-path"@,
        args@[9]@ == component_dir@,
        args@[10]@ == "src/main.rs"@,
{
    let mut args: Vec<String> = Vec::new();
    args.push(String::from_str("manifest-gen"));
    args.push(String::from_str("--verbose"));
    args.push(String::from_str("--lang"));
    args.push(String::from_str("rust"));
    args.push(String::from_str("--file-extension"));
    args.push(String::from_str("rs"));
    args.push(String::from_str("--component-name"));
    args.push(String::from_str("modality-component"));
    args.push(String::from_str("--output-path"));
    args.push(String::from_str(component_dir));
    args.push(String::from_str("src/main.rs"));
    args
}

/// The arguments with which the command-line tool writes the definitions
/// of the component in `component_dir` to `generated_src_file`.
pub fn header_gen_args(component_dir: &str, generated_src_file: &str) -> (args: Vec<String>)
    ensures
        args@.len() == 6,
        args@[0]@ == "header-gen"@,
        args@[1]@ == "--lang"@,
        args@[2]@ == "rust"@,
        args@[3]@ == "--output-path"@,
        args@[4]@ == generated_src_file@,
        args@[5]@ == component_dir@,
{
    let mut args: Vec<String> = Vec::new();
    args.push(String::from_str("header-gen"));
    args.push(String::from_str("--lang"));
    args.push(String::from_str("rust"));
    args.push(String::from_str("--output-path"));
    args.push(String::from_str(generated_src_file));
    args.push(String::from_str(component_dir));
    args
}

} // verus!
