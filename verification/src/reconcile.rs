//! Reconciliation: bringing the index of local charts in line with what is
//! in storage.
//!
//! One pass has three steps. Charts whose backing entry is gone leave the
//! index. Then the two storage areas are gone through, the imports before the
//! downloads, each in the order of its listing: an entry becomes a new chart
//! at the end of the index if its area admits its name, its local path was not
//! known when the pruning was done, and its metadata could be read. An entry
//! of which one of these does not hold is passed over, and the pass goes on.
//!
//! The paths known are taken once, after the pruning: a chart that this pass
//! adds does not stop a later entry of the same pass.

use vstd::prelude::*;
use vstd::hash_set::StringHashSet;
use crate::chart::{
    brief, chart_paths, chart_views, BriefChartInfo, BriefChartInfoView, ChartInfo,
    ChartInfoView, LocalChart, LocalChartView,
};
use crate::local_path::{
    lemma_local_path_injective, local_path_for, local_path_of, parse_remote_id, remote_id, Area,
};
use crate::text::texts;

verus! {

/// An entry found in a storage area: its name, and its metadata where that
/// was read. `info` is `None` where reading failed, and where nobody tried.
#[derive(Clone, Debug, PartialEq, Eq)]
pub struct FoundEntry {
    pub name: String,
    pub info: Option<ChartInfo>,
}

/// The model of a [`FoundEntry`].
pub struct FoundEntryView {
    pub name: Seq<char>,
    pub info: Option<ChartInfoView>,
}

impl View for FoundEntry {
    type V = FoundEntryView;

    open spec fn view(&self) -> FoundEntryView {
        FoundEntryView {
            name: self.name@,
            info: match self.info {
                Some(info) => Some(info@),
                None => None,
            },
        }
    }
}

/// The models of the entries of a listing, in order.
pub open spec fn entry_views(entries: Seq<FoundEntry>) -> Seq<FoundEntryView> {
    entries.map_values(|e: FoundEntry| e@)
}

/// Whether `area` admits an entry called `name`: any name among the imports,
/// one that writes a remote id among the downloads.
pub open spec fn admits(area: Area, name: Seq<char>) -> bool {
    area == Area::Imports || remote_id(name) is Some
}

/// The remote id of a chart found as `name` in `area`: none for an import.
pub open spec fn found_id(area: Area, name: Seq<char>) -> Option<i32> {
    match area {
        Area::Imports => None,
        Area::Downloads => remote_id(name),
    }
}

/// Whether the entry `name` of `area` would become a chart if its metadata
/// were read, the paths `known` being in the index.
pub open spec fn is_new(known: Set<Seq<char>>, area: Area, name: Seq<char>) -> bool {
    admits(area, name) && !known.contains(local_path_of(area, name))
}

/// The chart made of the entry `name` of `area` with the metadata `info`: it
/// has the area's id for the name, no record, no modifiers, and was not
/// unlocked by play.
pub open spec fn new_chart(area: Area, name: Seq<char>, info: ChartInfoView) -> LocalChartView {
    LocalChartView {
        info: BriefChartInfoView { id: found_id(area, name), ..brief(info) },
        local_path: local_path_of(area, name),
        record: None,
        mods: 0,
        played_unlock: false,
    }
}

/// The chart that the entry `e` of `area` becomes, if it becomes one.
pub open spec fn found_chart(known: Set<Seq<char>>, area: Area, e: FoundEntryView) -> Option<
    LocalChartView,
> {
    if is_new(known, area, e.name) && e.info is Some {
        Some(new_chart(area, e.name, e.info->0))
    } else {
        None
    }
}

/// [`found_chart`] as a function of the entry.
pub open spec fn finder(known: Set<Seq<char>>, area: Area) -> spec_fn(FoundEntryView) -> Option<
    LocalChartView,
> {
    |e: FoundEntryView| found_chart(known, area, e)
}

/// The charts that the listing `entries` of `area` adds, in its order.
pub open spec fn discovered(
    known: Set<Seq<char>>,
    area: Area,
    entries: Seq<FoundEntryView>,
) -> Seq<LocalChartView> {
    entries.filter_map(finder(known, area))
}

/// The predicate "the chart's local path is among `present`".
pub open spec fn kept_by(present: Set<Seq<char>>) -> spec_fn(LocalChartView) -> bool {
    |c: LocalChartView| present.contains(c.local_path)
}

/// The charts of `charts` whose local path is among `present`, in order.
pub open spec fn pruned(charts: Seq<LocalChartView>, present: Set<Seq<char>>) -> Seq<
    LocalChartView,
> {
    charts.filter(kept_by(present))
}

/// The local paths that stand in `charts`.
pub open spec fn known_paths(charts: Seq<LocalChartView>) -> Set<Seq<char>> {
    chart_paths(charts).to_set()
}

/// The index after one pass: the charts that are still present, then what
/// the imports add, then what the downloads add.
pub open spec fn reconciled(
    charts: Seq<LocalChartView>,
    present: Set<Seq<char>>,
    imports: Seq<FoundEntryView>,
    downloads: Seq<FoundEntryView>,
) -> Seq<LocalChartView> {
    let kept = pruned(charts, present);
    let known = known_paths(kept);
    kept + discovered(known, Area::Imports, imports) + discovered(
        known,
        Area::Downloads,
        downloads,
    )
}

/// The strings of `list` as a set.
pub(crate) fn text_set(list: &Vec<String>) -> (r: StringHashSet)
    ensures
        r@ == texts(list@).to_set(),
{
    let mut set = StringHashSet::new();
    let mut i: usize = 0;
    while i < list.len()
        invariant
            i <= list@.len(),
            forall|p: Seq<char>|
                set@.contains(p) <==> exists|k: int| 0 <= k < i && #[trigger] list@[k]@ == p,
        decreases list@.len() - i,
    {
        set.insert(list[i].clone());
        i += 1;
    }
    assert forall|p: Seq<char>| set@.contains(p) <==> texts(list@).to_set().contains(p) by {
        if set@.contains(p) {
            let k = choose|k: int| 0 <= k < list@.len() && #[trigger] list@[k]@ == p;
            assert(texts(list@)[k] == p);
        }
        if texts(list@).contains(p) {
            let k = choose|k: int| 0 <= k < texts(list@).len() && texts(list@)[k] == p;
            assert(list@[k]@ == p);
        }
    }
    assert(set@ =~= texts(list@).to_set());
    set
}

/// The local paths of `charts` as a set.
pub(crate) fn known_set(charts: &Vec<LocalChart>) -> (r: StringHashSet)
    ensures
        r@ == known_paths(chart_views(charts@)),
{
    let mut set = StringHashSet::new();
    let mut i: usize = 0;
    while i < charts.len()
        invariant
            i <= charts@.len(),
            forall|p: Seq<char>|
                set@.contains(p) <==> exists|k: int|
                    0 <= k < i && (#[trigger] charts@[k]).local_path@ == p,
        decreases charts@.len() - i,
    {
        set.insert(charts[i].local_path.clone());
        i += 1;
    }
    let ghost paths = chart_paths(chart_views(charts@));
    assert forall|p: Seq<char>| set@.contains(p) <==> paths.to_set().contains(p) by {
        if set@.contains(p) {
            let k = choose|k: int|
                0 <= k < charts@.len() && (#[trigger] charts@[k]).local_path@ == p;
            assert(paths[k] == p);
        }
        if paths.contains(p) {
            let k = choose|k: int| 0 <= k < paths.len() && paths[k] == p;
            assert(charts@[k].local_path@ == p);
        }
    }
    assert(set@ =~= paths.to_set());
    set
}

/// Keeps the charts whose local path is among `present`.
pub(crate) fn prune(charts: Vec<LocalChart>, present: &StringHashSet) -> (r: Vec<LocalChart>)
    ensures
        chart_views(r@) == pruned(chart_views(charts@), present@),
{
    let mut kept: Vec<LocalChart> = Vec::new();
    let ghost all = charts@;
    for chart in it: charts
        invariant
            it.seq() == all,
            chart_views(kept@) == pruned(chart_views(all.take(it.index())), present@),
    {
        let ghost k = it.index();
        proof {
            assert(all.take(k + 1) =~= all.take(k).push(chart));
            assert(chart_views(all.take(k).push(chart)) =~= chart_views(all.take(k)).push(chart@));
            chart_views(all.take(k)).lemma_filter_push(chart@, kept_by(present@));
        }
        if present.contains(chart.local_path.as_str()) {
            let ghost before = kept@;
            kept.push(chart);
            assert(chart_views(before.push(chart)) =~= chart_views(before).push(chart@));
        }
    }
    assert(all.take(all.len() as int) =~= all);
    kept
}

/// Puts at the end of `charts` what the listing `entries` of `area` adds.
pub(crate) fn discover(
    charts: &mut Vec<LocalChart>,
    known: &StringHashSet,
    area: Area,
    entries: Vec<FoundEntry>,
)
    ensures
        chart_views(final(charts)@) == chart_views(old(charts)@) + discovered(
            known@,
            area,
            entry_views(entries@),
        ),
{
    let ghost all = entries@;
    let ghost before = chart_views(charts@);
    let ghost find = finder(known@, area);
    assert(entry_views(all.take(0)).filter_map(find) =~= Seq::empty());
    for entry in it: entries
        invariant
            it.seq() == all,
            find == finder(known@, area),
            chart_views(charts@) == before + entry_views(all.take(it.index())).filter_map(find),
    {
        let ghost k = it.index();
        let ghost done = entry_views(all.take(k)).filter_map(find);
        proof {
            assert(all.take(k + 1) =~= all.take(k).push(entry));
            assert(entry_views(all.take(k + 1)) =~= entry_views(all.take(k)).push(entry@));
            assert(entry_views(all.take(k + 1)).drop_last() =~= entry_views(all.take(k)));
        }
        let id = match area {
            Area::Imports => None,
            Area::Downloads => parse_remote_id(entry.name.as_str()),
        };
        let admitted = match area {
            Area::Imports => true,
            Area::Downloads => id.is_some(),
        };
        let local_path = local_path_for(area, entry.name.as_str());
        if admitted && !known.contains(local_path.as_str()) {
            match entry.info {
                Some(info) => {
                    let mut kept = BriefChartInfo::from(info);
                    kept.id = id;
                    let chart = LocalChart {
                        info: kept,
                        local_path,
                        record: None,
                        mods: 0,
                        played_unlock: false,
                    };
                    let ghost list = charts@;
                    assert(chart@ == new_chart(area, entry@.name, entry@.info->0));
                    charts.push(chart);
                    proof {
                        assert(chart_views(list.push(chart)) =~= chart_views(list).push(chart@));
                        assert(before + (done + seq![chart@]) =~= (before + done).push(chart@));
                    }
                },
                None => {},
            }
        }
    }
    assert(all.take(all.len() as int) =~= all);
}

/// A path is known after the pruning just when the index had it and it is
/// present.
pub proof fn lemma_known_after_pruning(
    charts: Seq<LocalChartView>,
    present: Set<Seq<char>>,
    path: Seq<char>,
)
    ensures
        known_paths(pruned(charts, present)).contains(path) <==> chart_paths(charts).contains(path)
            && present.contains(path),
{
    broadcast use vstd::seq_lib::group_filter_ensures;

    let kept = pruned(charts, present);
    let keep = kept_by(present);
    if chart_paths(kept).contains(path) {
        let k = choose|k: int| 0 <= k < chart_paths(kept).len() && chart_paths(kept)[k] == path;
        assert(kept[k].local_path == path);
        assert(kept.contains(kept[k]));
        charts.lemma_filter_contains_rev(keep, kept[k]);
        charts.lemma_filter_pred(keep, k);
        let j = choose|j: int| 0 <= j < charts.len() && charts[j] == kept[k];
        assert(chart_paths(charts)[j] == path);
    }
    if chart_paths(charts).contains(path) && present.contains(path) {
        let j = choose|j: int| 0 <= j < chart_paths(charts).len() && chart_paths(charts)[j] == path;
        assert(charts[j].local_path == path);
        charts.lemma_filter_contains(keep, j);
        let k = choose|k: int| 0 <= k < kept.len() && kept[k] == charts[j];
        assert(chart_paths(kept)[k] == path);
    }
}

/// Whether no two entries of a listing have one name.
pub open spec fn names_distinct(entries: Seq<FoundEntryView>) -> bool {
    forall|i: int, j: int|
        0 <= i < j < entries.len() ==> (#[trigger] entries[i]).name != (#[trigger] entries[j]).name
}

/// Pruning takes charts away and brings none: where no two charts shared a
/// local path, none do afterwards, and every path left was there before.
pub proof fn lemma_pruned_distinct(charts: Seq<LocalChartView>, present: Set<Seq<char>>)
    requires
        chart_paths(charts).no_duplicates(),
    ensures
        chart_paths(pruned(charts, present)).no_duplicates(),
        forall|path: Seq<char>|
            chart_paths(pruned(charts, present)).contains(path) ==> chart_paths(charts).contains(
                path,
            ),
    decreases charts.len(),
{
    reveal(Seq::filter);
    let keep = kept_by(present);
    if charts.len() > 0 {
        let front = charts.drop_last();
        let last = charts.last();
        assert(chart_paths(front) =~= chart_paths(charts).drop_last());
        lemma_pruned_distinct(front, present);
        assert(charts =~= front.push(last));
        front.lemma_filter_push(last, keep);
        let kept = pruned(front, present);
        let now = pruned(charts, present);
        assert forall|path: Seq<char>| chart_paths(now).contains(path) implies chart_paths(
            charts,
        ).contains(path) by {
            let k = choose|k: int| 0 <= k < chart_paths(now).len() && chart_paths(now)[k] == path;
            if k < kept.len() {
                assert(chart_paths(kept)[k] == path);
                assert(chart_paths(kept).contains(path));
                assert(chart_paths(front).contains(path));
                let i = choose|i: int|
                    0 <= i < chart_paths(front).len() && chart_paths(front)[i] == path;
                assert(chart_paths(charts)[i] == path);
            } else {
                assert(chart_paths(charts)[charts.len() - 1] == path);
            }
        }
        if keep(last) {
            assert forall|i: int, j: int|
                0 <= i < chart_paths(now).len() && 0 <= j < chart_paths(now).len() && i
                    != j implies chart_paths(now)[i] != chart_paths(now)[j] by {
                let n = kept.len() as int;
                if i < n && j < n {
                    assert(chart_paths(kept)[i] != chart_paths(kept)[j]);
                } else {
                    let k = if i < n {
                        i
                    } else {
                        j
                    };
                    assert(chart_paths(kept).contains(chart_paths(kept)[k]));
                    assert(chart_paths(front).contains(chart_paths(kept)[k]));
                    let at = choose|at: int|
                        0 <= at < chart_paths(front).len() && chart_paths(front)[at] == chart_paths(
                            kept,
                        )[k];
                    assert(chart_paths(charts)[at] != chart_paths(charts)[charts.len() - 1]);
                }
            }
        }
    }
}

/// What a listing adds: each chart has the local path of an entry of the
/// listing and a path that was not known; and where no two entries have one
/// name, no two of the charts have one path.
pub proof fn lemma_discovered_paths(
    known: Set<Seq<char>>,
    area: Area,
    entries: Seq<FoundEntryView>,
)
    ensures
        forall|k: int|
            0 <= k < discovered(known, area, entries).len() ==> {
                &&& !known.contains((#[trigger] discovered(known, area, entries)[k]).local_path)
                &&& exists|i: int|
                    0 <= i < entries.len() && discovered(known, area, entries)[k].local_path
                        == local_path_of(area, (#[trigger] entries[i]).name)
            },
        names_distinct(entries) ==> chart_paths(
            discovered(known, area, entries),
        ).no_duplicates(),
    decreases entries.len(),
{
    let now = discovered(known, area, entries);
    if entries.len() > 0 {
        let front = entries.drop_last();
        let last = entries.last();
        let before = discovered(known, area, front);
        lemma_discovered_paths(known, area, front);
        assert forall|k: int| 0 <= k < now.len() implies {
            &&& !known.contains((#[trigger] now[k]).local_path)
            &&& exists|i: int|
                0 <= i < entries.len() && now[k].local_path == local_path_of(
                    area,
                    (#[trigger] entries[i]).name,
                )
        } by {
            if k < before.len() {
                assert(now[k] == before[k]);
                let i = choose|i: int|
                    0 <= i < front.len() && before[k].local_path == local_path_of(
                        area,
                        (#[trigger] front[i]).name,
                    );
                assert(entries[i] == front[i]);
            } else {
                assert(now[k].local_path == local_path_of(area, entries[entries.len() - 1].name));
            }
        }
        if names_distinct(entries) {
            assert(names_distinct(front)) by {
                assert forall|i: int, j: int| 0 <= i < j < front.len() implies
                    (#[trigger] front[i]).name != (#[trigger] front[j]).name by {
                    assert(entries[i].name != entries[j].name);
                }
            }
            if found_chart(known, area, last) is Some {
                assert forall|i: int, j: int|
                    0 <= i < chart_paths(now).len() && 0 <= j < chart_paths(now).len() && i
                        != j implies chart_paths(now)[i] != chart_paths(now)[j] by {
                    let n = before.len() as int;
                    if i < n && j < n {
                        assert(chart_paths(before)[i] != chart_paths(before)[j]);
                    } else {
                        let k = if i < n {
                            i
                        } else {
                            j
                        };
                        let at = choose|at: int|
                            0 <= at < front.len() && before[k].local_path == local_path_of(
                                area,
                                (#[trigger] front[at]).name,
                            );
                        assert(entries[at].name != entries[entries.len() - 1].name);
                        if before[k].local_path == local_path_of(area, last.name) {
                            lemma_local_path_injective(area, front[at].name, area, last.name);
                        }
                    }
                }
            }
        }
    }
}

/// Where every chart is present, pruning keeps the index as it is.
pub proof fn lemma_all_kept(charts: Seq<LocalChartView>, present: Set<Seq<char>>)
    requires
        forall|i: int| 0 <= i < charts.len() ==> present.contains(#[trigger] charts[i].local_path),
    ensures
        pruned(charts, present) == charts,
    decreases charts.len(),
{
    reveal(Seq::filter);
    if charts.len() > 0 {
        let front = charts.drop_last();
        assert forall|i: int| 0 <= i < front.len() implies present.contains(
            #[trigger] front[i].local_path,
        ) by {
            assert(front[i] == charts[i]);
        }
        lemma_all_kept(front, present);
        assert(present.contains(charts[charts.len() - 1].local_path));
        assert(charts =~= front.push(charts.last()));
    }
}

/// A listing of which no entry becomes a chart adds nothing.
pub proof fn lemma_nothing_found(known: Set<Seq<char>>, area: Area, entries: Seq<FoundEntryView>)
    requires
        forall|i: int|
            0 <= i < entries.len() ==> found_chart(known, area, #[trigger] entries[i]) is None,
    ensures
        discovered(known, area, entries) == Seq::<LocalChartView>::empty(),
    decreases entries.len(),
{
    if entries.len() > 0 {
        let front = entries.drop_last();
        assert forall|i: int| 0 <= i < front.len() implies found_chart(
            known,
            area,
            #[trigger] front[i],
        ) is None by {
            assert(front[i] == entries[i]);
        }
        lemma_nothing_found(known, area, front);
        assert(found_chart(known, area, entries[entries.len() - 1]) is None);
    }
}

/// The chart that an entry becomes stands among those that its listing adds.
pub proof fn lemma_found_is_added(
    known: Set<Seq<char>>,
    area: Area,
    entries: Seq<FoundEntryView>,
    i: int,
)
    requires
        0 <= i < entries.len(),
        found_chart(known, area, entries[i]) is Some,
    ensures
        discovered(known, area, entries).contains(found_chart(known, area, entries[i])->0),
    decreases entries.len(),
{
    let front = entries.drop_last();
    let added = discovered(known, area, entries);
    let chart = found_chart(known, area, entries[i])->0;
    if i == entries.len() - 1 {
        assert(added[added.len() - 1] == chart);
    } else {
        assert(front[i] == entries[i]);
        lemma_found_is_added(known, area, front, i);
        let before = discovered(known, area, front);
        let k = choose|k: int| 0 <= k < before.len() && before[k] == chart;
        assert(added[k] == chart);
    }
}

} // verus!
