//! Laws of the folder operations and of reconciliation, stated on the
//! models and proved.
//!
//! Each operation of [`Favorites`](crate::favorites::Favorites) ensures that
//! the model afterwards is a function of the model before: `added`,
//! `removed`, `toggled`, `with_folder`, `renamed`, `without_folder`. A pass
//! over storage ensures the same with
//! [`reconciled`](crate::reconcile::reconciled). The laws below are about
//! these functions, so they hold of every run of the operations.

use vstd::prelude::*;
use crate::chart::{chart_paths, LocalChartView};
use crate::favorites::{default_key, FavoritesView, FolderView};
use crate::local_path::{lemma_local_path_injective, local_path_of, Area};
use crate::reconcile::{
    discovered, found_chart, is_new, known_paths, lemma_all_kept, lemma_discovered_paths,
    lemma_found_is_added, lemma_nothing_found, lemma_pruned_distinct, names_distinct, pruned,
    reconciled, FoundEntryView,
};
use crate::text::{lemma_without, other_than};

verus! {

/// One change of the membership of a folder.
pub enum Change {
    /// Put the path into the folder.
    Add(Seq<char>),
    /// Take the path out of the folder.
    Remove(Seq<char>),
}

/// The model after the changes were made to `folder`, one after the other.
pub open spec fn after_changes(
    v: FavoritesView,
    folder: Seq<char>,
    changes: Seq<Change>,
) -> FavoritesView
    decreases changes.len(),
{
    if changes.len() == 0 {
        v
    } else {
        let before = after_changes(v, folder, changes.drop_last());
        match changes.last() {
            Change::Add(path) => before.added(folder, path),
            Change::Remove(path) => before.removed(folder, path),
        }
    }
}

/// Whether `path` is a member once the changes are made: as the last change
/// that names it says, and as it `was` where none names it.
pub open spec fn member_after(was: bool, changes: Seq<Change>, path: Seq<char>) -> bool
    decreases changes.len(),
{
    if changes.len() == 0 {
        was
    } else {
        match changes.last() {
            Change::Add(p) => p == path || member_after(was, changes.drop_last(), path),
            Change::Remove(p) => p != path && member_after(was, changes.drop_last(), path),
        }
    }
}

/// Whatever paths are added to a folder and taken out of it, in whatever
/// order: the folder holds no path twice, a path is in it just when the last
/// change that names it added it (or when none names it and it was there),
/// and no other folder has changed.
pub proof fn law_membership(v: FavoritesView, folder: Seq<char>, changes: Seq<Change>)
    requires
        v.wf(),
        v.has_folder(folder),
    ensures
        after_changes(v, folder, changes).wf(),
        after_changes(v, folder, changes).has_folder(folder),
        after_changes(v, folder, changes).paths(folder).no_duplicates(),
        forall|path: Seq<char>|
            after_changes(v, folder, changes).paths(folder).contains(path) == member_after(
                v.paths(folder).contains(path),
                changes,
                path,
            ),
        after_changes(v, folder, changes).names() == v.names(),
        forall|other: Seq<char>|
            other != folder ==> #[trigger] after_changes(v, folder, changes).paths(other)
                == v.paths(other),
    decreases changes.len(),
{
    let now = after_changes(v, folder, changes);
    if changes.len() == 0 {
        v.lemma_folder_at(v.folder_index(folder));
    } else {
        let rest = changes.drop_last();
        let before = after_changes(v, folder, rest);
        law_membership(v, folder, rest);
        let list = before.paths(folder);
        let first = v.paths(folder);
        match changes.last() {
            Change::Add(p) => {
                if !list.contains(p) {
                    let longer = list.push(p);
                    assert(longer.no_duplicates());
                    before.lemma_with_paths(folder, longer);
                    assert forall|path: Seq<char>| longer.contains(path) == (p == path
                        || list.contains(path)) by {
                        if list.contains(path) {
                            let i = choose|i: int| 0 <= i < list.len() && list[i] == path;
                            assert(longer[i] == path);
                        }
                        if p == path {
                            assert(longer[list.len() as int] == path);
                        }
                    }
                }
                assert forall|path: Seq<char>|
                    now.paths(folder).contains(path) == member_after(
                        first.contains(path),
                        changes,
                        path,
                    ) by {
                    assert(list.contains(path) == member_after(first.contains(path), rest, path));
                }
            },
            Change::Remove(p) => {
                lemma_without(list, p);
                before.lemma_with_paths(folder, list.filter(other_than(p)));
                assert forall|path: Seq<char>|
                    now.paths(folder).contains(path) == member_after(
                        first.contains(path),
                        changes,
                        path,
                    ) by {
                    assert(list.contains(path) == member_after(first.contains(path), rest, path));
                }
            },
        }
    }
}

/// Adding a path twice is adding it once, and so is taking it out.
pub proof fn law_add_and_remove_are_idempotent(
    v: FavoritesView,
    folder: Seq<char>,
    path: Seq<char>,
)
    requires
        v.wf(),
    ensures
        v.added(folder, path).added(folder, path) == v.added(folder, path),
        v.removed(folder, path).removed(folder, path) == v.removed(folder, path),
{
    if v.has_folder(folder) {
        let list = v.paths(folder);
        if !list.contains(path) {
            let longer = list.push(path);
            assert(longer.no_duplicates());
            assert(longer[list.len() as int] == path);
            v.lemma_with_paths(folder, longer);
        }
        let shorter = list.filter(other_than(path));
        lemma_without(list, path);
        v.lemma_with_paths(folder, shorter);
        lemma_without(shorter, path);
        let once = v.removed(folder, path);
        assert(once.folders.update(
            once.folder_index(folder),
            FolderView { name: folder, paths: shorter },
        ) =~= once.folders) by {
            once.lemma_folder_at(once.folder_index(folder));
        }
    }
}

/// Making a folder twice is making it once: the second time nothing
/// changes, and the answer is that the folder is there.
pub proof fn law_create_twice(v: FavoritesView, name: Seq<char>)
    requires
        v.wf(),
    ensures
        v.with_folder(name).has_folder(name),
        v.with_folder(name).with_folder(name) == v.with_folder(name),
{
    v.lemma_with_folder(name);
}

/// A path that is not in the reserved folder is put there by one toggle and
/// taken out by the next: the first adds, the second does not, the path is
/// in the reserved folder between the two and not after them, and the list
/// of the reserved folder is then what it was.
pub proof fn law_toggle_twice(v: FavoritesView, path: Seq<char>)
    requires
        v.wf(),
        !v.paths(default_key()).contains(path),
    ensures
        v.toggle_adds(path),
        v.toggled(path).wf(),
        v.toggled(path).paths(default_key()).contains(path),
        !v.toggled(path).toggle_adds(path),
        v.toggled(path).toggled(path).wf(),
        !v.toggled(path).toggled(path).paths(default_key()).contains(path),
        v.toggled(path).toggled(path).paths(default_key()) == v.paths(default_key()),
{
    let key = default_key();
    let made = v.with_default();
    v.lemma_with_folder(key);
    let list = made.paths(key);
    let longer = list.push(path);
    assert(longer.no_duplicates());
    made.lemma_with_paths(key, longer);
    let once = v.toggled(path);
    assert(once == made.with_paths(key, longer));
    assert(longer[list.len() as int] == path);
    once.lemma_with_folder(key);
    assert(once.with_default() == once);
    lemma_without(longer, path);
    lemma_without(list, path);
    let shorter = longer.filter(other_than(path));
    assert(shorter == list) by {
        reveal(Seq::filter);
        assert(longer.drop_last() =~= list);
    }
    once.lemma_with_paths(key, shorter);
}

/// The reserved folder, once there, stays: no operation on folders takes it
/// away or gives it another name.
pub proof fn law_reserved_folder_stays(
    v: FavoritesView,
    name: Seq<char>,
    other: Seq<char>,
    path: Seq<char>,
)
    requires
        v.wf(),
        v.has_folder(default_key()),
    ensures
        v.with_folder(name).has_folder(default_key()),
        v.added(name, path).has_folder(default_key()),
        v.removed(name, path).has_folder(default_key()),
        v.toggled(path).has_folder(default_key()),
        v.renamed(name, other).has_folder(default_key()),
        v.without_folder(name).has_folder(default_key()),
        v.with_cover(name, path).has_folder(default_key()),
        v.without_cover(name).has_folder(default_key()),
{
    let key = default_key();
    let at = v.folder_index(key);
    v.lemma_with_folder(name);
    v.lemma_with_folder(key);
    assert(v.with_folder(name).folders[at].name == key);
    if v.has_folder(name) {
        if !v.paths(name).contains(path) {
            assert(v.paths(name).push(path).no_duplicates());
            v.lemma_with_paths(name, v.paths(name).push(path));
        }
        lemma_without(v.paths(name), path);
        v.lemma_with_paths(name, v.paths(name).filter(other_than(path)));
    }
    if v.toggle_adds(path) {
        assert(v.paths(key).push(path).no_duplicates());
        v.lemma_with_paths(key, v.paths(key).push(path));
    } else {
        lemma_without(v.paths(key), path);
        v.lemma_with_paths(key, v.paths(key).filter(other_than(path)));
    }
    if v.can_rename(name, other) {
        assert(v.folder_index(name) != at);
        assert(v.renamed(name, other).folders[at].name == key);
    }
    if name != key && v.has_folder(name) {
        let gone = v.folder_index(name);
        assert(gone != at);
        let left = v.without_folder(name);
        if at < gone {
            assert(left.folders[at].name == key);
        } else {
            assert(left.folders[at - 1].name == key);
        }
    }
    assert(v.with_cover(name, path).folders[at].name == key);
    assert(v.without_cover(name).folders[at].name == key);
}

/// A pass keeps local paths unique: where no two charts of the index share
/// a local path and neither area lists a name twice, no two charts share a
/// local path after the pass.
pub proof fn law_paths_stay_distinct(
    charts: Seq<LocalChartView>,
    present: Set<Seq<char>>,
    imports: Seq<FoundEntryView>,
    downloads: Seq<FoundEntryView>,
)
    requires
        chart_paths(charts).no_duplicates(),
        names_distinct(imports),
        names_distinct(downloads),
    ensures
        chart_paths(reconciled(charts, present, imports, downloads)).no_duplicates(),
{
    let kept = pruned(charts, present);
    let known = known_paths(kept);
    let first = discovered(known, Area::Imports, imports);
    let second = discovered(known, Area::Downloads, downloads);
    let all = kept + first + second;
    lemma_pruned_distinct(charts, present);
    lemma_discovered_paths(known, Area::Imports, imports);
    lemma_discovered_paths(known, Area::Downloads, downloads);
    let a = kept.len() as int;
    let b = a + first.len();
    assert forall|i: int, j: int| 0 <= i < j < all.len() implies all[i].local_path
        != all[j].local_path by {
        if j < a {
            assert(chart_paths(kept)[i] != chart_paths(kept)[j]);
        } else if i < a {
            assert(chart_paths(kept)[i] == all[i].local_path);
            assert(known.contains(all[i].local_path));
            if j < b {
                assert(all[j] == first[j - a]);
            } else {
                assert(all[j] == second[j - b]);
            }
        } else if j < b {
            assert(chart_paths(first)[i - a] != chart_paths(first)[j - a]);
        } else if i < b {
            let x = first[i - a];
            let y = second[j - b];
            let m = choose|m: int|
                0 <= m < imports.len() && x.local_path == local_path_of(
                    Area::Imports,
                    (#[trigger] imports[m]).name,
                );
            let n = choose|n: int|
                0 <= n < downloads.len() && y.local_path == local_path_of(
                    Area::Downloads,
                    (#[trigger] downloads[n]).name,
                );
            if x.local_path == y.local_path {
                lemma_local_path_injective(
                    Area::Imports,
                    imports[m].name,
                    Area::Downloads,
                    downloads[n].name,
                );
            }
        } else {
            assert(chart_paths(second)[i - b] != chart_paths(second)[j - b]);
        }
    }
    assert forall|i: int, j: int|
        0 <= i < chart_paths(all).len() && 0 <= j < chart_paths(all).len() && i
            != j implies chart_paths(all)[i] != chart_paths(all)[j] by {
        if i < j {
            assert(all[i].local_path != all[j].local_path);
        } else {
            assert(all[j].local_path != all[i].local_path);
        }
    }
}

/// Whether the listing `later` names the entries of `earlier`, one for one,
/// and has metadata for none of which `earlier` had none.
pub open spec fn reads_no_more(later: Seq<FoundEntryView>, earlier: Seq<FoundEntryView>) -> bool {
    &&& later.len() == earlier.len()
    &&& forall|i: int|
        0 <= i < later.len() ==> (#[trigger] later[i]).name == earlier[i].name && (later[i].info
            is Some ==> earlier[i].info is Some)
}

/// A second pass over storage that has not changed leaves the index as the
/// first pass left it: the same charts in the same order.
///
/// That storage has not changed means here: every chart that the first pass
/// left in the index is still present, the two areas list the entries that
/// they listed before, and no entry whose metadata could not be read can be
/// read now.
pub proof fn law_second_pass_changes_nothing(
    charts: Seq<LocalChartView>,
    present: Set<Seq<char>>,
    imports: Seq<FoundEntryView>,
    downloads: Seq<FoundEntryView>,
    present_again: Set<Seq<char>>,
    imports_again: Seq<FoundEntryView>,
    downloads_again: Seq<FoundEntryView>,
)
    requires
        forall|path: Seq<char>|
            known_paths(reconciled(charts, present, imports, downloads)).contains(path)
                ==> present_again.contains(path),
        reads_no_more(imports_again, imports),
        reads_no_more(downloads_again, downloads),
    ensures
        reconciled(
            reconciled(charts, present, imports, downloads),
            present_again,
            imports_again,
            downloads_again,
        ) == reconciled(charts, present, imports, downloads),
{
    let kept = pruned(charts, present);
    let known = known_paths(kept);
    let first = discovered(known, Area::Imports, imports);
    let second = discovered(known, Area::Downloads, downloads);
    let once = reconciled(charts, present, imports, downloads);
    let known_again = known_paths(once);
    assert(once == kept + first + second);
    lemma_all_present(once, present_again);
    lemma_all_kept(once, present_again);
    lemma_known_of_parts(kept, first, second);
    lemma_listing_adds_nothing(known, known_again, Area::Imports, imports, imports_again);
    lemma_listing_adds_nothing(known, known_again, Area::Downloads, downloads, downloads_again);
    assert(once + Seq::<LocalChartView>::empty() + Seq::<LocalChartView>::empty() =~= once);
}

/// Where every path known is present, every chart is.
proof fn lemma_all_present(charts: Seq<LocalChartView>, present: Set<Seq<char>>)
    requires
        forall|path: Seq<char>| known_paths(charts).contains(path) ==> present.contains(path),
    ensures
        forall|i: int| 0 <= i < charts.len() ==> present.contains(#[trigger] charts[i].local_path),
{
    assert forall|i: int| 0 <= i < charts.len() implies present.contains(
        #[trigger] charts[i].local_path,
    ) by {
        lemma_path_is_known(charts, i);
    }
}

/// The paths of an index made of three parts are known of each part.
proof fn lemma_known_of_parts(
    a: Seq<LocalChartView>,
    b: Seq<LocalChartView>,
    c: Seq<LocalChartView>,
)
    ensures
        forall|path: Seq<char>|
            known_paths(a).contains(path) ==> known_paths(a + b + c).contains(path),
        forall|x: LocalChartView|
            b.contains(x) ==> known_paths(a + b + c).contains(x.local_path),
        forall|x: LocalChartView|
            c.contains(x) ==> known_paths(a + b + c).contains(x.local_path),
{
    let all = a + b + c;
    assert forall|path: Seq<char>| known_paths(a).contains(path) implies known_paths(
        all,
    ).contains(path) by {
        let k = choose|k: int| 0 <= k < chart_paths(a).len() && chart_paths(a)[k] == path;
        assert(all[k] == a[k]);
        lemma_path_is_known(all, k);
    }
    assert forall|x: LocalChartView| b.contains(x) implies known_paths(all).contains(
        x.local_path,
    ) by {
        let k = choose|k: int| 0 <= k < b.len() && b[k] == x;
        assert(all[a.len() + k] == x);
        lemma_path_is_known(all, a.len() + k);
    }
    assert forall|x: LocalChartView| c.contains(x) implies known_paths(all).contains(
        x.local_path,
    ) by {
        let k = choose|k: int| 0 <= k < c.len() && c[k] == x;
        assert(all[a.len() + b.len() + k] == x);
        lemma_path_is_known(all, a.len() + b.len() + k);
    }
}

/// The local path of a chart of the index is one of the paths known.
proof fn lemma_path_is_known(charts: Seq<LocalChartView>, i: int)
    requires
        0 <= i < charts.len(),
    ensures
        known_paths(charts).contains(charts[i].local_path),
{
    assert(chart_paths(charts)[i] == charts[i].local_path);
}

/// A listing adds nothing when all that it added before is known now, and
/// it reads no more than before.
proof fn lemma_listing_adds_nothing(
    known: Set<Seq<char>>,
    known_again: Set<Seq<char>>,
    area: Area,
    entries: Seq<FoundEntryView>,
    entries_again: Seq<FoundEntryView>,
)
    requires
        reads_no_more(entries_again, entries),
        forall|path: Seq<char>| known.contains(path) ==> known_again.contains(path),
        forall|c: LocalChartView|
            discovered(known, area, entries).contains(c) ==> known_again.contains(c.local_path),
    ensures
        discovered(known_again, area, entries_again) == Seq::<LocalChartView>::empty(),
{
    assert forall|i: int| 0 <= i < entries_again.len() implies found_chart(
        known_again,
        area,
        #[trigger] entries_again[i],
    ) is None by {
        let e = entries_again[i];
        if is_new(known_again, area, e.name) && e.info is Some {
            assert(entries[i].name == e.name);
            assert(!known.contains(local_path_of(area, e.name)));
            assert(found_chart(known, area, entries[i]) is Some);
            lemma_found_is_added(known, area, entries, i);
            let chart = found_chart(known, area, entries[i])->0;
            assert(chart.local_path == local_path_of(area, e.name));
        }
    }
    lemma_nothing_found(known_again, area, entries_again);
}

} // verus!
