//! The persisted root, as far as the rules of this library read and write
//! it, and the pass that brings it up to date when the program starts.

use vstd::prelude::*;
use crate::chart::{chart_paths, chart_views, LocalChart, LocalChartView};
use crate::favorites::{default_key, Favorites, FavoritesView};
use crate::local_path::{local_path_for, parse_remote_id, Area};
use crate::reconcile::{
    discover, entry_views, is_new, known_paths, known_set, lemma_known_after_pruning, prune,
    pruned, reconciled, text_set, FoundEntry, FoundEntryView,
};
use crate::text::{position_of, same_text, text_of, texts};

verus! {

/// The resource pack that takes the place of one named by an absolute path.
pub const RES_PACK_FALLBACK: &'static str = "chart.zip";

/// The date of the terms that a user of an older version had accepted.
pub const TERMS_MODIFIED: &'static str = "Mon, 05 Aug 2024 17:32:41 GMT";

/// The gateway used where none is configured.
pub fn default_anys_gateway() -> (r: String)
    ensures
        r@ == "https://anys.mivik.moe"@,
{
    "https://anys.mivik.moe".to_string()
}

/// What one look at storage found.
#[derive(Clone, Debug, PartialEq, Eq)]
pub struct StorageScan {
    /// The local paths of charts whose backing entry is there. A chart of the
    /// index whose local path is not listed here has left the machine.
    pub present: Vec<String>,
    /// The entries of the imports area, in the order of its listing.
    pub imports: Vec<FoundEntry>,
    /// The entries of the downloads area, in the order of its listing.
    pub downloads: Vec<FoundEntry>,
    /// The names of the resource packs in storage.
    pub respacks: Vec<String>,
}

/// The model of a [`StorageScan`].
pub struct StorageScanView {
    pub present: Seq<Seq<char>>,
    pub imports: Seq<FoundEntryView>,
    pub downloads: Seq<FoundEntryView>,
    pub respacks: Seq<Seq<char>>,
}

impl View for StorageScan {
    type V = StorageScanView;

    open spec fn view(&self) -> StorageScanView {
        StorageScanView {
            present: texts(self.present@),
            imports: entry_views(self.imports@),
            downloads: entry_views(self.downloads@),
            respacks: texts(self.respacks@),
        }
    }
}

/// The persisted root.
#[derive(Clone, Debug)]
pub struct Data {
    /// The index of local charts. No two of them share a local path as long
    /// as no listing names an entry twice.
    pub charts: Vec<LocalChart>,
    /// The names of the resource packs known.
    pub respacks: Vec<String>,
    /// The resource pack that the configuration names.
    pub res_pack_path: Option<String>,
    /// Whether the user accepted the terms in a version that kept no date.
    pub read_tos_and_policy: bool,
    /// The date of the terms that the user accepted.
    pub terms_modified: Option<String>,
    pub favorites: Favorites,
}

/// The model of a [`Data`].
#[verifier::ext_equal]
pub struct DataView {
    pub charts: Seq<LocalChartView>,
    pub respacks: Seq<Seq<char>>,
    pub res_pack_path: Option<Seq<char>>,
    pub read_tos_and_policy: bool,
    pub terms_modified: Option<Seq<char>>,
    pub favorites: FavoritesView,
}

impl View for Data {
    type V = DataView;

    open spec fn view(&self) -> DataView {
        DataView {
            charts: chart_views(self.charts@),
            respacks: texts(self.respacks@),
            res_pack_path: text_of(self.res_pack_path),
            read_tos_and_policy: self.read_tos_and_policy,
            terms_modified: text_of(self.terms_modified),
            favorites: self.favorites@,
        }
    }
}

/// The predicate "is not in `list`".
pub open spec fn not_among(list: Seq<Seq<char>>) -> spec_fn(Seq<char>) -> bool {
    |name: Seq<char>| !list.contains(name)
}

/// The resource packs after a look at storage: those known, then those found
/// that were not known, in the order of the listing.
pub open spec fn merged_respacks(known: Seq<Seq<char>>, found: Seq<Seq<char>>) -> Seq<Seq<char>> {
    known + found.filter(not_among(known))
}

/// Whether a path starts at the root of the file system.
pub open spec fn is_absolute(path: Seq<char>) -> bool {
    path.len() > 0 && path[0] == '/'
}

/// The configured resource pack brought up to date: an absolute path, left
/// by a version that kept such, gives way to [`RES_PACK_FALLBACK`].
pub open spec fn current_pack_path(path: Option<Seq<char>>) -> Option<Seq<char>> {
    match path {
        Some(p) => if is_absolute(p) {
            Some(RES_PACK_FALLBACK@)
        } else {
            path
        },
        None => None,
    }
}

impl DataView {
    /// The root of a first run: nothing in it.
    pub open spec fn fresh() -> Self {
        DataView {
            charts: Seq::empty(),
            respacks: Seq::empty(),
            res_pack_path: None,
            read_tos_and_policy: false,
            terms_modified: None,
            favorites: FavoritesView::empty(),
        }
    }

    /// The root after the pass at start-up: the index reconciled with
    /// storage, the resource packs merged, the settings of older versions
    /// brought up to date, and the reserved folder there.
    pub open spec fn initialized(self, scan: StorageScanView) -> Self {
        DataView {
            charts: reconciled(self.charts, scan.present.to_set(), scan.imports, scan.downloads),
            respacks: merged_respacks(self.respacks, scan.respacks),
            res_pack_path: current_pack_path(self.res_pack_path),
            read_tos_and_policy: false,
            terms_modified: if self.read_tos_and_policy {
                Some(TERMS_MODIFIED@)
            } else {
                self.terms_modified
            },
            favorites: self.favorites.with_default(),
        }
    }
}

/// Puts at the end of `known` the names of `found` that `known` did not
/// hold before.
fn merge_respacks(known: &mut Vec<String>, found: Vec<String>)
    ensures
        texts(final(known)@) == merged_respacks(texts(old(known)@), texts(found@)),
{
    let had = text_set(known);
    let ghost before = texts(known@);
    let ghost all = found@;
    let ghost fresh = not_among(before);
    assert(texts(all.take(0)).filter(fresh) =~= Seq::empty());
    for name in it: found
        invariant
            it.seq() == all,
            had@ == before.to_set(),
            fresh == not_among(before),
            texts(known@) == before + texts(all.take(it.index())).filter(fresh),
    {
        let ghost k = it.index();
        let ghost done = texts(all.take(k)).filter(fresh);
        proof {
            assert(all.take(k + 1) =~= all.take(k).push(name));
            assert(texts(all.take(k).push(name)) =~= texts(all.take(k)).push(name@));
            texts(all.take(k)).lemma_filter_push(name@, fresh);
        }
        if !had.contains(name.as_str()) {
            let ghost list = known@;
            known.push(name);
            proof {
                assert(texts(list.push(name)) =~= texts(list).push(name@));
                assert(before + done.push(name@) =~= (before + done).push(name@));
            }
        }
    }
    assert(all.take(all.len() as int) =~= all);
}

impl Default for Data {
    fn default() -> (r: Data)
        ensures
            r@ == DataView::fresh(),
            r.favorites.wf(),
    {
        let r = Data {
            charts: Vec::new(),
            respacks: Vec::new(),
            res_pack_path: None,
            read_tos_and_policy: false,
            terms_modified: None,
            favorites: Favorites::new(),
        };
        assert(r@ =~= DataView::fresh());
        r
    }
}

impl Data {
    /// The pass at start-up, on what `scan` found in storage.
    ///
    /// Charts whose backing entry is gone leave the index; the entries of the
    /// two storage areas that are new and whose metadata was read are added;
    /// resource packs found are noted; settings left by older versions are
    /// brought up to date; the reserved folder is made if it is missing.
    /// Favorites are not looked through: a folder may go on naming a chart
    /// that has left the index.
    pub fn init(&mut self, scan: StorageScan)
        requires
            old(self).favorites.wf(),
        ensures
            final(self)@ == old(self)@.initialized(scan@),
            final(self)@.favorites.has_folder(default_key()),
            final(self).favorites.wf(),
    {
        let present = text_set(&scan.present);
        let mut charts: Vec<LocalChart> = Vec::new();
        std::mem::swap(&mut self.charts, &mut charts);
        let mut charts = prune(charts, &present);
        let known = known_set(&charts);
        discover(&mut charts, &known, Area::Imports, scan.imports);
        discover(&mut charts, &known, Area::Downloads, scan.downloads);
        self.charts = charts;
        merge_respacks(&mut self.respacks, scan.respacks);
        let absolute = match &self.res_pack_path {
            Some(path) => !path.as_str().is_empty() && path.as_str().get_char(0) == '/',
            None => false,
        };
        if absolute {
            self.res_pack_path = Some(RES_PACK_FALLBACK.to_string());
        }
        if self.read_tos_and_policy {
            self.terms_modified = Some(TERMS_MODIFIED.to_string());
            self.read_tos_and_policy = false;
        }
        self.favorites.ensure_default();
        assert(self@ =~= old(self)@.initialized(scan@));
    }

    /// Whether the entry `name` of `area` would become a chart in a pass that
    /// finds the paths `present`, if its metadata were read. Where this is
    /// false the metadata need not be read: the pass does not look at it.
    pub fn needs_info(&self, present: &Vec<String>, area: Area, name: &str) -> (r: bool)
        ensures
            r == is_new(
                known_paths(pruned(self@.charts, texts(present@).to_set())),
                area,
                name@,
            ),
    {
        let admitted = match area {
            Area::Imports => true,
            Area::Downloads => parse_remote_id(name).is_some(),
        };
        if !admitted {
            return false;
        }
        let local_path = local_path_for(area, name);
        proof {
            lemma_known_after_pruning(self@.charts, texts(present@).to_set(), local_path@);
        }
        !(self.find_chart_by_path(local_path.as_str()).is_some() && position_of(
            present,
            local_path.as_str(),
        ).is_some())
    }

    /// The place of the first chart in the index whose local path is
    /// `local_path`.
    pub fn find_chart_by_path(&self, local_path: &str) -> (r: Option<usize>)
        ensures
            match r {
                Some(i) => {
                    &&& i < self@.charts.len()
                    &&& self@.charts[i as int].local_path == local_path@
                    &&& forall|k: int| 0 <= k < i ==> self@.charts[k].local_path != local_path@
                },
                None => !chart_paths(self@.charts).contains(local_path@),
            },
            r is Some <==> chart_paths(self@.charts).contains(local_path@),
    {
        let ghost paths = chart_paths(self@.charts);
        let mut i: usize = 0;
        while i < self.charts.len()
            invariant
                i <= self.charts@.len(),
                paths == chart_paths(self@.charts),
                forall|k: int| 0 <= k < i ==> self@.charts[k].local_path != local_path@,
            decreases self.charts@.len() - i,
        {
            if same_text(self.charts[i].local_path.as_str(), local_path) {
                assert(paths[i as int] == local_path@);
                return Some(i);
            }
            i += 1;
        }
        assert forall|k: int| 0 <= k < paths.len() implies paths[k] != local_path@ by {
            assert(paths[k] == self@.charts[k].local_path);
        }
        None
    }
}

} // verus!
