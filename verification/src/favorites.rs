//! Favorites: named folders of chart paths, and a cover override per folder.
//!
//! A chart is known by its local path. A folder is a name and a list of
//! local paths in the order in which they were added; a path may stand in
//! any number of folders. The folder named [`DEFAULT_FAVORITES_KEY`] is
//! reserved: once made it is never deleted and never renamed.
//!
//! The model of a [`Favorites`] value is a [`FavoritesView`]: the folders as a
//! sequence of name and path list, and the covers as a sequence of folder name
//! and image path. Folder names are distinct, no path stands twice in one
//! folder, and no folder has two covers ([`FavoritesView::wf`]). Every
//! operation is stated as a function on the model.

use vstd::prelude::*;
use crate::text::{
    copy_of, lemma_without, other_than, position_of, same_text, text_of, texts, without_text,
};

verus! {

/// The name of the reserved folder.
pub const DEFAULT_FAVORITES_KEY: &'static str = "default";

/// The name of the reserved folder, as characters.
pub open spec fn default_key() -> Seq<char> {
    DEFAULT_FAVORITES_KEY@
}

/// A folder in the model: its name and its paths, oldest first.
#[verifier::ext_equal]
pub struct FolderView {
    pub name: Seq<char>,
    pub paths: Seq<Seq<char>>,
}

/// A cover override in the model: the folder it is for and the image path.
#[verifier::ext_equal]
pub struct CoverView {
    pub folder: Seq<char>,
    pub image: Seq<char>,
}

/// The model of a [`Favorites`] value.
#[verifier::ext_equal]
pub struct FavoritesView {
    pub folders: Seq<FolderView>,
    pub covers: Seq<CoverView>,
}

/// The predicate "this folder holds `path`".
pub open spec fn holds(path: Seq<char>) -> spec_fn(FolderView) -> bool {
    |f: FolderView| f.paths.contains(path)
}

/// The folder that a cover override of the model is for.
pub open spec fn folder_of() -> spec_fn(CoverView) -> Seq<char> {
    |c: CoverView| c.folder
}

/// The name of a folder of the model.
pub open spec fn name_of() -> spec_fn(FolderView) -> Seq<char> {
    |f: FolderView| f.name
}

impl FavoritesView {
    /// No folders and no covers.
    pub open spec fn empty() -> Self {
        FavoritesView { folders: Seq::empty(), covers: Seq::empty() }
    }

    /// Names are distinct, no folder lists a path twice, no folder has two
    /// covers.
    pub open spec fn wf(self) -> bool {
        &&& forall|i: int, j: int|
            0 <= i < j < self.folders.len() ==> #[trigger] self.folders[i].name
                != #[trigger] self.folders[j].name
        &&& forall|i: int|
            0 <= i < self.folders.len() ==> (#[trigger] self.folders[i]).paths.no_duplicates()
        &&& forall|i: int, j: int|
            0 <= i < j < self.covers.len() ==> #[trigger] self.covers[i].folder
                != #[trigger] self.covers[j].folder
    }

    /// The folder names, in the order in which the folders are kept.
    pub open spec fn names(self) -> Seq<Seq<char>> {
        self.folders.map_values(name_of())
    }

    /// The folder names with the reserved one first, if it is there.
    pub open spec fn all_names(self) -> Seq<Seq<char>> {
        if self.has_folder(default_key()) {
            seq![default_key()] + self.names().filter(other_than(default_key()))
        } else {
            self.names().filter(other_than(default_key()))
        }
    }

    /// Whether a folder is named `name`.
    pub open spec fn has_folder(self, name: Seq<char>) -> bool {
        exists|i: int| 0 <= i < self.folders.len() && #[trigger] self.folders[i].name == name
    }

    /// The place of the folder named `name`, where there is one.
    pub open spec fn folder_index(self, name: Seq<char>) -> int {
        choose|i: int| 0 <= i < self.folders.len() && #[trigger] self.folders[i].name == name
    }

    /// The paths of the folder named `name`; none where no folder has that
    /// name.
    pub open spec fn paths(self, name: Seq<char>) -> Seq<Seq<char>> {
        if self.has_folder(name) {
            self.folders[self.folder_index(name)].paths
        } else {
            Seq::empty()
        }
    }

    /// Whether any folder holds `path`.
    pub open spec fn is_favorited(self, path: Seq<char>) -> bool {
        exists|i: int|
            0 <= i < self.folders.len() && (#[trigger] self.folders[i]).paths.contains(path)
    }

    /// The model with the path list of the folder `name` replaced.
    pub open spec fn with_paths(self, name: Seq<char>, paths: Seq<Seq<char>>) -> Self {
        if self.has_folder(name) {
            FavoritesView {
                folders: self.folders.update(
                    self.folder_index(name),
                    FolderView { name, paths },
                ),
                covers: self.covers,
            }
        } else {
            self
        }
    }

    /// The model with an empty folder `name` put last, unless a folder of
    /// that name is there already.
    pub open spec fn with_folder(self, name: Seq<char>) -> Self {
        if self.has_folder(name) {
            self
        } else {
            FavoritesView {
                folders: self.folders.push(FolderView { name, paths: Seq::empty() }),
                covers: self.covers,
            }
        }
    }

    /// The model with the reserved folder in it.
    pub open spec fn with_default(self) -> Self {
        self.with_folder(default_key())
    }

    /// The model after `path` was added to `folder`: put last in its list,
    /// unless the list holds it already or no folder has that name.
    pub open spec fn added(self, folder: Seq<char>, path: Seq<char>) -> Self {
        if self.paths(folder).contains(path) {
            self
        } else {
            self.with_paths(folder, self.paths(folder).push(path))
        }
    }

    /// The model after `path` was taken out of `folder`.
    pub open spec fn removed(self, folder: Seq<char>, path: Seq<char>) -> Self {
        self.with_paths(folder, self.paths(folder).filter(other_than(path)))
    }

    /// Whether a toggle of `path` adds it to the reserved folder.
    pub open spec fn toggle_adds(self, path: Seq<char>) -> bool {
        !self.paths(default_key()).contains(path)
    }

    /// The model after a toggle of `path` in the reserved folder.
    pub open spec fn toggled(self, path: Seq<char>) -> Self {
        if self.toggle_adds(path) {
            self.with_default().added(default_key(), path)
        } else {
            self.with_default().removed(default_key(), path)
        }
    }

    /// Whether the folder `from` may take the name `to`: it is not the
    /// reserved folder, it is there, and no folder is named `to`.
    pub open spec fn can_rename(self, from: Seq<char>, to: Seq<char>) -> bool {
        from != default_key() && self.has_folder(from) && !self.has_folder(to)
    }

    /// The model after the folder `from` took the name `to`, where it may.
    /// The folder keeps its place and its paths; the covers stay as they are.
    pub open spec fn renamed(self, from: Seq<char>, to: Seq<char>) -> Self {
        if self.can_rename(from, to) {
            FavoritesView {
                folders: self.folders.update(
                    self.folder_index(from),
                    FolderView { name: to, paths: self.paths(from) },
                ),
                covers: self.covers,
            }
        } else {
            self
        }
    }

    /// The model without the folder `name`; unchanged where `name` is the
    /// reserved name or no folder has it. The covers stay as they are.
    pub open spec fn without_folder(self, name: Seq<char>) -> Self {
        if name != default_key() && self.has_folder(name) {
            FavoritesView {
                folders: self.folders.remove(self.folder_index(name)),
                covers: self.covers,
            }
        } else {
            self
        }
    }

    /// Whether the folder `name` has a cover override.
    pub open spec fn has_cover(self, name: Seq<char>) -> bool {
        exists|i: int| 0 <= i < self.covers.len() && #[trigger] self.covers[i].folder == name
    }

    /// The place of the cover of `name`, where there is one.
    pub open spec fn cover_index(self, name: Seq<char>) -> int {
        choose|i: int| 0 <= i < self.covers.len() && #[trigger] self.covers[i].folder == name
    }

    /// The cover override of the folder `name`.
    pub open spec fn cover(self, name: Seq<char>) -> Option<Seq<char>> {
        if self.has_cover(name) {
            Some(self.covers[self.cover_index(name)].image)
        } else {
            None
        }
    }

    /// The model with `image` as the cover of `name`, in place of the one it
    /// had, if it had one.
    pub open spec fn with_cover(self, name: Seq<char>, image: Seq<char>) -> Self {
        let entry = CoverView { folder: name, image };
        FavoritesView {
            folders: self.folders,
            covers: if self.has_cover(name) {
                self.covers.update(self.cover_index(name), entry)
            } else {
                self.covers.push(entry)
            },
        }
    }

    /// The model without a cover for `name`.
    pub open spec fn without_cover(self, name: Seq<char>) -> Self {
        if self.has_cover(name) {
            FavoritesView {
                folders: self.folders,
                covers: self.covers.remove(self.cover_index(name)),
            }
        } else {
            self
        }
    }

    /// In a well-formed model the folder at `i` is the one found under its
    /// name.
    pub proof fn lemma_folder_at(self, i: int)
        requires
            self.wf(),
            0 <= i < self.folders.len(),
        ensures
            self.has_folder(self.folders[i].name),
            self.folder_index(self.folders[i].name) == i,
            self.paths(self.folders[i].name) == self.folders[i].paths,
    {
        let name = self.folders[i].name;
        let j = self.folder_index(name);
        assert(0 <= j < self.folders.len() && self.folders[j].name == name);
        if j < i {
            assert(self.folders[j].name != self.folders[i].name);
        } else if i < j {
            assert(self.folders[i].name != self.folders[j].name);
        }
    }

    /// Making a folder keeps the model well-formed and changes the paths of
    /// no name: those of a folder just made are none, as those of a missing
    /// one are.
    pub proof fn lemma_with_folder(self, name: Seq<char>)
        requires
            self.wf(),
        ensures
            self.with_folder(name).wf(),
            self.with_folder(name).has_folder(name),
            forall|other: Seq<char>|
                other != name ==> self.with_folder(name).has_folder(other) == self.has_folder(
                    other,
                ),
            forall|other: Seq<char>|
                #[trigger] self.with_folder(name).paths(other) == self.paths(other),
    {
        let made = self.with_folder(name);
        if self.has_folder(name) {
        } else {
            let n = self.folders.len() as int;
            assert(made.folders[n].name == name);
            assert forall|i: int, j: int| 0 <= i < j < made.folders.len() implies
                #[trigger] made.folders[i].name != #[trigger] made.folders[j].name by {
                if j == n {
                    assert(self.folders[i].name != name);
                } else {
                    assert(self.folders[i].name != self.folders[j].name);
                }
            }
            assert forall|i: int| 0 <= i < made.folders.len() implies
                (#[trigger] made.folders[i]).paths.no_duplicates() by {
                if i < n {
                    assert(made.folders[i] == self.folders[i]);
                }
            }
            assert forall|other: Seq<char>| other != name implies made.has_folder(other)
                == self.has_folder(other) by {
                if self.has_folder(other) {
                    let i = self.folder_index(other);
                    assert(made.folders[i].name == other);
                }
                if made.has_folder(other) {
                    let i = made.folder_index(other);
                    assert(self.folders[i].name == other);
                }
            }
            assert forall|other: Seq<char>| #[trigger]
                made.paths(other) == self.paths(other) by {
                if other == name {
                    made.lemma_folder_at(n);
                } else if self.has_folder(other) {
                    let i = self.folder_index(other);
                    self.lemma_folder_at(i);
                    assert(made.folders[i] == self.folders[i]);
                    made.lemma_folder_at(i);
                }
            }
        }
    }

    /// Replacing the path list of a folder that is there, by a list that
    /// holds nothing twice, changes the paths of that folder and nothing
    /// else.
    pub proof fn lemma_with_paths(self, name: Seq<char>, paths: Seq<Seq<char>>)
        requires
            self.wf(),
            self.has_folder(name),
            paths.no_duplicates(),
        ensures
            self.with_paths(name, paths).wf(),
            self.with_paths(name, paths).paths(name) == paths,
            self.with_paths(name, paths).names() == self.names(),
            self.with_paths(name, paths).covers == self.covers,
            forall|other: Seq<char>|
                self.with_paths(name, paths).has_folder(other) == self.has_folder(other),
            forall|other: Seq<char>|
                other != name ==> #[trigger] self.with_paths(name, paths).paths(other)
                    == self.paths(other),
    {
        let made = self.with_paths(name, paths);
        let at = self.folder_index(name);
        assert(made.folders[at].name == name);
        assert forall|i: int, j: int| 0 <= i < j < made.folders.len() implies
            #[trigger] made.folders[i].name != #[trigger] made.folders[j].name by {
            assert(self.folders[i].name != self.folders[j].name);
        }
        assert forall|i: int| 0 <= i < made.folders.len() implies
            (#[trigger] made.folders[i]).paths.no_duplicates() by {
            if i != at {
                assert(made.folders[i] == self.folders[i]);
            }
        }
        made.lemma_folder_at(at);
        assert(made.names() =~= self.names());
        assert forall|other: Seq<char>| made.has_folder(other) == self.has_folder(other) by {
            if self.has_folder(other) {
                let i = self.folder_index(other);
                assert(made.folders[i].name == other);
            }
            if made.has_folder(other) {
                let i = made.folder_index(other);
                assert(self.folders[i].name == other);
            }
        }
        assert forall|other: Seq<char>| other != name implies #[trigger] made.paths(other)
            == self.paths(other) by {
            if self.has_folder(other) {
                let i = self.folder_index(other);
                self.lemma_folder_at(i);
                assert(made.folders[i] == self.folders[i]);
                made.lemma_folder_at(i);
            }
        }
    }

    /// Deleting a folder takes that folder away and changes no other.
    pub proof fn lemma_without_folder(self, name: Seq<char>)
        requires
            self.wf(),
        ensures
            self.without_folder(name).wf(),
            self.without_folder(name).covers == self.covers,
            name != default_key() ==> !self.without_folder(name).has_folder(name),
            forall|other: Seq<char>|
                other != name ==> self.without_folder(name).has_folder(other) == self.has_folder(
                    other,
                ),
            forall|other: Seq<char>|
                other != name ==> #[trigger] self.without_folder(name).paths(other) == self.paths(
                    other,
                ),
    {
        let left = self.without_folder(name);
        if name != default_key() && self.has_folder(name) {
            let gone = self.folder_index(name);
            self.lemma_folder_at(gone);
            assert forall|i: int| 0 <= i < left.folders.len() implies #[trigger] left.folders[i]
                == self.folders[if i < gone {
                i
            } else {
                i + 1
            }] by {}
            assert forall|i: int, j: int| 0 <= i < j < left.folders.len() implies
                #[trigger] left.folders[i].name != #[trigger] left.folders[j].name by {
                let a = if i < gone {
                    i
                } else {
                    i + 1
                };
                let b = if j < gone {
                    j
                } else {
                    j + 1
                };
                assert(self.folders[a].name != self.folders[b].name);
            }
            assert forall|i: int| 0 <= i < left.folders.len() implies
                (#[trigger] left.folders[i]).paths.no_duplicates() by {
                let a = if i < gone {
                    i
                } else {
                    i + 1
                };
                assert(self.folders[a].paths.no_duplicates());
            }
            if left.has_folder(name) {
                let i = left.folder_index(name);
                let a = if i < gone {
                    i
                } else {
                    i + 1
                };
                self.lemma_folder_at(a);
            }
            assert forall|other: Seq<char>| other != name implies left.has_folder(other)
                == self.has_folder(other) by {
                if self.has_folder(other) {
                    let a = self.folder_index(other);
                    let i = if a < gone {
                        a
                    } else {
                        a - 1
                    };
                    assert(left.folders[i] == self.folders[a]);
                }
                if left.has_folder(other) {
                    let i = left.folder_index(other);
                    let a = if i < gone {
                        i
                    } else {
                        i + 1
                    };
                    assert(self.folders[a].name == other);
                }
            }
            assert forall|other: Seq<char>| other != name implies #[trigger] left.paths(other)
                == self.paths(other) by {
                if self.has_folder(other) {
                    let a = self.folder_index(other);
                    self.lemma_folder_at(a);
                    let i = if a < gone {
                        a
                    } else {
                        a - 1
                    };
                    assert(left.folders[i] == self.folders[a]);
                    left.lemma_folder_at(i);
                }
            }
        }
    }

    /// In a well-formed model the cover at `i` is the one found under its
    /// folder's name.
    pub proof fn lemma_cover_at(self, i: int)
        requires
            self.wf(),
            0 <= i < self.covers.len(),
        ensures
            self.has_cover(self.covers[i].folder),
            self.cover_index(self.covers[i].folder) == i,
            self.cover(self.covers[i].folder) == Some(self.covers[i].image),
    {
        let name = self.covers[i].folder;
        let j = self.cover_index(name);
        assert(0 <= j < self.covers.len() && self.covers[j].folder == name);
        if j < i {
            assert(self.covers[j].folder != self.covers[i].folder);
        } else if i < j {
            assert(self.covers[i].folder != self.covers[j].folder);
        }
    }
}

#[derive(Clone, Debug)]
struct Folder {
    name: String,
    paths: Vec<String>,
}

#[derive(Clone, Debug)]
struct Cover {
    folder: String,
    image: String,
}

impl View for Folder {
    type V = FolderView;

    closed spec fn view(&self) -> FolderView {
        FolderView { name: self.name@, paths: texts(self.paths@) }
    }
}

impl View for Cover {
    type V = CoverView;

    closed spec fn view(&self) -> CoverView {
        CoverView { folder: self.folder@, image: self.image@ }
    }
}

/// The folders of a user and their cover overrides.
#[derive(Clone, Debug)]
pub struct Favorites {
    folders: Vec<Folder>,
    covers: Vec<Cover>,
}

impl View for Favorites {
    type V = FavoritesView;

    closed spec fn view(&self) -> FavoritesView {
        FavoritesView {
            folders: self.folders@.map_values(|f: Folder| f@),
            covers: self.covers@.map_values(|c: Cover| c@),
        }
    }
}

impl Default for Favorites {
    fn default() -> (r: Favorites)
        ensures
            r@ == FavoritesView::empty(),
            r.wf(),
    {
        Favorites::new()
    }
}

impl Favorites {
    /// Whether the value keeps its invariant: see [`FavoritesView::wf`].
    pub open spec fn wf(&self) -> bool {
        self@.wf()
    }

    /// Favorites with no folder and no cover.
    pub fn new() -> (r: Self)
        ensures
            r@ == FavoritesView::empty(),
            r.wf(),
    {
        let r = Favorites { folders: Vec::new(), covers: Vec::new() };
        assert(r@ =~= FavoritesView::empty());
        r
    }

    /// The place of the folder named `name`.
    fn find_folder(&self, name: &str) -> (r: Option<usize>)
        ensures
            r is Some <==> self@.has_folder(name@),
            match r {
                Some(i) => i < self.folders@.len() && self.folders@[i as int].name@ == name@,
                None => true,
            },
            self.wf() && r is Some ==> r->0 == self@.folder_index(name@),
    {
        let mut i: usize = 0;
        while i < self.folders.len()
            invariant
                i <= self.folders@.len(),
                forall|k: int| 0 <= k < i ==> self.folders@[k].name@ != name@,
            decreases self.folders@.len() - i,
        {
            if same_text(self.folders[i].name.as_str(), name) {
                proof {
                    assert(self@.folders[i as int].name == name@);
                    if self.wf() {
                        self@.lemma_folder_at(i as int);
                    }
                }
                return Some(i);
            }
            i += 1;
        }
        assert forall|k: int| 0 <= k < self@.folders.len() implies #[trigger] self@.folders[k].name
            != name@ by {
            assert(self@.folders[k] == self.folders@[k]@);
        }
        None
    }

    /// Makes the reserved folder, empty, unless it is there.
    pub fn ensure_default(&mut self)
        requires
            old(self).wf(),
        ensures
            final(self)@ == old(self)@.with_default(),
            final(self)@.has_folder(default_key()),
            final(self).wf(),
    {
        proof {
            old(self)@.lemma_with_folder(default_key());
        }
        if self.find_folder(DEFAULT_FAVORITES_KEY).is_none() {
            self.folders.push(
                Folder { name: DEFAULT_FAVORITES_KEY.to_string(), paths: Vec::new() },
            );
            proof {
                let made = FolderView { name: default_key(), paths: Seq::empty() };
                assert(self.folders@.last()@.paths =~= made.paths);
                assert(self@.folders =~= old(self)@.folders.push(made));
                assert(self@ =~= old(self)@.with_default());
            }
        }
    }

    /// Whether the reserved folder holds `local_path`.
    pub fn is_in_default(&self, local_path: &str) -> (r: bool)
        requires
            self.wf(),
        ensures
            r == self@.paths(default_key()).contains(local_path@),
    {
        match self.find_folder(DEFAULT_FAVORITES_KEY) {
            Some(i) => position_of(&self.folders[i].paths, local_path).is_some(),
            None => false,
        }
    }

    /// Whether any folder holds `local_path`.
    pub fn is_favorited(&self, local_path: &str) -> (r: bool)
        ensures
            r == self@.is_favorited(local_path@),
    {
        let mut i: usize = 0;
        while i < self.folders.len()
            invariant
                i <= self.folders@.len(),
                forall|k: int| 0 <= k < i ==> !self@.folders[k].paths.contains(local_path@),
            decreases self.folders@.len() - i,
        {
            if position_of(&self.folders[i].paths, local_path).is_some() {
                assert(self@.folders[i as int].paths.contains(local_path@));
                return true;
            }
            i += 1;
        }
        false
    }

    /// Puts `local_path` last in `folder`, unless the folder holds it
    /// already. Makes no folder: where none is named `folder`, nothing
    /// changes.
    pub fn add_to(&mut self, folder: &str, local_path: &str)
        requires
            old(self).wf(),
        ensures
            final(self)@ == old(self)@.added(folder@, local_path@),
            final(self)@.has_folder(folder@) == old(self)@.has_folder(folder@),
            old(self)@.has_folder(folder@) ==> final(self)@.paths(folder@).contains(local_path@),
            final(self).wf(),
    {
        proof {
            let list = old(self)@.paths(folder@);
            if old(self)@.has_folder(folder@) && !list.contains(local_path@) {
                assert(list.push(local_path@).no_duplicates());
                assert(list.push(local_path@)[list.len() as int] == local_path@);
                old(self)@.lemma_with_paths(folder@, list.push(local_path@));
            }
        }
        match self.find_folder(folder) {
            Some(i) => {
                if position_of(&self.folders[i].paths, local_path).is_none() {
                    let ghost list = self.folders@[i as int].paths@;
                    self.folders[i].paths.push(local_path.to_string());
                    proof {
                        let after = texts(list).push(local_path@);
                        assert(self.folders@[i as int]@.paths =~= after);
                        assert(self@.folders =~= old(self)@.folders.update(
                            i as int,
                            FolderView { name: folder@, paths: after },
                        ));
                        assert(after.no_duplicates());
                        assert(self@ =~= old(self)@.added(folder@, local_path@));
                    }
                }
            },
            None => {},
        }
    }

    /// Takes `local_path` out of `folder`. Where no folder is named `folder`,
    /// or the folder does not hold the path, nothing changes.
    pub fn remove_from(&mut self, folder: &str, local_path: &str)
        requires
            old(self).wf(),
        ensures
            final(self)@ == old(self)@.removed(folder@, local_path@),
            final(self)@.has_folder(folder@) == old(self)@.has_folder(folder@),
            !final(self)@.paths(folder@).contains(local_path@),
            final(self).wf(),
    {
        proof {
            let list = old(self)@.paths(folder@);
            lemma_without(list, local_path@);
            if old(self)@.has_folder(folder@) {
                old(self)@.lemma_with_paths(folder@, list.filter(other_than(local_path@)));
            }
        }
        match self.find_folder(folder) {
            Some(i) => {
                let ghost list = self.folders@[i as int].paths@;
                let mut paths: Vec<String> = Vec::new();
                std::mem::swap(&mut self.folders[i].paths, &mut paths);
                self.folders[i].paths = without_text(paths, local_path);
                proof {
                    let after = texts(list).filter(other_than(local_path@));
                    lemma_without(texts(list), local_path@);
                    assert(self@.folders =~= old(self)@.folders.update(
                        i as int,
                        FolderView { name: folder@, paths: after },
                    ));
                    assert(self@ =~= old(self)@.removed(folder@, local_path@));
                }
            },
            None => {},
        }
    }

    /// Takes `local_path` out of the reserved folder if it is there, and puts
    /// it there if it is not; makes the reserved folder first if it is
    /// missing. Returns whether the path was put in.
    pub fn toggle_default(&mut self, local_path: &str) -> (r: bool)
        requires
            old(self).wf(),
        ensures
            r == old(self)@.toggle_adds(local_path@),
            final(self)@ == old(self)@.toggled(local_path@),
            final(self)@.paths(default_key()).contains(local_path@) == r,
            final(self)@.has_folder(default_key()),
            final(self).wf(),
    {
        self.ensure_default();
        proof {
            old(self)@.lemma_with_folder(default_key());
        }
        if self.is_in_default(local_path) {
            self.remove_from(DEFAULT_FAVORITES_KEY, local_path);
            false
        } else {
            self.add_to(DEFAULT_FAVORITES_KEY, local_path);
            true
        }
    }

    /// The names of the folders other than the reserved one, in the order in
    /// which the folders are kept.
    pub fn custom_folder_names(&self) -> (r: Vec<String>)
        ensures
            texts(r@) == self@.names().filter(other_than(default_key())),
    {
        let mut names: Vec<String> = Vec::new();
        let ghost all = self@.names();
        let ghost custom = other_than(default_key());
        assert(all.take(0).filter(custom) =~= Seq::empty());
        let mut i: usize = 0;
        while i < self.folders.len()
            invariant
                i <= self.folders@.len(),
                all == self@.names(),
                custom == other_than(default_key()),
                texts(names@) == all.take(i as int).filter(custom),
            decreases self.folders@.len() - i,
        {
            proof {
                assert(all[i as int] == self.folders@[i as int].name@);
                assert(all.take(i + 1) =~= all.take(i as int).push(all[i as int]));
                all.take(i as int).lemma_filter_push(all[i as int], custom);
            }
            if !same_text(self.folders[i].name.as_str(), DEFAULT_FAVORITES_KEY) {
                let ghost list = names@;
                let name = self.folders[i].name.clone();
                names.push(name);
                assert(texts(list.push(name)) =~= texts(list).push(name@));
            }
            i += 1;
        }
        assert(all.take(all.len() as int) =~= all);
        names
    }

    /// The names of all folders: the reserved one first, if it is there, then
    /// the others in the order in which the folders are kept.
    pub fn all_folder_names(&self) -> (r: Vec<String>)
        ensures
            texts(r@) == self@.all_names(),
    {
        let mut names: Vec<String> = Vec::new();
        if self.find_folder(DEFAULT_FAVORITES_KEY).is_some() {
            names.push(DEFAULT_FAVORITES_KEY.to_string());
        }
        let ghost head = texts(names@);
        assert(head =~= if self@.has_folder(default_key()) {
            seq![default_key()]
        } else {
            Seq::empty()
        });
        let mut custom = self.custom_folder_names();
        let ghost first = names@;
        let ghost second = custom@;
        names.append(&mut custom);
        assert(texts(first + second) =~= texts(first) + texts(second));
        names
    }

    /// The paths of `folder`, oldest first; none where no folder has that
    /// name.
    pub fn get_paths(&self, folder: &str) -> (r: Vec<String>)
        requires
            self.wf(),
        ensures
            texts(r@) == self@.paths(folder@),
    {
        match self.find_folder(folder) {
            Some(i) => copy_of(&self.folders[i].paths),
            None => {
                let none: Vec<String> = Vec::new();
                assert(texts(none@) =~= Seq::empty());
                none
            },
        }
    }

    /// Deletes `folder` and forgets its paths, unless it is the reserved
    /// folder. The paths stay in the other folders that hold them, and a
    /// cover override of the folder stays until [`Self::remove_cover`] takes
    /// it away.
    pub fn delete_folder(&mut self, folder: &str)
        requires
            old(self).wf(),
        ensures
            final(self)@ == old(self)@.without_folder(folder@),
            final(self)@.covers == old(self)@.covers,
            folder@ != default_key() ==> !final(self)@.has_folder(folder@),
            forall|other: Seq<char>|
                other != folder@ ==> final(self)@.has_folder(other) == old(self)@.has_folder(
                    other,
                ),
            forall|other: Seq<char>|
                other != folder@ ==> #[trigger] final(self)@.paths(other) == old(self)@.paths(
                    other,
                ),
            final(self).wf(),
    {
        proof {
            old(self)@.lemma_without_folder(folder@);
        }
        if !same_text(folder, DEFAULT_FAVORITES_KEY) {
            match self.find_folder(folder) {
                Some(i) => {
                    self.folders.remove(i);
                    proof {
                        assert(self@.folders =~= old(self)@.folders.remove(i as int));
                        assert(self@ =~= old(self)@.without_folder(folder@));
                    }
                },
                None => {},
            }
        }
    }

    /// Gives the folder `old_name` the name `new_name` and returns `true`;
    /// returns `false` and changes nothing where `old_name` is the reserved
    /// name, no folder is named `old_name`, or a folder is named `new_name`
    /// already. A cover override stays under the old name.
    pub fn rename_folder(&mut self, old_name: &str, new_name: &str) -> (r: bool)
        requires
            old(self).wf(),
        ensures
            r == old(self)@.can_rename(old_name@, new_name@),
            final(self)@ == old(self)@.renamed(old_name@, new_name@),
            old_name@ == default_key() ==> !r,
            old(self)@.has_folder(new_name@) ==> !r,
            !r ==> final(self)@ == old(self)@,
            final(self).wf(),
    {
        if same_text(old_name, DEFAULT_FAVORITES_KEY) || self.find_folder(new_name).is_some() {
            return false;
        }
        match self.find_folder(old_name) {
            Some(i) => {
                self.folders[i].name = new_name.to_string();
                proof {
                    assert(self@.folders =~= old(self)@.folders.update(
                        i as int,
                        FolderView { name: new_name@, paths: old(self)@.paths(old_name@) },
                    ));
                    assert(self@ =~= old(self)@.renamed(old_name@, new_name@));
                    assert forall|a: int, b: int| 0 <= a < b < self@.folders.len() implies
                        #[trigger] self@.folders[a].name != #[trigger] self@.folders[b].name by {
                        assert(old(self)@.folders[a].name != old(self)@.folders[b].name);
                    }
                }
                true
            },
            None => false,
        }
    }

    /// Makes an empty folder `name` and returns `true`; returns `false` and
    /// changes nothing where a folder of that name is there.
    pub fn create_folder(&mut self, name: &str) -> (r: bool)
        requires
            old(self).wf(),
        ensures
            r == !old(self)@.has_folder(name@),
            final(self)@ == old(self)@.with_folder(name@),
            !r ==> final(self)@ == old(self)@,
            final(self)@.has_folder(name@),
            final(self).wf(),
    {
        proof {
            old(self)@.lemma_with_folder(name@);
        }
        if self.find_folder(name).is_some() {
            return false;
        }
        self.folders.push(Folder { name: name.to_string(), paths: Vec::new() });
        proof {
            let made = FolderView { name: name@, paths: Seq::empty() };
            assert(self.folders@.last()@.paths =~= made.paths);
            assert(self@.folders =~= old(self)@.folders.push(made));
            assert(self@ =~= old(self)@.with_folder(name@));
        }
        true
    }

    /// The names of the folders that hold `local_path`, in the order in which
    /// the folders are kept.
    pub fn folders_containing(&self, local_path: &str) -> (r: Vec<String>)
        ensures
            texts(r@) == self@.folders.filter(holds(local_path@)).map_values(name_of()),
    {
        let mut names: Vec<String> = Vec::new();
        let ghost all = self@.folders;
        let ghost with_it = holds(local_path@);
        assert(all.take(0).filter(with_it) =~= Seq::empty());
        assert(texts(names@) =~= all.take(0).filter(with_it).map_values(name_of()));
        let mut i: usize = 0;
        while i < self.folders.len()
            invariant
                i <= self.folders@.len(),
                all == self@.folders,
                with_it == holds(local_path@),
                texts(names@) == all.take(i as int).filter(with_it).map_values(name_of()),
            decreases self.folders@.len() - i,
        {
            let ghost found = all.take(i as int).filter(with_it);
            proof {
                assert(all[i as int] == self.folders@[i as int]@);
                assert(all.take(i + 1) =~= all.take(i as int).push(all[i as int]));
                all.take(i as int).lemma_filter_push(all[i as int], with_it);
            }
            if position_of(&self.folders[i].paths, local_path).is_some() {
                let ghost list = names@;
                let name = self.folders[i].name.clone();
                names.push(name);
                proof {
                    assert(texts(list.push(name)) =~= texts(list).push(name@));
                    assert(found.push(all[i as int]).map_values(name_of()) =~= found.map_values(
                        name_of(),
                    ).push(name@));
                }
            }
            i += 1;
        }
        assert(all.take(all.len() as int) =~= all);
        names
    }

    /// The place of the cover override of `folder`.
    fn find_cover(&self, folder: &str) -> (r: Option<usize>)
        ensures
            r is Some <==> self@.has_cover(folder@),
            match r {
                Some(i) => i < self.covers@.len() && self.covers@[i as int].folder@ == folder@,
                None => true,
            },
            self.wf() && r is Some ==> r->0 == self@.cover_index(folder@),
    {
        let mut i: usize = 0;
        while i < self.covers.len()
            invariant
                i <= self.covers@.len(),
                forall|k: int| 0 <= k < i ==> self.covers@[k].folder@ != folder@,
            decreases self.covers@.len() - i,
        {
            if same_text(self.covers[i].folder.as_str(), folder) {
                proof {
                    assert(self@.covers[i as int].folder == folder@);
                    if self.wf() {
                        self@.lemma_cover_at(i as int);
                    }
                }
                return Some(i);
            }
            i += 1;
        }
        assert forall|k: int| 0 <= k < self@.covers.len() implies #[trigger] self@.covers[k].folder
            != folder@ by {
            assert(self@.covers[k] == self.covers@[k]@);
        }
        None
    }

    /// The cover override of `folder`: the path of an image.
    pub fn cover(&self, folder: &str) -> (r: Option<String>)
        requires
            self.wf(),
        ensures
            text_of(r) == self@.cover(folder@),
    {
        match self.find_cover(folder) {
            Some(i) => Some(self.covers[i].image.clone()),
            None => None,
        }
    }

    /// Makes `image` the cover override of `folder`, in place of the one it
    /// had. Whether a folder of that name is there is not asked.
    pub fn set_cover(&mut self, folder: &str, image: &str)
        requires
            old(self).wf(),
        ensures
            final(self)@ == old(self)@.with_cover(folder@, image@),
            final(self).wf(),
    {
        let ghost entry = CoverView { folder: folder@, image: image@ };
        match self.find_cover(folder) {
            Some(i) => {
                self.covers[i].image = image.to_string();
                proof {
                    assert(self@.covers =~= old(self)@.covers.update(i as int, entry));
                    assert(self@ =~= old(self)@.with_cover(folder@, image@));
                    assert forall|a: int, b: int| 0 <= a < b < self@.covers.len() implies
                        #[trigger] self@.covers[a].folder != #[trigger] self@.covers[b].folder by {
                        assert(old(self)@.covers[a].folder != old(self)@.covers[b].folder);
                    }
                }
            },
            None => {
                self.covers.push(Cover { folder: folder.to_string(), image: image.to_string() });
                proof {
                    assert(self@.covers =~= old(self)@.covers.push(entry));
                    assert(self@ =~= old(self)@.with_cover(folder@, image@));
                }
            },
        }
    }

    /// Takes the cover override of `folder` away and returns it.
    pub fn remove_cover(&mut self, folder: &str) -> (r: Option<String>)
        requires
            old(self).wf(),
        ensures
            text_of(r) == old(self)@.cover(folder@),
            final(self)@ == old(self)@.without_cover(folder@),
            final(self).wf(),
    {
        match self.find_cover(folder) {
            Some(i) => {
                let gone = self.covers.remove(i);
                proof {
                    assert(gone@ == old(self)@.covers[i as int]);
                    assert(self@.covers =~= old(self)@.covers.remove(i as int));
                    assert(self@ =~= old(self)@.without_cover(folder@));
                }
                Some(gone.image)
            },
            None => None,
        }
    }

    /// The names under which cover overrides are kept, in the order in which
    /// they are kept.
    pub fn cover_folders(&self) -> (r: Vec<String>)
        ensures
            texts(r@) == self@.covers.map_values(folder_of()),
    {
        let mut names: Vec<String> = Vec::new();
        let ghost all = self@.covers.map_values(folder_of());
        let mut i: usize = 0;
        while i < self.covers.len()
            invariant
                i <= self.covers@.len(),
                all == self@.covers.map_values(folder_of()),
                texts(names@) == all.take(i as int),
            decreases self.covers@.len() - i,
        {
            let ghost list = names@;
            let name = self.covers[i].folder.clone();
            names.push(name);
            proof {
                assert(all[i as int] == name@);
                assert(texts(list.push(name)) =~= texts(list).push(name@));
                assert(all.take(i + 1) =~= all.take(i as int).push(all[i as int]));
            }
            i += 1;
        }
        assert(all.take(all.len() as int) =~= all);
        names
    }
}

} // verus!
