//! What the folders page decides: whether a name that the user typed may be
//! used, and which picture stands for a folder.
//!
//! Drawing and input stay with the caller. After each command that changed
//! the favorites the caller writes the root back to storage.

use vstd::prelude::*;
use crate::chart::chart_paths;
use crate::data::{Data, DataView};
use crate::favorites::{Favorites, FavoritesView};
use crate::text::{text_of, texts};

verus! {

/// Why a folder name was turned down.
#[derive(Clone, Copy, Debug, PartialEq, Eq, Structural)]
pub enum NameError {
    /// Nothing is left of the name once the white space around it is gone.
    Empty,
    /// The name is taken, or the folder to rename cannot be renamed.
    Exists,
}

/// What is left of `text` when the white space before and after it is taken
/// away, as `str::trim` does it.
pub uninterp spec fn trimmed(text: Seq<char>) -> Seq<char>;

/// Calls `str::trim` and copies what it returns: `text` without the white
/// space at its two ends, white space being what Unicode calls so.
#[verifier::external_body]
fn trim(text: &str) -> (r: String)
    ensures
        r@ == trimmed(text@),
{
    text.trim().to_string()
}

impl FavoritesView {
    /// Why `name` cannot be the name of a new folder, if it cannot.
    pub open spec fn create_error(self, name: Seq<char>) -> Option<NameError> {
        if name.len() == 0 {
            Some(NameError::Empty)
        } else if self.has_folder(name) {
            Some(NameError::Exists)
        } else {
            None
        }
    }

    /// Why the folder `from` cannot take the name `to`, if it cannot.
    pub open spec fn rename_error(self, from: Seq<char>, to: Seq<char>) -> Option<NameError> {
        if to.len() == 0 {
            Some(NameError::Empty)
        } else if !self.can_rename(from, to) {
            Some(NameError::Exists)
        } else {
            None
        }
    }

    /// The model with the cover override of `from`, if there is one, put
    /// under the name `to`.
    pub open spec fn with_cover_moved(self, from: Seq<char>, to: Seq<char>) -> Self {
        match self.cover(from) {
            Some(image) => self.without_cover(from).with_cover(to, image),
            None => self,
        }
    }

    /// The model after the user asked for a folder `name`.
    pub open spec fn after_create(self, name: Seq<char>) -> Self {
        if self.create_error(name) is None {
            self.with_folder(name)
        } else {
            self
        }
    }

    /// The model after the user asked to call the folder `from` `to`: the
    /// folder renamed and its cover override under the new name.
    pub open spec fn after_rename(self, from: Seq<char>, to: Seq<char>) -> Self {
        if self.rename_error(from, to) is None {
            self.renamed(from, to).with_cover_moved(from, to)
        } else {
            self
        }
    }
}

impl Favorites {
    /// Makes the folder `name`, unless the name is empty or taken.
    pub fn create_named(&mut self, name: &str) -> (r: Result<(), NameError>)
        requires
            old(self).wf(),
        ensures
            r == match old(self)@.create_error(name@) {
                Some(e) => Err::<(), NameError>(e),
                None => Ok(()),
            },
            final(self)@ == old(self)@.after_create(name@),
            r is Ok ==> final(self)@.has_folder(name@),
            final(self).wf(),
    {
        if name.is_empty() {
            return Err(NameError::Empty);
        }
        if self.create_folder(name) {
            Ok(())
        } else {
            Err(NameError::Exists)
        }
    }

    /// Gives the folder `from` the name `to` and puts its cover override
    /// under the new name, unless `to` is empty or the folder cannot be
    /// renamed so.
    pub fn rename_named(&mut self, from: &str, to: &str) -> (r: Result<(), NameError>)
        requires
            old(self).wf(),
        ensures
            r == match old(self)@.rename_error(from@, to@) {
                Some(e) => Err::<(), NameError>(e),
                None => Ok(()),
            },
            final(self)@ == old(self)@.after_rename(from@, to@),
            final(self).wf(),
    {
        if to.is_empty() {
            return Err(NameError::Empty);
        }
        if !self.rename_folder(from, to) {
            return Err(NameError::Exists);
        }
        match self.remove_cover(from) {
            Some(image) => {
                self.set_cover(to, image.as_str());
            },
            None => {},
        }
        Ok(())
    }

    /// Makes a folder of the name that the user typed: `text` without the
    /// white space around it. Returns the name of the folder made.
    pub fn create_from_input(&mut self, text: &str) -> (r: Result<String, NameError>)
        requires
            old(self).wf(),
        ensures
            match r {
                Ok(name) => name@ == trimmed(text@) && old(self)@.create_error(trimmed(text@))
                    is None,
                Err(e) => old(self)@.create_error(trimmed(text@)) == Some(e),
            },
            final(self)@ == old(self)@.after_create(trimmed(text@)),
            final(self).wf(),
    {
        let name = trim(text);
        match self.create_named(name.as_str()) {
            Ok(_) => Ok(name),
            Err(e) => Err(e),
        }
    }

    /// Gives the folder `from` the name that the user typed: `text` without
    /// the white space around it. Returns the new name.
    pub fn rename_from_input(&mut self, from: &str, text: &str) -> (r: Result<String, NameError>)
        requires
            old(self).wf(),
        ensures
            match r {
                Ok(name) => name@ == trimmed(text@) && old(self)@.rename_error(
                    from@,
                    trimmed(text@),
                ) is None,
                Err(e) => old(self)@.rename_error(from@, trimmed(text@)) == Some(e),
            },
            final(self)@ == old(self)@.after_rename(from@, trimmed(text@)),
            final(self).wf(),
    {
        let name = trim(text);
        match self.rename_named(from, name.as_str()) {
            Ok(_) => Ok(name),
            Err(e) => Err(e),
        }
    }
}

/// The picture that stands for a folder.
#[derive(Clone, Debug, PartialEq, Eq)]
pub enum CoverSource {
    /// The image that the user chose, by its path.
    Custom(String),
    /// The illustration of a chart, by its local path.
    Chart(String),
    /// No picture of its own.
    Blank,
}

/// The model of a [`CoverSource`].
pub enum CoverSourceView {
    Custom(Seq<char>),
    Chart(Seq<char>),
    Blank,
}

impl View for CoverSource {
    type V = CoverSourceView;

    open spec fn view(&self) -> CoverSourceView {
        match self {
            CoverSource::Custom(image) => CoverSourceView::Custom(image@),
            CoverSource::Chart(path) => CoverSourceView::Chart(path@),
            CoverSource::Blank => CoverSourceView::Blank,
        }
    }
}

/// A card of the folders page: the folder it opens, or `None` for the card
/// that shows all charts, and its picture.
#[derive(Clone, Debug, PartialEq, Eq)]
pub struct FolderCard {
    pub folder: Option<String>,
    pub cover: CoverSource,
}

/// The model of a [`FolderCard`].
pub struct FolderCardView {
    pub folder: Option<Seq<char>>,
    pub cover: CoverSourceView,
}

impl View for FolderCard {
    type V = FolderCardView;

    open spec fn view(&self) -> FolderCardView {
        FolderCardView { folder: text_of(self.folder), cover: self.cover@ }
    }
}

/// The models of the cards of a list, in order.
pub open spec fn card_views(cards: Seq<FolderCard>) -> Seq<FolderCardView> {
    cards.map_values(|c: FolderCard| c@)
}

/// The predicate "is in `list`".
pub open spec fn among(list: Seq<Seq<char>>) -> spec_fn(Seq<char>) -> bool {
    |p: Seq<char>| list.contains(p)
}

/// The last of `paths` that is among `known`.
pub open spec fn last_known(paths: Seq<Seq<char>>, known: Seq<Seq<char>>) -> Option<Seq<char>> {
    let hits = paths.filter(among(known));
    if hits.len() > 0 {
        Some(hits.last())
    } else {
        None
    }
}

/// The last known path of a list is its last path if that is known, and the
/// last known path of the others if it is not.
proof fn lemma_last_known(paths: Seq<Seq<char>>, known: Seq<Seq<char>>)
    requires
        paths.len() > 0,
    ensures
        last_known(paths, known) == if known.contains(paths.last()) {
            Some(paths.last())
        } else {
            last_known(paths.drop_last(), known)
        },
{
    assert(paths =~= paths.drop_last().push(paths.last()));
    paths.drop_last().lemma_filter_push(paths.last(), among(known));
}

impl DataView {
    /// The chart that was put into `folder` last, of those that the index
    /// still has.
    pub open spec fn last_chart_path(self, folder: Seq<char>) -> Option<Seq<char>> {
        last_known(self.favorites.paths(folder), chart_paths(self.charts))
    }

    /// The picture for `folder`: its cover override where it has one, else
    /// the chart put into it last that the index still has, else none.
    pub open spec fn cover_source(self, folder: Seq<char>) -> CoverSourceView {
        match self.favorites.cover(folder) {
            Some(image) => CoverSourceView::Custom(image),
            None => match self.last_chart_path(folder) {
                Some(path) => CoverSourceView::Chart(path),
                None => CoverSourceView::Blank,
            },
        }
    }

    /// The card of the folder `name`.
    pub open spec fn card_of(self) -> spec_fn(Seq<char>) -> FolderCardView {
        |name: Seq<char>| FolderCardView { folder: Some(name), cover: self.cover_source(name) }
    }

    /// The cards of the page: the one that shows all charts, then one for
    /// each folder, the reserved folder first.
    pub open spec fn cards(self) -> Seq<FolderCardView> {
        seq![FolderCardView { folder: None, cover: CoverSourceView::Blank }]
            + self.favorites.all_names().map_values(self.card_of())
    }
}

impl Data {
    /// The local path of the chart that was put into `folder` last, of those
    /// that the index still has. A folder may name charts that have left the
    /// index; they are passed over.
    pub fn last_chart_path(&self, folder: &str) -> (r: Option<String>)
        requires
            self.favorites.wf(),
        ensures
            text_of(r) == self@.last_chart_path(folder@),
    {
        let paths = self.favorites.get_paths(folder);
        let ghost all = texts(paths@);
        let ghost known = chart_paths(self@.charts);
        let mut i: usize = paths.len();
        assert(all.take(i as int) =~= all);
        while i > 0
            invariant
                i <= paths@.len(),
                all == texts(paths@),
                all == self@.favorites.paths(folder@),
                known == chart_paths(self@.charts),
                last_known(all, known) == last_known(all.take(i as int), known),
            decreases i,
        {
            i -= 1;
            proof {
                lemma_last_known(all.take(i + 1), known);
                assert(all.take(i + 1).drop_last() =~= all.take(i as int));
                assert(all.take(i + 1).last() == all[i as int]);
                assert(all[i as int] == paths@[i as int]@);
            }
            if self.find_chart_by_path(paths[i].as_str()).is_some() {
                return Some(paths[i].clone());
            }
        }
        assert(all.take(0).filter(among(known)) =~= Seq::empty());
        None
    }

    /// The picture that stands for `folder`.
    pub fn cover_source(&self, folder: &str) -> (r: CoverSource)
        requires
            self.favorites.wf(),
        ensures
            r@ == self@.cover_source(folder@),
    {
        match self.favorites.cover(folder) {
            Some(image) => CoverSource::Custom(image),
            None => match self.last_chart_path(folder) {
                Some(path) => CoverSource::Chart(path),
                None => CoverSource::Blank,
            },
        }
    }

    /// The cards of the folders page, in the order in which it shows them.
    pub fn folder_cards(&self) -> (r: Vec<FolderCard>)
        requires
            self.favorites.wf(),
        ensures
            card_views(r@) == self@.cards(),
    {
        let mut cards: Vec<FolderCard> = Vec::new();
        cards.push(FolderCard { folder: None, cover: CoverSource::Blank });
        let names = self.favorites.all_folder_names();
        let ghost all = texts(names@);
        let ghost head = seq![FolderCardView { folder: None, cover: CoverSourceView::Blank }];
        let ghost card_of = self@.card_of();
        assert(card_views(cards@) =~= head + all.take(0).map_values(card_of));
        let mut i: usize = 0;
        while i < names.len()
            invariant
                i <= names@.len(),
                self.favorites.wf(),
                all == texts(names@),
                card_of == self@.card_of(),
                head == seq![FolderCardView { folder: None, cover: CoverSourceView::Blank }],
                card_views(cards@) == head + all.take(i as int).map_values(card_of),
            decreases names@.len() - i,
        {
            let ghost list = cards@;
            let cover = self.cover_source(names[i].as_str());
            let card = FolderCard { folder: Some(names[i].clone()), cover };
            cards.push(card);
            proof {
                assert(card@ == card_of(all[i as int]));
                assert(card_views(list.push(card)) =~= card_views(list).push(card@));
                assert(all.take(i + 1) =~= all.take(i as int).push(all[i as int]));
                assert(all.take(i as int).push(all[i as int]).map_values(card_of) =~= all.take(
                    i as int,
                ).map_values(card_of).push(card@));
            }
            i += 1;
        }
        assert(all.take(all.len() as int) =~= all);
        cards
    }
}

} // verus!
