use vstd::prelude::*;

use crate::keys::KeySet;
use crate::path::{canonical_join, join_spec, PathModel, VirtualPath};
use crate::scene::Slide;

verus! {

/// Why a move to another slide was refused.
pub enum NavigationError {
    /// The resolved location is not a directory of the story.
    NoSuchLocation,
    /// The slide there could not be read; the message says why.
    BadScene(String),
}

/// The player's state: where they are, which keys they hold, and the slide shown.
pub struct Game {
    pub location: VirtualPath,
    pub keys: KeySet,
    pub slide: Slide,
}

/// What is kept between runs: the location and the keys held.
pub struct SaveFile {
    pub location: VirtualPath,
    pub keys: KeySet,
}

impl SaveFile {
    pub open spec fn view_record(&self) -> (PathModel, Set<Seq<char>>) {
        (self.location@, self.keys@)
    }

    /// The record of a game.
    pub fn from(game: &Game) -> (r: SaveFile)
        ensures
            r.view_record() == game.view_record(),
    {
        SaveFile { location: game.location.clone_path(), keys: game.keys.clone_set() }
    }

    /// A fresh start: the story root with no keys.
    pub fn default() -> (r: SaveFile)
        ensures
            r.view_record() == ((true, Seq::<Seq<char>>::empty()), Set::<Seq<char>>::empty()),
    {
        SaveFile { location: VirtualPath::root(), keys: KeySet::new() }
    }
}

impl Game {
    pub open spec fn view_record(&self) -> (PathModel, Set<Seq<char>>) {
        (self.location@, self.keys@)
    }

    /// Starts a game from a save record and the slide read at its location.
    pub fn try_from(value: SaveFile, slide: Result<Slide, String>) -> (r: Result<Game, String>)
        ensures
            slide is Err <==> r is Err,
            slide is Err ==> r->Err_0 == slide->Err_0,
            r is Ok ==> r->Ok_0.view_record() == value.view_record() && slide == Ok::<Slide, String>(r->Ok_0.slide),
    {
        match slide {
            Ok(s) => Ok(Game { location: value.location, keys: value.keys, slide: s }),
            Err(e) => Err(e),
        }
    }

    /// The location that `path` names when followed from here.
    pub fn cd(&self, path: &VirtualPath) -> (r: VirtualPath)
        ensures
            r@ == join_spec(self.location@, path@),
    {
        canonical_join(&self.location, path)
    }

    /// Moves to the slide that `path` names from here. `is_dir` tells whether
    /// that location is a directory of the story, and `slide` what reading its
    /// slide gave. On failure nothing changes.
    pub fn goto(&mut self, path: &VirtualPath, is_dir: bool, slide: Result<Slide, String>) -> (r: Result<
        (),
        NavigationError,
    >)
        ensures
            r is Ok <==> is_dir && slide is Ok,
            !is_dir ==> r matches Err(NavigationError::NoSuchLocation),
            is_dir && slide is Err ==> r == Err::<(), NavigationError>(
                NavigationError::BadScene(slide->Err_0),
            ),
            r is Err ==> *final(self) == *old(self),
            r is Ok ==> final(self).location@ == join_spec(old(self).location@, path@)
                && final(self).keys == old(self).keys && slide == Ok::<Slide, String>(final(self).slide),
    {
        let new_location = self.cd(path);
        if !is_dir {
            return Err(NavigationError::NoSuchLocation);
        }
        match slide {
            Ok(s) => {
                self.slide = s;
                self.location = new_location;
                Ok(())
            },
            Err(e) => Err(NavigationError::BadScene(e)),
        }
    }

    /// Takes the keys that a click adds, then drops those that it removes.
    pub fn apply_keys(&mut self, adds: &KeySet, removes: &KeySet)
        ensures
            final(self).keys@ == old(self).keys@.union(adds@).difference(removes@),
            final(self).location == old(self).location,
            final(self).slide == old(self).slide,
    {
        self.keys.extend(adds);
        self.keys.remove_all(removes);
    }
}

/// Saving a game and starting again from the record gives back its location
/// and its keys; the slide is read anew and not part of the record.
pub proof fn lemma_save_round_trip(game: Game, saved: SaveFile, restored: Game)
    requires
        saved.view_record() == game.view_record(),
        restored.view_record() == saved.view_record(),
    ensures
        restored.location@ == game.location@,
        restored.keys@ == game.keys@,
{
}

} // verus!
