use vstd::prelude::*;

use crate::coords::{Coords, Ratio};
use crate::keys::KeySet;
use crate::path::VirtualPath;

verus! {

/// Which placeholder stands in for an image that cannot be loaded.
#[derive(Clone, Copy, Debug, PartialEq, Eq)]
pub enum FallbackAsset {
    Background,
    Clickable,
    Nonclickable,
}

pub open spec fn fallback_dir() -> Seq<char> {
    seq!['f', 'a', 'l', 'l', 'b', 'a', 'c', 'k']
}

pub open spec fn fallback_background() -> Seq<char> {
    seq!['b', 'g', '.', 'b', 'm', 'p']
}

pub open spec fn fallback_clickable() -> Seq<char> {
    seq!['c', 'l', 'i', 'c', 'k', 'a', 'b', 'l', 'e', '.', 'b', 'm', 'p']
}

impl FallbackAsset {
    /// The placeholder's path inside the story root; clickable and decorative
    /// images share one bitmap.
    pub open spec fn path_spec(self) -> (bool, Seq<Seq<char>>) {
        match self {
            FallbackAsset::Background => (false, seq![fallback_dir(), fallback_background()]),
            _ => (false, seq![fallback_dir(), fallback_clickable()]),
        }
    }

    pub fn into_pathbuf(self) -> (r: VirtualPath)
        ensures
            r@ == self.path_spec(),
    {
        proof {
            reveal_strlit("fallback");
            reveal_strlit("bg.bmp");
            reveal_strlit("clickable.bmp");
            assert("fallback"@ =~= fallback_dir());
            assert("bg.bmp"@ =~= fallback_background());
            assert("clickable.bmp"@ =~= fallback_clickable());
        }
        let mut segments: Vec<String> = Vec::new();
        segments.push(String::from_str("fallback"));
        match self {
            FallbackAsset::Background => segments.push(String::from_str("bg.bmp")),
            _ => segments.push(String::from_str("clickable.bmp")),
        }
        let r = VirtualPath { rooted: false, segments };
        assert(r@.1 =~= self.path_spec().1);
        r
    }
}

/// A purely decorative image.
pub struct Nonclickable {
    pub image_path: VirtualPath,
    pub position: Coords<Ratio>,
    pub anchor: Coords<Ratio>,
    pub offset: Coords<i32>,
}

/// An image that can be clicked to move to another slide.
pub struct Clickable {
    pub image_path: VirtualPath,
    pub slide_path: VirtualPath,
    pub position: Coords<Ratio>,
    pub anchor: Coords<Ratio>,
    pub offset: Coords<i32>,
    pub adds_keys: KeySet,
    pub removes_keys: KeySet,
    /// Keys that must all be held for the clickable to be shown.
    pub must_have_keys: KeySet,
    /// Declared by stories but not consulted when a slide is drawn.
    pub mustnt_have_keys: KeySet,
}

/// One screen of the story.
pub struct Slide {
    pub background_path: VirtualPath,
    pub nonclickables: Vec<Nonclickable>,
    pub clickables: Vec<Clickable>,
}

impl Nonclickable {
    pub open spec fn wf(&self) -> bool {
        self.position.x.wf() && self.position.y.wf() && self.anchor.x.wf() && self.anchor.y.wf()
    }
}

impl Clickable {
    pub open spec fn wf(&self) -> bool {
        self.position.x.wf() && self.position.y.wf() && self.anchor.x.wf() && self.anchor.y.wf()
    }
}

impl Slide {
    /// Every placement ratio of the slide is within bounds.
    pub open spec fn wf(&self) -> bool {
        &&& forall|i: int| 0 <= i < self.nonclickables@.len() ==> (#[trigger] self.nonclickables@[i]).wf()
        &&& forall|i: int| 0 <= i < self.clickables@.len() ==> (#[trigger] self.clickables@[i]).wf()
    }

    /// A small slide that shows every field, for story authors to copy.
    pub fn example() -> (r: Slide)
        ensures
            r.wf(),
            r.background_path@ == (false, seq![seq!['p', 'a', 't', 'h']]),
            r.nonclickables.len() == 1,
            r.nonclickables@[0].image_path@ == (false, seq![seq!['p', 'a', 't', 'h', '2']]),
            r.nonclickables@[0].position == origin(),
            r.nonclickables@[0].anchor == origin(),
            r.nonclickables@[0].offset == (Coords { x: 0i32, y: 0i32 }),
            r.clickables.len() == 1,
            r.clickables@[0].image_path@ == (false, seq![seq!['p', 'a', 't', 'h', '3']]),
            r.clickables@[0].slide_path@ == (false, seq![seq!['p', 'a', 't', 'h', '4']]),
            r.clickables@[0].position == origin(),
            r.clickables@[0].anchor == origin(),
            r.clickables@[0].offset == (Coords { x: 0i32, y: 0i32 }),
            r.clickables@[0].adds_keys@ == example_key_set(),
            r.clickables@[0].removes_keys@ == example_key_set(),
            r.clickables@[0].must_have_keys@ == example_key_set(),
            r.clickables@[0].mustnt_have_keys@ == example_key_set(),
    {
        let nonclickable = Nonclickable {
            image_path: single_segment_path(String::from_str("path2")),
            position: Coords { x: Ratio::zero(), y: Ratio::zero() },
            anchor: Coords { x: Ratio::zero(), y: Ratio::zero() },
            offset: Coords { x: 0, y: 0 },
        };
        let clickable = Clickable {
            image_path: single_segment_path(String::from_str("path3")),
            slide_path: single_segment_path(String::from_str("path4")),
            position: Coords { x: Ratio::zero(), y: Ratio::zero() },
            anchor: Coords { x: Ratio::zero(), y: Ratio::zero() },
            offset: Coords { x: 0, y: 0 },
            adds_keys: example_keys(),
            removes_keys: example_keys(),
            must_have_keys: example_keys(),
            mustnt_have_keys: example_keys(),
        };
        proof {
            reveal_strlit("path");
            reveal_strlit("path4");
            reveal_strlit("path2");
            reveal_strlit("path3");
            assert("path2"@ =~= seq!['p', 'a', 't', 'h', '2']);
            assert("path3"@ =~= seq!['p', 'a', 't', 'h', '3']);
            assert("path"@ =~= seq!['p', 'a', 't', 'h']);
            assert("path4"@ =~= seq!['p', 'a', 't', 'h', '4']);
        }
        let mut nonclickables: Vec<Nonclickable> = Vec::new();
        nonclickables.push(nonclickable);
        let mut clickables: Vec<Clickable> = Vec::new();
        clickables.push(clickable);
        Slide {
            background_path: single_segment_path(String::from_str("path")),
            nonclickables,
            clickables,
        }
    }
}

/// The normalized point `(0, 0)`.
pub open spec fn origin() -> Coords<Ratio> {
    Coords { x: Ratio { num: 0, den: 1 }, y: Ratio { num: 0, den: 1 } }
}

/// The keys that the example slide uses everywhere.
pub open spec fn example_key_set() -> Set<Seq<char>> {
    set![seq!['k', 'e', 'y', '1'], seq!['k', 'e', 'y', '2']]
}

fn single_segment_path(s: String) -> (r: VirtualPath)
    ensures
        r@ == (false, seq![s@]),
{
    let mut segments: Vec<String> = Vec::new();
    segments.push(s);
    let r = VirtualPath { rooted: false, segments };
    assert(r@.1 =~= seq![s@]);
    r
}

fn example_keys() -> (r: KeySet)
    ensures
        r@ == set![seq!['k', 'e', 'y', '1'], seq!['k', 'e', 'y', '2']],
{
    proof {
        reveal_strlit("key1");
        reveal_strlit("key2");
        assert("key1"@ =~= seq!['k', 'e', 'y', '1']);
        assert("key2"@ =~= seq!['k', 'e', 'y', '2']);
    }
    let mut keys = KeySet::new();
    keys.insert(String::from_str("key1"));
    keys.insert(String::from_str("key2"));
    assert(keys@ =~= set![seq!['k', 'e', 'y', '1'], seq!['k', 'e', 'y', '2']]);
    keys
}

} // verus!
