use vstd::prelude::*;

use image::DynamicImage;

use crate::asset::Picture;
use crate::coords::{Coords, Ratio, LEN_BOUND, RATIO_BOUND};
use crate::game::Game;
use crate::keys::KeySet;
use crate::path::VirtualPath;
use crate::scene::Clickable;

verus! {

/// Relies on image::imageops::overlay: paints `top` onto `bottom` with its
/// top-left corner at `(x, y)`, clipped to `bottom`.
#[verifier::external_body]
fn overlay_image(bottom: &mut DynamicImage, top: &DynamicImage, x: i64, y: i64) {
    image::imageops::overlay(bottom, top, x, y)
}

/// Where an element starts on one axis: its position scaled by the canvas
/// length, plus its offset, minus its anchor scaled by its own length. Each
/// product is truncated on its own.
pub open spec fn place_axis(position: Ratio, anchor: Ratio, offset: i32, canvas_len: int, elem_len: int) -> int {
    position.scale_spec(canvas_len) + offset - anchor.scale_spec(elem_len)
}

/// A clickable is shown when every key it needs is held.
pub open spec fn is_visible(c: Clickable, keys: Set<Seq<char>>) -> bool {
    c.must_have_keys@.subset_of(keys)
}

/// Indices, in order, of the clickables among the first `n` that are shown.
pub open spec fn visible_indices(cs: Seq<Clickable>, keys: Set<Seq<char>>, n: int) -> Seq<int>
    decreases n,
{
    if n <= 0 {
        Seq::empty()
    } else {
        let prev = visible_indices(cs, keys, n - 1);
        if is_visible(cs[n - 1], keys) {
            prev.push(n - 1)
        } else {
            prev
        }
    }
}

/// A clickable region of a drawn slide.
pub struct Button {
    pub slide_path: VirtualPath,
    pub adds_keys: KeySet,
    pub removes_keys: KeySet,
    pub x1: i64,
    pub y1: i64,
    pub x2: i64,
    pub y2: i64,
}

impl Button {
    /// The button is the region of clickable `c`, whose image is `w` by `h`,
    /// on a canvas of size `canvas`.
    pub open spec fn shows(&self, c: Clickable, canvas: Coords<i64>, w: int, h: int) -> bool {
        let x1 = place_axis(c.position.x, c.anchor.x, c.offset.x, canvas.x as int, w);
        let y1 = place_axis(c.position.y, c.anchor.y, c.offset.y, canvas.y as int, h);
        &&& self.slide_path@ == c.slide_path@
        &&& self.adds_keys@ == c.adds_keys@
        &&& self.removes_keys@ == c.removes_keys@
        &&& self.x1 == x1 && self.y1 == y1
        &&& self.x2 == x1 + w && self.y2 == y1 + h
    }

    /// Half-open containment on both axes.
    pub open spec fn contains(&self, x: int, y: int) -> bool {
        self.x1 <= x < self.x2 && self.y1 <= y < self.y2
    }
}

/// The width and height of the picture given for a clickable, or nothing
/// where none was given.
pub open spec fn picture_size(img: Option<Picture>) -> (int, int) {
    match img {
        Some(p) => (p.width as int, p.height as int),
        None => (0, 0),
    }
}

/// `bs` are the regions of the shown clickables among the first `n` of `cs`,
/// in order, where `imgs[i]` is the picture of clickable `i`.
pub open spec fn laid_out(
    bs: Seq<Button>,
    cs: Seq<Clickable>,
    keys: Set<Seq<char>>,
    canvas: Coords<i64>,
    imgs: Seq<Option<Picture>>,
    n: int,
) -> bool {
    let vis = visible_indices(cs, keys, n);
    &&& bs.len() == vis.len()
    &&& forall|k: int|
        0 <= k < vis.len() ==> (#[trigger] bs[k]).shows(
            cs[vis[k]],
            canvas,
            picture_size(imgs[vis[k]]).0,
            picture_size(imgs[vis[k]]).1,
        )
}

/// `i` is the first region that holds `(x, y)`.
pub open spec fn first_hit(bs: Seq<Button>, x: int, y: int, i: int) -> bool {
    &&& 0 <= i < bs.len()
    &&& bs[i].contains(x, y)
    &&& forall|j: int| 0 <= j < i ==> !(#[trigger] bs[j]).contains(x, y)
}

/// `hit` is the target and the key changes of button `b`.
pub open spec fn reports(hit: (VirtualPath, KeySet, KeySet), b: Button) -> bool {
    hit.0@ == b.slide_path@ && hit.1@ == b.adds_keys@ && hit.2@ == b.removes_keys@
}

/// The indices of shown clickables are increasing and below `n`.
pub proof fn lemma_visible_indices_ordered(cs: Seq<Clickable>, keys: Set<Seq<char>>, n: int)
    requires
        n >= 0,
    ensures
        forall|k: int|
            0 <= k < visible_indices(cs, keys, n).len() ==> 0 <= #[trigger] visible_indices(cs, keys, n)[k] < n,
        forall|k: int, l: int|
            0 <= k < l < visible_indices(cs, keys, n).len() ==> visible_indices(cs, keys, n)[k]
                < visible_indices(cs, keys, n)[l],
    decreases n,
{
    if n > 0 {
        lemma_visible_indices_ordered(cs, keys, n - 1);
        let prev = visible_indices(cs, keys, n - 1);
        let cur = visible_indices(cs, keys, n);
        if is_visible(cs[n - 1], keys) {
            assert(cur == prev.push(n - 1));
            assert forall|k: int| 0 <= k < cur.len() implies 0 <= #[trigger] cur[k] < n by {
                if k < prev.len() {
                    assert(cur[k] == prev[k]);
                }
            }
            assert forall|k: int, l: int| 0 <= k < l < cur.len() implies cur[k] < cur[l] by {
                assert(cur[k] == prev[k]);
                if l < prev.len() {
                    assert(cur[l] == prev[l]);
                }
            }
        } else {
            assert(cur == prev);
        }
    }
}

/// A clickable that needs keys the player lacks gets no region; once the keys
/// are held it gets exactly one, at its placed box.
pub proof fn lemma_hotspot_gating(
    c: Clickable,
    keys: Set<Seq<char>>,
    canvas: Coords<i64>,
    img: Picture,
    bs: Seq<Button>,
)
    requires
        laid_out(bs, seq![c], keys, canvas, seq![Some(img)], 1),
    ensures
        !c.must_have_keys@.subset_of(keys) ==> bs.len() == 0,
        c.must_have_keys@.subset_of(keys) ==> bs.len() == 1 && bs[0].shows(
            c,
            canvas,
            img.width as int,
            img.height as int,
        ),
{
    let cs = seq![c];
    let imgs = seq![Some(img)];
    assert(visible_indices(cs, keys, 0) =~= Seq::<int>::empty());
    if c.must_have_keys@.subset_of(keys) {
        assert(visible_indices(cs, keys, 1) =~= seq![0int]);
        assert(bs[0].shows(cs[0], canvas, picture_size(imgs[0]).0, picture_size(imgs[0]).1));
    }
}

/// Holding more keys never hides a clickable: every clickable shown under
/// `fewer` is shown under `more`, and both lists are in declared order.
pub proof fn lemma_more_keys_show_more(cs: Seq<Clickable>, fewer: Set<Seq<char>>, more: Set<Seq<char>>, n: int)
    requires
        fewer.subset_of(more),
        0 <= n <= cs.len(),
    ensures
        forall|i: int|
            visible_indices(cs, fewer, n).contains(i) ==> #[trigger] visible_indices(cs, more, n).contains(i),
    decreases n,
{
    if n > 0 {
        lemma_more_keys_show_more(cs, fewer, more, n - 1);
        let f0 = visible_indices(cs, fewer, n - 1);
        let m0 = visible_indices(cs, more, n - 1);
        let f1 = visible_indices(cs, fewer, n);
        let m1 = visible_indices(cs, more, n);
        if is_visible(cs[n - 1], more) {
            assert(m1 == m0.push(n - 1));
        } else {
            assert(m1 == m0);
        }
        if is_visible(cs[n - 1], fewer) {
            assert(f1 == f0.push(n - 1));
        } else {
            assert(f1 == f0);
        }
        assert forall|i: int| f1.contains(i) implies #[trigger] m1.contains(i) by {
            let w = choose|w: int| 0 <= w < f1.len() && f1[w] == i;
            if w < f0.len() {
                assert(f0[w] == i);
                assert(f0.contains(i));
                assert(m0.contains(i));
                let v = choose|v: int| 0 <= v < m0.len() && m0[v] == i;
                assert(m1[v] == i);
            } else {
                assert(is_visible(cs[n - 1], fewer));
                assert(is_visible(cs[n - 1], more));
                assert(m1[m0.len() as int] == i);
            }
        }
    }
}

/// Where regions overlap, a click goes to the one laid out first, whatever
/// was painted over it.
pub proof fn lemma_first_declared_wins(bs: Seq<Button>, a: int, b: int, x: int, y: int)
    requires
        0 <= a < b < bs.len(),
        bs[a].contains(x, y),
        bs[b].contains(x, y),
    ensures
        !first_hit(bs, x, y, b),
        forall|i: int| first_hit(bs, x, y, i) ==> i <= a,
{
}

/// One pixel as the display buffer takes it: red, green and blue in the
/// three low bytes, red highest.
pub fn pack_pixel(red: u8, green: u8, blue: u8) -> (r: u32)
    ensures
        r == red as int * 0x1_0000 + green as int * 0x100 + blue as int,
{
    red as u32 * 0x1_0000 + green as u32 * 0x100 + blue as u32
}

/// A shown clickable among the first `n` has its index listed.
pub proof fn lemma_visible_listed(cs: Seq<Clickable>, keys: Set<Seq<char>>, n: int, a: int)
    requires
        0 <= a < n <= cs.len(),
        is_visible(cs[a], keys),
    ensures
        visible_indices(cs, keys, n).contains(a),
    decreases n,
{
    let prev = visible_indices(cs, keys, n - 1);
    if a < n - 1 {
        lemma_visible_listed(cs, keys, n - 1, a);
        let w = choose|w: int| 0 <= w < prev.len() && prev[w] == a;
        if is_visible(cs[n - 1], keys) {
            assert(visible_indices(cs, keys, n) == prev.push(n - 1));
        } else {
            assert(visible_indices(cs, keys, n) == prev);
        }
        assert(visible_indices(cs, keys, n)[w] == a);
    } else {
        assert(visible_indices(cs, keys, n) == prev.push(n - 1));
        assert(visible_indices(cs, keys, n)[prev.len() as int] == a);
    }
}

/// The placed box of clickable `c`, with a picture of `w` by `h` on a canvas
/// of size `canvas`, holds `(x, y)`.
pub open spec fn placed_at(c: Clickable, canvas: Coords<i64>, w: int, h: int, x: int, y: int) -> bool {
    let x1 = place_axis(c.position.x, c.anchor.x, c.offset.x, canvas.x as int, w);
    let y1 = place_axis(c.position.y, c.anchor.y, c.offset.y, canvas.y as int, h);
    x1 <= x < x1 + w && y1 <= y < y1 + h
}

/// Of two shown clickables whose placed boxes both hold a point, the one
/// declared first takes the click there: the region hit first belongs to a
/// clickable declared no later than it, whatever is painted on top.
pub proof fn lemma_earlier_placed_hotspot_wins(
    bs: Seq<Button>,
    cs: Seq<Clickable>,
    keys: Set<Seq<char>>,
    canvas: Coords<i64>,
    imgs: Seq<Option<Picture>>,
    a: int,
    b: int,
    x: int,
    y: int,
)
    requires
        laid_out(bs, cs, keys, canvas, imgs, cs.len() as int),
        0 <= a < b < cs.len(),
        is_visible(cs[a], keys),
        is_visible(cs[b], keys),
        placed_at(cs[a], canvas, picture_size(imgs[a]).0, picture_size(imgs[a]).1, x, y),
        placed_at(cs[b], canvas, picture_size(imgs[b]).0, picture_size(imgs[b]).1, x, y),
    ensures
        exists|i: int| first_hit(bs, x, y, i),
        forall|i: int| #[trigger] first_hit(bs, x, y, i) ==> visible_indices(cs, keys, cs.len() as int)[i] <= a,
{
    let n = cs.len() as int;
    let vis = visible_indices(cs, keys, n);
    lemma_visible_listed(cs, keys, n, a);
    lemma_visible_indices_ordered(cs, keys, n);
    let ka = choose|ka: int| 0 <= ka < vis.len() && vis[ka] == a;
    assert(bs[ka].shows(cs[vis[ka]], canvas, picture_size(imgs[vis[ka]]).0, picture_size(imgs[vis[ka]]).1));
    assert(bs[ka].contains(x, y));
    lemma_first_containing(bs, x, y, ka);
    let first = choose|i: int|
        0 <= i <= ka && bs[i].contains(x, y) && forall|j: int| 0 <= j < i ==> !#[trigger] bs[j].contains(x, y);
    assert(first_hit(bs, x, y, first));
    assert forall|i: int| #[trigger] first_hit(bs, x, y, i) implies vis[i] <= a by {
        if i > ka {
            assert(!bs[ka].contains(x, y));
        }
        if i < ka {
            assert(vis[i] < vis[ka]);
        }
    }
}

/// Where region `k` holds a point, some region no later than `k` is the first to hold it.
proof fn lemma_first_containing(bs: Seq<Button>, x: int, y: int, k: int)
    requires
        0 <= k < bs.len(),
        bs[k].contains(x, y),
    ensures
        exists|i: int|
            0 <= i <= k && bs[i].contains(x, y) && forall|j: int| 0 <= j < i ==> !#[trigger] bs[j].contains(x, y),
    decreases k,
{
    if exists|j: int| 0 <= j < k && bs[j].contains(x, y) {
        let j = choose|j: int| 0 <= j < k && bs[j].contains(x, y);
        lemma_first_containing(bs, x, y, j);
    } else {
        assert(forall|j: int| 0 <= j < k ==> !bs[j].contains(x, y));
    }
}

/// A drawn slide: its image, its clickable regions, and its size.
pub struct Canvas {
    pub dynamic_image: DynamicImage,
    pub buttons: Vec<Button>,
    pub size: Coords<i64>,
}

impl Canvas {
    /// Whether each clickable of the game's slide is shown under its keys.
    pub fn visible_clickables(game: &Game) -> (r: Vec<bool>)
        ensures
            r.len() == game.slide.clickables.len(),
            forall|i: int|
                0 <= i < r.len() ==> r@[i] == is_visible(#[trigger] game.slide.clickables@[i], game.keys@),
    {
        let mut r: Vec<bool> = Vec::new();
        let mut i: usize = 0;
        while i < game.slide.clickables.len()
            invariant
                i <= game.slide.clickables.len(),
                r.len() == i,
                forall|j: int|
                    0 <= j < i ==> r@[j] == is_visible(#[trigger] game.slide.clickables@[j], game.keys@),
            decreases game.slide.clickables.len() - i,
        {
            r.push(game.slide.clickables[i].must_have_keys.is_subset(&game.keys));
            i = i + 1;
        }
        r
    }

    fn position_asset(
        &self,
        position: Coords<Ratio>,
        anchor: Coords<Ratio>,
        offset: Coords<i32>,
        element_size: Coords<i64>,
    ) -> (r: Coords<i64>)
        requires
            position.x.wf() && position.y.wf() && anchor.x.wf() && anchor.y.wf(),
            0 <= self.size.x < LEN_BOUND && 0 <= self.size.y < LEN_BOUND,
            0 <= element_size.x < LEN_BOUND && 0 <= element_size.y < LEN_BOUND,
        ensures
            r.x == place_axis(position.x, anchor.x, offset.x, self.size.x as int, element_size.x as int),
            r.y == place_axis(position.y, anchor.y, offset.y, self.size.y as int, element_size.y as int),
            -2 * RATIO_BOUND * LEN_BOUND - 0x8000_0000 <= r.x <= 2 * RATIO_BOUND * LEN_BOUND + 0x8000_0000,
            -2 * RATIO_BOUND * LEN_BOUND - 0x8000_0000 <= r.y <= 2 * RATIO_BOUND * LEN_BOUND + 0x8000_0000,
    {
        let position_offset = Coords { x: position.x.scale(self.size.x), y: position.y.scale(self.size.y) };
        let anchor_offset = Coords { x: anchor.x.scale(element_size.x), y: anchor.y.scale(element_size.y) };
        let offset = Coords { x: offset.x as i64, y: offset.y as i64 };
        position_offset.add(offset).sub(anchor_offset)
    }

    /// Draws the game's slide: the background, then each decoration, then each
    /// clickable whose keys are all held, in declared order. The canvas takes
    /// the background's size, and each shown clickable gets a region at the
    /// placed box of its picture.
    pub fn build(
        game: &Game,
        background: Picture,
        nonclickable_images: Vec<Picture>,
        clickable_images: Vec<Option<Picture>>,
    ) -> (r: Canvas)
        requires
            game.slide.wf(),
            nonclickable_images.len() == game.slide.nonclickables.len(),
            clickable_images.len() == game.slide.clickables.len(),
            forall|i: int|
                0 <= i < clickable_images.len() && is_visible(#[trigger] game.slide.clickables@[i], game.keys@)
                    ==> clickable_images@[i] is Some,
        ensures
            r.size == (Coords { x: background.width as i64, y: background.height as i64 }),
            laid_out(
                r.buttons@,
                game.slide.clickables@,
                game.keys@,
                r.size,
                clickable_images@,
                game.slide.clickables.len() as int,
            ),
    {
        let mut canvas = Canvas {
            dynamic_image: background.image,
            buttons: Vec::new(),
            size: Coords { x: background.width as i64, y: background.height as i64 },
        };
        let ghost size = canvas.size;
        let nonclickables = &game.slide.nonclickables;
        let mut i: usize = 0;
        while i < nonclickables.len()
            invariant
                game.slide.wf(),
                nonclickable_images.len() == nonclickables.len(),
                nonclickables == &game.slide.nonclickables,
                canvas.size == size,
                0 <= canvas.size.x < LEN_BOUND && 0 <= canvas.size.y < LEN_BOUND,
                canvas.buttons@.len() == 0,
            decreases nonclickables.len() - i,
        {
            let element = &nonclickables[i];
            assert(element.wf());
            let picture = &nonclickable_images[i];
            let at = canvas.position_asset(
                element.position,
                element.anchor,
                element.offset,
                Coords { x: picture.width as i64, y: picture.height as i64 },
            );
            overlay_image(&mut canvas.dynamic_image, &picture.image, at.x, at.y);
            i = i + 1;
        }
        let clickables = &game.slide.clickables;
        let ghost cs = clickables@;
        let ghost keys = game.keys@;
        let ghost imgs = clickable_images@;
        proof {
            assert(visible_indices(cs, keys, 0) =~= Seq::<int>::empty());
        }
        let mut i: usize = 0;
        while i < clickables.len()
            invariant
                game.slide.wf(),
                clickables == &game.slide.clickables,
                cs == clickables@,
                keys == game.keys@,
                imgs == clickable_images@,
                clickable_images.len() == clickables.len(),
                forall|j: int|
                    0 <= j < clickable_images.len() && is_visible(#[trigger] cs[j], keys)
                        ==> clickable_images@[j] is Some,
                i <= clickables.len(),
                canvas.size == size,
                0 <= canvas.size.x < LEN_BOUND && 0 <= canvas.size.y < LEN_BOUND,
                laid_out(canvas.buttons@, cs, keys, canvas.size, imgs, i as int),
            decreases clickables.len() - i,
        {
            let element = &clickables[i];
            assert(element.wf());
            proof {
                lemma_visible_indices_ordered(cs, keys, i as int);
            }
            let ghost prev = canvas.buttons@;
            let ghost prev_vis = visible_indices(cs, keys, i as int);
            if element.must_have_keys.is_subset(&game.keys) {
                assert(is_visible(cs[i as int], keys));
                let picture = match &clickable_images[i] {
                    Some(p) => p,
                    None => {
                        assert(false);
                        return canvas;
                    },
                };
                let (w, h) = (picture.width, picture.height);
                let at = canvas.position_asset(
                    element.position,
                    element.anchor,
                    element.offset,
                    Coords { x: w as i64, y: h as i64 },
                );
                canvas.buttons.push(
                    Button {
                        slide_path: element.slide_path.clone_path(),
                        adds_keys: element.adds_keys.clone_set(),
                        removes_keys: element.removes_keys.clone_set(),
                        x1: at.x,
                        y1: at.y,
                        x2: at.x + w as i64,
                        y2: at.y + h as i64,
                    },
                );
                overlay_image(&mut canvas.dynamic_image, &picture.image, at.x, at.y);
                proof {
                    let vis = visible_indices(cs, keys, i + 1);
                    assert(vis == prev_vis.push(i as int));
                    assert(picture_size(imgs[i as int]) == (w as int, h as int));
                    assert forall|k: int| 0 <= k < vis.len() implies (#[trigger] canvas.buttons@[k]).shows(
                        cs[vis[k]],
                        canvas.size,
                        picture_size(imgs[vis[k]]).0,
                        picture_size(imgs[vis[k]]).1,
                    ) by {
                        if k < prev.len() {
                            assert(canvas.buttons@[k] == prev[k]);
                            assert(prev[k].shows(
                                cs[prev_vis[k]],
                                canvas.size,
                                picture_size(imgs[prev_vis[k]]).0,
                                picture_size(imgs[prev_vis[k]]).1,
                            ));
                        }
                    }
                }
            } else {
                proof {
                    let vis = visible_indices(cs, keys, i + 1);
                    assert(vis == prev_vis);
                    assert forall|k: int| 0 <= k < vis.len() implies (#[trigger] canvas.buttons@[k]).shows(
                        cs[vis[k]],
                        canvas.size,
                        picture_size(imgs[vis[k]]).0,
                        picture_size(imgs[vis[k]]).1,
                    ) by {
                        assert(prev[k].shows(
                            cs[prev_vis[k]],
                            canvas.size,
                            picture_size(imgs[prev_vis[k]]).0,
                            picture_size(imgs[prev_vis[k]]).1,
                        ));
                    }
                }
            }
            i = i + 1;
        }
        canvas
    }

    /// The region under `(x, y)` that was laid out first, as the slide it
    /// leads to and the keys it adds and removes; `None` where there is none.
    pub fn click(&self, x: i64, y: i64) -> (r: Option<(VirtualPath, KeySet, KeySet)>)
        ensures
            r is None <==> forall|j: int| 0 <= j < self.buttons@.len() ==> !(#[trigger] self.buttons@[j]).contains(x as int, y as int),
            r is Some ==> exists|i: int|
                first_hit(self.buttons@, x as int, y as int, i) && reports(r->0, self.buttons@[i]),
    {
        let mut i: usize = 0;
        while i < self.buttons.len()
            invariant
                i <= self.buttons.len(),
                forall|j: int| 0 <= j < i ==> !(#[trigger] self.buttons@[j]).contains(x as int, y as int),
            decreases self.buttons.len() - i,
        {
            let button = &self.buttons[i];
            if button.x1 <= x && x < button.x2 && button.y1 <= y && y < button.y2 {
                let r = (button.slide_path.clone_path(), button.adds_keys.clone_set(), button.removes_keys.clone_set());
                assert(first_hit(self.buttons@, x as int, y as int, i as int));
                return Some(r);
            }
            i = i + 1;
        }
        None
    }

    /// Width and height of the drawn image.
    pub fn size(&self) -> (r: (i64, i64))
        ensures
            r == (self.size.x, self.size.y),
    {
        (self.size.x, self.size.y)
    }
}

} // verus!
