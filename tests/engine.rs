use std::io::Cursor;

use ferrous_tale::asset::{read_image, FallbackMissing, ImageSource, Picture};
use ferrous_tale::check::{find_slide, recursive_check_yaml, unreachable_slides, SlideEntry};
use ferrous_tale::coords::{Coords, Ratio};
use ferrous_tale::draw::Canvas;
use ferrous_tale::game::{Game, NavigationError, SaveFile};
use ferrous_tale::keys::KeySet;
use ferrous_tale::path::{canonical_join, prefix_path, VirtualPath};
use ferrous_tale::scene::{Clickable, FallbackAsset, Nonclickable, Slide};
use image::{DynamicImage, ImageOutputFormat};

fn vp(s: &str) -> VirtualPath {
    VirtualPath::parse(s)
}

fn text(p: &VirtualPath) -> String {
    let joined = p.segments.join("/");
    if p.rooted {
        format!("/{joined}")
    } else {
        joined
    }
}

fn keys(items: &[&str]) -> KeySet {
    KeySet::from_vec(items.iter().map(|s| s.to_string()).collect())
}

fn empty_slide() -> Slide {
    Slide { background_path: vp("bg.png"), nonclickables: vec![], clickables: vec![] }
}

fn clickable(target: &str, x: Ratio, y: Ratio, needs: &[&str]) -> Clickable {
    Clickable {
        image_path: vp("button.png"),
        slide_path: vp(target),
        position: Coords { x, y },
        anchor: Coords { x: Ratio::zero(), y: Ratio::zero() },
        offset: Coords { x: 0, y: 0 },
        adds_keys: keys(&["got"]),
        removes_keys: keys(&[]),
        must_have_keys: keys(needs),
        mustnt_have_keys: keys(&[]),
    }
}

fn ratio(num: i64, den: i64) -> Ratio {
    Ratio::new(num, den).unwrap()
}

fn bmp_bytes(w: u32, h: u32) -> Vec<u8> {
    let mut out = Cursor::new(Vec::new());
    DynamicImage::new_rgb8(w, h).write_to(&mut out, ImageOutputFormat::Bmp).unwrap();
    out.into_inner()
}

#[test]
fn join_current_dir_marker() {
    assert_eq!(text(&canonical_join(&vp("a/b"), &vp("./c"))), "a/b/c");
}

#[test]
fn join_parent_dir_marker() {
    assert_eq!(text(&canonical_join(&vp("a/b"), &vp("../c"))), "a/c");
}

#[test]
fn join_plain() {
    assert_eq!(text(&canonical_join(&vp("a/b"), &vp("c"))), "a/b/c");
}

#[test]
fn join_is_single_hop() {
    assert_eq!(text(&canonical_join(&vp("a/b/c"), &vp("../../d"))), "a/b/../d");
}

#[test]
fn join_parent_of_top_level_is_empty() {
    assert_eq!(text(&canonical_join(&vp("a"), &vp("../d"))), "d");
    assert_eq!(text(&canonical_join(&vp("/"), &vp("../d"))), "d");
}

#[test]
fn join_rooted_target_replaces_base() {
    assert_eq!(text(&canonical_join(&vp("a/b"), &vp("/x"))), "/x");
}

#[test]
fn join_same_inputs_same_result() {
    let first = canonical_join(&vp("a/b"), &vp("../c"));
    let second = canonical_join(&vp("a/b"), &vp("../c"));
    assert!(first.same_as(&second));
}

#[test]
fn prefix_places_paths_in_story_root() {
    assert_eq!(text(&prefix_path(&vp("/x/y"))), "story/x/y");
    assert_eq!(text(&prefix_path(&vp("x/y"))), "story/x/y");
    assert_eq!(text(&prefix_path(&vp("/"))), "story");
    assert_eq!(text(&prefix_path(&vp("./x"))), "story/x");
}

#[test]
fn fallback_asset_paths() {
    assert_eq!(text(&FallbackAsset::Background.into_pathbuf()), "fallback/bg.bmp");
    assert_eq!(text(&FallbackAsset::Clickable.into_pathbuf()), "fallback/clickable.bmp");
    assert_eq!(text(&FallbackAsset::Nonclickable.into_pathbuf()), "fallback/clickable.bmp");
}

#[test]
fn key_set_operations() {
    let mut set = KeySet::new();
    set.insert("a".to_string());
    set.insert("a".to_string());
    set.insert("b".to_string());
    assert!(set.contains(&"a".to_string()));
    assert_eq!(set.items.len(), 2);
    set.remove(&"a".to_string());
    assert!(!set.contains(&"a".to_string()));
    assert!(set.contains(&"b".to_string()));
    assert!(keys(&["b"]).is_subset(&set));
    assert!(!keys(&["a", "b"]).is_subset(&set));
    assert!(keys(&[]).is_subset(&set));
}

#[test]
fn ratio_scale_truncates_toward_zero() {
    assert_eq!(ratio(1, 2).scale(101), 50);
    assert_eq!(ratio(-1, 2).scale(3), -1);
    assert_eq!(ratio(3, 4).scale(10), 7);
    assert!(Ratio::new(1, 0).is_none());
}

#[test]
fn coords_arithmetic_and_map() {
    let a = Coords { x: 3i64, y: -4i64 };
    let b = Coords { x: 5i64, y: 2i64 };
    assert_eq!(a.add(b), Coords { x: 8, y: -2 });
    assert_eq!(a.sub(b), Coords { x: -2, y: -6 });
    assert_eq!(a.mul(b), Coords { x: 15, y: -8 });
    assert_eq!(a.map(|t| t * 10), Coords { x: 30, y: -40 });
}

fn game_at(location: &str) -> Game {
    Game { location: vp(location), keys: keys(&["k"]), slide: empty_slide() }
}

#[test]
fn goto_missing_directory_changes_nothing() {
    let mut game = game_at("a/b");
    let r = game.goto(&vp("../c"), false, Ok(Slide::example()));
    assert!(matches!(r, Err(NavigationError::NoSuchLocation)));
    assert_eq!(text(&game.location), "a/b");
    assert!(game.keys.contains(&"k".to_string()));
    assert_eq!(game.slide.clickables.len(), 0);
}

#[test]
fn goto_bad_scene_changes_nothing() {
    let mut game = game_at("a/b");
    let r = game.goto(&vp("../c"), true, Err("broken".to_string()));
    match r {
        Err(NavigationError::BadScene(msg)) => assert_eq!(msg, "broken"),
        _ => panic!("expected a bad scene"),
    }
    assert_eq!(text(&game.location), "a/b");
    assert_eq!(game.slide.clickables.len(), 0);
}

#[test]
fn goto_success_replaces_location_and_slide() {
    let mut game = game_at("a/b");
    assert_eq!(text(&game.cd(&vp("../c"))), "a/c");
    let r = game.goto(&vp("../c"), true, Ok(Slide::example()));
    assert!(r.is_ok());
    assert_eq!(text(&game.location), "a/c");
    assert_eq!(game.slide.clickables.len(), 1);
    assert!(game.keys.contains(&"k".to_string()));
}

#[test]
fn click_keys_are_added_then_removed() {
    let mut game = game_at("a");
    game.apply_keys(&keys(&["x", "y"]), &keys(&["k", "y"]));
    assert!(game.keys.contains(&"x".to_string()));
    assert!(!game.keys.contains(&"y".to_string()));
    assert!(!game.keys.contains(&"k".to_string()));
}

#[test]
fn save_round_trip_keeps_location_and_keys() {
    let game = game_at("a/b");
    let saved = SaveFile::from(&game);
    let restored = Game::try_from(saved, Ok(empty_slide())).ok().unwrap();
    assert!(restored.location.same_as(&game.location));
    assert!(restored.keys.contains(&"k".to_string()));
    assert_eq!(restored.keys.items.len(), 1);
}

#[test]
fn restore_fails_when_slide_cannot_be_read() {
    let r = Game::try_from(SaveFile::default(), Err("gone".to_string()));
    assert_eq!(r.err(), Some("gone".to_string()));
}

#[test]
fn default_save_is_root_without_keys() {
    let save = SaveFile::default();
    assert_eq!(text(&save.location), "/");
    assert_eq!(save.keys.items.len(), 0);
}

#[test]
fn example_slide_shape() {
    let slide = Slide::example();
    assert_eq!(text(&slide.background_path), "path");
    assert_eq!(slide.nonclickables.len(), 1);
    assert_eq!(text(&slide.clickables[0].slide_path), "path4");
    assert!(slide.clickables[0].must_have_keys.contains(&"key2".to_string()));
    assert_eq!(text(&slide.nonclickables[0].image_path), "path2");
    assert_eq!(text(&slide.clickables[0].image_path), "path3");
    assert_eq!(slide.clickables[0].offset, Coords { x: 0, y: 0 });
    assert_eq!(slide.clickables[0].position, Coords { x: Ratio::zero(), y: Ratio::zero() });
    for set in [&slide.clickables[0].adds_keys, &slide.clickables[0].removes_keys, &slide.clickables[0].mustnt_have_keys] {
        assert!(set.contains(&"key1".to_string()));
        assert!(set.contains(&"key2".to_string()));
        assert_eq!(set.items.len(), 2);
    }
}

fn build(game: &Game) -> Canvas {
    let decorations = game.slide.nonclickables.iter().map(|_| Picture::new(DynamicImage::new_rgb8(4, 4))).collect();
    let visible = Canvas::visible_clickables(game);
    let buttons = visible
        .iter()
        .map(|v| if *v { Some(Picture::new(DynamicImage::new_rgb8(10, 20))) } else { None })
        .collect();
    Canvas::build(game, Picture::new(DynamicImage::new_rgb8(200, 100)), decorations, buttons)
}

#[test]
fn hotspot_hidden_without_required_key() {
    let mut game = game_at("a");
    game.keys = keys(&[]);
    game.slide.clickables.push(clickable("next", ratio(1, 2), ratio(1, 4), &["k1"]));
    let canvas = build(&game);
    assert_eq!(canvas.buttons.len(), 0);
    assert!(canvas.click(105, 30).is_none());
}

#[test]
fn hotspot_shown_with_required_key() {
    let mut game = game_at("a");
    game.keys = keys(&["k1"]);
    game.slide.clickables.push(clickable("next", ratio(1, 2), ratio(1, 4), &["k1"]));
    let canvas = build(&game);
    assert_eq!(canvas.size(), (200, 100));
    assert_eq!(canvas.buttons.len(), 1);
    let b = &canvas.buttons[0];
    assert_eq!((b.x1, b.y1, b.x2, b.y2), (100, 25, 110, 45));
}

#[test]
fn placement_uses_offset_and_anchor() {
    let mut game = game_at("a");
    let mut c = clickable("next", ratio(1, 3), ratio(1, 3), &[]);
    c.offset = Coords { x: 5, y: -2 };
    c.anchor = Coords { x: ratio(1, 2), y: ratio(1, 3) };
    game.slide.clickables.push(c);
    let canvas = build(&game);
    let b = &canvas.buttons[0];
    // 200/3 truncates to 66, 10/2 = 5; 100/3 truncates to 33, 20/3 truncates to 6.
    assert_eq!((b.x1, b.y1), (66 + 5 - 5, 33 - 2 - 6));
    assert_eq!((b.x2, b.y2), (76, 45));
}

#[test]
fn first_declared_hotspot_wins_overlap() {
    let mut game = game_at("a");
    game.slide.clickables.push(clickable("first", ratio(1, 2), ratio(1, 4), &[]));
    game.slide.clickables.push(clickable("second", ratio(52, 100), ratio(1, 4), &[]));
    let canvas = build(&game);
    assert_eq!(canvas.buttons.len(), 2);
    let (target, added, _) = canvas.click(106, 30).unwrap();
    assert_eq!(text(&target), "first");
    assert!(added.contains(&"got".to_string()));
    let (target, _, _) = canvas.click(109, 30).unwrap();
    assert_eq!(text(&target), "first");
    let (target, _, _) = canvas.click(110, 30).unwrap();
    assert_eq!(text(&target), "second");
    assert!(canvas.click(114, 45).is_none());
}

#[test]
fn decorations_add_no_regions() {
    let mut game = game_at("a");
    game.slide.nonclickables.push(Nonclickable {
        image_path: vp("d.png"),
        position: Coords { x: Ratio::zero(), y: Ratio::zero() },
        anchor: Coords { x: Ratio::zero(), y: Ratio::zero() },
        offset: Coords { x: 0, y: 0 },
    });
    let canvas = build(&game);
    assert_eq!(canvas.buttons.len(), 0);
}

fn entry(location: &str, links: &[&str]) -> SlideEntry {
    let mut slide = empty_slide();
    for l in links {
        slide.clickables.push(clickable(l, Ratio::zero(), Ratio::zero(), &[]));
    }
    SlideEntry { location: vp(location), slide }
}

#[test]
fn unreachable_slide_is_reported() {
    let library = vec![entry("/", &["x"]), entry("x", &["../"]), entry("y", &["/x"])];
    let visited = recursive_check_yaml(&vp("/"), &library);
    let visited_text: Vec<String> = visited.iter().map(text).collect();
    assert_eq!(visited_text, vec!["/", "/x"]);
    let found = vec![vp("/"), vp("x"), vp("y")];
    let lost = unreachable_slides(&found, &visited);
    let lost_text: Vec<String> = lost.iter().map(text).collect();
    assert_eq!(lost_text, vec!["y"]);
}

#[test]
fn walk_skips_missing_targets_and_cycles() {
    let library = vec![entry("/", &["a", "missing"]), entry("a", &["./b", "../"]), entry("a/b", &["../../a"])];
    let visited = recursive_check_yaml(&vp("/"), &library);
    let visited_text: Vec<String> = visited.iter().map(text).collect();
    assert_eq!(visited_text, vec!["/", "/a", "/a/b"]);
    assert!(recursive_check_yaml(&vp("nowhere"), &library).is_empty());
    assert_eq!(find_slide(&library, &vp("/a/b")), Some(2));
    assert_eq!(find_slide(&library, &vp("missing")), None);
}

#[test]
fn missing_image_gives_fallback() {
    let fallback = bmp_bytes(3, 5);
    let (img, source) = read_image(None, Some(fallback.clone())).ok().unwrap();
    assert_eq!(source, ImageSource::Fallback);
    let expected = image::load_from_memory(&fallback).unwrap();
    assert_eq!(img.image.as_bytes(), expected.as_bytes());
    assert_eq!((img.width, img.height), (3, 5));
}

#[test]
fn undecodable_image_gives_fallback() {
    let (img, source) = read_image(Some(vec![1, 2, 3]), Some(bmp_bytes(3, 5))).ok().unwrap();
    assert_eq!(source, ImageSource::Fallback);
    assert_eq!(img.width, 3);
}

#[test]
fn requested_image_is_decoded() {
    let (img, source) = read_image(Some(bmp_bytes(7, 2)), Some(bmp_bytes(3, 5))).ok().unwrap();
    assert_eq!(source, ImageSource::Requested);
    assert_eq!((img.width, img.height), (7, 2));
}

#[test]
fn missing_fallback_is_an_error() {
    assert_eq!(read_image(None, None).err(), Some(FallbackMissing));
    assert_eq!(read_image(None, Some(vec![0, 1])).err(), Some(FallbackMissing));
    assert_eq!(read_image(Some(vec![9, 9]), Some(vec![0, 1])).err(), Some(FallbackMissing));
}

#[test]
fn pixels_pack_red_highest() {
    assert_eq!(ferrous_tale::draw::pack_pixel(0x12, 0x34, 0x56), 0x123456);
    assert_eq!(ferrous_tale::draw::pack_pixel(255, 255, 255), 0xffffff);
    assert_eq!(ferrous_tale::draw::pack_pixel(0, 0, 0), 0);
}

#[test]
fn unreachable_slides_keeps_found_order() {
    let found = vec![vp("c"), vp("a"), vp("b")];
    let visited = vec![vp("/a")];
    let lost: Vec<String> = unreachable_slides(&found, &visited).iter().map(text).collect();
    assert_eq!(lost, vec!["c", "b"]);
}

#[test]
fn shown_clickable_is_painted_over_background() {
    let mut game = game_at("a");
    game.slide.clickables.push(clickable("next", ratio(1, 2), ratio(1, 4), &[]));
    let red = Picture::new(DynamicImage::ImageRgb8(image::RgbImage::from_pixel(10, 20, image::Rgb([255, 0, 0]))));
    let canvas = Canvas::build(&game, Picture::new(DynamicImage::new_rgb8(200, 100)), vec![], vec![Some(red)]);
    let pixels = canvas.dynamic_image.to_rgb8();
    assert_eq!(pixels.get_pixel(105, 30).0, [255, 0, 0]);
    assert_eq!(pixels.get_pixel(99, 30).0, [0, 0, 0]);
    assert_eq!(pixels.get_pixel(0, 0).0, [0, 0, 0]);
}

fn segments_of(p: &VirtualPath) -> Vec<&str> {
    p.segments.iter().map(|s| s.as_str()).collect()
}

#[test]
fn parse_splits_on_separators() {
    let p = VirtualPath::parse("/a//b/./c/");
    assert!(p.rooted);
    assert_eq!(segments_of(&p), vec!["a", "b", "c"]);
    let q = VirtualPath::parse("a/../b");
    assert!(!q.rooted);
    assert_eq!(segments_of(&q), vec!["a", "..", "b"]);
}

#[test]
fn parse_keeps_only_a_leading_current_dir() {
    assert_eq!(segments_of(&VirtualPath::parse("./x/./y")), vec![".", "x", "y"]);
    assert_eq!(segments_of(&VirtualPath::parse(".")), vec!["."]);
    assert_eq!(segments_of(&VirtualPath::parse("/./x")), vec!["x"]);
}

#[test]
fn parse_root_and_empty() {
    let root = VirtualPath::parse("/");
    assert!(root.rooted);
    assert!(root.segments.is_empty());
    let empty = VirtualPath::parse("");
    assert!(!empty.rooted);
    assert!(empty.segments.is_empty());
    assert!(VirtualPath::root().same_as(&root));
    assert!(VirtualPath::empty().same_as(&empty));
}

#[test]
fn parent_and_append() {
    assert_eq!(text(&vp("a/b").parent()), "a");
    assert_eq!(text(&vp("/a").parent()), "/");
    assert_eq!(text(&vp("a").parent()), "");
    assert_eq!(text(&vp("a").append(&vp("./b"))), "a/b");
    assert_eq!(text(&vp("a").append(&vp("/b"))), "/b");
    assert_eq!(text(&vp("a").append(&vp("../b"))), "a/../b");
}

#[test]
fn forbidden_keys_do_not_hide_a_hotspot() {
    let mut game = game_at("a");
    let mut c = clickable("next", ratio(1, 2), ratio(1, 4), &[]);
    c.mustnt_have_keys = keys(&["k"]);
    game.slide.clickables.push(c);
    let canvas = build(&game);
    assert_eq!(canvas.buttons.len(), 1);
}

#[test]
fn more_keys_show_more_hotspots() {
    let mut game = game_at("a");
    game.keys = keys(&["k1"]);
    game.slide.clickables.push(clickable("one", ratio(0, 1), ratio(0, 1), &["k1"]));
    game.slide.clickables.push(clickable("two", ratio(1, 2), ratio(0, 1), &["k2"]));
    game.slide.clickables.push(clickable("three", ratio(1, 4), ratio(1, 2), &[]));
    let fewer: Vec<String> = build(&game).buttons.iter().map(|b| text(&b.slide_path)).collect();
    game.keys = keys(&["k1", "k2"]);
    let more: Vec<String> = build(&game).buttons.iter().map(|b| text(&b.slide_path)).collect();
    assert_eq!(fewer, vec!["one", "three"]);
    assert_eq!(more, vec!["one", "two", "three"]);
}

#[test]
fn canvas_takes_background_size() {
    let game = game_at("a");
    let canvas = Canvas::build(&game, Picture::new(DynamicImage::new_rgb8(33, 17)), vec![], vec![]);
    assert_eq!(canvas.size(), (33, 17));
    assert_eq!((canvas.dynamic_image.width(), canvas.dynamic_image.height()), (33, 17));
}
