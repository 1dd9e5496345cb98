use vstd::prelude::*;
use vstd::set_lib::{lemma_int_range, lemma_len_subset, set_int_range};

use crate::path::{canonical_join, join_spec, prefix_path, prefix_spec, PathModel, VirtualPath};
use crate::scene::Slide;

verus! {

/// A slide that could be read, with the directory it was read from.
pub struct SlideEntry {
    pub location: VirtualPath,
    pub slide: Slide,
}

/// Two paths name the same slide when they land on the same place in the story root.
pub open spec fn key_of(p: PathModel) -> PathModel {
    prefix_spec(p)
}

pub open spec fn holds_key(lib: Seq<SlideEntry>, j: int, p: PathModel) -> bool {
    0 <= j < lib.len() && key_of(lib[j].location@) == key_of(p)
}

/// `j` is the first entry of `lib` for the slide at `p`.
pub open spec fn entry_index(lib: Seq<SlideEntry>, p: PathModel, j: int) -> bool {
    holds_key(lib, j, p) && forall|i: int| 0 <= i < j ==> !#[trigger] holds_key(lib, i, p)
}

pub open spec fn has_entry(lib: Seq<SlideEntry>, p: PathModel) -> bool {
    exists|j: int| #[trigger] holds_key(lib, j, p)
}

/// The slide at `p` has a clickable that leads to `q`.
pub open spec fn links_to(lib: Seq<SlideEntry>, p: PathModel, q: PathModel) -> bool {
    exists|j: int, c: int|
        #[trigger] entry_index(lib, p, j) && 0 <= c < lib[j].slide.clickables@.len() && q == join_spec(
            p,
            #[trigger] lib[j].slide.clickables@[c].slide_path@,
        )
}

/// Some path of `ps` names the same slide as `p`.
pub open spec fn key_in(ps: Seq<VirtualPath>, p: PathModel) -> bool {
    exists|m: int| 0 <= m < ps.len() && key_of(#[trigger] ps[m]@) == key_of(p)
}

/// `r` is a walk of the story from `root`: it starts there, each later slide is
/// linked from an earlier one, no slide comes twice, and every readable slide
/// that a slide of `r` links to is in `r`.
pub open spec fn is_walk(r: Seq<VirtualPath>, root: PathModel, lib: Seq<SlideEntry>) -> bool {
    &&& r.len() > 0 <==> has_entry(lib, root)
    &&& r.len() > 0 ==> r[0]@ == root
    &&& forall|k: int| 0 <= k < r.len() ==> has_entry(lib, #[trigger] r[k]@)
    &&& forall|k: int, l: int| 0 <= k < l < r.len() ==> key_of(r[k]@) != key_of(r[l]@)
    &&& forall|k: int| 0 < k < r.len() ==> exists|j: int| 0 <= j < k && links_to(lib, r[j]@, #[trigger] r[k]@)
    &&& forall|k: int, q: PathModel|
        0 <= k < r.len() && #[trigger] links_to(lib, r[k]@, q) && has_entry(lib, q) ==> key_in(r, q)
}

fn same_key(a: &VirtualPath, b: &VirtualPath) -> (r: bool)
    ensures
        r == (key_of(a@) == key_of(b@)),
{
    prefix_path(a).same_as(&prefix_path(b))
}

/// The first entry of `library` for the slide at `p`.
pub fn find_slide(library: &Vec<SlideEntry>, p: &VirtualPath) -> (r: Option<usize>)
    ensures
        r is Some ==> entry_index(library@, p@, r->0 as int),
        r is None ==> !has_entry(library@, p@),
{
    let mut i: usize = 0;
    while i < library.len()
        invariant
            i <= library.len(),
            forall|k: int| 0 <= k < i ==> !#[trigger] holds_key(library@, k, p@),
        decreases library.len() - i,
    {
        if same_key(&library[i].location, p) {
            return Some(i);
        }
        i = i + 1;
    }
    None
}

fn contains_key(ps: &Vec<VirtualPath>, p: &VirtualPath) -> (r: bool)
    ensures
        r == key_in(ps@, p@),
{
    let mut i: usize = 0;
    while i < ps.len()
        invariant
            i <= ps.len(),
            forall|m: int| 0 <= m < i ==> key_of(#[trigger] ps@[m]@) != key_of(p@),
        decreases ps.len() - i,
    {
        if same_key(&ps[i], p) {
            return true;
        }
        i = i + 1;
    }
    false
}

/// Walks the story from `path` along every clickable's link, reading slides
/// from `library`; a link to a slide that cannot be read is not followed.
/// Returns the slides reached, each once, in the order first reached.
#[verifier::rlimit(40)]
pub fn recursive_check_yaml(path: &VirtualPath, library: &Vec<SlideEntry>) -> (r: Vec<VirtualPath>)
    ensures
        is_walk(r@, path@, library@),
{
    let mut nodes: Vec<VirtualPath> = Vec::new();
    let ghost lib = library@;
    let first = find_slide(library, path);
    let ghost mut idx: Seq<int> = Seq::empty();
    match first {
        None => {
            return nodes;
        },
        Some(j) => {
            nodes.push(path.clone_path());
            proof {
                idx = seq![j as int];
            }
        },
    }
    let mut i: usize = 0;
    while i < nodes.len()
        invariant
            lib == library@,
            1 <= nodes.len() <= library.len(),
            i <= nodes.len(),
            nodes@[0]@ == path@,
            idx.len() == nodes.len(),
            forall|k: int| 0 <= k < nodes.len() ==> entry_index(lib, #[trigger] nodes@[k]@, idx[k]),
            forall|k: int, l: int| 0 <= k < l < nodes.len() ==> key_of(nodes@[k]@) != key_of(nodes@[l]@),
            forall|k: int|
                0 < k < nodes.len() ==> exists|j: int| 0 <= j < k && links_to(lib, nodes@[j]@, #[trigger] nodes@[k]@),
            forall|k: int, q: PathModel|
                0 <= k < i && #[trigger] links_to(lib, nodes@[k]@, q) && has_entry(lib, q) ==> key_in(nodes@, q),
        decreases library.len() - i,
    {
        let cur = nodes[i].clone_path();
        let j = match find_slide(library, &cur) {
            Some(j) => j,
            None => {
                proof {
                    assert(holds_key(lib, idx[i as int], cur@));
                    assert(false);
                }
                return nodes;
            },
        };
        let slide = &library[j].slide;
        let mut c: usize = 0;
        while c < slide.clickables.len()
            invariant
                lib == library@,
                slide == &library@[j as int].slide,
                entry_index(lib, cur@, j as int),
                cur@ == nodes@[i as int]@,
                1 <= nodes.len() <= library.len(),
                i < nodes.len(),
                nodes@[0]@ == path@,
                idx.len() == nodes.len(),
                forall|k: int| 0 <= k < nodes.len() ==> entry_index(lib, #[trigger] nodes@[k]@, idx[k]),
                forall|k: int, l: int| 0 <= k < l < nodes.len() ==> key_of(nodes@[k]@) != key_of(nodes@[l]@),
                forall|k: int|
                    0 < k < nodes.len() ==> exists|j: int|
                        0 <= j < k && links_to(lib, nodes@[j]@, #[trigger] nodes@[k]@),
                forall|k: int, q: PathModel|
                    0 <= k < i && #[trigger] links_to(lib, nodes@[k]@, q) && has_entry(lib, q) ==> key_in(
                        nodes@,
                        q,
                    ),
                forall|d: int|
                    0 <= d < c && has_entry(lib, join_spec(cur@, #[trigger] slide.clickables@[d].slide_path@))
                        ==> key_in(nodes@, join_spec(cur@, slide.clickables@[d].slide_path@)),
            decreases slide.clickables.len() - c,
        {
            let target = canonical_join(&cur, &slide.clickables[c].slide_path);
            proof {
                assert(links_to(lib, cur@, target@)) by {
                    assert(entry_index(lib, cur@, j as int));
                    assert(target@ == join_spec(cur@, lib[j as int].slide.clickables@[c as int].slide_path@));
                }
            }
            let ghost before = nodes@;
            match find_slide(library, &target) {
                Some(jt) => {
                    if !contains_key(&nodes, &target) {
                        nodes.push(target);
                        proof {
                            let n = before.len();
                            assert(nodes@[n as int]@ == target@);
                            assert forall|k: int| 0 <= k < n implies #[trigger] idx[k] != jt as int by {
                                assert(entry_index(lib, before[k]@, idx[k]));
                                assert(key_of(before[k]@) != key_of(target@));
                            }
                            idx = idx.push(jt as int);
                            assert(idx.no_duplicates()) by {
                                assert forall|k: int, l: int| 0 <= k < l < idx.len() implies idx[k] != idx[l] by {
                                    if l < n {
                                        assert(entry_index(lib, nodes@[k]@, idx[k]));
                                        assert(entry_index(lib, nodes@[l]@, idx[l]));
                                        assert(key_of(nodes@[k]@) != key_of(nodes@[l]@));
                                    }
                                }
                            }
                            idx.unique_seq_to_set();
                            lemma_int_range(0, lib.len() as int);
                            assert(idx.to_set().subset_of(set_int_range(0, lib.len() as int))) by {
                                assert forall|v: int| idx.to_set().contains(v) implies set_int_range(
                                    0,
                                    lib.len() as int,
                                ).contains(v) by {
                                    let k = choose|k: int| 0 <= k < idx.len() && idx[k] == v;
                                    assert(entry_index(lib, nodes@[k]@, idx[k]));
                                }
                            }
                            lemma_len_subset(idx.to_set(), set_int_range(0, lib.len() as int));
                            assert forall|k: int| 0 <= k < nodes.len() implies entry_index(
                                lib,
                                #[trigger] nodes@[k]@,
                                idx[k],
                            ) by {
                                if k < n {
                                    assert(nodes@[k] == before[k]);
                                }
                            }
                            assert forall|k: int| 0 < k < nodes.len() implies exists|j: int|
                                0 <= j < k && links_to(lib, nodes@[j]@, #[trigger] nodes@[k]@) by {
                                if k < n {
                                    assert(nodes@[k] == before[k]);
                                    let jj = choose|jj: int| 0 <= jj < k && links_to(lib, before[jj]@, before[k]@);
                                    assert(nodes@[jj] == before[jj]);
                                } else {
                                    assert(nodes@[i as int] == before[i as int]);
                                    assert(links_to(lib, nodes@[i as int]@, nodes@[k]@));
                                }
                            }
                            assert forall|q: PathModel| key_in(before, q) implies key_in(nodes@, q) by {
                                let m = choose|m: int| 0 <= m < before.len() && key_of(#[trigger] before[m]@) == key_of(q);
                                assert(nodes@[m] == before[m]);
                            }
                            assert(key_in(nodes@, target@)) by {
                                assert(key_of(nodes@[n as int]@) == key_of(target@));
                            }
                            assert forall|k: int, q: PathModel|
                                0 <= k < i && #[trigger] links_to(lib, nodes@[k]@, q) && has_entry(lib, q) implies key_in(
                                nodes@,
                                q,
                            ) by {
                                assert(nodes@[k] == before[k]);
                                assert(key_in(before, q));
                            }
                        }
                    }
                },
                None => {},
            }
            c = c + 1;
        }
        proof {
            assert forall|q: PathModel|
                #[trigger] links_to(lib, nodes@[i as int]@, q) && has_entry(lib, q) implies key_in(nodes@, q) by {
                let (jj, d) = choose|jj: int, d: int|
                    #[trigger] entry_index(lib, nodes@[i as int]@, jj) && 0 <= d
                        < lib[jj].slide.clickables@.len() && q == join_spec(
                        nodes@[i as int]@,
                        #[trigger] lib[jj].slide.clickables@[d].slide_path@,
                    );
                assert(jj == j as int);
                assert(q == join_spec(cur@, slide.clickables@[d].slide_path@));
            }
        }
        i = i + 1;
    }
    nodes
}

/// The slides of `found` that no path of `visited` reaches, in their order.
pub open spec fn unvisited(found: Seq<VirtualPath>, visited: Seq<VirtualPath>, n: int) -> Seq<PathModel>
    decreases n,
{
    if n <= 0 {
        Seq::empty()
    } else {
        let prev = unvisited(found, visited, n - 1);
        if key_in(visited, found[n - 1]@) {
            prev
        } else {
            prev.push(found[n - 1]@)
        }
    }
}

/// The slides that exist but are never reached: those of `found` whose place
/// no path of `visited` names.
pub fn unreachable_slides(found: &Vec<VirtualPath>, visited: &Vec<VirtualPath>) -> (r: Vec<VirtualPath>)
    ensures
        r@.map_values(|p: VirtualPath| p@) == unvisited(found@, visited@, found.len() as int),
{
    let mut r: Vec<VirtualPath> = Vec::new();
    let mut i: usize = 0;
    proof {
        assert(r@.map_values(|p: VirtualPath| p@) =~= unvisited(found@, visited@, 0));
    }
    while i < found.len()
        invariant
            i <= found.len(),
            r@.map_values(|p: VirtualPath| p@) == unvisited(found@, visited@, i as int),
        decreases found.len() - i,
    {
        let ghost prev = r@;
        if !contains_key(visited, &found[i]) {
            r.push(found[i].clone_path());
            assert(r@.map_values(|p: VirtualPath| p@) =~= prev.map_values(|p: VirtualPath| p@).push(found@[i as int]@));
        }
        i = i + 1;
    }
    r
}

/// The slides of `found` that are reported are exactly those whose place no
/// path of `visited` names.
pub proof fn lemma_unvisited_members(found: Seq<VirtualPath>, visited: Seq<VirtualPath>, n: int)
    requires
        0 <= n <= found.len(),
    ensures
        forall|i: int|
            0 <= i < n && !key_in(visited, #[trigger] found[i]@) ==> unvisited(found, visited, n).contains(found[i]@),
        forall|p: PathModel| #[trigger] unvisited(found, visited, n).contains(p) ==> !key_in(visited, p),
    decreases n,
{
    if n > 0 {
        lemma_unvisited_members(found, visited, n - 1);
        let prev = unvisited(found, visited, n - 1);
        let cur = unvisited(found, visited, n);
        assert forall|i: int|
            0 <= i < n && !key_in(visited, #[trigger] found[i]@) implies cur.contains(found[i]@) by {
            if i < n - 1 {
                let w = choose|w: int| 0 <= w < prev.len() && prev[w] == found[i]@;
                if !key_in(visited, found[n - 1]@) {
                    assert(cur[w] == prev[w]);
                }
            } else {
                assert(cur[prev.len() as int] == found[i]@);
            }
        }
        assert forall|p: PathModel| #[trigger] cur.contains(p) implies !key_in(visited, p) by {
            let w = choose|w: int| 0 <= w < cur.len() && cur[w] == p;
            if w < prev.len() {
                assert(prev[w] == p);
                assert(prev.contains(p));
            }
        }
    }
}

/// Where the root links to the readable slide `x`, and `y` is a slide that is
/// not the root and that no reached slide links to, the report of unreachable
/// slides holds `y` and neither the root nor `x`.
pub proof fn lemma_reachability_diff(
    library: Seq<SlideEntry>,
    root: PathModel,
    x: PathModel,
    y: PathModel,
    visited: Seq<VirtualPath>,
    found: Seq<VirtualPath>,
    iy: int,
)
    requires
        is_walk(visited, root, library),
        has_entry(library, root),
        links_to(library, root, x),
        has_entry(library, x),
        key_of(y) != key_of(root),
        forall|k: int, q: PathModel|
            0 <= k < visited.len() && #[trigger] links_to(library, visited[k]@, q) ==> key_of(q) != key_of(y),
        0 <= iy < found.len(),
        found[iy]@ == y,
    ensures
        visited.len() > 0,
        unvisited(found, visited, found.len() as int).contains(y),
        !unvisited(found, visited, found.len() as int).contains(root),
        !unvisited(found, visited, found.len() as int).contains(x),
{
    lemma_unvisited_members(found, visited, found.len() as int);
    assert(key_in(visited, root)) by {
        assert(key_of(visited[0]@) == key_of(root));
    }
    assert(key_in(visited, x)) by {
        assert(links_to(library, visited[0]@, x));
    }
    assert(!key_in(visited, y)) by {
        if key_in(visited, y) {
            let m = choose|m: int| 0 <= m < visited.len() && key_of(#[trigger] visited[m]@) == key_of(y);
            if m > 0 {
                let j = choose|j: int| 0 <= j < m && links_to(library, visited[j]@, #[trigger] visited[m]@);
                assert(links_to(library, visited[j]@, visited[m]@));
            }
        }
    }
}

} // verus!
