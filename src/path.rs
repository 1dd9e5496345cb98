use vstd::prelude::*;

verus! {

/// A path inside the story tree, kept as its components.
///
/// `rooted` records a leading separator. A current-directory marker `.` may
/// only stand as the first segment; `..` may stand anywhere.
pub struct VirtualPath {
    pub rooted: bool,
    pub segments: Vec<String>,
}

/// The mathematical form of a path: leading separator and segment texts.
pub type PathModel = (bool, Seq<Seq<char>>);

impl View for VirtualPath {
    type V = PathModel;

    open spec fn view(&self) -> PathModel {
        (self.rooted, self.segments@.map_values(|s: String| s@))
    }
}

pub open spec fn cur_dir() -> Seq<char> {
    seq!['.']
}

pub open spec fn parent_dir() -> Seq<char> {
    seq!['.', '.']
}

/// The directory that holds every story path.
pub open spec fn story_root() -> Seq<char> {
    seq!['s', 't', 'o', 'r', 'y']
}

/// Drops one leading current-directory marker, as a path does when joined below another.
pub open spec fn strip_cur(s: Seq<Seq<char>>) -> Seq<Seq<char>> {
    if s.len() > 0 && s[0] == cur_dir() {
        s.drop_first()
    } else {
        s
    }
}

/// The path placed inside the story root; a leading separator is ignored.
pub open spec fn prefix_spec(p: PathModel) -> PathModel {
    (false, seq![story_root()] + strip_cur(p.1))
}

/// The containing directory, or the empty path when there is none.
pub open spec fn parent_spec(p: PathModel) -> PathModel {
    if p.1.len() > 0 {
        (p.0, p.1.drop_last())
    } else {
        (false, Seq::empty())
    }
}

/// `base` followed by `rel`; a rooted `rel` replaces `base`.
pub open spec fn append_spec(base: PathModel, rel: PathModel) -> PathModel {
    if rel.0 {
        rel
    } else {
        (base.0, base.1 + strip_cur(rel.1))
    }
}

/// One-hop resolution of `rel` against the directory `base`: only the first
/// segment of `rel` is looked at for `.` or `..`.
pub open spec fn join_spec(base: PathModel, rel: PathModel) -> PathModel {
    if !rel.0 && rel.1.len() > 0 && rel.1[0] == cur_dir() {
        append_spec(base, (false, rel.1.drop_first()))
    } else if !rel.0 && rel.1.len() > 0 && rel.1[0] == parent_dir() {
        append_spec(parent_spec(base), (false, rel.1.drop_first()))
    } else {
        append_spec(base, rel)
    }
}

/// The texts between separators, in order; empty texts included.
pub open spec fn pieces(s: Seq<char>) -> Seq<Seq<char>>
    decreases s.len(),
{
    if s.len() == 0 {
        seq![Seq::empty()]
    } else {
        let prev = pieces(s.drop_last());
        if s.last() == '/' {
            prev.push(Seq::empty())
        } else {
            prev.update(prev.len() - 1, prev.last().push(s.last()))
        }
    }
}

/// A piece becomes a segment unless it is empty, or a `.` after the first piece.
pub open spec fn keep_piece(p: Seq<char>, first: bool) -> bool {
    p.len() > 0 && (p != cur_dir() || first)
}

/// The segments that the first `n` pieces give.
pub open spec fn kept(ps: Seq<Seq<char>>, n: int) -> Seq<Seq<char>>
    decreases n,
{
    if n <= 0 {
        Seq::empty()
    } else {
        let prev = kept(ps, n - 1);
        if keep_piece(ps[n - 1], n - 1 == 0) {
            prev.push(ps[n - 1])
        } else {
            prev
        }
    }
}

/// The path that a text names: a leading `/` makes it rooted; empty pieces
/// and inner `.` pieces are dropped.
pub open spec fn parse_spec(s: Seq<char>) -> PathModel {
    (s.len() > 0 && s[0] == '/', kept(pieces(s), pieces(s).len() as int))
}

proof fn lemma_keep_piece(s: Seq<char>, a: int, b: int, first: bool)
    requires
        0 <= a <= b <= s.len(),
    ensures
        keep_piece(s.subrange(a, b), first) == (b > a && !(b - a == 1 && s[a] == '.' && !first)),
{
    let p = s.subrange(a, b);
    if b - a == 1 {
        if s[a] == '.' {
            assert(p =~= cur_dir());
        } else {
            assert(p[0] != cur_dir()[0]);
        }
    } else if b > a {
        assert(p.len() != cur_dir().len());
    }
}

proof fn lemma_kept_prefix(ps1: Seq<Seq<char>>, ps2: Seq<Seq<char>>, n: int)
    requires
        0 <= n <= ps1.len(),
        n <= ps2.len(),
        forall|k: int| 0 <= k < n ==> ps1[k] == ps2[k],
    ensures
        kept(ps1, n) == kept(ps2, n),
    decreases n,
{
    if n > 0 {
        lemma_kept_prefix(ps1, ps2, n - 1);
    }
}

/// Resolution of a path depends on nothing but the two paths given.
pub proof fn lemma_join_deterministic(
    base1: PathModel,
    rel1: PathModel,
    base2: PathModel,
    rel2: PathModel,
)
    requires
        base1 == base2,
        rel1 == rel2,
    ensures
        join_spec(base1, rel1) == join_spec(base2, rel2),
{
}

fn is_marker(s: &String, dots: usize) -> (r: bool)
    requires
        dots == 1 || dots == 2,
    ensures
        r == (s@ == (if dots == 1 { cur_dir() } else { parent_dir() })),
{
    let n = s.as_str().unicode_len();
    if n != dots {
        return false;
    }
    let mut i: usize = 0;
    while i < n
        invariant
            n == s@.len(),
            n == dots,
            dots == 1 || dots == 2,
            i <= n,
            forall|j: int| 0 <= j < i ==> s@[j] == '.',
        decreases n - i,
    {
        if s.as_str().get_char(i) != '.' {
            return false;
        }
        i = i + 1;
    }
    assert(s@ =~= (if dots == 1 { cur_dir() } else { parent_dir() }));
    true
}

fn copy_segments(src: &Vec<String>, from: usize, dst: &mut Vec<String>)
    requires
        from <= src.len(),
    ensures
        final(dst)@.len() == old(dst)@.len() + src.len() - from,
        forall|k: int| 0 <= k < old(dst)@.len() ==> #[trigger] final(dst)@[k]@ == old(dst)@[k]@,
        forall|k: int|
            from <= k < src.len() ==> final(dst)@[old(dst)@.len() + k - from]@ == #[trigger] src@[k]@,
{
    let ghost start = dst@;
    let mut i: usize = from;
    while i < src.len()
        invariant
            from <= i <= src.len(),
            dst@.len() == start.len() + i - from,
            forall|k: int| 0 <= k < start.len() ==> #[trigger] dst@[k]@ == start[k]@,
            forall|k: int| from <= k < i ==> dst@[start.len() + k - from]@ == #[trigger] src@[k]@,
        decreases src.len() - i,
    {
        dst.push(src[i].clone());
        i = i + 1;
    }
}

impl VirtualPath {
    /// Reads a path written with `/` separators.
    pub fn parse(text: &str) -> (r: VirtualPath)
        ensures
            r@ == parse_spec(text@),
    {
        let n = text.unicode_len();
        let ghost s = text@;
        let mut segments: Vec<String> = Vec::new();
        let mut start: usize = 0;
        let mut closed: usize = 0;
        let mut i: usize = 0;
        proof {
            assert(s.take(0) =~= Seq::<char>::empty());
            assert(s.subrange(0, 0) =~= Seq::<char>::empty());
        }
        while i < n
            invariant
                n == s.len(),
                s == text@,
                start <= i <= n,
                closed <= i,
                pieces(s.take(i as int)).len() == closed + 1,
                pieces(s.take(i as int))[closed as int] == s.subrange(start as int, i as int),
                segments@.map_values(|t: String| t@) == kept(pieces(s.take(i as int)), closed as int),
            decreases n - i,
        {
            let ghost p = pieces(s.take(i as int));
            let c = text.get_char(i);
            assert(s.take(i + 1).drop_last() =~= s.take(i as int));
            assert(s.take(i + 1).last() == c);
            if c == '/' {
                let ghost p2 = p.push(Seq::empty());
                assert(pieces(s.take(i + 1)) == p2);
                proof {
                    lemma_kept_prefix(p, p2, closed as int);
                }
                let ghost before = segments@;
                proof {
                    lemma_keep_piece(s, start as int, i as int, closed == 0);
                    assert(kept(p2, closed + 1) == if keep_piece(p2[closed as int], closed == 0) {
                        kept(p2, closed as int).push(p2[closed as int])
                    } else {
                        kept(p2, closed as int)
                    });
                }
                if i > start && !(i - start == 1 && text.get_char(start) == '.' && closed != 0) {
                    segments.push(text.substring_char(start, i).to_owned());
                    assert(segments@.map_values(|t: String| t@) =~= before.map_values(|t: String| t@).push(
                        p2[closed as int],
                    ));
                }
                closed = closed + 1;
                start = i + 1;
                assert(s.subrange(start as int, i + 1) =~= Seq::<char>::empty());
            } else {
                let ghost p2 = p.update(closed as int, p[closed as int].push(c));
                assert(pieces(s.take(i + 1)) == p2);
                assert(p2[closed as int] =~= s.subrange(start as int, i + 1));
                proof {
                    lemma_kept_prefix(p, p2, closed as int);
                }
            }
            i = i + 1;
        }
        assert(s.take(n as int) =~= s);
        let ghost p = pieces(s);
        let ghost before = segments@;
        proof {
            lemma_keep_piece(s, start as int, n as int, closed == 0);
            assert(kept(p, closed + 1) == if keep_piece(p[closed as int], closed == 0) {
                kept(p, closed as int).push(p[closed as int])
            } else {
                kept(p, closed as int)
            });
        }
        if n > start && !(n - start == 1 && text.get_char(start) == '.' && closed != 0) {
            segments.push(text.substring_char(start, n).to_owned());
            assert(segments@.map_values(|t: String| t@) =~= before.map_values(|t: String| t@).push(
                p[closed as int],
            ));
        }
        let rooted = n > 0 && text.get_char(0) == '/';
        VirtualPath { rooted, segments }
    }
    pub fn new(rooted: bool, segments: Vec<String>) -> (r: VirtualPath)
        ensures
            r.rooted == rooted,
            r.segments@ == segments@,
    {
        VirtualPath { rooted, segments }
    }

    /// The empty relative path.
    pub fn empty() -> (r: VirtualPath)
        ensures
            r@ == (false, Seq::<Seq<char>>::empty()),
    {
        let r = VirtualPath { rooted: false, segments: Vec::new() };
        assert(r@.1 =~= Seq::<Seq<char>>::empty());
        r
    }

    /// The root of the story, written `/`.
    pub fn root() -> (r: VirtualPath)
        ensures
            r@ == (true, Seq::<Seq<char>>::empty()),
    {
        let r = VirtualPath { rooted: true, segments: Vec::new() };
        assert(r@.1 =~= Seq::<Seq<char>>::empty());
        r
    }

    pub fn clone_path(&self) -> (r: VirtualPath)
        ensures
            r@ == self@,
    {
        let mut segments: Vec<String> = Vec::new();
        copy_segments(&self.segments, 0, &mut segments);
        let r = VirtualPath { rooted: self.rooted, segments };
        assert(r@.1 =~= self@.1);
        r
    }

    /// True when both paths have the same components.
    pub fn same_as(&self, other: &VirtualPath) -> (r: bool)
        ensures
            r == (self@ == other@),
    {
        if self.rooted != other.rooted || self.segments.len() != other.segments.len() {
            proof {
                if self@ == other@ {
                    assert(self@.1.len() == other@.1.len());
                }
            }
            return false;
        }
        let mut i: usize = 0;
        while i < self.segments.len()
            invariant
                self.segments.len() == other.segments.len(),
                i <= self.segments.len(),
                forall|j: int| 0 <= j < i ==> self.segments@[j]@ == other.segments@[j]@,
            decreases self.segments.len() - i,
        {
            if self.segments[i] != other.segments[i] {
                proof {
                    assert(self@.1[i as int] != other@.1[i as int]);
                }
                return false;
            }
            i = i + 1;
        }
        assert(self@.1 =~= other@.1);
        true
    }

    /// `self` followed by `rel`, as a path join does: a rooted `rel` replaces
    /// `self`, and a leading `.` of `rel` is dropped.
    pub fn append(&self, rel: &VirtualPath) -> (r: VirtualPath)
        ensures
            r@ == append_spec(self@, rel@),
    {
        if rel.rooted {
            return rel.clone_path();
        }
        let mut segments: Vec<String> = Vec::new();
        copy_segments(&self.segments, 0, &mut segments);
        let skip: usize = if rel.segments.len() > 0 && is_marker(&rel.segments[0], 1) {
            1
        } else {
            0
        };
        copy_segments(&rel.segments, skip, &mut segments);
        let r = VirtualPath { rooted: self.rooted, segments };
        assert(r@.1 =~= self@.1 + strip_cur(rel@.1));
        r
    }

    /// The path without its first segment, kept relative.
    fn tail(&self) -> (r: VirtualPath)
        requires
            self.segments.len() > 0,
        ensures
            r@ == (false, self@.1.drop_first()),
    {
        let mut segments: Vec<String> = Vec::new();
        copy_segments(&self.segments, 1, &mut segments);
        let r = VirtualPath { rooted: false, segments };
        assert(r@.1 =~= self@.1.drop_first());
        r
    }

    /// The containing directory, or the empty path when there is none.
    pub fn parent(&self) -> (r: VirtualPath)
        ensures
            r@ == parent_spec(self@),
    {
        if self.segments.len() == 0 {
            return VirtualPath::empty();
        }
        let mut segments: Vec<String> = Vec::new();
        copy_segments(&self.segments, 0, &mut segments);
        let ghost before = segments@;
        segments.pop();
        assert(segments@ =~= before.drop_last());
        let r = VirtualPath { rooted: self.rooted, segments };
        assert(r@.1 =~= self@.1.drop_last());
        r
    }
}

fn story_root_segment() -> (r: String)
    ensures
        r@ == story_root(),
{
    proof {
        reveal_strlit("story");
    }
    String::from_str("story")
}

/// Places `path` inside the story root; a leading separator is ignored, so
/// both `/a` and `a` land at `story/a`.
pub fn prefix_path(path: &VirtualPath) -> (r: VirtualPath)
    ensures
        r@ == prefix_spec(path@),
{
    let mut segments: Vec<String> = Vec::new();
    segments.push(story_root_segment());
    let inner = VirtualPath { rooted: false, segments };
    assert(inner@.1 =~= seq![story_root()]);
    let relative = VirtualPath { rooted: false, segments: path.clone_path().segments };
    inner.append(&relative)
}

/// Resolves `rhs` against the directory `lhs`, looking only at the first
/// segment of `rhs`: `.` keeps `lhs`, `..` steps to its parent, anything else
/// is appended as it stands.
pub fn canonical_join(lhs: &VirtualPath, rhs: &VirtualPath) -> (r: VirtualPath)
    ensures
        r@ == join_spec(lhs@, rhs@),
{
    if !rhs.rooted && rhs.segments.len() > 0 && is_marker(&rhs.segments[0], 1) {
        lhs.append(&rhs.tail())
    } else if !rhs.rooted && rhs.segments.len() > 0 && is_marker(&rhs.segments[0], 2) {
        lhs.parent().append(&rhs.tail())
    } else {
        lhs.append(rhs)
    }
}

} // verus!
