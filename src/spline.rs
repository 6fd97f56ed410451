//! A spline: a chain of segments, where a joint `(a, a + 1)` declares that
//! the last point of segment `a` and the first point of segment `a + 1` are
//! one logical point.

use vstd::prelude::*;
use crate::cubic::CubicBezier;
use crate::curve::{can_move, moved_by, Segment};
use crate::geometry::{default_shape, CurveError, Param, Point, Sample};
use crate::handles::{is_first_hit, snap_fits, snapped};
use crate::kernel::{is_blend, is_level, within_limits};

verus! {

/// A joint whose two points coincide.
pub open spec fn joint_holds(segs: Seq<Segment>, l: (usize, usize)) -> bool {
    &&& l.1 == l.0 + 1
    &&& l.1 < segs.len()
    &&& segs[l.0 as int].points().last() == segs[l.1 as int].points()[0]
}

/// Every joint of `links` holds.
pub open spec fn joints_hold(segs: Seq<Segment>, links: Seq<(usize, usize)>) -> bool {
    forall|j: int| 0 <= j < links.len() ==> joint_holds(segs, #[trigger] links[j])
}

/// `r` is the first control point under `c`: in the first segment that has
/// one, the first such point.
pub open spec fn is_spline_hit(r: Option<(usize, usize)>, segs: Seq<Segment>, c: Point) -> bool {
    match r {
        Some((s, i)) => {
            &&& s < segs.len()
            &&& is_first_hit(Some(i), segs[s as int].points(), c, segs[s as int].half_size())
            &&& forall|k: int|
                0 <= k < s ==> is_first_hit(None, (#[trigger] segs[k]).points(), c, segs[k].half_size())
        },
        None => forall|k: int|
            0 <= k < segs.len() ==> is_first_hit(None, (#[trigger] segs[k]).points(), c, segs[k].half_size()),
    }
}

/// The points of segment `k` after the point `i` of segment `s` moved to `p`
/// and the joints at that point followed it.
pub open spec fn dragged_points(
    segs: Seq<Segment>,
    links: Seq<(usize, usize)>,
    s: int,
    i: int,
    p: Point,
    k: int,
) -> Seq<Point> {
    let pts = segs[k].points();
    if k == s {
        pts.update(i, p)
    } else if k == s + 1 && i == segs[s].points().len() - 1 && links.contains(
        (s as usize, k as usize),
    ) {
        pts.update(0, p)
    } else if k + 1 == s && i == 0 && links.contains((k as usize, s as usize)) {
        pts.update(pts.len() - 1, p)
    } else {
        pts
    }
}

/// Whether a joint survives the removal of point `i` of segment `s`, whose
/// last index is `last`: the joints at that point go.
pub open spec fn keeps_joint(l: (usize, usize), s: usize, i: usize, last: usize) -> bool {
    !(i == 0 && l.1 == s) && !(i == last && l.0 == s)
}

/// The joint `l` renumbered after segment `s` left the spline.
pub open spec fn renumbered(l: (usize, usize), s: usize) -> (usize, usize) {
    if l.0 > s {
        ((l.0 - 1) as usize, (l.1 - 1) as usize)
    } else {
        l
    }
}

/// `new` is `old` after a drag to `c`: the selected point moved to `c`
/// snapped to its segment's grid, with the point joined to it; nothing changes
/// when no point is selected.
pub open spec fn is_dragged(old: &Spline, new: &Spline, c: Point) -> bool {
    &&& new.links == old.links
    &&& new.selected == old.selected
    &&& new.segments.len() == old.segments.len()
    &&& forall|k: int|
        0 <= k < old.segments.len() ==> (#[trigger] new.segments[k]).same_kind(&old.segments[k])
            && new.segments[k].selection() == old.segments[k].selection()
    &&& match old.selected {
        Some((s, i)) => forall|k: int|
            0 <= k < old.segments.len() ==> (#[trigger] new.segments[k]).points() == dragged_points(
                old.segments@,
                old.links@,
                s as int,
                i as int,
                snapped(c, old.segments[s as int].grid()),
                k,
            ),
        None => new.segments@ == old.segments@,
    }
}

/// `new` is `old` after point `i` of segment `s` was removed: from the
/// segment, with the joints at that point; or, when the segment had two
/// points, the whole segment with its joints, the later joints renumbered.
pub open spec fn is_point_removed(old: &Spline, new: &Spline, s: usize, i: usize) -> bool {
    &&& new.selected is None
    &&& s < old.segments.len()
    &&& old.segments[s as int].points().len() > 2 ==> {
        &&& new.segments.len() == old.segments.len()
        &&& new.segments[s as int].points() == old.segments[s as int].points().remove(i as int)
        &&& new.segments[s as int].same_kind(&old.segments[s as int])
        &&& forall|k: int|
            0 <= k < old.segments.len() && k != s ==> #[trigger] new.segments[k] == old.segments[k]
        &&& forall|l: (usize, usize)|
            new.links@.contains(l) <==> old.links@.contains(l) && keeps_joint(
                l,
                s,
                i,
                (old.segments[s as int].points().len() - 1) as usize,
            )
    }
    &&& old.segments[s as int].points().len() == 2 ==> {
        &&& new.segments@ == old.segments@.remove(s as int)
        &&& forall|l: (usize, usize)|
            new.links@.contains(l) <==> exists|l0: (usize, usize)|
                old.links@.contains(l0) && l0.0 != s && l0.1 != s && l == renumbered(l0, s)
    }
}

/// `new` is `old` with `p` appended to segment `s`, and the joint at the end
/// of that segment gone.
pub open spec fn is_point_appended(old: &Spline, new: &Spline, s: usize, p: Point) -> bool {
    &&& new.selected == old.selected
    &&& s < old.segments.len()
    &&& new.segments.len() == old.segments.len()
    &&& new.segments[s as int].points() == old.segments[s as int].points().push(p)
    &&& new.segments[s as int].same_kind(&old.segments[s as int])
    &&& forall|k: int|
        0 <= k < old.segments.len() && k != s ==> #[trigger] new.segments[k] == old.segments[k]
    &&& forall|l: (usize, usize)| new.links@.contains(l) <==> old.links@.contains(l) && l.0 != s
}

/// `new` is `old` with a segment appended: a copy of the last segment moved
/// to start where it ends, with nothing selected and a joint to it; or, after
/// no segment, a cubic segment of the default shape and no joint.
pub open spec fn is_segment_appended(old: &Spline, new: &Spline) -> bool {
    &&& new.selected == old.selected
    &&& new.segments.len() == old.segments.len() + 1
    &&& new.segments@.take(old.segments.len() as int) == old.segments@
    &&& old.segments.len() == 0 ==> new.segments[0] == Segment::Cubic(CubicBezier::new_spec())
        && new.links@ == old.links@
    &&& old.segments.len() > 0 ==> {
        let n = old.segments.len();
        let last = old.segments@.last();
        let pts = last.points();
        &&& new.segments@.last().same_kind(&last)
        &&& new.segments@.last().selection() is None
        &&& new.segments@.last().points() == moved_by(
            pts,
            pts.last().x - pts[0].x,
            pts.last().y - pts[0].y,
        )
        &&& new.links@ == old.links@.push(((n - 1) as usize, n))
    }
}

/// Two first hits under the same cursor are the same point.
pub proof fn lemma_spline_hit_unique(
    a: (usize, usize),
    b: (usize, usize),
    segs: Seq<Segment>,
    c: Point,
)
    requires
        is_spline_hit(Some(a), segs, c),
        is_spline_hit(Some(b), segs, c),
    ensures
        a == b,
{
    if a.0 < b.0 {
        assert(is_first_hit(None, segs[a.0 as int].points(), c, segs[a.0 as int].half_size()));
        assert(crate::handles::hits(segs[a.0 as int].points()[a.1 as int], c, segs[a.0 as int].half_size()));
    } else if b.0 < a.0 {
        assert(is_first_hit(None, segs[b.0 as int].points(), c, segs[b.0 as int].half_size()));
        assert(crate::handles::hits(segs[b.0 as int].points()[b.1 as int], c, segs[b.0 as int].half_size()));
    } else {
        let pts = segs[a.0 as int].points();
        let h = segs[a.0 as int].half_size();
        if a.1 < b.1 {
            assert(crate::handles::hits(pts[a.1 as int], c, h));
        } else if b.1 < a.1 {
            assert(crate::handles::hits(pts[b.1 as int], c, h));
        }
    }
}

/// A chain of curve segments and the joints between neighbours.
pub struct Spline {
    pub segments: Vec<Segment>,
    pub links: Vec<(usize, usize)>,
    /// The point being dragged, as (segment, point).
    pub selected: Option<(usize, usize)>,
}

impl Spline {
    pub open spec fn wf(&self) -> bool {
        &&& forall|k: int| 0 <= k < self.segments.len() ==> (#[trigger] self.segments[k]).wf()
        &&& joints_hold(self.segments@, self.links@)
        &&& match self.selected {
            Some((s, i)) => s < self.segments.len() && i < self.segments[s as int].points().len(),
            None => true,
        }
    }

    /// Appending a segment keeps every coordinate within `i64`.
    pub open spec fn can_append(&self) -> bool {
        self.segments.len() == 0 || {
            let pts = self.segments@.last().points();
            let dx = pts.last().x - pts[0].x;
            let dy = pts.last().y - pts[0].y;
            &&& i64::MIN <= dx <= i64::MAX
            &&& i64::MIN <= dy <= i64::MAX
            &&& can_move(pts, dx, dy)
        }
    }

    /// An empty spline.
    pub fn new() -> (r: Spline)
        ensures
            r.wf(),
            r.segments.len() == 0,
            r.links.len() == 0,
            r.selected is None,
    {
        Spline { segments: Vec::new(), links: Vec::new(), selected: None }
    }

    /// Whether the joint `(a, b)` is declared.
    pub fn has_link(&self, a: usize, b: usize) -> (r: bool)
        ensures
            r == self.links@.contains((a, b)),
    {
        let mut j: usize = 0;
        while j < self.links.len()
            invariant
                j <= self.links.len(),
                forall|m: int| 0 <= m < j ==> self.links@[m] != (a, b),
            decreases self.links.len() - j,
        {
            if self.links[j].0 == a && self.links[j].1 == b {
                assert(self.links@[j as int] == (a, b));
                return true;
            }
            j = j + 1;
        }
        false
    }

    /// Appends a copy of the last segment, moved so that it starts where the
    /// last one ends, and joins the two. An empty spline gets a cubic segment
    /// of the default shape, with no joint.
    pub fn append_segment(&mut self)
        requires
            old(self).wf(),
            old(self).can_append(),
            old(self).segments.len() < usize::MAX,
        ensures
            final(self).wf(),
            final(self).selected == old(self).selected,
            final(self).segments.len() == old(self).segments.len() + 1,
            is_segment_appended(old(self), final(self)),
    {
        let n = self.segments.len();
        if n == 0 {
            self.segments.push(Segment::Cubic(CubicBezier::new()));
            assert(self.segments@.take(0) =~= Seq::<Segment>::empty());
            assert(old(self).segments@ =~= Seq::<Segment>::empty());
            return;
        }
        let ghost old_segs = self.segments@;
        let last = &self.segments[n - 1];
        let len = last.len();
        let first = last.control_point(0);
        let end = last.control_point(len - 1);
        let dx = end.x - first.x;
        let dy = end.y - first.y;
        let seg = last.translated(dx, dy);
        self.segments.push(seg);
        self.links.push((n - 1, n));
        assert(self.segments@.take(n as int) =~= old_segs);
        assert forall|j: int| 0 <= j < self.links.len() implies joint_holds(
            self.segments@,
            #[trigger] self.links@[j],
        ) by {
            if j < self.links.len() - 1 {
                assert(joint_holds(old_segs, old(self).links@[j]));
            }
        }
    }

    /// The first control point under `(x, y)`, as (segment, point).
    pub fn hit_test(&self, x: i64, y: i64) -> (r: Option<(usize, usize)>)
        ensures
            is_spline_hit(r, self.segments@, Point { x, y }),
    {
        let mut k: usize = 0;
        while k < self.segments.len()
            invariant
                k <= self.segments.len(),
                forall|j: int|
                    0 <= j < k ==> is_first_hit(
                        None,
                        (#[trigger] self.segments@[j]).points(),
                        Point { x, y },
                        self.segments@[j].half_size(),
                    ),
            decreases self.segments.len() - k,
        {
            if let Some(i) = self.segments[k].hit_test(x, y) {
                return Some((k, i));
            }
            k = k + 1;
        }
        None
    }

    /// Selects the first control point under `(x, y)`, if any; the selection
    /// stays as it was otherwise.
    pub fn click(&mut self, x: i64, y: i64)
        requires
            old(self).wf(),
        ensures
            final(self).wf(),
            final(self).links == old(self).links,
            final(self).segments.len() == old(self).segments.len(),
            forall|k: int|
                0 <= k < old(self).segments.len() ==> (#[trigger] final(self).segments[k]).points()
                    == old(self).segments[k].points() && final(self).segments[k].same_kind(
                    &old(self).segments[k],
                ),
            is_spline_hit(None, old(self).segments@, Point { x, y }) ==> final(self).selected
                == old(self).selected,
            !is_spline_hit(None, old(self).segments@, Point { x, y }) ==> final(self).selected is Some
                && is_spline_hit(final(self).selected, old(self).segments@, Point { x, y })
                && final(self).segments[final(self).selected->Some_0.0 as int].selection() == Some(
                final(self).selected->Some_0.1,
            ),
    {
        if let Some((s, i)) = self.hit_test(x, y) {
            let ghost segs = self.segments@;
            let _ = self.segments[s].select(i);
            self.selected = Some((s, i));
            proof {
                assert forall|k: int| 0 <= k < self.segments.len() implies (
                #[trigger] self.segments[k]).wf() by {
                    if k != s {
                        assert(self.segments@[k] == segs[k]);
                    }
                }
                assert forall|j: int| 0 <= j < self.links.len() implies joint_holds(
                    self.segments@,
                    #[trigger] self.links@[j],
                ) by {
                    assert(joint_holds(segs, self.links@[j]));
                }
            }
        }
    }

    /// Clears the selection in the spline and in every segment.
    pub fn release(&mut self)
        requires
            old(self).wf(),
        ensures
            final(self).wf(),
            final(self).links == old(self).links,
            final(self).selected is None,
            final(self).segments.len() == old(self).segments.len(),
            forall|k: int|
                0 <= k < old(self).segments.len() ==> (#[trigger] final(self).segments[k]).points()
                    == old(self).segments[k].points() && final(self).segments[k].same_kind(
                    &old(self).segments[k],
                ) && final(self).segments[k].selection() is None,
    {
        self.selected = None;
        let mut k: usize = 0;
        while k < self.segments.len()
            invariant
                k <= self.segments.len(),
                self.segments.len() == old(self).segments.len(),
                self.links == old(self).links,
                self.selected is None,
                forall|j: int| 0 <= j < self.segments.len() ==> (#[trigger] self.segments[j]).wf(),
                forall|j: int|
                    0 <= j < self.segments.len() ==> (#[trigger] self.segments[j]).points()
                        == old(self).segments[j].points() && self.segments[j].same_kind(
                        &old(self).segments[j],
                    ),
                forall|j: int| 0 <= j < k ==> (#[trigger] self.segments[j]).selection() is None,
                joints_hold(old(self).segments@, old(self).links@),
            decreases self.segments.len() - k,
        {
            self.segments[k].clear_selection();
            k = k + 1;
        }
        assert forall|j: int| 0 <= j < self.links.len() implies joint_holds(
            self.segments@,
            #[trigger] self.links@[j],
        ) by {
            assert(joint_holds(old(self).segments@, self.links@[j]));
        }
    }

    /// Moves the selected point to `(x, y)`, snapped to its segment's grid,
    /// and moves the point joined to it along; does nothing when no point is
    /// selected.
    pub fn drag(&mut self, x: i64, y: i64)
        requires
            old(self).wf(),
            match old(self).selected {
                Some((s, _)) => snap_fits(Point { x, y }, old(self).segments[s as int].grid()),
                None => true,
            },
        ensures
            final(self).wf(),
            is_dragged(old(self), final(self), Point { x, y }),
    {
        if let Some((s, i)) = self.selected {
            let ghost segs = self.segments@;
            let p = self.segments[s].snap(Point { x, y });
            let last = self.segments[s].len() - 1;
            let next = i == last && s + 1 < self.segments.len() && self.has_link(s, s + 1);
            let prev = i == 0 && s > 0 && self.has_link(s - 1, s);
            self.segments[s].set_point(i, p);
            if next {
                self.segments[s + 1].set_point(0, p);
            }
            if prev {
                let m = self.segments[s - 1].len() - 1;
                self.segments[s - 1].set_point(m, p);
            }
            proof {
                let links = self.links@;
                assert forall|k: int| 0 <= k < self.segments.len() implies (
                #[trigger] self.segments[k]).points() == dragged_points(
                    segs,
                    links,
                    s as int,
                    i as int,
                    p,
                    k,
                ) by {
                    if k == s + 1 && i == last && links.contains((s, k as usize)) {
                        let j = choose|j: int| 0 <= j < links.len() && links[j] == (s, k as usize);
                        assert(joint_holds(segs, links[j]));
                    }
                }
                assert forall|j: int| 0 <= j < self.links.len() implies joint_holds(
                    self.segments@,
                    #[trigger] self.links@[j],
                ) by {
                    let l = links[j];
                    assert(joint_holds(segs, l));
                    assert(links.contains(l));
                    let a = l.0 as int;
                    let b = l.1 as int;
                    assert(segs[a].points().len() >= 2);
                    assert(segs[b].points().len() >= 2);
                }
            }
        }
    }

    /// The joints that survive the removal of point `i` of segment `s`.
    fn kept_links(&self, s: usize, i: usize, last: usize) -> (r: Vec<(usize, usize)>)
        ensures
            forall|l: (usize, usize)|
                r@.contains(l) <==> self.links@.contains(l) && keeps_joint(l, s, i, last),
    {
        let mut out: Vec<(usize, usize)> = Vec::new();
        let mut j: usize = 0;
        while j < self.links.len()
            invariant
                j <= self.links.len(),
                forall|m: int|
                    0 <= m < j && keeps_joint(self.links@[m], s, i, last) ==> out@.contains(
                        #[trigger] self.links@[m],
                    ),
                forall|q: int|
                    0 <= q < out.len() ==> self.links@.contains(#[trigger] out@[q]) && keeps_joint(
                        out@[q],
                        s,
                        i,
                        last,
                    ),
            decreases self.links.len() - j,
        {
            let l = self.links[j];
            if !(i == 0 && l.1 == s) && !(i == last && l.0 == s) {
                let ghost prev = out@;
                out.push(l);
                assert(out@ == prev.push(l));
                assert forall|m: int|
                    0 <= m < j + 1 && keeps_joint(self.links@[m], s, i, last) implies out@.contains(
                    #[trigger] self.links@[m],
                ) by {
                    if m < j {
                        assert(prev.contains(self.links@[m]));
                        let q = choose|q: int| 0 <= q < prev.len() && prev[q] == self.links@[m];
                        assert(out@[q] == prev[q]);
                    } else {
                        assert(out@[out.len() - 1] == self.links@[m]);
                    }
                }
            }
            j = j + 1;
        }
        proof {
            assert forall|l: (usize, usize)|
                self.links@.contains(l) && keeps_joint(l, s, i, last) implies out@.contains(l) by {
                let m = choose|m: int| 0 <= m < self.links.len() && self.links@[m] == l;
                assert(keeps_joint(self.links@[m], s, i, last));
            }
            assert forall|l: (usize, usize)| out@.contains(l) implies self.links@.contains(l)
                && keeps_joint(l, s, i, last) by {
                let q = choose|q: int| 0 <= q < out.len() && out@[q] == l;
                assert(self.links@.contains(out@[q]));
            }
        }
        out
    }

    /// The joints that do not touch segment `s`, renumbered for its removal.
    fn links_without(&self, s: usize) -> (r: Vec<(usize, usize)>)
        requires
            forall|j: int| 0 <= j < self.links.len() ==> (#[trigger] self.links@[j]).1 == self.links@[j].0 + 1,
        ensures
            forall|l: (usize, usize)|
                r@.contains(l) <==> exists|l0: (usize, usize)|
                    self.links@.contains(l0) && l0.0 != s && l0.1 != s && l == renumbered(l0, s),
    {
        let mut out: Vec<(usize, usize)> = Vec::new();
        let ghost mut src: Seq<(usize, usize)> = Seq::empty();
        let mut j: usize = 0;
        while j < self.links.len()
            invariant
                j <= self.links.len(),
                forall|m: int| 0 <= m < self.links.len() ==> (#[trigger] self.links@[m]).1 == self.links@[m].0 + 1,
                forall|m: int|
                    0 <= m < j && (#[trigger] self.links@[m]).0 != s && self.links@[m].1 != s
                        ==> out@.contains(renumbered(self.links@[m], s)),
                src.len() == out.len(),
                forall|q: int|
                    0 <= q < out.len() ==> self.links@.contains(#[trigger] src[q]) && src[q].0 != s
                        && src[q].1 != s && out@[q] == renumbered(src[q], s),
            decreases self.links.len() - j,
        {
            let l = self.links[j];
            if l.0 != s && l.1 != s {
                let nl = if l.0 > s {
                    (l.0 - 1, l.1 - 1)
                } else {
                    l
                };
                assert(nl == renumbered(l, s));
                let ghost prev = out@;
                let ghost prev_src = src;
                out.push(nl);
                proof {
                    src = src.push(l);
                    assert(self.links@.contains(self.links@[j as int]));
                }
                assert(out@ == prev.push(nl));
                assert forall|q: int| 0 <= q < out.len() implies self.links@.contains(
                    #[trigger] src[q],
                ) && src[q].0 != s && src[q].1 != s && out@[q] == renumbered(src[q], s) by {
                    if q < prev.len() {
                        assert(src[q] == prev_src[q]);
                        assert(out@[q] == prev[q]);
                    }
                }
                assert forall|m: int|
                    0 <= m < j + 1 && (#[trigger] self.links@[m]).0 != s && self.links@[m].1 != s
                        implies out@.contains(renumbered(self.links@[m], s)) by {
                    if m < j {
                        assert(prev.contains(renumbered(self.links@[m], s)));
                        let q = choose|q: int|
                            0 <= q < prev.len() && prev[q] == renumbered(self.links@[m], s);
                        assert(out@[q] == prev[q]);
                    } else {
                        assert(out@[out.len() - 1] == renumbered(self.links@[m], s));
                    }
                }
            }
            j = j + 1;
        }
        proof {
            assert forall|l: (usize, usize)|
                (exists|l0: (usize, usize)|
                    self.links@.contains(l0) && l0.0 != s && l0.1 != s && l == renumbered(l0, s))
                    implies out@.contains(l) by {
                let l0 = choose|l0: (usize, usize)|
                    self.links@.contains(l0) && l0.0 != s && l0.1 != s && l == renumbered(l0, s);
                let m = choose|m: int| 0 <= m < self.links.len() && self.links@[m] == l0;
                assert(self.links@[m].0 != s);
            }
            assert forall|l: (usize, usize)| out@.contains(l) implies exists|l0: (usize, usize)|
                self.links@.contains(l0) && l0.0 != s && l0.1 != s && l == renumbered(l0, s) by {
                let q = choose|q: int| 0 <= q < out.len() && out@[q] == l;
                assert(self.links@.contains(src[q]));
            }
        }
        out
    }

    /// Removes point `i` of segment `s`; the joints at that point go. A cubic
    /// segment keeps its four points. A segment that would be left with one
    /// point leaves the spline with its joints, and the joints after it are
    /// renumbered. A removal ends any drag.
    pub fn remove_point(&mut self, s: usize, i: usize) -> (r: Result<(), CurveError>)
        requires
            old(self).wf(),
        ensures
            final(self).wf(),
            s >= old(self).segments.len() ==> r == Err::<(), CurveError>(CurveError::IndexOutOfRange),
            s < old(self).segments.len() && i >= old(self).segments[s as int].points().len() ==> r
                == Err::<(), CurveError>(CurveError::IndexOutOfRange),
            s < old(self).segments.len() && i < old(self).segments[s as int].points().len()
                && old(self).segments[s as int] is Cubic ==> r == Err::<(), CurveError>(
                CurveError::InvalidDegree,
            ),
            s < old(self).segments.len() && i < old(self).segments[s as int].points().len()
                && old(self).segments[s as int] is General ==> r is Ok,
            r is Err ==> *final(self) == *old(self),
            r is Ok ==> final(self).selected is None,
            r is Ok ==> is_point_removed(old(self), final(self), s, i),
    {
        if s >= self.segments.len() {
            return Err(CurveError::IndexOutOfRange);
        }
        let n = self.segments[s].len();
        if i >= n {
            return Err(CurveError::IndexOutOfRange);
        }
        if let Segment::Cubic(_) = &self.segments[s] {
            return Err(CurveError::InvalidDegree);
        }
        let ghost segs = self.segments@;
        let ghost links = self.links@;
        if n == 2 {
            let kept = self.links_without(s);
            self.segments.remove(s);
            self.links = kept;
            self.selected = None;
            proof {
                assert forall|k: int| 0 <= k < self.segments.len() implies (
                #[trigger] self.segments[k]).wf() by {
                    if k < s {
                        assert(self.segments@[k] == segs[k]);
                    } else {
                        assert(self.segments@[k] == segs[k + 1]);
                    }
                }
                assert forall|j: int| 0 <= j < self.links.len() implies joint_holds(
                    self.segments@,
                    #[trigger] self.links@[j],
                ) by {
                    let l = self.links@[j];
                    assert(self.links@.contains(l));
                    let l0 = choose|l0: (usize, usize)|
                        links.contains(l0) && l0.0 != s && l0.1 != s && l == renumbered(l0, s);
                    let m = choose|m: int| 0 <= m < links.len() && links[m] == l0;
                    assert(joint_holds(segs, links[m]));
                }
            }
            return Ok(());
        }
        let kept = self.kept_links(s, i, n - 1);
        let _ = self.segments[s].remove_point(i);
        self.links = kept;
        self.selected = None;
        proof {
            let old_pts = segs[s as int].points();
            let new_pts = self.segments@[s as int].points();
            assert(new_pts == old_pts.remove(i as int));
            assert forall|k: int| 0 <= k < self.segments.len() implies (
            #[trigger] self.segments[k]).wf() by {
                if k != s {
                    assert(self.segments@[k] == segs[k]);
                }
            }
            assert forall|j: int| 0 <= j < self.links.len() implies joint_holds(
                self.segments@,
                #[trigger] self.links@[j],
            ) by {
                let l = self.links@[j];
                assert(self.links@.contains(l));
                let m = choose|m: int| 0 <= m < links.len() && links[m] == l;
                assert(joint_holds(segs, links[m]));
                if l.0 == s {
                    assert(new_pts.last() == old_pts.last());
                }
                if l.1 == s {
                    assert(new_pts[0] == old_pts[0]);
                }
            }
        }
        Ok(())
    }

    /// Removes the first control point under `(x, y)`, as `remove_point` does.
    /// Returns whether a point was hit.
    pub fn right_click(&mut self, x: i64, y: i64) -> (r: Result<bool, CurveError>)
        requires
            old(self).wf(),
        ensures
            final(self).wf(),
            r == Ok::<bool, CurveError>(false) <==> is_spline_hit(None, old(self).segments@, Point { x, y }),
            r == Ok::<bool, CurveError>(false) ==> *final(self) == *old(self),
            r is Err ==> r == Err::<bool, CurveError>(CurveError::InvalidDegree) && *final(self) == *old(self),
            forall|s: usize, i: usize|
                #[trigger] is_spline_hit(Some((s, i)), old(self).segments@, Point { x, y }) ==> {
                    &&& old(self).segments[s as int] is General ==> r == Ok::<bool, CurveError>(true)
                        && is_point_removed(old(self), final(self), s, i)
                    &&& old(self).segments[s as int] is Cubic ==> r == Err::<bool, CurveError>(
                        CurveError::InvalidDegree,
                    ) && *final(self) == *old(self)
                },
    {
        match self.hit_test(x, y) {
            Some((s, i)) => {
                let ghost segs = self.segments@;
                let r = self.remove_point(s, i);
                proof {
                    assert forall|s2: usize, i2: usize|
                        #[trigger] is_spline_hit(Some((s2, i2)), segs, Point { x, y }) implies s2 == s
                        && i2 == i by {
                        lemma_spline_hit_unique((s2, i2), (s, i), segs, Point { x, y });
                    }
                }
                match r {
                    Ok(()) => Ok(true),
                    Err(e) => Err(e),
                }
            },
            None => Ok(false),
        }
    }

    /// The point at `t` on segment `s`.
    pub fn point_at(&self, s: usize, t: Param) -> (r: Result<Sample, CurveError>)
        requires
            self.wf(),
            t.wf(),
            s < self.segments.len() ==> within_limits(self.segments[s as int].points(), t),
        ensures
            s >= self.segments.len() ==> r == Err::<Sample, CurveError>(CurveError::IndexOutOfRange),
            s < self.segments.len() ==> r is Ok && is_blend(
                r->Ok_0,
                self.segments[s as int].points(),
                t,
            ),
    {
        if s >= self.segments.len() {
            return Err(CurveError::IndexOutOfRange);
        }
        Ok(self.segments[s].point_at(t))
    }

    /// Every level of de Casteljau's construction at `t` on segment `s`.
    pub fn subdivision_levels(&self, s: usize, t: Param) -> (r: Result<Vec<Vec<Sample>>, CurveError>)
        requires
            self.wf(),
            t.wf(),
            s < self.segments.len() ==> within_limits(self.segments[s as int].points(), t),
        ensures
            s >= self.segments.len() ==> r == Err::<Vec<Vec<Sample>>, CurveError>(
                CurveError::IndexOutOfRange,
            ),
            s < self.segments.len() ==> r is Ok && r->Ok_0.len() == self.segments[s as int].points().len()
                && forall|i: int|
                0 <= i < r->Ok_0.len() ==> is_level(
                    #[trigger] r->Ok_0[i]@,
                    self.segments[s as int].points(),
                    t,
                    i as nat,
                ),
    {
        if s >= self.segments.len() {
            return Err(CurveError::IndexOutOfRange);
        }
        Ok(self.segments[s].subdivision_levels(t))
    }

    /// Four cubic segments of the default shape, each starting where the one
    /// before ends and joined to it.
    pub fn new_default() -> (r: Spline)
        ensures
            r.wf(),
            r.selected is None,
            r.segments.len() == 4,
            r.links@ == seq![(0usize, 1usize), (1, 2), (2, 3)],
            forall|k: int|
                0 <= k < 4 ==> (#[trigger] r.segments[k]).points() == moved_by(
                    default_shape(),
                    150 * k,
                    0,
                ) && r.segments[k] is Cubic,
    {
        let mut spline = Spline::new();
        spline.append_segment();
        assert(spline.segments[0].points() =~= moved_by(default_shape(), 0, 0));
        spline.append_segment();
        assert(spline.segments[1].points() =~= moved_by(default_shape(), 150, 0));
        spline.append_segment();
        assert(spline.segments[2].points() =~= moved_by(default_shape(), 300, 0));
        spline.append_segment();
        assert(spline.segments[3].points() =~= moved_by(default_shape(), 450, 0));
        assert(spline.links@ =~= seq![(0usize, 1usize), (1, 2), (2, 3)]);
        spline
    }

    /// Whether `append_segment` may be called: its coordinates stay within `i64`.
    pub fn append_allowed(&self) -> (r: bool)
        requires
            self.wf(),
        ensures
            r == (self.can_append() && self.segments.len() < usize::MAX),
    {
        let n = self.segments.len();
        if n == 0 {
            return true;
        }
        if n == usize::MAX {
            return false;
        }
        let last = &self.segments[n - 1];
        let pts = last.control_points();
        let first = pts[0];
        let end = pts[pts.len() - 1];
        let dx: i128 = end.x as i128 - first.x as i128;
        let dy: i128 = end.y as i128 - first.y as i128;
        if dx < i64::MIN as i128 || dx > i64::MAX as i128 || dy < i64::MIN as i128 || dy > i64::MAX as i128 {
            return false;
        }
        let mut k: usize = 0;
        while k < pts.len()
            invariant
                self.segments.len() >= 1,
                pts@ == self.segments@.last().points(),
                dx == pts@.last().x - pts@[0].x,
                dy == pts@.last().y - pts@[0].y,
                k <= pts.len(),
                forall|j: int|
                    0 <= j < k ==> i64::MIN <= #[trigger] pts@[j].x + dx <= i64::MAX && i64::MIN
                        <= pts@[j].y + dy <= i64::MAX,
            decreases pts.len() - k,
        {
            let x = pts[k].x as i128 + dx;
            let y = pts[k].y as i128 + dy;
            if x < i64::MIN as i128 || x > i64::MAX as i128 || y < i64::MIN as i128 || y > i64::MAX as i128 {
                assert(!(i64::MIN <= pts@[k as int].x + dx <= i64::MAX && i64::MIN <= pts@[k as int].y + dy
                    <= i64::MAX));
                assert(!can_move(pts@, dx as int, dy as int));
                return false;
            }
            k = k + 1;
        }
        true
    }

    /// Appends a control point to segment `s`. A cubic segment keeps its four
    /// points. The joint at the end of the segment goes, since its last point
    /// is no longer the shared one.
    pub fn append_point(&mut self, s: usize, p: Point) -> (r: Result<(), CurveError>)
        requires
            old(self).wf(),
        ensures
            final(self).wf(),
            final(self).selected == old(self).selected,
            s >= old(self).segments.len() ==> r == Err::<(), CurveError>(CurveError::IndexOutOfRange),
            s < old(self).segments.len() && old(self).segments[s as int] is Cubic ==> r == Err::<
                (),
                CurveError,
            >(CurveError::InvalidDegree),
            r is Err ==> *final(self) == *old(self),
            s < old(self).segments.len() && old(self).segments[s as int] is General ==> r is Ok,
            r is Ok ==> is_point_appended(old(self), final(self), s, p),
    {
        if s >= self.segments.len() {
            return Err(CurveError::IndexOutOfRange);
        }
        if let Segment::Cubic(_) = &self.segments[s] {
            return Err(CurveError::InvalidDegree);
        }
        let n = self.segments[s].len();
        let ghost segs = self.segments@;
        let ghost links = self.links@;
        let kept = self.kept_links(s, n, n);
        let _ = self.segments[s].append_point(p);
        self.links = kept;
        proof {
            let old_pts = segs[s as int].points();
            let new_pts = self.segments@[s as int].points();
            assert forall|l: (usize, usize)| self.links@.contains(l) <==> links.contains(l) && l.0 != s by {
                assert(keeps_joint(l, s, n, n) == (l.0 != s));
            }
            assert forall|k: int| 0 <= k < self.segments.len() implies (
            #[trigger] self.segments[k]).wf() by {
                if k != s {
                    assert(self.segments@[k] == segs[k]);
                }
            }
            assert forall|j: int| 0 <= j < self.links.len() implies joint_holds(
                self.segments@,
                #[trigger] self.links@[j],
            ) by {
                let l = self.links@[j];
                assert(self.links@.contains(l));
                let m = choose|m: int| 0 <= m < links.len() && links[m] == l;
                assert(joint_holds(segs, links[m]));
                if l.1 == s {
                    assert(new_pts[0] == old_pts[0]);
                }
            }
            match self.selected {
                Some((a, b)) => {
                    assert(a < self.segments.len());
                },
                None => {},
            }
        }
        Ok(())
    }
}

} // verus!
