//! The interaction controller: turns pointer and key events into operations
//! on a spline. A press on a control point starts a drag, cursor moves drag
//! it, a release ends the drag, a right click removes the point under the
//! cursor, and a key appends a segment.

use vstd::prelude::*;
use crate::geometry::Point;
use crate::handles::{snap_fits, snap_in_range};
use crate::spline::{
    is_dragged, is_point_appended, is_point_removed, is_segment_appended, is_spline_hit, Spline,
};

verus! {

/// A pointer button.
#[derive(Clone, Copy, Debug, PartialEq, Eq, Structural)]
pub enum Button {
    Left,
    Right,
}

/// A key with a meaning to the editor.
#[derive(Clone, Copy, Debug, PartialEq, Eq, Structural)]
pub enum Key {
    /// Append a segment to the spline.
    AddSegment,
}

/// A spline being edited, with the pointer state.
pub struct Editor {
    pub spline: Spline,
    /// The last known cursor position.
    pub cursor: Point,
    /// The segment of the last press on a point, which gets new points.
    pub active: Option<usize>,
    /// Whether a right click off every point appends a point to the active segment.
    pub add_on_miss: bool,
}

impl Editor {
    pub open spec fn wf(&self) -> bool {
        self.spline.wf()
    }

    pub fn new(spline: Spline, add_on_miss: bool) -> (r: Editor)
        requires
            spline.wf(),
        ensures
            r.wf(),
            r.spline == spline,
            r.cursor == (Point { x: 0, y: 0 }),
            r.active is None,
            r.add_on_miss == add_on_miss,
    {
        Editor { spline, cursor: Point { x: 0, y: 0 }, active: None, add_on_miss }
    }

    /// The cursor moved to `(x, y)`: the point being dragged follows it. A
    /// move whose snapped position would leave `i64` is ignored.
    pub fn on_cursor_move(&mut self, x: i64, y: i64)
        requires
            old(self).wf(),
        ensures
            final(self).wf(),
            final(self).cursor == (Point { x, y }),
            final(self).active == old(self).active,
            final(self).add_on_miss == old(self).add_on_miss,
            match old(self).spline.selected {
                Some((s, _)) => if snap_fits(Point { x, y }, old(self).spline.segments[s as int].grid()) {
                    is_dragged(&old(self).spline, &final(self).spline, Point { x, y })
                } else {
                    final(self).spline == old(self).spline
                },
                None => final(self).spline == old(self).spline,
            },
    {
        self.cursor = Point { x, y };
        if let Some((s, _)) = self.spline.selected {
            let g = self.spline.segments[s].grid_size();
            if snap_in_range(Point { x, y }, g) {
                self.spline.drag(x, y);
            }
        }
    }

    /// A button went down (`pressed`) or up at `(x, y)`.
    ///
    /// A left press on a control point selects it and starts dragging it; a
    /// left release ends the drag. A right press removes the point under the
    /// cursor; off every point it appends a point to the active segment when
    /// `add_on_miss` is set. A refused removal or append changes nothing.
    pub fn on_button(&mut self, button: Button, pressed: bool, x: i64, y: i64)
        requires
            old(self).wf(),
        ensures
            final(self).wf(),
            final(self).cursor == (Point { x, y }),
            final(self).add_on_miss == old(self).add_on_miss,
            button == Button::Left && pressed ==> {
                let hit = !is_spline_hit(None, old(self).spline.segments@, Point { x, y });
                &&& final(self).spline.links == old(self).spline.links
                &&& final(self).spline.segments.len() == old(self).spline.segments.len()
                &&& forall|k: int|
                    0 <= k < old(self).spline.segments.len() ==> (#[trigger] final(self).spline.segments[k]).points() == old(self).spline.segments[k].points()
                &&& !hit ==> final(self).spline.selected == old(self).spline.selected
                    && final(self).active == old(self).active
                &&& hit ==> is_spline_hit(
                    final(self).spline.selected,
                    old(self).spline.segments@,
                    Point { x, y },
                ) && final(self).spline.selected is Some && final(self).active == Some(
                    final(self).spline.selected->Some_0.0,
                )
            },
            button == Button::Left && !pressed ==> {
                &&& final(self).spline.selected is None
                &&& final(self).active == old(self).active
                &&& final(self).spline.links == old(self).spline.links
                &&& final(self).spline.segments.len() == old(self).spline.segments.len()
                &&& forall|k: int|
                    0 <= k < old(self).spline.segments.len() ==> (#[trigger] final(self).spline.segments[k]).points() == old(self).spline.segments[k].points()
                        && final(self).spline.segments[k].selection() is None
            },
            button == Button::Right && pressed && is_spline_hit(
                None,
                old(self).spline.segments@,
                Point { x, y },
            ) ==> {
                &&& final(self).active == old(self).active
                &&& match old(self).active {
                    Some(s) => if old(self).add_on_miss && s < old(self).spline.segments.len()
                        && old(self).spline.segments[s as int] is General {
                        is_point_appended(&old(self).spline, &final(self).spline, s, Point { x, y })
                    } else {
                        final(self).spline == old(self).spline
                    },
                    None => final(self).spline == old(self).spline,
                }
            },
            button == Button::Right && pressed ==> forall|s: usize, i: usize|
                #[trigger] is_spline_hit(Some((s, i)), old(self).spline.segments@, Point { x, y }) ==> {
                    &&& old(self).spline.segments[s as int] is General ==> final(self).active is None
                        && is_point_removed(&old(self).spline, &final(self).spline, s, i)
                    &&& old(self).spline.segments[s as int] is Cubic ==> final(self).active == old(self).active && final(self).spline == old(self).spline
                },
            button == Button::Right && !pressed ==> final(self).spline == old(self).spline
                && final(self).active == old(self).active,
    {
        self.cursor = Point { x, y };
        match button {
            Button::Left => {
                if pressed {
                    let hit = self.spline.hit_test(x, y);
                    self.spline.click(x, y);
                    if hit.is_some() {
                        if let Some((s, _)) = self.spline.selected {
                            self.active = Some(s);
                        }
                    }
                } else {
                    self.spline.release();
                }
            },
            Button::Right => {
                if pressed {
                    match self.spline.right_click(x, y) {
                        Ok(true) => {
                            self.active = None;
                        },
                        Ok(false) => {
                            if self.add_on_miss {
                                if let Some(s) = self.active {
                                    let _ = self.spline.append_point(s, Point { x, y });
                                }
                            }
                        },
                        Err(_) => {},
                    }
                }
            },
        }
    }

    /// A key went down (`pressed`) or up: pressing `AddSegment` appends a
    /// segment, unless its coordinates would leave `i64`.
    pub fn on_key(&mut self, key: Key, pressed: bool)
        requires
            old(self).wf(),
        ensures
            final(self).wf(),
            final(self).cursor == old(self).cursor,
            final(self).active == old(self).active,
            final(self).add_on_miss == old(self).add_on_miss,
            final(self).spline.selected == old(self).spline.selected,
            pressed && key == Key::AddSegment && old(self).spline.can_append()
                && old(self).spline.segments.len() < usize::MAX ==> {
                &&& final(self).spline.segments.len() == old(self).spline.segments.len() + 1
                &&& final(self).spline.segments@.take(old(self).spline.segments.len() as int) == old(self).spline.segments@
            },
            !(pressed && key == Key::AddSegment && old(self).spline.can_append()
                && old(self).spline.segments.len() < usize::MAX) ==> final(self).spline == old(self).spline,
    {
        match key {
            Key::AddSegment => {
                if pressed && self.spline.append_allowed() {
                    self.spline.append_segment();
                }
            },
        }
    }
}

} // verus!
