//! The turtle: a pose (current point, heading) together with the line
//! segments recorded so far.
//!
//! Geometry is kept exact. The heading is a net turn count: the heading
//! in degrees is `90 + turns * angle` for whatever turn angle the
//! renderer uses. Points are numbered: point 0 is the origin, and
//! recording segment number `i` creates point `i + 1`, one forward step
//! away from point `segments[i].from` at heading `segments[i].heading`.
//! A renderer recovers coordinates by replaying the segments in order.

use vstd::prelude::*;

verus! {

/// Mathematical view of a pose: a point number and a net turn count.
pub ghost struct GPose {
    pub point: int,
    pub turns: int,
}

/// Mathematical view of one recorded segment: it leads from point `from`
/// to point `to`, walked at heading `heading` (a net turn count).
pub ghost struct GSeg {
    pub from: int,
    pub to: int,
    pub heading: int,
}

/// Mathematical view of a turtle: its pose and the recorded segments.
#[verifier::ext_equal]
pub ghost struct GTurtle {
    pub pose: GPose,
    pub segments: Seq<GSeg>,
}

/// The turtle after one forward step: a new point is created one step
/// from the current point at the current heading, a segment to it is
/// recorded, and the turtle moves onto it.
pub open spec fn turtle_forward(t: GTurtle) -> GTurtle {
    GTurtle {
        pose: GPose { point: t.segments.len() as int + 1, turns: t.pose.turns },
        segments: t.segments.push(
            GSeg { from: t.pose.point, to: t.segments.len() as int + 1, heading: t.pose.turns },
        ),
    }
}

/// The turtle after a turn by `delta` turn units (negative = clockwise).
pub open spec fn turtle_turn(t: GTurtle, delta: int) -> GTurtle {
    GTurtle {
        pose: GPose { point: t.pose.point, turns: t.pose.turns + delta },
        segments: t.segments,
    }
}

/// A saved turtle state: the current point and the net turn count.
#[derive(Clone, Copy, Debug, PartialEq, Eq, Structural)]
pub struct Pose {
    pub position: usize,
    pub turns: i128,
}

impl View for Pose {
    type V = GPose;

    open spec fn view(&self) -> GPose {
        GPose { point: self.position as int, turns: self.turns as int }
    }
}

/// One recorded line segment, from point `from` to point `to`, walked at
/// heading `heading` (a net turn count).
#[derive(Clone, Copy, Debug, PartialEq, Eq, Structural)]
pub struct Segment {
    pub from: usize,
    pub to: usize,
    pub heading: i128,
}

impl View for Segment {
    type V = GSeg;

    open spec fn view(&self) -> GSeg {
        GSeg { from: self.from as int, to: self.to as int, heading: self.heading as int }
    }
}

/// The turtle. It starts at the origin (point 0) heading straight up
/// (turn count 0) with no segments recorded.
pub struct Turtle {
    position: usize,
    turns: i128,
    segments: Vec<Segment>,
}

impl View for Turtle {
    type V = GTurtle;

    closed spec fn view(&self) -> GTurtle {
        GTurtle {
            pose: GPose { point: self.position as int, turns: self.turns as int },
            segments: self.segments@.map_values(|s: Segment| s@),
        }
    }
}

impl Turtle {
    /// Well-formedness: the current point exists, and segment number `i`
    /// leads to point `i + 1` from a point that already existed.
    pub open spec fn wf(self) -> bool {
        &&& self@.pose.point <= self@.segments.len()
        &&& forall|i: int|
            0 <= i < self@.segments.len() ==> (#[trigger] self@.segments[i]).to == i + 1
                && 0 <= self@.segments[i].from <= i
    }

    /// A fresh turtle: at the origin, heading up, nothing recorded.
    pub fn new() -> (t: Turtle)
        ensures
            t@ == (GTurtle {
                pose: GPose { point: 0, turns: 0 },
                segments: Seq::<GSeg>::empty(),
            }),
            t.wf(),
    {
        let t = Turtle { position: 0, turns: 0, segments: Vec::new() };
        proof {
            assert(t@.segments =~= Seq::<GSeg>::empty());
        }
        t
    }

    /// Steps forward: records a segment from the current point to a new
    /// point and moves onto the new point. The heading is unchanged.
    pub fn forward(&mut self)
        requires
            old(self).wf(),
            old(self)@.segments.len() < usize::MAX,
        ensures
            final(self).wf(),
            final(self)@ == turtle_forward(old(self)@),
    {
        let new_point = self.segments.len() + 1;
        let seg = Segment { from: self.position, to: new_point, heading: self.turns };
        self.segments.push(seg);
        self.position = new_point;
        proof {
            assert(self@.segments =~= old(self)@.segments.push(seg@));
            assert(self@ =~= turtle_forward(old(self)@));
        }
    }

    /// Turns clockwise by one turn unit.
    pub fn right(&mut self)
        requires
            old(self).wf(),
            old(self)@.pose.turns > i128::MIN,
        ensures
            final(self).wf(),
            final(self)@ == turtle_turn(old(self)@, -1),
    {
        self.turns = self.turns - 1;
        proof {
            assert(self@ =~= turtle_turn(old(self)@, -1));
        }
    }

    /// Turns counter-clockwise by one turn unit.
    pub fn left(&mut self)
        requires
            old(self).wf(),
            old(self)@.pose.turns < i128::MAX,
        ensures
            final(self).wf(),
            final(self)@ == turtle_turn(old(self)@, 1),
    {
        self.turns = self.turns + 1;
        proof {
            assert(self@ =~= turtle_turn(old(self)@, 1));
        }
    }

    /// Snapshots the current pose.
    pub fn get_state(&self) -> (p: Pose)
        ensures
            p@ == self@.pose,
    {
        Pose { position: self.position, turns: self.turns }
    }

    /// Overwrites the current pose with a saved one. The saved point must
    /// exist in this turtle's point numbering.
    pub fn set_state(&mut self, state: Pose)
        requires
            old(self).wf(),
            state@.point <= old(self)@.segments.len(),
        ensures
            final(self).wf(),
            final(self)@ == (GTurtle { pose: state@, segments: old(self)@.segments }),
    {
        self.position = state.position;
        self.turns = state.turns;
        proof {
            assert(self@ =~= GTurtle { pose: state@, segments: old(self)@.segments });
        }
    }

    /// The recorded segments, in the order they were drawn.
    pub fn segments(&self) -> (r: &Vec<Segment>)
        ensures
            r@.map_values(|s: Segment| s@) == self@.segments,
            r@.len() == self@.segments.len(),
    {
        &self.segments
    }
}

} // verus!
