//! Plain geometry values exchanged with the renderer: points, sizes,
//! rectangles, text baselines and the drawing operations a style emits.
use vstd::prelude::*;

verus! {

/// A point on the display, in pixels.
#[derive(Debug, Clone, Copy, PartialEq, Eq, Hash)]
pub struct Point {
    pub x: i32,
    pub y: i32,
}

impl Point {
    /// Creates a point.
    pub fn new(x: i32, y: i32) -> (p: Point)
        ensures
            p.x == x,
            p.y == y,
    {
        Point { x, y }
    }

    /// The origin.
    pub fn zero() -> (p: Point)
        ensures
            p.x == 0,
            p.y == 0,
    {
        Point { x: 0, y: 0 }
    }
}

/// A size in pixels.
#[derive(Debug, Clone, Copy, PartialEq, Eq, Hash)]
pub struct Size {
    pub width: u32,
    pub height: u32,
}

impl Size {
    /// Creates a size.
    pub fn new(width: u32, height: u32) -> (s: Size)
        ensures
            s.width == width,
            s.height == height,
    {
        Size { width, height }
    }
}

/// An axis-aligned rectangle given by its top-left corner and its size.
#[derive(Debug, Clone, Copy, PartialEq, Eq, Hash)]
pub struct Rectangle {
    pub top_left: Point,
    pub size: Size,
}

impl Rectangle {
    /// Creates a rectangle.
    pub fn new(top_left: Point, size: Size) -> (r: Rectangle)
        ensures
            r.top_left == top_left,
            r.size == size,
    {
        Rectangle { top_left, size }
    }
}

/// Vertical anchor of a text position.
#[derive(Debug, Clone, Copy, PartialEq, Eq, Hash)]
pub enum Baseline {
    Top,
    Bottom,
    Middle,
    Alphabetic,
}

/// Bounding box and cursor advance of a measured string.
#[derive(Debug, Clone, Copy, PartialEq, Eq, Hash)]
pub struct TextMetrics {
    pub bounding_box: Rectangle,
    pub next_position: Point,
}

/// One drawing operation on a display.
#[derive(Debug, Clone, Copy, PartialEq, Eq, Hash)]
pub enum DrawOp<C> {
    /// Fill the rectangle with a solid color.
    Fill { area: Rectangle, color: C },
    /// Set one pixel.
    Pixel { point: Point, color: C },
}

/// The operations that draw a piece of text, in drawing order, and the
/// position at which the next piece of text starts.
#[derive(Debug, Clone, PartialEq, Eq, Hash)]
pub struct Drawing<C> {
    pub ops: Vec<DrawOp<C>>,
    pub next_position: Point,
}

/// Where performing a [`Drawing`] on a display stands: the next operation to
/// perform, or how the drawing ended.
#[derive(Debug, Clone, Copy, PartialEq, Eq, Hash)]
pub enum DrawStep<E> {
    /// Perform the operation at this index next.
    Perform(usize),
    /// Every operation was performed; the next piece of text starts here.
    Done(Point),
    /// A display call failed; drawing stops with its error.
    Failed(E),
}

/// The index of the first failed outcome among the first `n`, searching
/// from index `i`.
pub open spec fn first_failure_from<E>(outcomes: Seq<Result<(), E>>, i: int, n: int) -> Option<int>
    decreases n - i,
{
    if i >= n {
        None
    } else if outcomes[i] is Err {
        Some(i)
    } else {
        first_failure_from(outcomes, i + 1, n)
    }
}

impl<C> Drawing<C> {
    /// The step that starts performing the drawing.
    pub open spec fn spec_first_step<E>(self) -> DrawStep<E> {
        if self.ops@.len() == 0 {
            DrawStep::Done(self.next_position)
        } else {
            DrawStep::Perform(0)
        }
    }

    /// The step after the operation at `index` was performed and its display
    /// call gave `outcome`.
    pub open spec fn spec_next_step<E>(self, index: int, outcome: Result<(), E>) -> DrawStep<E> {
        match outcome {
            Err(e) => DrawStep::Failed(e),
            Ok(_) => if index + 1 < self.ops@.len() {
                DrawStep::Perform((index + 1) as usize)
            } else {
                DrawStep::Done(self.next_position)
            },
        }
    }

    /// Performing from the operation at `i`, where the display call of the
    /// operation at `k` gives `outcomes[k]`: the step it ends with and the
    /// number of operations performed from the start.
    pub open spec fn spec_perform_from<E>(self, i: int, outcomes: Seq<Result<(), E>>) -> (
        DrawStep<E>,
        int,
    )
        decreases self.ops@.len() - i,
    {
        if i < 0 || i >= self.ops@.len() {
            (DrawStep::Done(self.next_position), i)
        } else {
            match self.spec_next_step(i, outcomes[i]) {
                DrawStep::Perform(j) => if i < j {
                    self.spec_perform_from(j as int, outcomes)
                } else {
                    (DrawStep::Perform(j), i + 1)
                },
                last => (last, i + 1),
            }
        }
    }

    /// The step that starts performing the drawing.
    pub fn first_step<E>(&self) -> (r: DrawStep<E>)
        ensures
            r == self.spec_first_step::<E>(),
    {
        if self.ops.len() == 0 {
            DrawStep::Done(self.next_position)
        } else {
            DrawStep::Perform(0)
        }
    }

    /// The step after the operation at `index` was performed and its display
    /// call gave `outcome`: the next operation, the end of the drawing, or
    /// the failure that stops it.
    pub fn next_step<E>(&self, index: usize, outcome: Result<(), E>) -> (r: DrawStep<E>)
        requires
            index < self.ops@.len(),
        ensures
            r == self.spec_next_step(index as int, outcome),
    {
        match outcome {
            Err(e) => DrawStep::Failed(e),
            Ok(()) => if index < self.ops.len() - 1 {
                DrawStep::Perform(index + 1)
            } else {
                DrawStep::Done(self.next_position)
            },
        }
    }

    /// Performing a drawing stops at the first failed display call: its
    /// operations are performed in order up to and including the first one
    /// whose call fails, and the drawing ends with that call's error; when no
    /// call fails, every operation is performed and the drawing ends at its
    /// next position.
    pub proof fn lemma_perform_stops_at_first_failure<E>(self, outcomes: Seq<Result<(), E>>)
        requires
            self.ops@.len() <= usize::MAX,
            outcomes.len() >= self.ops@.len(),
        ensures
            ({
                let n = self.ops@.len() as int;
                let (last, performed) = self.spec_perform_from(0, outcomes);
                match first_failure_from(outcomes, 0, n) {
                    Some(k) => last == DrawStep::<E>::Failed(outcomes[k]->Err_0) && performed
                        == k + 1,
                    None => last == DrawStep::<E>::Done(self.next_position) && performed == n,
                }
            }),
            self.spec_first_step::<E>() == (if self.ops@.len() == 0 {
                DrawStep::<E>::Done(self.next_position)
            } else {
                DrawStep::<E>::Perform(0)
            }),
    {
        self.lemma_perform_from(0, outcomes);
    }

    proof fn lemma_perform_from<E>(self, i: int, outcomes: Seq<Result<(), E>>)
        requires
            0 <= i <= self.ops@.len(),
            self.ops@.len() <= usize::MAX,
            outcomes.len() >= self.ops@.len(),
        ensures
            ({
                let n = self.ops@.len() as int;
                let (last, performed) = self.spec_perform_from(i, outcomes);
                match first_failure_from(outcomes, i, n) {
                    Some(k) => last == DrawStep::<E>::Failed(outcomes[k]->Err_0) && performed
                        == k + 1,
                    None => last == DrawStep::<E>::Done(self.next_position) && performed == n,
                }
            }),
        decreases self.ops@.len() - i,
    {
        let n = self.ops@.len() as int;
        if i < n && outcomes[i] is Ok {
            if i + 1 < n {
                self.lemma_perform_from(i + 1, outcomes);
            } else {
                assert(first_failure_from(outcomes, i + 1, n) == None::<int>);
            }
        }
    }
}

} // verus!
