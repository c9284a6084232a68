use vstd::prelude::*;

use crate::shape::Shape;
use crate::shape::SingleLayer;
use crate::shape::SHAPEZ2_DEMENTION;

verus! {

#[derive(Debug, Clone, Copy, PartialEq, Eq, Structural)]
pub enum RotateDirection {
    Clockwise,
    CounterClockwise,
}

/// `n`-fold application of a step function.
pub open spec fn spec_iterate<T>(f: spec_fn(T) -> T, x: T, n: nat) -> T
    decreases n,
{
    if n == 0 {
        x
    } else {
        f(spec_iterate(f, x, (n - 1) as nat))
    }
}

/// A value with a group of four planar rotations: a clockwise quarter
/// turn, its counter-clockwise inverse, and their compositions.
pub trait Rotatable: Sized + Copy {
    /// One clockwise quarter turn: the item at position `i` moves to
    /// position `(i + 1) % 4`.
    spec fn spec_rotate_cw(self) -> Self;

    /// One counter-clockwise quarter turn, the exact inverse of
    /// `spec_rotate_cw`.
    spec fn spec_rotate_ccw(self) -> Self;

    fn rotate_once(&self) -> (r: Self)
        ensures
            r == self.spec_rotate_cw(),
    ;

    fn rotate_once_reverse(&self) -> (r: Self)
        ensures
            r == self.spec_rotate_ccw(),
    ;

    fn rotate_180(&self) -> (r: Self)
        ensures
            r == self.spec_rotate_cw().spec_rotate_cw(),
    {
        let half: usize = SHAPEZ2_DEMENTION / 2;
        let mut shape = *self;
        let mut i: usize = 0;
        while i < half
            invariant
                i <= half,
                shape == spec_iterate(|y: Self| y.spec_rotate_cw(), *self, i as nat),
            decreases half - i,
        {
            shape = shape.rotate_once();
            i = i + 1;
        }
        proof {
            let f = |y: Self| y.spec_rotate_cw();
            assert(spec_iterate(f, *self, 0) == *self);
            assert(spec_iterate(f, *self, 1) == self.spec_rotate_cw());
            assert(spec_iterate(f, *self, 2) == self.spec_rotate_cw().spec_rotate_cw());
        }
        shape
    }

    fn rotated(&mut self, direction: RotateDirection, times: usize)
        ensures
            *final(self) == (match direction {
                RotateDirection::Clockwise => spec_iterate(
                    |y: Self| y.spec_rotate_cw(),
                    *old(self),
                    times as nat,
                ),
                RotateDirection::CounterClockwise => spec_iterate(
                    |y: Self| y.spec_rotate_ccw(),
                    *old(self),
                    times as nat,
                ),
            }),
    {
        match direction {
            RotateDirection::Clockwise => {
                let mut i: usize = 0;
                while i < times
                    invariant
                        i <= times,
                        *self == spec_iterate(|y: Self| y.spec_rotate_cw(), *old(self), i as nat),
                    decreases times - i,
                {
                    let r = self.rotate_once();
                    *self = r;
                    i = i + 1;
                }
            },
            RotateDirection::CounterClockwise => {
                let mut i: usize = 0;
                while i < times
                    invariant
                        i <= times,
                        *self == spec_iterate(|y: Self| y.spec_rotate_ccw(), *old(self), i as nat),
                    decreases times - i,
                {
                    let r = self.rotate_once_reverse();
                    *self = r;
                    i = i + 1;
                }
            },
        }
    }

    fn rotate(&self, direction: RotateDirection, times: usize) -> (r: Self)
        ensures
            r == (match direction {
                RotateDirection::Clockwise => spec_iterate(
                    |y: Self| y.spec_rotate_cw(),
                    *self,
                    times as nat,
                ),
                RotateDirection::CounterClockwise => spec_iterate(
                    |y: Self| y.spec_rotate_ccw(),
                    *self,
                    times as nat,
                ),
            }),
    {
        let mut shape = *self;
        match direction {
            RotateDirection::Clockwise => {
                let mut i: usize = 0;
                while i < times
                    invariant
                        i <= times,
                        shape == spec_iterate(|y: Self| y.spec_rotate_cw(), *self, i as nat),
                    decreases times - i,
                {
                    shape = shape.rotate_once();
                    i = i + 1;
                }
            },
            RotateDirection::CounterClockwise => {
                let mut i: usize = 0;
                while i < times
                    invariant
                        i <= times,
                        shape == spec_iterate(|y: Self| y.spec_rotate_ccw(), *self, i as nat),
                    decreases times - i,
                {
                    shape = shape.rotate_once_reverse();
                    i = i + 1;
                }
            },
        }
        shape
    }
}

impl Rotatable for Shape {
    /// Each layer turns in place; layers never trade items.
    open spec fn spec_rotate_cw(self) -> Shape {
        Shape {
            layer0: self.layer0.spec_rotate_cw(),
            layer1: self.layer1.spec_rotate_cw(),
            layer2: self.layer2.spec_rotate_cw(),
            layer3: self.layer3.spec_rotate_cw(),
        }
    }

    open spec fn spec_rotate_ccw(self) -> Shape {
        Shape {
            layer0: self.layer0.spec_rotate_ccw(),
            layer1: self.layer1.spec_rotate_ccw(),
            layer2: self.layer2.spec_rotate_ccw(),
            layer3: self.layer3.spec_rotate_ccw(),
        }
    }

    fn rotate_once(&self) -> (r: Shape) {
        Shape {
            layer0: self.layer0.rotate_once(),
            layer1: self.layer1.rotate_once(),
            layer2: self.layer2.rotate_once(),
            layer3: self.layer3.rotate_once(),
        }
    }

    fn rotate_once_reverse(&self) -> (r: Shape) {
        Shape {
            layer0: self.layer0.rotate_once_reverse(),
            layer1: self.layer1.rotate_once_reverse(),
            layer2: self.layer2.rotate_once_reverse(),
            layer3: self.layer3.rotate_once_reverse(),
        }
    }
}

impl Rotatable for SingleLayer {
    open spec fn spec_rotate_cw(self) -> SingleLayer {
        SingleLayer {
            item0: self.item3,
            item1: self.item0,
            item2: self.item1,
            item3: self.item2,
        }
    }

    open spec fn spec_rotate_ccw(self) -> SingleLayer {
        SingleLayer {
            item0: self.item1,
            item1: self.item2,
            item2: self.item3,
            item3: self.item0,
        }
    }

    fn rotate_once(&self) -> (r: SingleLayer) {
        SingleLayer {
            item0: self.item3,
            item1: self.item0,
            item2: self.item1,
            item3: self.item2,
        }
    }

    fn rotate_once_reverse(&self) -> (r: SingleLayer) {
        SingleLayer {
            item0: self.item1,
            item1: self.item2,
            item2: self.item3,
            item3: self.item0,
        }
    }
}

/// Rotation laws for a layer: the clockwise quarter turn moves the
/// item at position `i` to position `(i + 1) % 4`; four turns are the
/// identity; the counter-clockwise turn is the exact inverse; and a
/// half turn is two quarter turns in either direction.
pub proof fn lemma_layer_rotation_group(l: SingleLayer)
    ensures
        forall|i: int|
            0 <= i < 4 ==> #[trigger] l.spec_rotate_cw().spec_item((i + 1) % 4) == l.spec_item(i),
        l.spec_rotate_cw().spec_rotate_cw().spec_rotate_cw().spec_rotate_cw() == l,
        l.spec_rotate_ccw().spec_rotate_ccw().spec_rotate_ccw().spec_rotate_ccw() == l,
        l.spec_rotate_cw().spec_rotate_ccw() == l,
        l.spec_rotate_ccw().spec_rotate_cw() == l,
        l.spec_rotate_cw().spec_rotate_cw() == l.spec_rotate_ccw().spec_rotate_ccw(),
{
}

/// Rotation laws for a whole shape, inherited layer by layer.
pub proof fn lemma_shape_rotation_group(s: Shape)
    ensures
        forall|i: int, j: int|
            0 <= i < 4 && 0 <= j < 4 ==> #[trigger] s.spec_rotate_cw().spec_item(i, (j + 1) % 4)
                == s.spec_item(i, j),
        s.spec_rotate_cw().spec_rotate_cw().spec_rotate_cw().spec_rotate_cw() == s,
        s.spec_rotate_ccw().spec_rotate_ccw().spec_rotate_ccw().spec_rotate_ccw() == s,
        s.spec_rotate_cw().spec_rotate_ccw() == s,
        s.spec_rotate_ccw().spec_rotate_cw() == s,
        s.spec_rotate_cw().spec_rotate_cw() == s.spec_rotate_ccw().spec_rotate_ccw(),
{
}

} // verus!
