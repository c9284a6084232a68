use vstd::prelude::*;

use crate::rotate::Rotatable;
use crate::shape::Shape;
use crate::shape::SingleItem;
use crate::shape::SingleLayer;

verus! {

/// Whether the plain half-destroy clears quadrant position `j`: the
/// two positions on the destroyed side satisfy `j * 2 / 4 > 0`, that
/// is, positions 2 and 3.
pub open spec fn destroyed_position(j: int) -> bool {
    j * 2 / 4 > 0
}

/// The left half produced by `cutting`: rotate a half turn, destroy,
/// rotate back, which clears the opposite side.
pub open spec fn spec_cut_left<T: Cuttable>(x: T) -> T {
    x.spec_rotate_cw().spec_rotate_cw().spec_half_destroy().spec_rotate_cw().spec_rotate_cw()
}

/// The right half produced by `cutting`: the plain half-destroy.
pub open spec fn spec_cut_right<T: Cuttable>(x: T) -> T {
    x.spec_half_destroy()
}

/// A value that can be cut along the fixed vertical partition of the
/// quadrant positions, and can trade the destroyed side's positions
/// with another value of the same kind.
pub trait Cuttable: Sized + Copy + Rotatable {
    /// The value with the destroyed-side positions set to empty.
    spec fn spec_half_destroy(self) -> Self;

    /// Both values with the destroyed-side positions exchanged and
    /// every other position untouched.
    spec fn spec_swapd(a: Self, b: Self) -> (Self, Self);

    fn half_destroyed(&mut self)
        ensures
            *final(self) == old(self).spec_half_destroy(),
    ;

    fn half_destroy(&self) -> (r: Self)
        ensures
            r == self.spec_half_destroy(),
    {
        let mut shape = *self;
        shape.half_destroyed();
        shape
    }

    fn cutting(&self) -> (r: [Self; 2])
        ensures
            r[0] == self.spec_rotate_cw().spec_rotate_cw().spec_half_destroy().spec_rotate_cw()
                .spec_rotate_cw(),
            r[1] == self.spec_half_destroy(),
    {
        let left_shape = self.rotate_180().half_destroy().rotate_180();
        let right_shape = self.half_destroy();
        [left_shape, right_shape]
    }

    fn swapd(a: &mut Self, b: &mut Self)
        ensures
            *final(a) == Self::spec_swapd(*old(a), *old(b)).0,
            *final(b) == Self::spec_swapd(*old(a), *old(b)).1,
    ;

    fn swapd_with(&mut self, b: &mut Self)
        ensures
            *final(self) == Self::spec_swapd(*old(self), *old(b)).0,
            *final(b) == Self::spec_swapd(*old(self), *old(b)).1,
    {
        Self::swapd(self, b);
    }

    fn swap(a: &Self, b: &Self) -> (r: [Self; 2])
        ensures
            r[0] == Self::spec_swapd(*a, *b).0,
            r[1] == Self::spec_swapd(*a, *b).1,
    {
        let mut a = *a;
        let mut b = *b;
        Self::swapd(&mut a, &mut b);
        [a, b]
    }

    fn swap_with(&self, other: &Self) -> (r: [Self; 2])
        ensures
            r[0] == Self::spec_swapd(*self, *other).0,
            r[1] == Self::spec_swapd(*self, *other).1,
    {
        Self::swap(self, other)
    }
}

impl Cuttable for Shape {
    /// Each layer is cut in the same vertical plane.
    open spec fn spec_half_destroy(self) -> Shape {
        Shape {
            layer0: self.layer0.spec_half_destroy(),
            layer1: self.layer1.spec_half_destroy(),
            layer2: self.layer2.spec_half_destroy(),
            layer3: self.layer3.spec_half_destroy(),
        }
    }

    open spec fn spec_swapd(a: Shape, b: Shape) -> (Shape, Shape) {
        (
            Shape {
                layer0: SingleLayer::spec_swapd(a.layer0, b.layer0).0,
                layer1: SingleLayer::spec_swapd(a.layer1, b.layer1).0,
                layer2: SingleLayer::spec_swapd(a.layer2, b.layer2).0,
                layer3: SingleLayer::spec_swapd(a.layer3, b.layer3).0,
            },
            Shape {
                layer0: SingleLayer::spec_swapd(a.layer0, b.layer0).1,
                layer1: SingleLayer::spec_swapd(a.layer1, b.layer1).1,
                layer2: SingleLayer::spec_swapd(a.layer2, b.layer2).1,
                layer3: SingleLayer::spec_swapd(a.layer3, b.layer3).1,
            },
        )
    }

    fn half_destroyed(&mut self) {
        self.layer0.half_destroyed();
        self.layer1.half_destroyed();
        self.layer2.half_destroyed();
        self.layer3.half_destroyed();
    }

    fn swapd(a: &mut Self, b: &mut Self) {
        SingleLayer::swapd(&mut a.layer0, &mut b.layer0);
        SingleLayer::swapd(&mut a.layer1, &mut b.layer1);
        SingleLayer::swapd(&mut a.layer2, &mut b.layer2);
        SingleLayer::swapd(&mut a.layer3, &mut b.layer3);
    }
}

impl Cuttable for SingleLayer {
    open spec fn spec_half_destroy(self) -> SingleLayer {
        SingleLayer {
            item0: self.item0,
            item1: self.item1,
            item2: SingleItem::spec_empty(),
            item3: SingleItem::spec_empty(),
        }
    }

    open spec fn spec_swapd(a: SingleLayer, b: SingleLayer) -> (SingleLayer, SingleLayer) {
        (
            SingleLayer { item0: a.item0, item1: a.item1, item2: b.item2, item3: b.item3 },
            SingleLayer { item0: b.item0, item1: b.item1, item2: a.item2, item3: a.item3 },
        )
    }

    fn half_destroyed(&mut self) {
        self.item2 = SingleItem::default();
        self.item3 = SingleItem::default();
    }

    fn swapd(a: &mut Self, b: &mut Self) {
        let ori_a = *a;
        let ori_b = *b;
        a.item2 = ori_b.item2;
        a.item3 = ori_b.item3;
        b.item2 = ori_a.item2;
        b.item3 = ori_a.item3;
    }
}

/// Cutting a layer partitions its items: on the destroyed-side
/// positions the left half keeps the original items and the right
/// half is empty; on the remaining positions the right half keeps the
/// original items and the left half is empty. A half equals the
/// whole only when the side it lost was already empty.
pub proof fn lemma_layer_cut_partition(l: SingleLayer)
    ensures
        forall|j: int|
            0 <= j < 4 && destroyed_position(j) ==> #[trigger] spec_cut_left(l).spec_item(j)
                == l.spec_item(j) && spec_cut_right(l).spec_item(j) == SingleItem::spec_empty(),
        forall|j: int|
            0 <= j < 4 && !destroyed_position(j) ==> #[trigger] spec_cut_right(l).spec_item(j)
                == l.spec_item(j) && spec_cut_left(l).spec_item(j) == SingleItem::spec_empty(),
        spec_cut_right(l) == l <==> l.item2 == SingleItem::spec_empty() && l.item3
            == SingleItem::spec_empty(),
        spec_cut_left(l) == l <==> l.item0 == SingleItem::spec_empty() && l.item1
            == SingleItem::spec_empty(),
{
}

/// Cutting a shape partitions every layer the same way.
pub proof fn lemma_shape_cut_partition(s: Shape)
    ensures
        forall|i: int, j: int|
            0 <= i < 4 && 0 <= j < 4 && destroyed_position(j) ==> #[trigger] spec_cut_left(
                s,
            ).spec_item(i, j) == s.spec_item(i, j) && spec_cut_right(s).spec_item(i, j)
                == SingleItem::spec_empty(),
        forall|i: int, j: int|
            0 <= i < 4 && 0 <= j < 4 && !destroyed_position(j) ==> #[trigger] spec_cut_right(
                s,
            ).spec_item(i, j) == s.spec_item(i, j) && spec_cut_left(s).spec_item(i, j)
                == SingleItem::spec_empty(),
{
}

/// Swapping the same pair twice restores both layers.
pub proof fn lemma_layer_swap_involution(a: SingleLayer, b: SingleLayer)
    ensures
        SingleLayer::spec_swapd(
            SingleLayer::spec_swapd(a, b).0,
            SingleLayer::spec_swapd(a, b).1,
        ) == (a, b),
{
}

/// Swapping the same pair twice restores both shapes.
pub proof fn lemma_shape_swap_involution(a: Shape, b: Shape)
    ensures
        Shape::spec_swapd(Shape::spec_swapd(a, b).0, Shape::spec_swapd(a, b).1) == (a, b),
{
}

} // verus!
