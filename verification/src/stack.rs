use vstd::prelude::*;

use crate::shape::Shape;

verus! {

/// A value that can carry another of its kind on top of its occupied
/// layers.
pub trait Stackable: Sized + Copy {
    /// The bottom value with the top value's layers placed from the
    /// bottom's layer height upward; whatever would rise past the
    /// fixed capacity is dropped.
    spec fn spec_stack(self, top: Self) -> Self;

    fn stacked_with(&mut self, other_on_top: &Self)
        ensures
            *final(self) == old(self).spec_stack(*other_on_top),
    ;

    fn stack_with(&self, other_on_top: &Self) -> (r: Self)
        ensures
            r == self.spec_stack(*other_on_top),
    {
        let mut shape = *self;
        shape.stacked_with(other_on_top);
        shape
    }

    fn stacked(bot: &mut Self, top: &Self) -> (r: Self)
        ensures
            *final(bot) == old(bot).spec_stack(*top),
            r == *final(bot),
    {
        let shape = bot;
        shape.stacked_with(top);
        *shape
    }

    fn stack(bot: &Self, top: &Self) -> (r: Self)
        ensures
            r == bot.spec_stack(*top),
    {
        bot.stack_with(top)
    }
}

impl Stackable for Shape {
    /// Layers below the bottom's height stay; every higher slot takes
    /// the top's layers in order, starting at the bottom's height.
    open spec fn spec_stack(self, top: Shape) -> Shape {
        let h = self.spec_layer_height();
        Shape {
            layer0: if h > 0 {
                self.layer0
            } else {
                top.spec_layer(0 - h)
            },
            layer1: if h > 1 {
                self.layer1
            } else {
                top.spec_layer(1 - h)
            },
            layer2: if h > 2 {
                self.layer2
            } else {
                top.spec_layer(2 - h)
            },
            layer3: if h > 3 {
                self.layer3
            } else {
                top.spec_layer(3 - h)
            },
        }
    }

    fn stacked_with(&mut self, other_on_top: &Self) {
        let ori_layer_height = self.layer_height();
        if ori_layer_height == 0 {
            self.layer0 = other_on_top.layer0;
            self.layer1 = other_on_top.layer1;
            self.layer2 = other_on_top.layer2;
            self.layer3 = other_on_top.layer3;
        } else if ori_layer_height == 1 {
            self.layer1 = other_on_top.layer0;
            self.layer2 = other_on_top.layer1;
            self.layer3 = other_on_top.layer2;
        } else if ori_layer_height == 2 {
            self.layer2 = other_on_top.layer0;
            self.layer3 = other_on_top.layer1;
        } else if ori_layer_height == 3 {
            self.layer3 = other_on_top.layer0;
        }
    }
}

/// Stacking keeps the bottom shape's occupied layers and continues
/// with the top shape's layers from the bottom's height upward; the
/// top's layers past the four-layer capacity are dropped.
pub proof fn lemma_stack_layers(bot: Shape, top: Shape)
    ensures
        forall|i: int|
            0 <= i < bot.spec_layer_height() ==> #[trigger] bot.spec_stack(top).spec_layer(i)
                == bot.spec_layer(i),
        forall|i: int|
            bot.spec_layer_height() <= i < 4 ==> #[trigger] bot.spec_stack(top).spec_layer(i)
                == top.spec_layer(i - bot.spec_layer_height()),
{
}

} // verus!
