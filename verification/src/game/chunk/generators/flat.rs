//! A generator of flat worlds: layers of blocks from the bottom up.
use vstd::prelude::*;

verus! {

/// A block, by the number of its kind.
#[derive(Clone, Copy, Debug, PartialEq, Eq, Structural)]
pub struct Block(pub u32);

/// Collects the layers of a flat world, from the bottom up.
pub struct FlatGeneratorBuilder {
    layers: Vec<Block>,
    world_height: usize,
}

/// The layers of a flat world, no more than the world is high.
pub struct FlatGenerator {
    layers: Vec<Block>,
    world_height: usize,
}

impl FlatGeneratorBuilder {
    pub closed spec fn spec_layers(&self) -> Seq<Block> {
        self.layers@
    }

    pub closed spec fn spec_world_height(&self) -> usize {
        self.world_height
    }

    /// A builder of no layers for a world `world_height` blocks high.
    pub fn new(world_height: usize) -> (r: Self)
        ensures
            r.spec_layers() == Seq::<Block>::empty(),
            r.spec_world_height() == world_height,
    {
        FlatGeneratorBuilder { layers: Vec::new(), world_height }
    }

    /// Puts `count` layers of `block` on top of the layers so far.
    pub fn layer(self, block: Block, count: usize) -> (r: Self)
        ensures
            r.spec_layers() == self.spec_layers() + Seq::new(count as nat, |i: int| block),
            r.spec_world_height() == self.spec_world_height(),
    {
        let mut layers = self.layers;
        let mut k: usize = 0;
        while k < count
            invariant
                k <= count,
                layers@ == self.layers@ + Seq::new(k as nat, |i: int| block),
            decreases count - k,
        {
            layers.push(block);
            k = k + 1;
            assert(layers@ =~= self.layers@ + Seq::new(k as nat, |i: int| block));
        }
        FlatGeneratorBuilder { layers, world_height: self.world_height }
    }

    /// The generator of these layers, without those above the world's height.
    pub fn build(self) -> (r: FlatGenerator)
        ensures
            r.spec_layers() == if self.spec_layers().len() > self.spec_world_height() {
                self.spec_layers().take(self.spec_world_height() as int)
            } else {
                self.spec_layers()
            },
            r.spec_world_height() == self.spec_world_height(),
    {
        let mut layers = self.layers;
        assert(layers@ =~= self.layers@.take(layers@.len() as int));
        while layers.len() > self.world_height
            invariant
                layers@ == self.layers@.take(layers@.len() as int),
                layers@.len() <= self.layers@.len(),
                self.layers@.len() <= self.world_height ==> layers@.len() == self.layers@.len(),
                self.layers@.len() > self.world_height ==> layers@.len() >= self.world_height,
            decreases layers.len(),
        {
            layers.pop();
            assert(layers@ =~= self.layers@.take(layers@.len() as int));
        }
        proof {
            if self.layers@.len() > self.world_height {
                assert(layers@.len() == self.world_height);
            } else {
                assert(layers@ =~= self.layers@);
            }
        }
        FlatGenerator { layers, world_height: self.world_height }
    }
}

impl FlatGenerator {
    pub closed spec fn spec_layers(&self) -> Seq<Block> {
        self.layers@
    }

    pub closed spec fn spec_world_height(&self) -> usize {
        self.world_height
    }

    /// The layers, from the bottom up.
    pub fn layers(&self) -> (r: &[Block])
        ensures
            r@ == self.spec_layers(),
    {
        self.layers.as_slice()
    }
}

} // verus!
