use vstd::prelude::*;

verus! {

/// How the states of a particle system are shown: which color each state
/// gets, as `[r, g, b, a]`.
pub trait Coloration: Sized {
    /// The color of `state`.
    spec fn spec_color(&self, state: int) -> [u8; 4];

    /// Which states have a color.
    spec fn colorable(&self, state: int) -> bool;

    /// The color a particle in state `state` is drawn with.
    fn get_color(&self, state: usize) -> (color: [u8; 4])
        requires
            self.colorable(state as int),
        ensures
            color == self.spec_color(state as int),
    ;
}

/// Turn a flat state record into a flat RGBA pixel buffer: four bytes per
/// state, in record order. The callers wrap this buffer into an image or
/// one frame of an animation.
pub fn render_rgba<C: Coloration>(coloration: &C, solution: &Vec<usize>) -> (pixels: Vec<u8>)
    requires
        forall|i: int|
            0 <= i < solution@.len() ==> coloration.colorable(#[trigger] solution@[i] as int),
        4 * solution@.len() <= usize::MAX,
    ensures
        pixels@.len() == 4 * solution@.len(),
        forall|i: int|
            0 <= i < solution@.len() ==> pixels@.subrange(4 * i, 4 * i + 4)
                == coloration.spec_color(#[trigger] solution@[i] as int)@,
{
    let mut pixels: Vec<u8> = Vec::new();
    let n = solution.len();
    for i in 0..n
        invariant
            n == solution@.len(),
            4 * n <= usize::MAX,
            forall|j: int|
                0 <= j < solution@.len() ==> coloration.colorable(#[trigger] solution@[j] as int),
            pixels@.len() == 4 * i,
            forall|j: int|
                0 <= j < i ==> pixels@.subrange(4 * j, 4 * j + 4) == coloration.spec_color(
                    #[trigger] solution@[j] as int,
                )@,
    {
        let color = coloration.get_color(solution[i]);
        let ghost before = pixels@;
        pixels.push(color[0]);
        pixels.push(color[1]);
        pixels.push(color[2]);
        pixels.push(color[3]);
        proof {
            assert forall|j: int|
                0 <= j < i + 1 implies pixels@.subrange(4 * j, 4 * j + 4)
                == coloration.spec_color(#[trigger] solution@[j] as int)@ by {
                if j < i {
                    assert(pixels@.subrange(4 * j, 4 * j + 4) =~= before.subrange(
                        4 * j,
                        4 * j + 4,
                    ));
                } else {
                    assert(coloration.spec_color(solution@[j] as int)@.len() == 4);
                    assert(pixels@.subrange(4 * j, 4 * j + 4) =~= coloration.spec_color(
                        solution@[j] as int,
                    )@);
                }
            }
        }
    }
    pixels
}

} // verus!
