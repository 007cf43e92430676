//! A feed-forward network built on the tape: alternating affine layers
//! and sigmoid activations, closed by the squared-error loss.

use vstd::prelude::*;

use crate::ad::Tape;

verus! {

/// A multi-layer network: its tape, the weight and bias node of each
/// layer, and the input, expected-output and loss nodes.
pub struct Net {
    pub tape: Tape,
    pub parameters: Vec<(usize, usize)>,
    pub input: usize,
    pub expected: usize,
    pub output: usize,
}

impl Net {
    /// Well-formed and ready to evaluate: the tape is compiled and every
    /// remembered node index is in range.
    pub open spec fn wf(&self) -> bool {
        &&& self.tape.wf()
        &&& self.tape.compiled()
        &&& self.input < self.tape@.len()
        &&& self.expected < self.tape@.len()
        &&& self.output < self.tape@.len()
        &&& forall|i: int| 0 <= i < self.parameters@.len()
            ==> (#[trigger] self.parameters@[i]).0 < self.tape@.len()
                && self.parameters@[i].1 < self.tape@.len()
}

    /// Build a network of the given layer sizes: one weight matrix and
    /// bias per layer beyond the input, each followed by the sigmoid.
    /// Set the input, the parameters and the expected output through
    /// the tape, then evaluate and differentiate.
    pub fn new(layers: &[usize]) -> (r: Net)
        requires
            layers@.len() >= 2,
        ensures
            r.wf(),
            r.parameters@.len() == layers@.len() - 1,
    {
        let mut parameters: Vec<(usize, usize)> = Vec::new();

        let mut t = Tape::init();
        let mut a = t.var("a0");
        let input = a;

        let mut layer: usize = 1;
        while layer < layers.len()
            invariant
                t.wf(),
                a < t@.len(),
                input < t@.len(),
                1 <= layer <= layers@.len(),
                parameters@.len() == layer - 1,
                forall|i: int| 0 <= i < parameters@.len()
                    ==> (#[trigger] parameters@[i]).0 < t@.len() && parameters@[i].1 < t@.len(),
            decreases layers@.len() - layer,
        {
            let b = t.var("b");
            let w = t.var("w");
            let m = t.mult_mat(w, a);
            let z = t.add_vec(m, b);
            a = t.sigma(z);
            parameters.push((w, b));
            layer = layer + 1;
        }

        let y = t.var("y");
        let output = t.loss(y, a);

        t.compile();

        Net { tape: t, parameters, input, expected: y, output }
    }
}

} // verus!
