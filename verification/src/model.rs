//! The resident core on the device: where its matrices and vectors are, and
//! the tensors that it is loaded from.

use crate::launch::{Kernels, Launch, LaunchView};
use vstd::prelude::*;

verus! {

/// A core matrix on the device: bf16 verbatim from the checkpoint, or
/// re-quantized to q4g64 at load time (~4x less bandwidth per GEMV).
#[derive(Debug, Clone, Copy)]
pub struct Mat {
    pub dev: u64,
    pub rows: i32,
    pub cols: i32,
    pub q4: bool,
}

impl Mat {
    /// y = M x, through whichever encoding the matrix carries. Load-time core
    /// requantization always uses groups of 64.
    pub open spec fn gemv_launch(self, x: u64, y: u64) -> LaunchView {
        if self.q4 {
            Kernels::q4g64_gemv_launch(self.dev, x, y, self.rows, self.cols, 64)
        } else {
            Kernels::bf16_gemv_launch(self.dev, x, y, self.rows, self.cols)
        }
    }

    /// y = M x, through whichever encoding the matrix carries.
    pub fn gemv(&self, x: u64, y: u64) -> (l: Launch)
        requires
            0 <= self.rows,
        ensures
            l@ == self.gemv_launch(x, y),
    {
        if self.q4 {
            Kernels::q4g64_gemv(self.dev, x, y, self.rows, self.cols, 64)
        } else {
            Kernels::bf16_gemv(self.dev, x, y, self.rows, self.cols)
        }
    }
}

#[derive(Debug, Clone, Copy)]
pub struct LayerWeights {
    /// f32 [hidden]
    pub input_ln: u64,
    /// [heads*hd, hidden]
    pub q: Mat,
    /// [kv*hd, hidden]
    pub k: Mat,
    /// [kv*hd, hidden]
    pub v: Mat,
    /// [hidden, heads*hd]
    pub o: Mat,
    /// f32 [hd]
    pub q_norm: u64,
    /// f32 [hd]
    pub k_norm: u64,
    /// f32 [hidden]
    pub post_ln: u64,
    /// [experts, hidden]
    pub router: Mat,
}

impl LayerWeights {
    pub open spec fn wf(self) -> bool {
        &&& 0 <= self.q.rows
        &&& 0 <= self.k.rows
        &&& 0 <= self.v.rows
        &&& 0 <= self.o.rows
        &&& 0 <= self.router.rows
    }
}

#[derive(Debug)]
pub struct CoreWeights {
    /// bf16 [vocab, hidden] (row gather only)
    pub embed: u64,
    /// f32 [hidden]
    pub final_norm: u64,
    /// [vocab, hidden]
    pub lm_head: Mat,
    pub layers: Vec<LayerWeights>,
}

impl CoreWeights {
    pub open spec fn wf(self) -> bool {
        &&& 0 <= self.lm_head.rows
        &&& forall|l: int|
            #![trigger self.layers@[l]]
            0 <= l < self.layers@.len() ==> self.layers@[l].wf()
    }

    /// Whether every matrix has a row count.
    pub fn fit(&self) -> (yes: bool)
        ensures
            yes == self.wf(),
    {
        if self.lm_head.rows < 0 {
            return false;
        }
        let mut l: usize = 0;
        while l < self.layers.len()
            invariant
                l <= self.layers@.len(),
                0 <= self.lm_head.rows,
                forall|k: int| #![trigger self.layers@[k]] 0 <= k < l ==> self.layers@[k].wf(),
            decreases self.layers@.len() - l,
        {
            let w: LayerWeights = self.layers[l];
            if w.q.rows < 0 || w.k.rows < 0 || w.v.rows < 0 || w.o.rows < 0 || w.router.rows < 0 {
                assert(!self.layers@[l as int].wf());
                return false;
            }
            l += 1;
        }
        true
    }
}

} // verus!
