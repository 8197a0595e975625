//! Which columns of a chip a determinism analysis reads as inputs, outputs and selectors.
use std::collections::HashMap;
use vstd::prelude::*;

verus! {

/// The number of limbs of a machine word.
pub const WORD_SIZE: usize = 4;

/// A machine word as limbs, the least significant first.
#[derive(Clone, Copy, Debug)]
pub struct Word<T>(pub [T; WORD_SIZE]);

/// The annotations of a chip's columns. A range is its first column, the column past its
/// last one, and the name of its field.
#[derive(Clone, Debug)]
pub struct PicusInfo {
    /// The names of the columns.
    pub col_to_name: HashMap<usize, String>,
    /// The ranges of the names.
    pub name_to_colrange: HashMap<String, (usize, usize)>,
    /// The inputs.
    pub input_ranges: Vec<(usize, usize, String)>,
    /// The outputs.
    pub output_ranges: Vec<(usize, usize, String)>,
    /// The columns whose values on the current row are inputs of a transition.
    pub transition_input_ranges: Vec<(usize, usize, String)>,
    /// The columns whose values on the next row are outputs of a transition.
    pub transition_output_ranges: Vec<(usize, usize, String)>,
    /// The selectors: a column and the name of its field.
    pub selector_indices: Vec<(usize, String)>,
    /// The column that says whether a row is real.
    pub is_real_index: Option<usize>,
}

/// The slices of a larger layout that stand on the boundary of an operation.
#[derive(Clone, Debug)]
pub struct PicusProjectionInfo {
    /// The names of the columns.
    pub col_to_name: HashMap<usize, String>,
    /// The ranges of the names.
    pub name_to_colrange: HashMap<String, (usize, usize)>,
    /// The inputs.
    pub input_ranges: Vec<(usize, usize, String)>,
    /// The outputs.
    pub output_ranges: Vec<(usize, usize, String)>,
}

impl Default for PicusInfo {
    fn default() -> (r: PicusInfo)
        ensures
            r.col_to_name@ == Map::<usize, String>::empty(),
            r.name_to_colrange@ == Map::<String, (usize, usize)>::empty(),
            r.input_ranges@.len() == 0,
            r.output_ranges@.len() == 0,
            r.transition_input_ranges@.len() == 0,
            r.transition_output_ranges@.len() == 0,
            r.selector_indices@.len() == 0,
            r.is_real_index is None,
    {
        PicusInfo {
            col_to_name: HashMap::new(),
            name_to_colrange: HashMap::new(),
            input_ranges: Vec::new(),
            output_ranges: Vec::new(),
            transition_input_ranges: Vec::new(),
            transition_output_ranges: Vec::new(),
            selector_indices: Vec::new(),
            is_real_index: None,
        }
    }
}

impl Default for PicusProjectionInfo {
    fn default() -> (r: PicusProjectionInfo)
        ensures
            r.col_to_name@ == Map::<usize, String>::empty(),
            r.name_to_colrange@ == Map::<String, (usize, usize)>::empty(),
            r.input_ranges@.len() == 0,
            r.output_ranges@.len() == 0,
    {
        PicusProjectionInfo {
            col_to_name: HashMap::new(),
            name_to_colrange: HashMap::new(),
            input_ranges: Vec::new(),
            output_ranges: Vec::new(),
        }
    }
}

/// A column, or columns in nested arrays, of which the first one counts.
pub trait PicusProjectionStart {
    /// Whether there is a first column.
    spec fn has_start(&self) -> bool;

    /// The first column.
    spec fn start(&self) -> usize;

    /// The first column.
    fn projection_start(&self) -> (r: usize)
        requires
            self.has_start(),
        ensures
            r == self.start(),
    ;
}

impl PicusProjectionStart for usize {
    open spec fn has_start(&self) -> bool {
        true
    }

    open spec fn start(&self) -> usize {
        *self
    }

    fn projection_start(&self) -> (r: usize) {
        *self
    }
}

impl<T: PicusProjectionStart, const N: usize> PicusProjectionStart for [T; N] {
    open spec fn has_start(&self) -> bool {
        N > 0 && self@[0].has_start()
    }

    open spec fn start(&self) -> usize {
        self@[0].start()
    }

    fn projection_start(&self) -> (r: usize) {
        self[0].projection_start()
    }
}

impl<T: PicusProjectionStart> PicusProjectionStart for Word<T> {
    open spec fn has_start(&self) -> bool {
        self.0@[0].has_start()
    }

    open spec fn start(&self) -> usize {
        self.0@[0].start()
    }

    fn projection_start(&self) -> (r: usize) {
        self.0[0].projection_start()
    }
}

} // verus!
