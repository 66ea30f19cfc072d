use vstd::prelude::*;

verus! {

/// A level as it stands in the input file: the number of its line (from 1),
/// its position among the levels, and the text of its energy, feeding fraction and feeding uncertainty.
pub struct LevelEntry {
    pub line: usize,
    pub idx: usize,
    pub energy: Vec<u8>,
    pub feeding: Vec<u8>,
    pub dfeeding: Vec<u8>,
}

pub struct LevelView {
    pub line: usize,
    pub idx: usize,
    pub energy: Seq<u8>,
    pub feeding: Seq<u8>,
    pub dfeeding: Seq<u8>,
}

impl View for LevelEntry {
    type V = LevelView;

    open spec fn view(&self) -> LevelView {
        LevelView {
            line: self.line,
            idx: self.idx,
            energy: self.energy@,
            feeding: self.feeding@,
            dfeeding: self.dfeeding@,
        }
    }
}

/// A transition from level `from` down to level `to`, with the number of its
/// line and the text of its
/// intensity and of the intensity's uncertainty.
pub struct BranchEntry {
    pub line: usize,
    pub from: usize,
    pub to: usize,
    pub val: Vec<u8>,
    pub dval: Vec<u8>,
}

pub struct BranchView {
    pub line: usize,
    pub from: usize,
    pub to: usize,
    pub val: Seq<u8>,
    pub dval: Seq<u8>,
}

impl View for BranchEntry {
    type V = BranchView;

    open spec fn view(&self) -> BranchView {
        BranchView { line: self.line, from: self.from, to: self.to, val: self.val@, dval: self.dval@ }
    }
}

/// An observed transition from level `from` to level `to`, with the number of
/// its line and the text of its
/// counts and of their uncertainty.
pub struct ObservationEntry {
    pub line: usize,
    pub from: usize,
    pub to: usize,
    pub counts: Vec<u8>,
    pub dcounts: Vec<u8>,
}

pub struct ObservationView {
    pub line: usize,
    pub from: usize,
    pub to: usize,
    pub counts: Seq<u8>,
    pub dcounts: Seq<u8>,
}

impl View for ObservationEntry {
    type V = ObservationView;

    open spec fn view(&self) -> ObservationView {
        ObservationView {
            line: self.line,
            from: self.from,
            to: self.to,
            counts: self.counts@,
            dcounts: self.dcounts@,
        }
    }
}

/// The three sections of an input file, in file order.
pub struct Scheme {
    pub levels: Vec<LevelEntry>,
    pub branches: Vec<BranchEntry>,
    pub observations: Vec<ObservationEntry>,
}

pub struct SchemeView {
    pub levels: Seq<LevelView>,
    pub branches: Seq<BranchView>,
    pub observations: Seq<ObservationView>,
}

impl View for Scheme {
    type V = SchemeView;

    open spec fn view(&self) -> SchemeView {
        SchemeView {
            levels: self.levels@.map_values(|l: LevelEntry| l@),
            branches: self.branches@.map_values(|b: BranchEntry| b@),
            observations: self.observations@.map_values(|o: ObservationEntry| o@),
        }
    }
}

} // verus!
