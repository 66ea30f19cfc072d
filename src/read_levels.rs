use vstd::prelude::*;
use vstd::string::StringSliceAdditionalSpecFns;
use crate::scheme::{
    BranchEntry, BranchView, LevelEntry, LevelView, ObservationEntry, ObservationView, Scheme,
    SchemeView,
};
use crate::text::{check_number, copy_range, index_of, is_number, lines_of, parse_index, split_fields, split_lines, tokens, trim, trim_bytes};

verus! {

/// The section of the input file that a line belongs to.
#[derive(Debug, Clone, Copy, PartialEq, Eq, Structural)]
pub enum FileSection {
    NoSection,
    EnergyLevels,
    BValues,
    ObservedValues,
}

/// What is wrong with a field of a data line.
#[derive(Debug, Clone, Copy, PartialEq, Eq, Structural)]
pub enum FieldFault {
    /// The line has fewer fields than its section asks for.
    Missing,
    /// The field should be a level index and is not one.
    NotAnIndex,
    /// The field should be a number and is not one.
    NotANumber,
}

/// A fault in the field at position `field` (counted from 0) of a data line.
#[derive(Debug, Clone, Copy, PartialEq, Eq, Structural)]
pub struct FieldError {
    pub field: usize,
    pub fault: FieldFault,
}

/// Why an input file was refused; `line` counts from 1.
#[derive(Debug, Clone, Copy, PartialEq, Eq, Structural)]
pub enum InputError {
    /// A line that opens a section names none of the three sections.
    UnknownHeader { line: usize },
    /// A data line has a missing or malformed field.
    BadField { line: usize, field: usize, fault: FieldFault },
}

/// The section that a header opens; the name must match exactly.
pub open spec fn header_of(line: Seq<u8>) -> Option<FileSection> {
    if line == "Energy-Levels".spec_bytes() {
        Some(FileSection::EnergyLevels)
    } else if line == "B-Values".spec_bytes() {
        Some(FileSection::BValues)
    } else if line == "Observed-Values".spec_bytes() {
        Some(FileSection::ObservedValues)
    } else {
        None
    }
}

pub open spec fn missing(field: int) -> FieldError {
    FieldError { field: field as usize, fault: FieldFault::Missing }
}

pub open spec fn not_an_index(field: int) -> FieldError {
    FieldError { field: field as usize, fault: FieldFault::NotAnIndex }
}

pub open spec fn not_a_number(field: int) -> FieldError {
    FieldError { field: field as usize, fault: FieldFault::NotANumber }
}

/// The first of the fields `k..end` of `f` that is missing or is not a number.
pub open spec fn number_fault(f: Seq<Seq<u8>>, k: int, end: int) -> Option<FieldError>
    decreases end - k,
{
    if k >= end {
        None
    } else if k >= f.len() {
        Some(missing(k))
    } else if !is_number(f[k]) {
        Some(not_a_number(k))
    } else {
        number_fault(f, k + 1, end)
    }
}

/// An energy line: energy, feeding fraction, feeding uncertainty, each a
/// number; further fields are ignored. Fields are examined from left to right.
pub open spec fn level_line(line: Seq<u8>, idx: usize, lineno: usize) -> Result<LevelView, FieldError> {
    let f = tokens(line);
    if number_fault(f, 0, 3) is Some {
        Err(number_fault(f, 0, 3)->Some_0)
    } else {
        Ok(LevelView { line: lineno, idx, energy: f[0], feeding: f[1], dfeeding: f[2] })
    }
}

/// A branch or observation line: two level indices, then two numbers; further
/// fields are ignored. Fields are examined from left to right.
pub open spec fn pair_line(line: Seq<u8>) -> Result<(usize, usize, Seq<u8>, Seq<u8>), FieldError> {
    let f = tokens(line);
    if f.len() < 1 {
        Err(missing(0))
    } else if index_of(f[0]) is None {
        Err(not_an_index(0))
    } else if f.len() < 2 {
        Err(missing(1))
    } else if index_of(f[1]) is None {
        Err(not_an_index(1))
    } else if number_fault(f, 2, 4) is Some {
        Err(number_fault(f, 2, 4)->Some_0)
    } else {
        Ok((index_of(f[0])->Some_0, index_of(f[1])->Some_0, f[2], f[3]))
    }
}

pub open spec fn branch_line(line: Seq<u8>, lineno: usize) -> Result<BranchView, FieldError> {
    match pair_line(line) {
        Ok(p) => Ok(BranchView { line: lineno, from: p.0, to: p.1, val: p.2, dval: p.3 }),
        Err(e) => Err(e),
    }
}

pub open spec fn observation_line(line: Seq<u8>, lineno: usize) -> Result<ObservationView, FieldError> {
    match pair_line(line) {
        Ok(p) => Ok(ObservationView { line: lineno, from: p.0, to: p.1, counts: p.2, dcounts: p.3 }),
        Err(e) => Err(e),
    }
}

pub open spec fn field_error_at(i: int, e: FieldError) -> InputError {
    InputError::BadField { line: (i + 1) as usize, field: e.field, fault: e.fault }
}

/// Reads `lines[i..]` in section `sec`, with `acc` read so far. An empty line
/// closes the section; the next line then opens one. Levels are numbered in
/// file order from 0.
pub open spec fn read_lines(lines: Seq<Seq<u8>>, i: int, sec: FileSection, acc: SchemeView) -> Result<
    SchemeView,
    InputError,
>
    decreases lines.len() - i,
{
    if i < 0 || i >= lines.len() {
        Ok(acc)
    } else {
        let line = lines[i];
        if line.len() == 0 {
            read_lines(lines, i + 1, FileSection::NoSection, acc)
        } else {
            match sec {
                FileSection::NoSection => match header_of(trim(line)) {
                    Some(s) => read_lines(lines, i + 1, s, acc),
                    None => Err(InputError::UnknownHeader { line: (i + 1) as usize }),
                },
                FileSection::EnergyLevels => match level_line(line, acc.levels.len() as usize, (i + 1) as usize) {
                    Ok(l) => read_lines(lines, i + 1, sec, SchemeView { levels: acc.levels.push(l), ..acc }),
                    Err(e) => Err(field_error_at(i, e)),
                },
                FileSection::BValues => match branch_line(line, (i + 1) as usize) {
                    Ok(b) => read_lines(lines, i + 1, sec, SchemeView { branches: acc.branches.push(b), ..acc }),
                    Err(e) => Err(field_error_at(i, e)),
                },
                FileSection::ObservedValues => match observation_line(line, (i + 1) as usize) {
                    Ok(o) => read_lines(
                        lines,
                        i + 1,
                        sec,
                        SchemeView { observations: acc.observations.push(o), ..acc },
                    ),
                    Err(e) => Err(field_error_at(i, e)),
                },
            }
        }
    }
}

/// What an input file holds, or why it is refused.
pub open spec fn scheme_of(text: Seq<u8>) -> Result<SchemeView, InputError> {
    read_lines(
        lines_of(text),
        0,
        FileSection::NoSection,
        SchemeView { levels: seq![], branches: seq![], observations: seq![] },
    )
}

fn bytes_equal(a: &[u8], b: &[u8]) -> (r: bool)
    ensures
        r == (a@ == b@),
{
    if a.len() != b.len() {
        return false;
    }
    let mut i: usize = 0;
    while i < a.len()
        invariant
            a@.len() == b@.len(),
            i <= a@.len(),
            forall|k: int| 0 <= k < i ==> a@[k] == b@[k],
        decreases a@.len() - i,
    {
        if a[i] != b[i] {
            return false;
        }
        i = i + 1;
    }
    proof {
        assert(a@ =~= b@);
    }
    true
}

/// The section that a header opens, if it names one.
fn header_kind(line: &[u8]) -> (r: Option<FileSection>)
    ensures
        r == header_of(line@),
{
    if bytes_equal(line, "Energy-Levels".as_bytes()) {
        Some(FileSection::EnergyLevels)
    } else if bytes_equal(line, "B-Values".as_bytes()) {
        Some(FileSection::BValues)
    } else if bytes_equal(line, "Observed-Values".as_bytes()) {
        Some(FileSection::ObservedValues)
    } else {
        None
    }
}

/// The section that a header opens; the header must name one of the three
/// sections exactly.
pub fn parse_header(line: &[u8]) -> (r: FileSection)
    requires
        header_of(line@) is Some,
    ensures
        header_of(line@) == Some(r),
{
    match header_kind(line) {
        Some(s) => s,
        None => FileSection::NoSection,
    }
}

/// Where no fault is found among fields `k..end`, none is found among `k..j`
/// and field `j` is checked too.
pub proof fn lemma_number_fault_reaches(f: Seq<Seq<u8>>, k: int, j: int, end: int)
    requires
        k <= j < end,
        number_fault(f, k, end) is None,
    ensures
        j < f.len(),
    decreases j - k,
{
    if k < j {
        lemma_number_fault_reaches(f, k + 1, j, end);
    }
}

pub(crate) fn field_copy(fields: &Vec<Vec<u8>>, k: usize) -> (r: Vec<u8>)
    requires
        k < fields@.len(),
    ensures
        r@ == fields@[k as int]@,
{
    let w = fields[k].as_slice();
    copy_range(w, 0, w.len())
}

/// The first of the fields `start..end` that is missing or is not a number.
pub(crate) fn find_number_fault(fields: &Vec<Vec<u8>>, start: usize, end: usize) -> (r: Option<FieldError>)
    requires
        start <= end,
    ensures
        r == number_fault(fields@.map_values(|w: Vec<u8>| w@), start as int, end as int),
{
    let ghost f = fields@.map_values(|w: Vec<u8>| w@);
    let mut k: usize = start;
    while k < end
        invariant
            start <= k <= end,
            f == fields@.map_values(|w: Vec<u8>| w@),
            number_fault(f, start as int, end as int) == number_fault(f, k as int, end as int),
        decreases end - k,
    {
        if k >= fields.len() {
            return Some(FieldError { field: k, fault: FieldFault::Missing });
        }
        proof {
            assert(f[k as int] == fields@[k as int]@);
        }
        if !check_number(fields[k].as_slice()) {
            return Some(FieldError { field: k, fault: FieldFault::NotANumber });
        }
        k = k + 1;
    }
    None
}

/// Reads energy line number `lineno` as the level at position `idx`.
fn read_level_line(line: &[u8], idx: usize, lineno: usize) -> (r: Result<LevelEntry, FieldError>)
    ensures
        match r {
            Ok(l) => level_line(line@, idx, lineno) == Ok::<LevelView, FieldError>(l@),
            Err(e) => level_line(line@, idx, lineno) == Err::<LevelView, FieldError>(e),
        },
{
    let fields = split_fields(line);
    let ghost f = tokens(line@);
    proof {
        assert(fields@.len() == f.len());
    }
    proof {
        assert(fields@.map_values(|w: Vec<u8>| w@) == f);
    }
    match find_number_fault(&fields, 0, 3) {
        Some(e) => {
            return Err(e);
        },
        None => {},
    }
    proof {
        if f.len() < 3 {
            lemma_number_fault_reaches(f, 0, f.len() as int, 3);
        }
    }
    let energy = field_copy(&fields, 0);
    let feeding = field_copy(&fields, 1);
    let dfeeding = field_copy(&fields, 2);
    proof {
        assert(f[0] == fields@[0]@);
        assert(f[1] == fields@[1]@);
        assert(f[2] == fields@[2]@);
    }
    Ok(LevelEntry { line: lineno, idx, energy, feeding, dfeeding })
}

/// Reads the two level indices and the two numbers of a branch or observation
/// line.
fn parse_pair(line: &[u8]) -> (r: Result<(usize, usize, Vec<u8>, Vec<u8>), FieldError>)
    ensures
        match r {
            Ok(p) => pair_line(line@) == Ok::<(usize, usize, Seq<u8>, Seq<u8>), FieldError>(
                (p.0, p.1, p.2@, p.3@),
            ),
            Err(e) => pair_line(line@) == Err::<(usize, usize, Seq<u8>, Seq<u8>), FieldError>(e),
        },
{
    let fields = split_fields(line);
    let ghost f = tokens(line@);
    proof {
        assert(fields@.len() == f.len());
    }
    if fields.len() < 1 {
        return Err(FieldError { field: 0, fault: FieldFault::Missing });
    }
    proof {
        assert(f[0] == fields@[0]@);
    }
    let from = match parse_index(fields[0].as_slice()) {
        Some(v) => v,
        None => {
            return Err(FieldError { field: 0, fault: FieldFault::NotAnIndex });
        },
    };
    if fields.len() < 2 {
        return Err(FieldError { field: 1, fault: FieldFault::Missing });
    }
    proof {
        assert(f[1] == fields@[1]@);
    }
    let to = match parse_index(fields[1].as_slice()) {
        Some(v) => v,
        None => {
            return Err(FieldError { field: 1, fault: FieldFault::NotAnIndex });
        },
    };
    proof {
        assert(fields@.map_values(|w: Vec<u8>| w@) == f);
    }
    match find_number_fault(&fields, 2, 4) {
        Some(e) => {
            return Err(e);
        },
        None => {},
    }
    proof {
        if f.len() < 4 {
            lemma_number_fault_reaches(f, 2, f.len() as int, 4);
        }
    }
    let a = field_copy(&fields, 2);
    let b = field_copy(&fields, 3);
    proof {
        assert(f[2] == fields@[2]@);
        assert(f[3] == fields@[3]@);
    }
    Ok((from, to, a, b))
}

/// Reads line number `lineno`, of the branch section.
fn read_branch_line(line: &[u8], lineno: usize) -> (r: Result<BranchEntry, FieldError>)
    ensures
        match r {
            Ok(b) => branch_line(line@, lineno) == Ok::<BranchView, FieldError>(b@),
            Err(e) => branch_line(line@, lineno) == Err::<BranchView, FieldError>(e),
        },
{
    match parse_pair(line) {
        Ok((from, to, val, dval)) => Ok(BranchEntry { line: lineno, from, to, val, dval }),
        Err(e) => Err(e),
    }
}

/// Reads line number `lineno`, of the observation section.
fn read_observation_line(line: &[u8], lineno: usize) -> (r: Result<ObservationEntry, FieldError>)
    ensures
        match r {
            Ok(o) => observation_line(line@, lineno) == Ok::<ObservationView, FieldError>(o@),
            Err(e) => observation_line(line@, lineno) == Err::<ObservationView, FieldError>(e),
        },
{
    match parse_pair(line) {
        Ok((from, to, counts, dcounts)) => Ok(ObservationEntry { line: lineno, from, to, counts, dcounts }),
        Err(e) => Err(e),
    }
}

/// Reads a whole input file: sections `Energy-Levels`, `B-Values` and
/// `Observed-Values`, each opened by its header and closed by an empty line;
/// or the first fault in it.
fn read_scheme(text: &[u8]) -> (r: Result<Scheme, InputError>)
    ensures
        match r {
            Ok(s) => scheme_of(text@) == Ok::<SchemeView, InputError>(s@),
            Err(e) => scheme_of(text@) == Err::<SchemeView, InputError>(e),
        },
        r matches Ok(s) ==> forall|k: int| 0 <= k < s.levels@.len() ==> (#[trigger] s.levels@[k]).idx == k,
{
    let lines = split_lines(text);
    let ghost ls = lines_of(text@);
    let mut sec = FileSection::NoSection;
    let mut levels: Vec<LevelEntry> = Vec::new();
    let mut branches: Vec<BranchEntry> = Vec::new();
    let mut observations: Vec<ObservationEntry> = Vec::new();
    let mut i: usize = 0;
    proof {
        assert(levels@.map_values(|l: LevelEntry| l@) =~= seq![]);
        assert(branches@.map_values(|b: BranchEntry| b@) =~= seq![]);
        assert(observations@.map_values(|o: ObservationEntry| o@) =~= seq![]);
    }
    while i < lines.len()
        invariant
            i <= lines@.len(),
            ls == lines@.map_values(|l: Vec<u8>| l@),
            forall|k: int| 0 <= k < levels@.len() ==> (#[trigger] levels@[k]).idx == k,
            scheme_of(text@) == read_lines(
                ls,
                i as int,
                sec,
                SchemeView {
                    levels: levels@.map_values(|l: LevelEntry| l@),
                    branches: branches@.map_values(|b: BranchEntry| b@),
                    observations: observations@.map_values(|o: ObservationEntry| o@),
                },
            ),
        decreases lines@.len() - i,
    {
        let line = lines[i].as_slice();
        proof {
            assert(ls[i as int] == line@);
        }
        if line.len() == 0 {
            sec = FileSection::NoSection;
        } else {
            match sec {
                FileSection::NoSection => {
                    let t = trim_bytes(line);
                    match header_kind(t.as_slice()) {
                        Some(s) => {
                            sec = s;
                        },
                        None => {
                            return Err(InputError::UnknownHeader { line: i + 1 });
                        },
                    }
                },
                FileSection::EnergyLevels => {
                    match read_level_line(line, levels.len(), i + 1) {
                        Ok(l) => {
                            let ghost old_v = levels@.map_values(|l: LevelEntry| l@);
                            levels.push(l);
                            proof {
                                assert(levels@.map_values(|l: LevelEntry| l@) =~= old_v.push(l@));
                            }
                        },
                        Err(e) => {
                            return Err(
                                InputError::BadField { line: i + 1, field: e.field, fault: e.fault },
                            );
                        },
                    }
                },
                FileSection::BValues => {
                    match read_branch_line(line, i + 1) {
                        Ok(b) => {
                            let ghost old_v = branches@.map_values(|b: BranchEntry| b@);
                            branches.push(b);
                            proof {
                                assert(branches@.map_values(|b: BranchEntry| b@) =~= old_v.push(b@));
                            }
                        },
                        Err(e) => {
                            return Err(
                                InputError::BadField { line: i + 1, field: e.field, fault: e.fault },
                            );
                        },
                    }
                },
                FileSection::ObservedValues => {
                    match read_observation_line(line, i + 1) {
                        Ok(o) => {
                            let ghost old_v = observations@.map_values(|o: ObservationEntry| o@);
                            observations.push(o);
                            proof {
                                assert(observations@.map_values(|o: ObservationEntry| o@)
                                    =~= old_v.push(o@));
                            }
                        },
                        Err(e) => {
                            return Err(
                                InputError::BadField { line: i + 1, field: e.field, fault: e.fault },
                            );
                        },
                    }
                },
            }
        }
        i = i + 1;
    }
    Ok(Scheme { levels, branches, observations })
}

/// Reads energy line number `lineno`, a well-formed one, as the level at
/// position `idx`.
pub fn parse_energy(line: &[u8], idx: usize, lineno: usize) -> (r: LevelEntry)
    requires
        level_line(line@, idx, lineno) is Ok,
    ensures
        level_line(line@, idx, lineno) == Ok::<LevelView, FieldError>(r@),
{
    match read_level_line(line, idx, lineno) {
        Ok(l) => l,
        Err(_) => LevelEntry { line: lineno, idx, energy: Vec::new(), feeding: Vec::new(), dfeeding: Vec::new() },
    }
}

/// Reads line number `lineno`, a well-formed line of the branch section.
pub fn parse_branch(line: &[u8], lineno: usize) -> (r: BranchEntry)
    requires
        branch_line(line@, lineno) is Ok,
    ensures
        branch_line(line@, lineno) == Ok::<BranchView, FieldError>(r@),
{
    match read_branch_line(line, lineno) {
        Ok(b) => b,
        Err(_) => BranchEntry { line: lineno, from: 0, to: 0, val: Vec::new(), dval: Vec::new() },
    }
}

/// Reads line number `lineno`, a well-formed line of the observation section.
pub fn parse_obs(line: &[u8], lineno: usize) -> (r: ObservationEntry)
    requires
        observation_line(line@, lineno) is Ok,
    ensures
        observation_line(line@, lineno) == Ok::<ObservationView, FieldError>(r@),
{
    match read_observation_line(line, lineno) {
        Ok(o) => o,
        Err(_) => ObservationEntry { line: lineno, from: 0, to: 0, counts: Vec::new(), dcounts: Vec::new() },
    }
}

/// Checks an input file: `Ok` exactly when it reads as a scheme, else the
/// first fault, with its line and field.
pub fn check_input(text: &[u8]) -> (r: Result<(), InputError>)
    ensures
        r is Ok <==> scheme_of(text@) is Ok,
        r matches Err(e) ==> scheme_of(text@) == Err::<SchemeView, InputError>(e),
{
    match read_scheme(text) {
        Ok(_) => Ok(()),
        Err(e) => Err(e),
    }
}

/// Reads a well-formed input file (one that `check_input` accepts). Levels
/// carry their position as index.
pub fn read_input(text: &[u8]) -> (r: Scheme)
    requires
        scheme_of(text@) is Ok,
    ensures
        scheme_of(text@) == Ok::<SchemeView, InputError>(r@),
        forall|k: int| 0 <= k < r.levels@.len() ==> (#[trigger] r.levels@[k]).idx == k,
{
    match read_scheme(text) {
        Ok(s) => s,
        Err(_) => Scheme { levels: Vec::new(), branches: Vec::new(), observations: Vec::new() },
    }
}

} // verus!
