use vstd::prelude::*;
use crate::read_levels::{
    field_copy, find_number_fault, lemma_number_fault_reaches, number_fault, FieldError, InputError,
};
use crate::text::{lines_of, split_fields, split_lines, tokens};

verus! {

/// A line of an efficiency file: energy, then efficiency. Every field on the
/// line must be a number, and there must be two at least, so an empty line is
/// refused too.
pub open spec fn efficiency_line(line: Seq<u8>) -> Result<(Seq<u8>, Seq<u8>), FieldError> {
    let f = tokens(line);
    let end = if f.len() < 2 { 2 } else { f.len() as int };
    if number_fault(f, 0, end) is Some {
        Err(number_fault(f, 0, end)->Some_0)
    } else {
        Ok((f[0], f[1]))
    }
}

/// Reads `lines[i..]`, with the points `acc` read so far.
pub open spec fn efficiency_lines(lines: Seq<Seq<u8>>, i: int, acc: Seq<(Seq<u8>, Seq<u8>)>) -> Result<
    Seq<(Seq<u8>, Seq<u8>)>,
    InputError,
>
    decreases lines.len() - i,
{
    if i < 0 || i >= lines.len() {
        Ok(acc)
    } else {
        match efficiency_line(lines[i]) {
            Ok(p) => efficiency_lines(lines, i + 1, acc.push(p)),
            Err(e) => Err(
                InputError::BadField { line: (i + 1) as usize, field: e.field, fault: e.fault },
            ),
        }
    }
}

/// The (energy, efficiency) points of an efficiency file, in file order, or
/// the first faulty field.
pub open spec fn efficiency_of(text: Seq<u8>) -> Result<Seq<(Seq<u8>, Seq<u8>)>, InputError> {
    efficiency_lines(lines_of(text), 0, seq![])
}

pub open spec fn point_views(v: Seq<(Vec<u8>, Vec<u8>)>) -> Seq<(Seq<u8>, Seq<u8>)> {
    v.map_values(|p: (Vec<u8>, Vec<u8>)| (p.0@, p.1@))
}

/// Reads a two-column efficiency file into the text of its (energy,
/// efficiency) points, or the first fault in it.
fn read_points(text: &[u8]) -> (r: Result<Vec<(Vec<u8>, Vec<u8>)>, InputError>)
    ensures
        match r {
            Ok(v) => efficiency_of(text@) == Ok::<Seq<(Seq<u8>, Seq<u8>)>, InputError>(
                point_views(v@),
            ),
            Err(e) => efficiency_of(text@) == Err::<Seq<(Seq<u8>, Seq<u8>)>, InputError>(e),
        },
{
    let lines = split_lines(text);
    let ghost ls = lines_of(text@);
    let mut points: Vec<(Vec<u8>, Vec<u8>)> = Vec::new();
    let mut i: usize = 0;
    proof {
        assert(point_views(points@) =~= seq![]);
    }
    while i < lines.len()
        invariant
            i <= lines@.len(),
            ls == lines@.map_values(|l: Vec<u8>| l@),
            efficiency_of(text@) == efficiency_lines(ls, i as int, point_views(points@)),
        decreases lines@.len() - i,
    {
        let line = lines[i].as_slice();
        proof {
            assert(ls[i as int] == line@);
        }
        let fields = split_fields(line);
        let ghost f = tokens(line@);
        proof {
            assert(fields@.map_values(|w: Vec<u8>| w@) == f);
            assert(fields@.len() == f.len());
        }
        {
            let end = if fields.len() < 2 {
                2
            } else {
                fields.len()
            };
            match find_number_fault(&fields, 0, end) {
                Some(e) => {
                    return Err(InputError::BadField { line: i + 1, field: e.field, fault: e.fault });
                },
                None => {},
            }
            proof {
                lemma_number_fault_reaches(f, 0, 1, end as int);
            }
            let energy = field_copy(&fields, 0);
            let eff = field_copy(&fields, 1);
            proof {
                assert(f[0] == fields@[0]@);
                assert(f[1] == fields@[1]@);
            }
            let ghost old_v = point_views(points@);
            points.push((energy, eff));
            proof {
                assert(point_views(points@) =~= old_v.push((f[0], f[1])));
            }
        }
        i = i + 1;
    }
    Ok(points)
}

/// Checks an efficiency file: `Ok` exactly when every line holds two numbers
/// or more, else the first fault, with its line and field.
pub fn check_efficiency(text: &[u8]) -> (r: Result<(), InputError>)
    ensures
        r is Ok <==> efficiency_of(text@) is Ok,
        r matches Err(e) ==> efficiency_of(text@) == Err::<Seq<(Seq<u8>, Seq<u8>)>, InputError>(e),
{
    match read_points(text) {
        Ok(_) => Ok(()),
        Err(e) => Err(e),
    }
}

/// Reads a well-formed efficiency file (one that `check_efficiency` accepts)
/// into the text of its (energy, efficiency) points, in file order.
pub fn read_efficiency(text: &[u8]) -> (r: Vec<(Vec<u8>, Vec<u8>)>)
    requires
        efficiency_of(text@) is Ok,
    ensures
        efficiency_of(text@) == Ok::<Seq<(Seq<u8>, Seq<u8>)>, InputError>(point_views(r@)),
{
    match read_points(text) {
        Ok(v) => v,
        Err(_) => Vec::new(),
    }
}

} // verus!
