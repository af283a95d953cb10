//! Choice of the solving method from the shape of the input.
//!
//! The input is described only by which of the three sides and which of the
//! three angles are known; index `i` of the angles is the angle opposite side `i`.
use vstd::prelude::*;

verus! {

/// How the three side lengths are obtained.
#[derive(Clone, Copy, Debug, PartialEq, Eq, Structural)]
pub enum Plan {
    /// All three sides are known; the angles are not consulted.
    GivenSides,
    /// Two sides and the angle between them are known: the side at
    /// `missing` follows from the law of cosines with the angle at `missing`.
    IncludedAngle { missing: usize },
    /// One side, at `known`, and all three angles are known: every side is
    /// that side scaled by the ratio of the sines of the opposite angles.
    SineRatio { known: usize },
    /// Two sides and an angle that is not between them: more than one
    /// triangle may fit, so none is chosen.
    Ambiguous,
    /// Too little is known to fix a triangle.
    Insufficient,
}

/// Number of `true` entries among the three.
pub open spec fn count_known(k: Seq<bool>) -> nat {
    (if k[0] { 1nat } else { 0nat }) + (if k[1] { 1nat } else { 0nat }) + (if k[2] {
        1nat
    } else {
        0nat
    })
}

/// Lowest of the three indices whose entry equals `b` (2 when neither of the
/// first two does).
pub open spec fn first_index_of(k: Seq<bool>, b: bool) -> int {
    if k[0] == b {
        0
    } else if k[1] == b {
        1
    } else {
        2
    }
}

/// The angle to be completed as the remainder of a half turn: the unknown
/// one, when exactly two of the three are known.
pub open spec fn angle_to_complete(angles: Seq<bool>) -> Option<int> {
    if count_known(angles) == 2 {
        Some(first_index_of(angles, false))
    } else {
        None
    }
}

/// Which angles are known once two known angles have given the third.
pub open spec fn completed_angles(angles: Seq<bool>) -> Seq<bool> {
    if count_known(angles) == 2 {
        seq![true, true, true]
    } else {
        angles
    }
}

/// The method for given known sides and known angles.
pub open spec fn plan_of(sides: Seq<bool>, angles: Seq<bool>) -> Plan {
    let a = completed_angles(angles);
    if count_known(sides) == 3 {
        Plan::GivenSides
    } else if count_known(sides) == 2 && count_known(a) >= 1 {
        let m = first_index_of(sides, false);
        if a[m] {
            Plan::IncludedAngle { missing: m as usize }
        } else {
            Plan::Ambiguous
        }
    } else if count_known(sides) == 1 && count_known(a) == 3 {
        Plan::SineRatio { known: first_index_of(sides, true) as usize }
    } else {
        Plan::Insufficient
    }
}

fn count(k: &[bool; 3]) -> (r: usize)
    ensures
        r == count_known(k@),
{
    let mut n: usize = 0;
    if k[0] {
        n = n + 1;
    }
    if k[1] {
        n = n + 1;
    }
    if k[2] {
        n = n + 1;
    }
    n
}

fn first_index(k: &[bool; 3], b: bool) -> (r: usize)
    ensures
        r == first_index_of(k@, b),
{
    if k[0] == b {
        0
    } else if k[1] == b {
        1
    } else {
        2
    }
}

/// The index of the angle that is the remainder of a half turn after the two
/// known ones; `None` unless exactly two angles are known.
pub fn missing_angle(angles: &[bool; 3]) -> (r: Option<usize>)
    ensures
        r matches Some(i) ==> i < 3 && !angles@[i as int],
        r == (match angle_to_complete(angles@) {
            Some(i) => Some(i as usize),
            None => None::<usize>,
        }),
{
    if count(angles) == 2 {
        Some(first_index(angles, false))
    } else {
        None
    }
}

/// Chooses how the three sides are obtained from the known sides and angles.
///
/// Two known angles count as three, the third being completed first. With
/// three sides the angles are ignored; with two sides the known angle must be
/// the one between them; with one side all three angles are needed.
pub fn plan(sides: &[bool; 3], angles: &[bool; 3]) -> (r: Plan)
    ensures
        r == plan_of(sides@, angles@),
        r matches Plan::IncludedAngle { missing } ==> missing < 3 && !sides@[missing as int]
            && completed_angles(angles@)[missing as int],
        r matches Plan::SineRatio { known } ==> known < 3 && sides@[known as int],
{
    let s = count(sides);
    let mut a = count(angles);
    let mut completed = *angles;
    if a == 2 {
        completed = [true, true, true];
        a = 3;
    }
    assert(completed@ == completed_angles(angles@));
    if s == 3 {
        Plan::GivenSides
    } else if s == 2 && a >= 1 {
        let m = first_index(sides, false);
        if completed[m] {
            Plan::IncludedAngle { missing: m }
        } else {
            Plan::Ambiguous
        }
    } else if s == 1 && a == 3 {
        Plan::SineRatio { known: first_index(sides, true) }
    } else {
        Plan::Insufficient
    }
}

} // verus!
