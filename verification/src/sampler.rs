//! Drawing coordinates along one axis, without replacement.

use rand::StdRng;
use vstd::prelude::*;

use crate::ratio::SampleRatio;

verus! {

/// `rand::StdRng`, the generator that the sampler draws from. Nothing is
/// known here of its state.
#[verifier::external_type_specification]
#[verifier::external_body]
pub struct ExStdRng(rand::StdRng);

/// The points lie in `[0, dimension)` and none occurs twice.
pub open spec fn is_coordinate_set(points: Seq<u32>, dimension: nat) -> bool {
    &&& forall|i: int| 0 <= i < points.len() ==> points[i] < dimension
    &&& forall|i: int, j: int| 0 <= i < j < points.len() ==> points[i] != points[j]
}

/// The coordinates `0, 1, .., dimension - 1` in rising order.
pub open spec fn every_coordinate(dimension: nat) -> Seq<u32> {
    Seq::new(dimension, |i: int| i as u32)
}

/// Distinct coordinates along one axis of length `dimension`, in the order
/// in which a traversal visits them.
#[derive(Debug)]
pub struct CoordinateSet {
    dimension: u32,
    points: Vec<u32>,
}

impl View for CoordinateSet {
    type V = Seq<u32>;

    closed spec fn view(&self) -> Seq<u32> {
        self.points@
    }
}

/// `rand::sample` over the range `0..dimension`, taken on trust: it keeps a
/// reservoir of `amount` elements of the range. As the range has at least
/// `amount` elements the reservoir is filled, and each element of the range
/// enters it at most once, so the result holds `amount` different
/// coordinates below `dimension`. Which ones, and in which order, depends on
/// the generator, and nothing is claimed of it.
#[allow(deprecated)]
#[verifier::external_body]
fn draw_distinct(rng: &mut StdRng, dimension: u32, amount: usize) -> (drawn: Vec<u32>)
    requires
        amount <= dimension,
    ensures
        drawn@.len() == amount,
        is_coordinate_set(drawn@, dimension as nat),
{
    rand::sample(rng, 0..dimension, amount)
}

impl CoordinateSet {
    /// The coordinates lie on the axis and none occurs twice.
    #[verifier::type_invariant]
    pub open spec fn wf(self) -> bool {
        &&& is_coordinate_set(self@, self.spec_dimension())
        &&& self.spec_dimension() <= u32::MAX
    }

    /// The length of the axis that the coordinates are drawn from.
    pub closed spec fn spec_dimension(self) -> nat {
        self.dimension as nat
    }

    /// Draws `floor(dimension * ratio / 100)` coordinates of an axis, without
    /// replacement. A ratio at or below 0 draws nothing; one at or above 100
    /// draws the whole axis.
    pub fn sample(rng: &mut StdRng, dimension: u32, ratio: SampleRatio) -> (set: CoordinateSet)
        ensures
            set.wf(),
            set.spec_dimension() == dimension,
            set@.len() == ratio.spec_sample_count(dimension as nat),
    {
        let amount: u32 = ratio.sample_count(dimension);
        let points = draw_distinct(rng, dimension, amount as usize);
        CoordinateSet { dimension, points }
    }

    /// Every coordinate of the axis, in rising order.
    pub fn full(dimension: u32) -> (set: CoordinateSet)
        ensures
            set.wf(),
            set.spec_dimension() == dimension,
            set@ == every_coordinate(dimension as nat),
    {
        let mut points: Vec<u32> = Vec::new();
        let mut next: u32 = 0;
        while next < dimension
            invariant
                next <= dimension,
                points@ == every_coordinate(next as nat),
            decreases dimension - next,
        {
            points.push(next);
            next = next + 1;
        }
        CoordinateSet { dimension, points }
    }

    /// Takes the given coordinates as they stand. `None` when one of them
    /// lies outside `[0, dimension)` or occurs twice.
    pub fn from_points(dimension: u32, points: Vec<u32>) -> (set: Option<CoordinateSet>)
        ensures
            set is Some <==> is_coordinate_set(points@, dimension as nat),
            set matches Some(s) ==> s.wf() && s.spec_dimension() == dimension && s@ == points@,
    {
        let count: usize = points.len();
        let mut seen: Vec<bool> = vec![false; dimension as usize];
        let mut i: usize = 0;
        while i < count
            invariant
                i <= count,
                count == points@.len(),
                seen@.len() == dimension,
                is_coordinate_set(points@.take(i as int), dimension as nat),
                forall|v: int|
                    0 <= v < dimension ==> (#[trigger] seen@[v] <==> exists|k: int|
                        0 <= k < i && #[trigger] points@[k] == v),
            decreases count - i,
        {
            let point: u32 = points[i];
            if point >= dimension {
                return None;
            }
            if seen[point as usize] {
                proof {
                    let k = choose|k: int| 0 <= k < i && #[trigger] points@[k] == point;
                    assert(points@[k] == points@[i as int]);
                }
                return None;
            }
            seen[point as usize] = true;
            proof {
                let before = points@.take(i as int);
                let after = points@.take(i + 1);
                assert forall|a: int, b: int| 0 <= a < b < after.len() implies after[a]
                    != after[b] by {
                    if b < i {
                        assert(before[a] != before[b]);
                    }
                }
                assert forall|a: int| 0 <= a < after.len() implies after[a] < dimension by {
                    if a < i {
                        assert(before[a] < dimension);
                    }
                }
            }
            i = i + 1;
        }
        assert(points@.take(count as int) == points@);
        Some(CoordinateSet { dimension, points })
    }

    pub fn dimension(&self) -> (d: u32)
        ensures
            d == self.spec_dimension(),
    {
        self.dimension
    }

    /// How many coordinates the set holds.
    pub fn len(&self) -> (n: usize)
        ensures
            n == self@.len(),
    {
        self.points.len()
    }

    pub fn is_empty(&self) -> (empty: bool)
        ensures
            empty <==> self@.len() == 0,
    {
        self.points.len() == 0
    }

    /// The coordinates in traversal order.
    pub fn points(&self) -> (points: &Vec<u32>)
        ensures
            points@ == self@,
    {
        &self.points
    }
}

/// An axis cannot yield more distinct coordinates than it has.
pub proof fn lemma_coordinate_set_fits(points: Seq<u32>, dimension: nat)
    requires
        is_coordinate_set(points, dimension),
    ensures
        points.len() <= dimension,
{
    let values = points.map_values(|v: u32| v as int);
    assert(values.no_duplicates());
    values.unique_seq_to_set();
    vstd::set_lib::lemma_int_range(0, dimension as int);
    let axis = vstd::set_lib::set_int_range(0, dimension as int);
    assert forall|v: int| values.to_set().contains(v) implies axis.contains(v) by {
        let i = choose|i: int| 0 <= i < values.len() && values[i] == v;
        assert(values[i] == points[i]);
    }
    vstd::set_lib::lemma_len_subset(values.to_set(), axis);
}

} // verus!
