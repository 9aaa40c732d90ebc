//! The space that a widget asks for in one dimension.
use vstd::prelude::*;

verus! {

/// A demand for space: at least `min`, at most `max` (no upper bound if
/// absent).
#[derive(Eq, PartialEq, Clone, Copy, Debug, Structural)]
pub struct Demand {
    pub min: u32,
    pub max: Option<u32>,
}

pub open spec fn max_u32(a: u32, b: u32) -> u32 {
    if a >= b {
        a
    } else {
        b
    }
}

/// The demand that both `a` and `b` are met by: the larger minimum, and the
/// larger maximum if both are bounded.
pub open spec fn demand_max(a: Demand, b: Demand) -> Demand {
    Demand {
        min: max_u32(a.min, b.min),
        max: match (a.max, b.max) {
            (Some(l), Some(r)) => Some(max_u32(l, r)),
            _ => None,
        },
    }
}

impl Demand {
    /// Exactly `size`.
    pub fn exact(size: u32) -> (r: Self)
        ensures
            r == (Demand { min: size, max: Some(size) }),
    {
        Demand { min: size, max: Some(size) }
    }

    /// At least `size`, without upper bound.
    pub fn at_least(size: u32) -> (r: Self)
        ensures
            r == (Demand { min: size, max: None }),
    {
        Demand { min: size, max: None }
    }

    /// Between `min` and `max`.
    pub fn from_to(min: u32, max: u32) -> (r: Self)
        requires
            min <= max,
        ensures
            r == (Demand { min, max: Some(max) }),
    {
        Demand { min, max: Some(max) }
    }

    /// The demand that both this and `other` are met by (see
    /// [`demand_max`]).
    pub fn max(self, other: Self) -> (r: Self)
        ensures
            r == demand_max(self, other),
    {
        let min = if self.min >= other.min {
            self.min
        } else {
            other.min
        };
        let max = match (self.max, other.max) {
            (Some(l), Some(r)) => Some(
                if l >= r {
                    l
                } else {
                    r
                },
            ),
            _ => None,
        };
        Demand { min, max }
    }

    /// The demand of two widgets side by side: the sums of the minima and,
    /// if both are bounded, of the maxima; `None` where a sum does not fit.
    pub fn checked_add(self, rhs: Self) -> (r: Option<Self>)
        ensures
            r is None <==> (self.min + rhs.min > u32::MAX || (self.max matches Some(l) && rhs.max
                matches Some(m) && l + m > u32::MAX)),
            r matches Some(d) ==> d.min == self.min + rhs.min && d.max == (match (self.max, rhs.max) {
                (Some(l), Some(m)) => Some((l + m) as u32),
                _ => None,
            }),
    {
        let min = self.min.checked_add(rhs.min)?;
        match (self.max, rhs.max) {
            (Some(l), Some(m)) => {
                let mx = l.checked_add(m)?;
                Some(Demand { min, max: Some(mx) })
            },
            _ => Some(Demand { min, max: None }),
        }
    }
}

/// Taking the larger demand is commutative, associative and idempotent.
pub proof fn lemma_demand_max_laws(a: Demand, b: Demand, c: Demand)
    ensures
        demand_max(a, b) == demand_max(b, a),
        demand_max(demand_max(a, b), c) == demand_max(a, demand_max(b, c)),
        demand_max(a, a) == a,
{
}

/// Something that takes space on the screen. Drawing it belongs to the
/// terminal; what is stated here is the space it asks for, in columns and
/// rows.
pub trait Widget {
    fn space_demand(&self) -> (Demand, Demand);
}

} // verus!
