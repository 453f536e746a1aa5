use vstd::prelude::*;

verus! {

/// Operation sequence number. Supplied by the caller, monotonically
/// increasing; each segment records the largest one it has applied.
pub type SeqNum = u64;

/// Opaque identifier of a point, unique within a collection.
pub type PointId = u64;

/// One element of a point's vector.
pub type VectorElem = i32;

/// A score produced by scoring one stored vector against a query.
/// Wide enough to hold any dot product or squared distance of vectors
/// whose dimension is at most `MAX_DIM`.
pub type Score = i128;

/// Collection-wide bound on the dimension of a stored vector.
pub const MAX_DIM: usize = 65536;

/// The metric a collection is configured with. For a similarity metric
/// a higher score is better; for a distance metric a lower score is better.
#[derive(Clone, Copy, PartialEq, Eq, Structural, Debug)]
pub enum Distance {
    /// Dot product: similarity, higher is better.
    Dot,
    /// Squared euclidean distance: lower is better.
    Euclid,
}

impl Distance {
    /// True iff under this metric score `a` is strictly better than `b`.
    pub open spec fn spec_better(self, a: Score, b: Score) -> bool {
        match self {
            Distance::Dot => a > b,
            Distance::Euclid => a < b,
        }
    }

    /// Decides whether score `a` is strictly better than score `b`.
    pub fn better(self, a: Score, b: Score) -> (r: bool)
        ensures
            r == self.spec_better(a, b),
    {
        match self {
            Distance::Dot => a > b,
            Distance::Euclid => a < b,
        }
    }
}

/// One search hit: a point and the score its segment produced for it.
#[derive(Clone, Copy, PartialEq, Eq, Structural, Debug)]
pub struct ScoredPoint {
    pub idx: PointId,
    pub score: Score,
}

/// A typed payload value stored under a payload key.
#[derive(Debug)]
pub enum PayloadValue {
    Keyword(String),
    Integer(i64),
}

/// Mathematical value of a `PayloadValue`.
pub enum PayloadValV {
    Keyword(Seq<char>),
    Integer(int),
}

impl View for PayloadValue {
    type V = PayloadValV;

    open spec fn view(&self) -> PayloadValV {
        match self {
            PayloadValue::Keyword(s) => PayloadValV::Keyword(s@),
            PayloadValue::Integer(i) => PayloadValV::Integer(*i as int),
        }
    }
}

impl PayloadValue {
    /// Returns a value with the same mathematical content.
    pub fn duplicate(&self) -> (r: PayloadValue)
        ensures
            r@ == self@,
    {
        match self {
            PayloadValue::Keyword(s) => PayloadValue::Keyword(s.clone()),
            PayloadValue::Integer(i) => PayloadValue::Integer(*i),
        }
    }

    /// Decides equality of the mathematical content of two values.
    pub fn matches(&self, other: &PayloadValue) -> (r: bool)
        ensures
            r == (self@ == other@),
    {
        match (self, other) {
            (PayloadValue::Keyword(a), PayloadValue::Keyword(b)) => a.eq(b),
            (PayloadValue::Integer(a), PayloadValue::Integer(b)) => a == b,
            _ => false,
        }
    }
}

/// A search filter: only points whose payload holds `value` under `key` match.
#[derive(Debug)]
pub struct Filter {
    pub key: String,
    pub value: PayloadValue,
}

/// Mathematical value of a `Filter`.
pub struct FilterV {
    pub key: Seq<char>,
    pub value: PayloadValV,
}

impl View for Filter {
    type V = FilterV;

    open spec fn view(&self) -> FilterV {
        FilterV { key: self.key@, value: self.value@ }
    }
}

/// Extra search parameters, passed through to segments unchanged.
#[derive(Clone, Copy, Debug)]
pub struct SearchParams {}

/// Materialized view of one point, as returned by `retrieve`.
#[derive(Debug)]
pub struct Record {
    pub id: PointId,
    pub payload: Option<Vec<(String, PayloadValue)>>,
    pub vector: Option<Vec<VectorElem>>,
}

/// An error returned by an update operation.
#[derive(Debug)]
pub enum UpdateError {
    /// A payload operation named a point that no segment holds.
    NotFound { missed_point_id: PointId },
    /// An internal invariant was violated, e.g. no segment exists.
    ServiceError { error: String },
}

/// A point operation, tagged at `update` with a sequence number.
#[derive(Debug)]
pub enum PointOperation {
    /// Update the vectors of the named points; insert points that no
    /// segment holds yet. `ids` and `vectors` are pairwise aligned.
    Upsert { ids: Vec<PointId>, vectors: Vec<Vec<VectorElem>> },
    /// Delete the named points from every segment that holds them.
    Delete { ids: Vec<PointId> },
}

/// A payload operation, tagged at `update` with a sequence number.
#[derive(Debug)]
pub enum PayloadOperation {
    /// Store every pair of `payload` on each of `points`.
    SetPayload { payload: Vec<(String, PayloadValue)>, points: Vec<PointId> },
    /// Remove the named keys from each of `points`.
    DeletePayload { keys: Vec<String>, points: Vec<PointId> },
    /// Remove the whole payload of each of `points`.
    ClearPayload { points: Vec<PointId> },
    /// Remove the payload of every point of every segment.
    WipePayload,
}

/// Pairwise distinct elements.
pub open spec fn distinct_seq(s: Seq<PointId>) -> bool {
    forall|i: int, j: int| 0 <= i < j < s.len() ==> s[i] != s[j]
}

/// Whether a list of point ids holds `id`.
pub fn vec_contains_id(v: &Vec<PointId>, id: PointId) -> (r: bool)
    ensures
        r == v@.contains(id),
{
    let mut j: usize = 0;
    while j < v.len()
        invariant
            j <= v.len(),
            forall|k: int| 0 <= k < j ==> v@[k] != id,
        decreases v.len() - j,
    {
        if v[j] == id {
            return true;
        }
        j += 1;
    }
    false
}

/// A collection-level update operation.
#[derive(Debug)]
pub enum CollectionUpdateOperations {
    PointOperation(PointOperation),
    PayloadOperation(PayloadOperation),
}

} // verus!
