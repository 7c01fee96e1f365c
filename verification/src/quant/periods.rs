//! Looking up a period of a per-period aggregation by its label.
use crate::text::str_equal;
use vstd::prelude::*;
use vstd::string::*;

verus! {

/// Position `i` holds the first label equal to `period`.
pub open spec fn first_match(labels: Seq<String>, period: Seq<char>, i: int) -> bool {
    &&& 0 <= i < labels.len()
    &&& labels[i]@ == period
    &&& forall|k: int| 0 <= k < i ==> (#[trigger] labels[k])@ != period
}

/// No label equals `period`.
pub open spec fn no_match(labels: Seq<String>, period: Seq<char>) -> bool {
    forall|k: int| 0 <= k < labels.len() ==> (#[trigger] labels[k])@ != period
}

/// What a lookup by label means: a miss is no label equal to the period,
/// the last one included; a hit is a position holding the period with no
/// earlier position holding it, and there is at most one such position.
pub proof fn lemma_period_lookup(labels: Seq<String>, period: Seq<char>)
    ensures
        no_match(labels, period) <==> (forall|k: int|
            0 <= k < labels.len() ==> (#[trigger] labels[k])@ != period),
        forall|i: int|
            #[trigger] first_match(labels, period, i) ==> 0 <= i < labels.len() && labels[i]@
                == period && forall|k: int| 0 <= k < i ==> (#[trigger] labels[k])@ != period,
        forall|i: int, j: int|
            #[trigger] first_match(labels, period, i) && #[trigger] first_match(labels, period, j)
                ==> i == j,
        !no_match(labels, period) <==> exists|i: int| #[trigger] first_match(labels, period, i),
{
    assert forall|i: int, j: int|
        #[trigger] first_match(labels, period, i) && #[trigger] first_match(labels, period, j)
        implies i == j by {
        if i < j {
            assert(labels[i]@ != period);
        }
        if j < i {
            assert(labels[j]@ != period);
        }
    }
    if !no_match(labels, period) {
        let k = choose|k: int| 0 <= k < labels.len() && (#[trigger] labels[k])@ == period;
        let i = lemma_first_position(labels, period, k);
        assert(first_match(labels, period, i));
    }
}

/// Below a position holding the period, the first position holding it.
proof fn lemma_first_position(labels: Seq<String>, period: Seq<char>, k: int) -> (i: int)
    requires
        0 <= k < labels.len(),
        labels[k]@ == period,
    ensures
        first_match(labels, period, i),
    decreases k,
{
    if exists|j: int| 0 <= j < k && (#[trigger] labels[j])@ == period {
        let j = choose|j: int| 0 <= j < k && (#[trigger] labels[j])@ == period;
        lemma_first_position(labels, period, j)
    } else {
        k
    }
}

/// The position of the first period labelled `period`, or `None` when no
/// period has that label.
pub fn find_period(labels: &Vec<String>, period: &str) -> (r: Option<usize>)
    ensures
        match r {
            Some(i) => first_match(labels@, period@, i as int),
            None => no_match(labels@, period@),
        },
        r is None <==> forall|k: int| 0 <= k < labels.len() ==> (#[trigger] labels@[k])@ != period@,
        r matches Some(i) ==> i < labels.len() && labels@[i as int]@ == period@ && forall|k: int|
            0 <= k < i ==> (#[trigger] labels@[k])@ != period@,
{
    let mut i: usize = 0;
    while i < labels.len()
        invariant
            i <= labels.len(),
            forall|k: int| 0 <= k < i ==> (#[trigger] labels@[k])@ != period@,
        decreases labels.len() - i,
    {
        if str_equal(labels[i].as_str(), period) {
            return Some(i);
        }
        i = i + 1;
    }
    None
}

/// Whether some period is labelled `period`.
pub fn contains_period(labels: &Vec<String>, period: &str) -> (r: bool)
    ensures
        r == !no_match(labels@, period@),
        r == exists|k: int| 0 <= k < labels.len() && (#[trigger] labels@[k])@ == period@,
{
    match find_period(labels, period) {
        Some(_) => true,
        None => false,
    }
}

/// No period has the label that was asked for.
#[derive(Debug, Clone, PartialEq, Eq)]
pub struct NoFlowsInPeriod {
    /// The label that was asked for.
    pub period: String,
}

impl NoFlowsInPeriod {
    /// The message the error is reported with: `no flows in period '<label>'`.
    pub fn message(&self) -> (r: String)
        ensures
            r@ == "no flows in period '"@ + self.period@ + "'"@,
    {
        let mut out = String::from_str("no flows in period '");
        out.append(self.period.as_str());
        out.append("'");
        out
    }
}

/// The position of the first period labelled `period`, or `NoFlowsInPeriod`
/// carrying the label when no period has it (as indexing by label does).
pub fn period_index(labels: &Vec<String>, period: &str) -> (r: Result<usize, NoFlowsInPeriod>)
    ensures
        match r {
            Ok(i) => first_match(labels@, period@, i as int),
            Err(e) => no_match(labels@, period@) && e.period@ == period@,
        },
        r is Err <==> forall|k: int| 0 <= k < labels.len() ==> (#[trigger] labels@[k])@ != period@,
        r matches Ok(i) ==> i < labels.len() && labels@[i as int]@ == period@ && forall|k: int|
            0 <= k < i ==> (#[trigger] labels@[k])@ != period@,
{
    match find_period(labels, period) {
        Some(i) => Ok(i),
        None => Err(NoFlowsInPeriod { period: String::from_str(period) }),
    }
}

} // verus!
