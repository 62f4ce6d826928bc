use vstd::prelude::*;
use crate::error::BasuError;

verus! {

/// The aggregate outcome of a sequence of handler outcomes: success when
/// every outcome succeeded, otherwise the first failure in order.
pub open spec fn first_failure_spec(s: Seq<Result<(), BasuError>>) -> Result<(), BasuError>
    decreases s.len(),
{
    if s.len() == 0 {
        Ok(())
    } else if s[0] is Err {
        s[0]
    } else {
        first_failure_spec(s.drop_first())
    }
}

/// A publish call never suppresses a handler failure: when the outcomes
/// before position `i` all succeeded and the outcome at `i` failed, the
/// aggregate outcome is exactly the failure at `i`.
pub proof fn lemma_first_failure_is_first_error(s: Seq<Result<(), BasuError>>, i: int)
    requires
        0 <= i < s.len(),
        s[i] is Err,
        forall|j: int| 0 <= j < i ==> s[j] is Ok,
    ensures
        first_failure_spec(s) == s[i],
    decreases i,
{
    if i > 0 {
        assert(forall|j: int| 0 <= j < s.len() - 1 ==> #[trigger] s.drop_first()[j] == s[j + 1]);
        lemma_first_failure_is_first_error(s.drop_first(), i - 1);
    }
}

/// When every outcome succeeded, the aggregate outcome is success.
pub proof fn lemma_first_failure_all_ok(s: Seq<Result<(), BasuError>>)
    requires
        forall|j: int| 0 <= j < s.len() ==> s[j] is Ok,
    ensures
        first_failure_spec(s) == Ok::<(), BasuError>(()),
    decreases s.len(),
{
    if s.len() > 0 {
        assert(forall|j: int| 0 <= j < s.len() - 1 ==> #[trigger] s.drop_first()[j] == s[j + 1]);
        lemma_first_failure_all_ok(s.drop_first());
    }
}

/// Fold a vector of handler outcomes into the publish outcome: success when
/// all succeeded, otherwise the first failure in order.
pub fn first_failure(results: Vec<Result<(), BasuError>>) -> (r: Result<(), BasuError>)
    ensures
        r == first_failure_spec(results@),
{
    let mut remaining = results;
    while remaining.len() > 0
        invariant
            first_failure_spec(results@) == first_failure_spec(remaining@),
        decreases remaining@.len(),
    {
        let ghost before = remaining@;
        let head = remaining.remove(0);
        proof {
            assert(before.remove(0) =~= before.drop_first());
        }
        match head {
            Err(e) => {
                return Err(e);
            },
            Ok(unit) => {},
        }
    }
    Ok(())
}

} // verus!
