//! What a run learns from tasks it awaited in parallel: the first failure,
//! or the first status that is not zero together with what they exported.
use vstd::prelude::*;

use crate::error::CjError;
use crate::runner::Event;
use crate::vars::VarMap;

verus! {

/// How one awaited task ended: its status and the values it exported, or
/// the message of its failure.
pub open spec fn outcome_views(v: Seq<Result<(i32, VarMap), Vec<char>>>) -> Seq<
    Result<(i32, Map<Seq<char>, Seq<char>>), Seq<char>>,
> {
    v.map_values(
        |r: Result<(i32, VarMap), Vec<char>>|
            match r {
                Ok((s, x)) => Ok((s, x@)),
                Err(m) => Err(m@),
            },
    )
}

/// The awaited tasks taken in order: the first failure wins; else the
/// status is the first that is not zero (zero if there is none) and the
/// exports are merged, a later task's value winning.
pub open spec fn awaited_fold(rs: Seq<Result<(i32, Map<Seq<char>, Seq<char>>), Seq<char>>>) -> Result<
    (i32, Map<Seq<char>, Seq<char>>),
    Seq<char>,
>
    decreases rs.len(),
{
    if rs.len() == 0 {
        Ok((0i32, Map::empty()))
    } else {
        match awaited_fold(rs.drop_last()) {
            Err(m) => Err(m),
            Ok((c, e)) => match rs.last() {
                Err(m) => Err(m),
                Ok((s, x)) => Ok((if c == 0 { s } else { c }, e.union_prefer_right(x))),
            },
        }
    }
}

/// The event that answers an `@await`, from how each awaited task ended, in
/// the order the tasks were named.
pub fn awaited_event(results: &Vec<Result<(i32, VarMap), Vec<char>>>) -> (r: Event)
    requires
        forall|i: int| 0 <= i < results@.len() ==> (#[trigger] results@[i] matches Ok((_, x)) ==> x.wf()),
    ensures
        match awaited_fold(outcome_views(results@)) {
            Ok((c, m)) => r matches Event::Awaited(s, v) && s == c && v.wf() && v@ == m,
            Err(m) => r matches Event::Failed(e) && e@ == m,
        },
{
    let ghost rv = outcome_views(results@);
    let mut code: i32 = 0;
    let mut exported = VarMap::new();
    let mut k: usize = 0;
    assert(rv.take(0) =~= seq![]);
    while k < results.len()
        invariant
            k <= results.len(),
            rv == outcome_views(results@),
            forall|i: int| 0 <= i < results@.len() ==> (#[trigger] results@[i] matches Ok((_, x)) ==> x.wf()),
            exported.wf(),
            awaited_fold(rv.take(k as int)) == Ok::<(i32, Map<Seq<char>, Seq<char>>), Seq<char>>((code, exported@)),
        decreases results.len() - k,
    {
        assert(rv.take(k + 1).drop_last() =~= rv.take(k as int));
        assert(rv.take(k + 1).last() == rv[k as int]);
        match &results[k] {
            Err(m) => {
                let r = Event::Failed(CjError::new(m));
                proof {
                    lemma_failure_stays(rv, k as int + 1);
                }
                return r;
            },
            Ok((status, changes)) => {
                if code == 0 {
                    code = *status;
                }
                exported.extend_from(changes);
            },
        }
        k = k + 1;
    }
    assert(rv.take(results.len() as int) =~= rv);
    Event::Awaited(code, exported)
}

/// Once a failure is met, later tasks do not change the answer.
proof fn lemma_failure_stays(rs: Seq<Result<(i32, Map<Seq<char>, Seq<char>>), Seq<char>>>, n: int)
    requires
        0 < n <= rs.len(),
        awaited_fold(rs.take(n)) is Err,
    ensures
        awaited_fold(rs) == awaited_fold(rs.take(n)),
    decreases rs.len() - n,
{
    if n < rs.len() {
        assert(rs.take(n + 1).drop_last() =~= rs.take(n));
        lemma_failure_stays(rs, n + 1);
    } else {
        assert(rs.take(n) =~= rs);
    }
}

} // verus!
