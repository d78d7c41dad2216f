//! What is promised of the passes of an evaluation: what each of them is made with.

use vstd::prelude::*;

use crate::eval::measure;
use crate::eval::measure::{Asked, Links, Stage};
use crate::laws::basics;

verus! {

/// A pass that is planned: at each budget what ships, and at the smallest the thresholds that are
/// swept, what ships without one thing or another, the other judge where it is asked for, and each
/// wording; but for the sweep, all at the threshold that is asked for.
pub proof fn every_pass_changes_one_thing(asked: Asked, i: int)
    requires
        asked.budgets.len() > 0,
        0 <= i < asked.planned().len(),
    ensures
        asked.planned().len() == asked.budgets.len() + 10 + if asked.relative {
            3int
        } else {
            0
        } + asked.wordings,
        ({
            let pass = asked.planned()[i];
            let context = pass.policy.context;
            &&& !(pass.stage is Budget) ==> pass.budget == asked.budgets@[0]
            &&& !(pass.stage is Sweep) ==> pass.threshold == asked.threshold
            &&& !(pass.stage is Relative) ==> pass.policy.links == Links::Noul && pass.policy.keep.k
                == 3
            &&& !(pass.stage is Wording) ==> pass.policy.wording is None
            &&& pass.stage is Budget || pass.stage is Sweep || pass.stage is Wording
                ==> context.previews && context.frontmatter && context.headings && context.leads
                && context.two_hop
            &&& pass.stage matches Stage::Budget(at) ==> at == i && pass.budget
                == asked.budgets@[at as int]
            &&& pass.stage matches Stage::Preview(at) ==> {
                &&& context.headings && context.leads && context.two_hop
                &&& at == 1 && context.previews && !context.frontmatter || at == 2
                    && !context.previews && context.frontmatter
            }
            &&& pass.stage matches Stage::Context(at) ==> {
                &&& 1 <= at <= 4 && context.previews && context.frontmatter
                &&& context.headings == (at != 1 && at != 4)
                &&& context.leads == (at != 2 && at != 4)
                &&& context.two_hop == (at != 3 && at != 4)
            }
            &&& pass.stage matches Stage::Relative(at) ==> {
                &&& asked.relative && 1 <= at <= 3 && pass.policy.links == Links::Choice
                &&& context.previews == (at != 1)
                &&& context.frontmatter && context.headings && context.leads && context.two_hop
                &&& pass.policy.keep.k == if at == 3 {
                    1int
                } else {
                    3
                }
            }
            &&& pass.stage matches Stage::Wording(at) ==> at < asked.wordings && pass.policy.wording
                == Some(at)
        }),
{
    let n = asked.budgets.len() as int;
    let (a, b) = (asked.at_budgets(), asked.swept());
    let (c, d) = (asked.previewed(), asked.ablated());
    let (e, f) = (asked.related(), asked.reworded());
    let all = asked.planned();
    if i < n {
        assert(all[i] == a[i]);
    } else if i < n + 4 {
        assert(all[i] == b[i - n]);
    } else if i < n + 6 {
        assert(all[i] == c[i - n - 4]);
    } else if i < n + 10 {
        assert(all[i] == d[i - n - 6]);
    } else if i < n + 10 + e.len() {
        assert(all[i] == e[i - n - 10]);
    } else {
        assert(all[i] == f[i - n - 10 - e.len()]);
    }
}

/// A request is refused where it asks for no budget or for a budget of nothing, or for a threshold
/// that is not between nothing and one.
pub proof fn a_request_is_refused_for_what_it_asks(budgets: Seq<usize>, threshold: u64)
    requires
        threshold <= 0x7ff0_0000_0000_0000,
    ensures
        measure::asked_fault(budgets, threshold) is None == (budgets.len() > 0 && (forall|i: int|
            0 <= i < budgets.len() ==> #[trigger] budgets[i] > 0) && threshold
            <= 0x3ff0_0000_0000_0000),
{
    basics::ordinary_doubles_are_in_the_order_of_their_bits(threshold, 0);
    basics::ordinary_doubles_are_in_the_order_of_their_bits(measure::ONE, threshold);
    if exists|i: int| 0 <= i < budgets.len() && !(#[trigger] budgets[i] > 0) {
        let i = choose|i: int| 0 <= i < budgets.len() && !(#[trigger] budgets[i] > 0);
        assert(budgets[i] == 0);
        assert(budgets.contains(0));
    }
}

} // verus!
