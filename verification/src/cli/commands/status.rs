//! `status`: the branch of each component that a commit touches.
use vstd::prelude::*;
use crate::config::types::Config;
use crate::domain::matcher::groups_view;
use crate::domain::text::{copy_strings, strings_view};
use crate::git::atomize::{branch_display, component_ref_name, spec_branch_display};

verus! {

/// A component whose branch is to be inspected: its files, the full ref name of its
/// branch and the branch as shown.
#[derive(Debug)]
pub struct StatusTarget {
    pub component: String,
    pub files: Vec<String>,
    pub ref_name: String,
    pub branch: String,
}

/// The targets of a status report, one per group of files, in order.
pub fn targets(config: &Config, grouped: &Vec<(String, Vec<String>)>) -> (r: Vec<StatusTarget>)
    ensures
        r@.len() == grouped@.len(),
        forall|i: int|
            0 <= i < r@.len() ==> {
                let g = groups_view(grouped@)[i];
                &&& (#[trigger] r@[i]).component@ == g.0
                &&& strings_view(r@[i].files@) == g.1
                &&& r@[i].ref_name@ == component_ref_name(config@, g.0)
                &&& r@[i].branch@ == spec_branch_display(component_ref_name(config@, g.0))
            },
{
    let mut r: Vec<StatusTarget> = Vec::new();
    let mut i: usize = 0;
    while i < grouped.len()
        invariant
            i <= grouped@.len(),
            r@.len() == i,
            forall|k: int|
                0 <= k < i ==> {
                    let g = groups_view(grouped@)[k];
                    &&& (#[trigger] r@[k]).component@ == g.0
                    &&& strings_view(r@[k].files@) == g.1
                    &&& r@[k].ref_name@ == component_ref_name(config@, g.0)
                    &&& r@[k].branch@ == spec_branch_display(component_ref_name(config@, g.0))
                },
        decreases grouped@.len() - i,
    {
        let name = &grouped[i].0;
        let plan = crate::git::atomize::plan_component(config, name, &grouped[i].1, "");
        let t = StatusTarget {
            component: name.clone(),
            files: copy_strings(&grouped[i].1),
            ref_name: plan.ref_name.clone(),
            branch: branch_display(plan.ref_name.as_str()),
        };
        r.push(t);
        i = i + 1;
    }
    r
}

} // verus!
