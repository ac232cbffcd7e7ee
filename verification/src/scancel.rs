//! The `scancel` command.
use vstd::prelude::*;

use crate::config::{env_prefix, opt_str_view, slurm_env_prefix};

verus! {

broadcast use vstd::string::group_string_axioms;

pub open spec fn scancel_command(job_id: Seq<char>, conf: Option<Seq<char>>) -> Seq<char> {
    "bash -lc '"@ + env_prefix(conf) + "scancel "@ + job_id + "'"@
}

/// Cancel one job, through a login shell.
pub fn build_scancel_command(job_id: &str, slurm_conf: Option<&str>) -> (r: String)
    ensures
        r@ == scancel_command(job_id@, opt_str_view(slurm_conf)),
{
    let env = slurm_env_prefix(slurm_conf);
    let mut r = String::from_str("bash -lc '");
    r.append(env.as_str());
    r.append("scancel ");
    r.append(job_id);
    r.append("'");
    r
}

} // verus!
