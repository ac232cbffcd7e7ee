//! The fair-share factor from `sshare`.
use vstd::prelude::*;

use crate::config::{env_prefix, opt_str_view, slurm_env_prefix};
use crate::text::{chars_of, lines, lines_of, string_of, trim, trimmed};

verus! {

broadcast use vstd::string::group_string_axioms;

pub open spec fn sshare_command(user: Seq<char>, conf: Option<Seq<char>>) -> Seq<char> {
    "bash -lc '"@ + env_prefix(conf) + "sshare -U -u "@ + user
        + " --noheader --parsable2 --format=FairShare'"@
}

pub fn build_command(user: &str, slurm_conf: Option<&str>) -> (r: String)
    ensures
        r@ == sshare_command(user@, opt_str_view(slurm_conf)),
{
    let env = slurm_env_prefix(slurm_conf);
    let mut r = String::from_str("bash -lc '");
    r.append(env.as_str());
    r.append("sshare -U -u ");
    r.append(user);
    r.append(" --noheader --parsable2 --format=FairShare'");
    r
}

/// The trimmed first line, when there is one and it is not blank.
pub open spec fn fair_share(output: Seq<char>) -> Option<Seq<char>> {
    if lines(output).len() > 0 && trim(lines(output)[0]).len() > 0 {
        Some(trim(lines(output)[0]))
    } else {
        None
    }
}

pub fn parse(output: &str) -> (r: Option<String>)
    ensures
        match r {
            Some(s) => fair_share(output@) == Some(s@),
            None => fair_share(output@) is None,
        },
{
    let cs = chars_of(output);
    let ls = lines_of(&cs);
    if ls.len() == 0 {
        return None;
    }
    let t = trimmed(&ls[0]);
    if t.len() == 0 {
        None
    } else {
        Some(string_of(&t))
    }
}

} // verus!
