//! The `squeue` query and the parser of its output.
use vstd::prelude::*;

use crate::config::{env_prefix, opt_str_view, slurm_env_prefix};
use crate::text::{
    chars_of, keep_some, lemma_keep_some_step, lines, lines_of, split, split_chars, string_of,
    trim, trimmed,
};

verus! {

broadcast use vstd::string::group_string_axioms;

/// One job as `squeue` reports it.
#[derive(Debug, Clone, PartialEq, Eq)]
pub struct JobStatus {
    pub id: String,
    pub name: String,
    pub state: String,
    pub time: String,
    pub time_limit: String,
    pub nodes: String,
    pub reason: String,
    pub partition: String,
    pub est_start: String,
    pub cluster: String,
}

/// The fields of a [`JobStatus`] as character sequences.
pub struct JobView {
    pub id: Seq<char>,
    pub name: Seq<char>,
    pub state: Seq<char>,
    pub time: Seq<char>,
    pub time_limit: Seq<char>,
    pub nodes: Seq<char>,
    pub reason: Seq<char>,
    pub partition: Seq<char>,
    pub est_start: Seq<char>,
    pub cluster: Seq<char>,
}

impl View for JobStatus {
    type V = JobView;

    open spec fn view(&self) -> JobView {
        JobView {
            id: self.id@,
            name: self.name@,
            state: self.state@,
            time: self.time@,
            time_limit: self.time_limit@,
            nodes: self.nodes@,
            reason: self.reason@,
            partition: self.partition@,
            est_start: self.est_start@,
            cluster: self.cluster@,
        }
    }
}

impl JobStatus {
    /// A field-by-field copy.
    pub fn duplicate(&self) -> (r: Self)
        ensures
            r == *self,
    {
        JobStatus {
            id: self.id.clone(),
            name: self.name.clone(),
            state: self.state.clone(),
            time: self.time.clone(),
            time_limit: self.time_limit.clone(),
            nodes: self.nodes.clone(),
            reason: self.reason.clone(),
            partition: self.partition.clone(),
            est_start: self.est_start.clone(),
            cluster: self.cluster.clone(),
        }
    }
}

/// The views of a list of jobs.
pub open spec fn jobs_view(v: Seq<JobStatus>) -> Seq<JobView> {
    v.map_values(|j: JobStatus| j@)
}

/// The `--format` string of the squeue query.
pub open spec fn squeue_format() -> Seq<char> {
    "%i|%j|%T|%M|%l|%D|%R|%P|%S"@
}

/// The squeue query for `user`, run through a login shell.
pub open spec fn squeue_command(user: Seq<char>, conf: Option<Seq<char>>) -> Seq<char> {
    "bash -lc '"@ + env_prefix(conf) + "squeue -u "@ + user + " --noheader --format=\""@
        + squeue_format() + "\"'"@
}

/// Run through a login shell so profile/module-load setup that puts
/// `squeue` on PATH actually runs; the `|` separators of `--format` are
/// quoted so the shell does not read them as pipes.
pub fn build_squeue_command(user: &str, slurm_conf: Option<&str>) -> (r: String)
    ensures
        r@ == squeue_command(user@, opt_str_view(slurm_conf)),
{
    let env = slurm_env_prefix(slurm_conf);
    let mut r = String::from_str("bash -lc '");
    r.append(env.as_str());
    r.append("squeue -u ");
    r.append(user);
    r.append(" --noheader --format=\"");
    r.append("%i|%j|%T|%M|%l|%D|%R|%P|%S");
    r.append("\"'");
    r
}

/// A squeue line with exactly nine `|`-separated fields, each trimmed.
pub open spec fn job_of_line(line: Seq<char>, cluster: Seq<char>) -> Option<JobView> {
    let f = split(line, '|');
    if f.len() == 9 {
        Some(
            JobView {
                id: trim(f[0]),
                name: trim(f[1]),
                state: trim(f[2]),
                time: trim(f[3]),
                time_limit: trim(f[4]),
                nodes: trim(f[5]),
                reason: trim(f[6]),
                partition: trim(f[7]),
                est_start: trim(f[8]),
                cluster: cluster,
            },
        )
    } else {
        None
    }
}

/// The jobs of a whole squeue output: one per well-formed line, in order;
/// other lines are skipped.
pub open spec fn squeue_jobs(output: Seq<char>, cluster: Seq<char>) -> Seq<JobView> {
    keep_some(lines(output).map_values(|l: Seq<char>| job_of_line(l, cluster)))
}

fn job_from_line(line: &[char], cluster: &str) -> (r: Option<JobStatus>)
    ensures
        match r {
            Some(j) => job_of_line(line@, cluster@) == Some(j@),
            None => job_of_line(line@, cluster@) is None,
        },
{
    let f = split_chars(line, '|');
    if f.len() != 9 {
        return None;
    }
    let job = JobStatus {
        id: string_of(&trimmed(&f[0])),
        name: string_of(&trimmed(&f[1])),
        state: string_of(&trimmed(&f[2])),
        time: string_of(&trimmed(&f[3])),
        time_limit: string_of(&trimmed(&f[4])),
        nodes: string_of(&trimmed(&f[5])),
        reason: string_of(&trimmed(&f[6])),
        partition: string_of(&trimmed(&f[7])),
        est_start: string_of(&trimmed(&f[8])),
        cluster: String::from_str(cluster),
    };
    Some(job)
}

/// Parse `squeue --noheader` output in the format of
/// [`build_squeue_command`]. Lines without exactly nine fields are skipped.
pub fn parse_squeue_output(output: &str, cluster: &str) -> (r: Vec<JobStatus>)
    ensures
        jobs_view(r@) == squeue_jobs(output@, cluster@),
{
    let cs = chars_of(output);
    let ls = lines_of(&cs);
    let ghost opts = lines(output@).map_values(|l: Seq<char>| job_of_line(l, cluster@));
    let mut out: Vec<JobStatus> = Vec::new();
    let mut i: usize = 0;
    while i < ls.len()
        invariant
            i <= ls@.len(),
            ls@.len() == lines(output@).len(),
            forall|k: int| 0 <= k < ls@.len() ==> (#[trigger] ls@[k])@ == lines(output@)[k],
            opts == lines(output@).map_values(|l: Seq<char>| job_of_line(l, cluster@)),
            jobs_view(out@) == keep_some(opts.take(i as int)),
        decreases ls.len() - i,
    {
        proof {
            lemma_keep_some_step(opts, i as int);
        }
        match job_from_line(&ls[i], cluster) {
            Some(j) => {
                out.push(j);
                assert(jobs_view(out@) =~= keep_some(opts.take(i as int)).push(j@));
            },
            None => {},
        }
        i = i + 1;
    }
    assert(opts.take(ls.len() as int) =~= opts);
    out
}

} // verus!
