//! The `sacct` lookup that resolves the final state of a job that left the
//! queue.
use vstd::prelude::*;

use crate::config::{env_prefix, opt_str_view, slurm_env_prefix};
use crate::text::{chars_of, lines, lines_of, split, split_chars, string_of, words, words_of};

verus! {

broadcast use vstd::string::group_string_axioms;

/// The final accounting record of a job.
#[derive(Debug, Clone, PartialEq, Eq)]
pub struct SacctResult {
    pub state: String,
    pub exit_code: String,
    pub elapsed: String,
    pub max_rss: String,
    pub req_mem: String,
}

pub struct SacctView {
    pub state: Seq<char>,
    pub exit_code: Seq<char>,
    pub elapsed: Seq<char>,
    pub max_rss: Seq<char>,
    pub req_mem: Seq<char>,
}

impl View for SacctResult {
    type V = SacctView;

    open spec fn view(&self) -> SacctView {
        SacctView {
            state: self.state@,
            exit_code: self.exit_code@,
            elapsed: self.elapsed@,
            max_rss: self.max_rss@,
            req_mem: self.req_mem@,
        }
    }
}

/// The first whitespace-separated word of `s`, or nothing.
pub open spec fn first_word(s: Seq<char>) -> Seq<char> {
    if words(s).len() > 0 {
        words(s)[0]
    } else {
        Seq::<char>::empty()
    }
}

pub open spec fn sacct_command(job_id: Seq<char>, conf: Option<Seq<char>>) -> Seq<char> {
    "bash -lc '"@ + env_prefix(conf) + "sacct -j "@ + job_id
        + " --noheader --parsable2 --format=State,ExitCode,Elapsed,MaxRSS,ReqMem'"@
}

/// The sacct lookup of one job, run through a login shell.
pub fn build_sacct_command(job_id: &str, slurm_conf: Option<&str>) -> (r: String)
    ensures
        r@ == sacct_command(job_id@, opt_str_view(slurm_conf)),
{
    let env = slurm_env_prefix(slurm_conf);
    let mut r = String::from_str("bash -lc '");
    r.append(env.as_str());
    r.append("sacct -j ");
    r.append(job_id);
    r.append(" --noheader --parsable2 --format=State,ExitCode,Elapsed,MaxRSS,ReqMem'");
    r
}

/// The record on the first line (the main job line) when it has at least
/// five `|`-separated fields; the state is the first word of the first field
/// (`"CANCELLED by 1001"` gives `"CANCELLED"`), the other fields are kept
/// as they are.
pub open spec fn sacct_record(output: Seq<char>) -> Option<SacctView> {
    if lines(output).len() == 0 {
        None
    } else {
        let f = split(lines(output)[0], '|');
        if f.len() < 5 {
            None
        } else {
            Some(
                SacctView {
                    state: first_word(f[0]),
                    exit_code: f[1],
                    elapsed: f[2],
                    max_rss: f[3],
                    req_mem: f[4],
                },
            )
        }
    }
}

/// The first word of `s`, or an empty string.
pub fn first_word_string(s: &[char]) -> (r: String)
    ensures
        r@ == first_word(s@),
{
    let w = words_of(s);
    if w.len() > 0 {
        string_of(&w[0])
    } else {
        String::new()
    }
}

/// Parse `sacct --parsable2` output of [`build_sacct_command`].
pub fn parse_sacct_output(output: &str) -> (r: Option<SacctResult>)
    ensures
        match r {
            Some(v) => sacct_record(output@) == Some(v@),
            None => sacct_record(output@) is None,
        },
{
    let cs = chars_of(output);
    let ls = lines_of(&cs);
    if ls.len() == 0 {
        return None;
    }
    let f = split_chars(&ls[0], '|');
    if f.len() < 5 {
        return None;
    }
    Some(
        SacctResult {
            state: first_word_string(&f[0]),
            exit_code: string_of(&f[1]),
            elapsed: string_of(&f[2]),
            max_rss: string_of(&f[3]),
            req_mem: string_of(&f[4]),
        },
    )
}

/// Only the first line of the output, the main job line, counts: two
/// outputs with the same first line give the same record, whatever job-step
/// lines (`.batch`, `.extern`) follow it.
pub proof fn law_sacct_main_line_only(a: Seq<char>, b: Seq<char>)
    requires
        lines(a).len() > 0,
        lines(b).len() > 0,
        lines(a)[0] == lines(b)[0],
    ensures
        sacct_record(a) == sacct_record(b),
{
}

/// The record is read from the fields of the first line: the state is the
/// first word of its first `|` field, then come the exit code, the elapsed
/// time, MaxRSS and ReqMem as they stand; a first line with fewer than five
/// fields gives nothing, whatever follows, and an empty output nothing.
pub proof fn law_sacct_state_from_main_line(output: Seq<char>)
    ensures
        lines(output).len() == 0 ==> sacct_record(output) is None,
        lines(output).len() > 0 ==> ({
            let f = split(lines(output)[0], '|');
            &&& f.len() < 5 ==> sacct_record(output) is None
            &&& f.len() >= 5 ==> sacct_record(output) == Some(
                SacctView {
                    state: first_word(f[0]),
                    exit_code: f[1],
                    elapsed: f[2],
                    max_rss: f[3],
                    req_mem: f[4],
                },
            )
        }),
{
}

} // verus!
