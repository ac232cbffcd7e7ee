//! Locating a job's log files through `scontrol` and tailing them.
use vstd::prelude::*;

use crate::config::{env_prefix, opt_str_view, slurm_env_prefix};
use crate::text::{
    chars_of, decimal, has_prefix, push_chars, push_decimal, slice_copy, starts_with, string_of,
    trim_end, words, words_of,
};

verus! {

broadcast use vstd::string::group_string_axioms;

pub open spec fn scontrol_command(job_id: Seq<char>, conf: Option<Seq<char>>) -> Seq<char> {
    "bash -lc '"@ + env_prefix(conf) + "scontrol show job "@ + job_id + "'"@
}

/// `scontrol show job <id>`, whose output names the job's log paths.
pub fn build_stdout_path_command(job_id: &str, slurm_conf: Option<&str>) -> (r: String)
    ensures
        r@ == scontrol_command(job_id@, opt_str_view(slurm_conf)),
{
    let env = slurm_env_prefix(slurm_conf);
    let mut r = String::from_str("bash -lc '");
    r.append(env.as_str());
    r.append("scontrol show job ");
    r.append(job_id);
    r.append("'");
    r
}

/// The rest of the first whitespace-separated token of `output` that starts
/// with `prefix`, if any.
pub open spec fn value_after(output: Seq<char>, prefix: Seq<char>) -> Option<Seq<char>> {
    let w = words(output);
    if exists|k: int| 0 <= k < w.len() && has_prefix(#[trigger] w[k], prefix) {
        let k = choose|k: int|
            0 <= k < w.len() && has_prefix(#[trigger] w[k], prefix) && forall|j: int|
                0 <= j < k ==> !has_prefix(#[trigger] w[j], prefix);
        Some(w[k].skip(prefix.len() as int))
    } else {
        None
    }
}

fn parse_path(output: &str, prefix: &str) -> (r: Option<String>)
    ensures
        match r {
            Some(s) => value_after(output@, prefix@) == Some(s@),
            None => value_after(output@, prefix@) is None,
        },
{
    let cs = chars_of(output);
    let p = chars_of(prefix);
    let w = words_of(&cs);
    let ghost ws = words(output@);
    let mut i: usize = 0;
    while i < w.len()
        invariant
            i <= w@.len(),
            w@.len() == ws.len(),
            ws == words(output@),
            p@ == prefix@,
            forall|k: int| 0 <= k < w@.len() ==> (#[trigger] w@[k])@ == ws[k],
            forall|j: int| 0 <= j < i ==> !has_prefix(#[trigger] ws[j], prefix@),
        decreases w.len() - i,
    {
        if starts_with(&w[i], &p) {
            let rest = slice_copy(&w[i], p.len(), w[i].len());
            proof {
                let k = i as int;
                assert(0 <= k < ws.len() && has_prefix(ws[k], prefix@));
                let c = choose|k: int|
                    0 <= k < ws.len() && has_prefix(#[trigger] ws[k], prefix@) && forall|j: int|
                        0 <= j < k ==> !has_prefix(#[trigger] ws[j], prefix@);
                assert(c == k) by {
                    if c < k {
                        assert(!has_prefix(ws[c], prefix@));
                    }
                    if k < c {
                        assert(!has_prefix(ws[k], prefix@));
                    }
                }
                assert(rest@ =~= ws[k].skip(prefix@.len() as int));
            }
            return Some(string_of(&rest));
        }
        i = i + 1;
    }
    None
}

/// The `StdOut=` path of `scontrol show job` output.
pub fn parse_stdout_path(output: &str) -> (r: Option<String>)
    ensures
        match r {
            Some(s) => value_after(output@, "StdOut="@) == Some(s@),
            None => value_after(output@, "StdOut="@) is None,
        },
{
    parse_path(output, "StdOut=")
}

/// The `StdErr=` path of `scontrol show job` output.
pub fn parse_stderr_path(output: &str) -> (r: Option<String>)
    ensures
        match r {
            Some(s) => value_after(output@, "StdErr="@) == Some(s@),
            None => value_after(output@, "StdErr="@) is None,
        },
{
    parse_path(output, "StdErr=")
}

pub open spec fn tail_command(path: Seq<char>, lines: nat) -> Seq<char> {
    "bash -lc 'tail -n "@ + decimal(lines) + " \""@ + path + "\"'"@
}

/// `tail -n <lines> "<path>"` through a login shell.
pub fn build_tail_command(path: &str, lines: u32) -> (r: String)
    ensures
        r@ == tail_command(path@, lines as nat),
{
    let mut r = String::from_str("bash -lc 'tail -n ");
    push_decimal(&mut r, lines as u64);
    r.append(" \"");
    r.append(path);
    r.append("\"'");
    r
}

/// The log path that `tail_log` asks for: `StdErr=` for the stream
/// `"stderr"`, `StdOut=` for any other, with the message shown when the
/// path cannot be found.
pub open spec fn log_path(scontrol: Seq<char>, stream: Seq<char>) -> Result<Seq<char>, Seq<char>> {
    if stream == "stderr"@ {
        match value_after(scontrol, "StdErr="@) {
            Some(p) => Ok(p),
            None => Err("could not resolve StdErr path"@),
        }
    } else {
        match value_after(scontrol, "StdOut="@) {
            Some(p) => Ok(p),
            None => Err("could not resolve StdOut path"@),
        }
    }
}

/// Choose and resolve the log path of the requested stream.
pub fn resolve_log_path(scontrol: &str, stream: &str) -> (r: Result<String, String>)
    ensures
        match r {
            Ok(p) => log_path(scontrol@, stream@) == Ok::<Seq<char>, Seq<char>>(p@),
            Err(e) => log_path(scontrol@, stream@) == Err::<Seq<char>, Seq<char>>(e@),
        },
{
    let s = chars_of(stream);
    if crate::text::eq_str(&s, "stderr") {
        match parse_stderr_path(scontrol) {
            Some(p) => Ok(p),
            None => Err(String::from_str("could not resolve StdErr path")),
        }
    } else {
        match parse_stdout_path(scontrol) {
            Some(p) => Ok(p),
            None => Err(String::from_str("could not resolve StdOut path")),
        }
    }
}

/// The notification detail made from a stderr tail: nothing when the tail
/// is blank after trailing whitespace is dropped, else `last stderr:` and
/// the tail on the next line.
pub open spec fn tail_detail(tail: Seq<char>) -> Option<Seq<char>> {
    if trim_end(tail).len() == 0 {
        None
    } else {
        Some("last stderr:\n"@ + trim_end(tail))
    }
}

pub fn stderr_tail_detail(tail: &str) -> (r: Option<String>)
    ensures
        match r {
            Some(s) => tail_detail(tail@) == Some(s@),
            None => tail_detail(tail@) is None,
        },
{
    let cs = chars_of(tail);
    let t = crate::text::trimmed_end(&cs);
    if t.len() == 0 {
        None
    } else {
        let mut r = String::from_str("last stderr:\n");
        push_chars(&mut r, &t);
        Some(r)
    }
}

// ---------------------------------------------------------------------------
// Fetching a failed job's stderr tail
// ---------------------------------------------------------------------------

/// Where the fetch of a job's stderr tail stands.
#[derive(Debug, Clone, Copy, PartialEq, Eq)]
pub enum TailState {
    /// Nothing asked yet.
    Start,
    /// The `scontrol` query for the job's log paths was run.
    AwaitPath,
    /// The `tail` of the stderr file was run.
    AwaitTail,
    /// Finished.
    Done,
}

/// The next outside work of the fetch: run a command, or finish with the
/// notification detail, if any.
#[derive(Debug, Clone, PartialEq, Eq)]
pub enum TailAction {
    Run(String),
    Finish(Option<String>),
}

pub enum TailActionView {
    Run(Seq<char>),
    Finish(Option<Seq<char>>),
}

impl View for TailAction {
    type V = TailActionView;

    open spec fn view(&self) -> TailActionView {
        match self {
            TailAction::Run(c) => TailActionView::Run(c@),
            TailAction::Finish(d) => TailActionView::Finish(
                match d {
                    Some(s) => Some(s@),
                    None => None,
                },
            ),
        }
    }
}

/// One step of the fetch, given the answer to the last command (`None`
/// when it failed or there was none). With no tail lines wanted, nothing is
/// run. Otherwise `scontrol show job` gives the `StdErr=` path, then `tail`
/// gives the last lines, which become the detail (see [`tail_detail`]). A
/// failed command, or output without a stderr path, finishes with no
/// detail.
pub open spec fn tail_next(
    state: TailState,
    answer: Option<Seq<char>>,
    job_id: Seq<char>,
    conf: Option<Seq<char>>,
    lines: nat,
) -> (TailState, TailActionView) {
    match state {
        TailState::Start => if lines == 0 {
            (TailState::Done, TailActionView::Finish(None))
        } else {
            (TailState::AwaitPath, TailActionView::Run(scontrol_command(job_id, conf)))
        },
        TailState::AwaitPath => match answer {
            Some(out) => match value_after(out, "StdErr="@) {
                Some(path) => (TailState::AwaitTail, TailActionView::Run(tail_command(path, lines))),
                None => (TailState::Done, TailActionView::Finish(None)),
            },
            None => (TailState::Done, TailActionView::Finish(None)),
        },
        TailState::AwaitTail => match answer {
            Some(t) => (TailState::Done, TailActionView::Finish(tail_detail(t))),
            None => (TailState::Done, TailActionView::Finish(None)),
        },
        TailState::Done => (TailState::Done, TailActionView::Finish(None)),
    }
}

/// [`tail_next`].
pub fn tail_step(
    state: TailState,
    answer: Option<&str>,
    job_id: &str,
    conf: Option<&str>,
    lines: u32,
) -> (r: (TailState, TailAction))
    ensures
        (r.0, r.1@) == tail_next(state, opt_str_view(answer), job_id@, opt_str_view(conf), lines as nat),
{
    match state {
        TailState::Start => if lines == 0 {
            (TailState::Done, TailAction::Finish(None))
        } else {
            (TailState::AwaitPath, TailAction::Run(build_stdout_path_command(job_id, conf)))
        },
        TailState::AwaitPath => match answer {
            Some(out) => match parse_stderr_path(out) {
                Some(path) => (TailState::AwaitTail, TailAction::Run(build_tail_command(path.as_str(), lines))),
                None => (TailState::Done, TailAction::Finish(None)),
            },
            None => (TailState::Done, TailAction::Finish(None)),
        },
        TailState::AwaitTail => match answer {
            Some(t) => (TailState::Done, TailAction::Finish(stderr_tail_detail(t))),
            None => (TailState::Done, TailAction::Finish(None)),
        },
        TailState::Done => (TailState::Done, TailAction::Finish(None)),
    }
}

/// The fetch runs at most two commands: whatever the answers, its third
/// step from the start finishes.
pub proof fn law_tail_fetch_ends(
    a1: Option<Seq<char>>,
    a2: Option<Seq<char>>,
    a3: Option<Seq<char>>,
    job_id: Seq<char>,
    conf: Option<Seq<char>>,
    lines: nat,
)
    ensures
        ({
            let s1 = tail_next(TailState::Start, a1, job_id, conf, lines);
            let s2 = tail_next(s1.0, a2, job_id, conf, lines);
            let s3 = tail_next(s2.0, a3, job_id, conf, lines);
            &&& s3.0 == TailState::Done
            &&& s3.1 is Finish
        }),
{
}

} // verus!
