//! Per-job efficiency (CPU, walltime and memory use) from `sacct`.
use vstd::prelude::*;

use crate::config::{env_prefix, opt_str_view, slurm_env_prefix};
use crate::number::{bytes_of, duration_secs, human_bytes, parse_slurm_duration};
pub use crate::number::{format_bytes, parse_bytes};
use crate::sacct::{first_word, first_word_string};
use crate::text::{
    chars_of, decimal, decimal_string, first_index, first_index_exec, keep_some,
    lemma_keep_some_step, lines, lines_of, parse_unsigned, parse_unsigned_exec, slice_copy, split,
    split_chars, string_of, trim, trimmed,
};

verus! {

broadcast use vstd::string::group_string_axioms;

/// A quotient `part / whole` shown as a percentage, `100 * part / whole`;
/// `whole` is never 0.
#[derive(Debug, Clone, Copy, PartialEq, Eq)]
pub struct Share {
    pub part: u128,
    pub whole: u128,
}

/// The efficiency figures of one finished job.
#[derive(Debug, Clone, PartialEq, Eq)]
pub struct JobEfficiency {
    pub id: String,
    pub name: String,
    pub state: String,
    /// Elapsed as printed by sacct, e.g. "01:23:45".
    pub elapsed: String,
    pub alloc_cpus: String,
    /// Requested memory ("4Gn") vs peak RSS ("2.1G"), both human-readable.
    pub mem_req: String,
    pub mem_used: String,
    /// TotalCPU / (ElapsedRAW * AllocCPUS), when computable.
    pub cpu_util_pct: Option<Share>,
    /// ElapsedRAW / TimelimitRAW, when computable.
    pub walltime_pct: Option<Share>,
    /// MaxRSS bytes / requested-memory bytes, when both computable.
    pub mem_ratio_pct: Option<Share>,
}

pub struct EfficiencyView {
    pub id: Seq<char>,
    pub name: Seq<char>,
    pub state: Seq<char>,
    pub elapsed: Seq<char>,
    pub alloc_cpus: Seq<char>,
    pub mem_req: Seq<char>,
    pub mem_used: Seq<char>,
    pub cpu_util_pct: Option<(nat, nat)>,
    pub walltime_pct: Option<(nat, nat)>,
    pub mem_ratio_pct: Option<(nat, nat)>,
}

pub open spec fn share_view(s: Option<Share>) -> Option<(nat, nat)> {
    match s {
        Some(x) => Some((x.part as nat, x.whole as nat)),
        None => None,
    }
}

impl View for JobEfficiency {
    type V = EfficiencyView;

    open spec fn view(&self) -> EfficiencyView {
        EfficiencyView {
            id: self.id@,
            name: self.name@,
            state: self.state@,
            elapsed: self.elapsed@,
            alloc_cpus: self.alloc_cpus@,
            mem_req: self.mem_req@,
            mem_used: self.mem_used@,
            cpu_util_pct: share_view(self.cpu_util_pct),
            walltime_pct: share_view(self.walltime_pct),
            mem_ratio_pct: share_view(self.mem_ratio_pct),
        }
    }
}

pub open spec fn efficiencies_view(v: Seq<JobEfficiency>) -> Seq<EfficiencyView> {
    v.map_values(|e: JobEfficiency| e@)
}

/// CPU-seconds used (TotalCPU) per CPU-second reserved (ElapsedRAW times
/// AllocCPUS); nothing when either reserved factor is 0.
pub open spec fn cpu_util(elapsed_raw: nat, alloc_cpus: nat, total_cpu_secs: nat) -> Option<
    (nat, nat),
> {
    if elapsed_raw == 0 || alloc_cpus == 0 {
        None
    } else {
        Some((total_cpu_secs, elapsed_raw * alloc_cpus))
    }
}

fn compute_cpu_util(elapsed_raw: u64, alloc_cpus: u64, total_cpu_secs: u64) -> (r: Option<Share>)
    ensures
        share_view(r) == cpu_util(elapsed_raw as nat, alloc_cpus as nat, total_cpu_secs as nat),
{
    if elapsed_raw == 0 || alloc_cpus == 0 {
        return None;
    }
    proof {
        assert((elapsed_raw as nat) * (alloc_cpus as nat) <= (u64::MAX as nat) * (
        u64::MAX as nat)) by (nonlinear_arith)
            requires
                elapsed_raw <= u64::MAX,
                alloc_cpus <= u64::MAX,
        ;
    }
    Some(Share { part: total_cpu_secs as u128, whole: elapsed_raw as u128 * alloc_cpus as u128 })
}

/// ElapsedRAW per TimelimitRAW; nothing when either is 0.
pub open spec fn walltime_share(elapsed_raw: nat, timelimit_raw: nat) -> Option<(nat, nat)> {
    if elapsed_raw == 0 || timelimit_raw == 0 {
        None
    } else {
        Some((elapsed_raw, timelimit_raw))
    }
}

fn compute_walltime_pct(elapsed_raw: u64, timelimit_raw: u64) -> (r: Option<Share>)
    ensures
        share_view(r) == walltime_share(elapsed_raw as nat, timelimit_raw as nat),
{
    if elapsed_raw == 0 || timelimit_raw == 0 {
        return None;
    }
    Some(Share { part: elapsed_raw as u128, whole: timelimit_raw as u128 })
}

/// MaxRSS per requested memory, when both are known and the request is
/// not 0.
pub open spec fn mem_share(max_rss: Option<u64>, req: Option<u64>) -> Option<(nat, nat)> {
    match (max_rss, req) {
        (Some(r), Some(q)) => if q == 0 {
            None
        } else {
            Some((r as nat, q as nat))
        },
        _ => None,
    }
}

fn compute_mem_ratio(max_rss: Option<u64>, req: Option<u64>) -> (r: Option<Share>)
    ensures
        share_view(r) == mem_share(max_rss, req),
{
    match (max_rss, req) {
        (Some(r), Some(q)) => if q == 0 {
            None
        } else {
            Some(Share { part: r as u128, whole: q as u128 })
        },
        _ => None,
    }
}

pub open spec fn efficiency_command(user: Seq<char>, conf: Option<Seq<char>>) -> Seq<char> {
    "bash -lc '"@ + env_prefix(conf) + "sacct -u "@ + user
        + " --starttime now-7days --endtime now --state COMPLETED,FAILED --noheader --parsable2 --format=JobID,JobName%40,State,Elapsed,ElapsedRAW,AllocCPUS,TimelimitRAW,ReqMem,MaxRSS,TotalCPU'"@
}

/// The week's completed and failed jobs of `user`, with the fields that
/// [`parse`] reads.
pub fn build_command(user: &str, slurm_conf: Option<&str>) -> (r: String)
    ensures
        r@ == efficiency_command(user@, opt_str_view(slurm_conf)),
{
    let env = slurm_env_prefix(slurm_conf);
    let mut r = String::from_str("bash -lc '");
    r.append(env.as_str());
    r.append("sacct -u ");
    r.append(user);
    r.append(
        " --starttime now-7days --endtime now --state COMPLETED,FAILED --noheader --parsable2 --format=JobID,JobName%40,State,Elapsed,ElapsedRAW,AllocCPUS,TimelimitRAW,ReqMem,MaxRSS,TotalCPU'",
    );
    r
}

/// A ReqMem figure in bytes: with a per-cpu `c` suffix the figure applies
/// to each allocated CPU (1 when unknown), saturating at `u64::MAX`;
/// otherwise it is already the total.
pub open spec fn reqmem_bytes(s: Seq<char>, alloc_cpus: Option<u64>) -> Option<u64> {
    match bytes_of(s) {
        Some(b) => if trim(s).len() > 0 && trim(s).last() == 'c' {
            let n: nat = match alloc_cpus {
                Some(c) => c as nat,
                None => 1,
            };
            let v = b * n;
            Some(
                if v > u64::MAX {
                    u64::MAX
                } else {
                    v as u64
                },
            )
        } else {
            Some(b)
        },
        None => None,
    }
}

/// ReqMem in bytes (see [`reqmem_bytes`]).
pub fn parse_reqmem_bytes(s: &str, alloc_cpus: Option<u64>) -> (r: Option<u64>)
    ensures
        r == reqmem_bytes(s@, alloc_cpus),
{
    let bytes = match parse_bytes(s) {
        Some(b) => b,
        None => return None,
    };
    let t = trimmed(&chars_of(s));
    if t.len() > 0 && t[t.len() - 1] == 'c' {
        let n: u64 = match alloc_cpus {
            Some(c) => c,
            None => 1,
        };
        if n != 0 && bytes > u64::MAX / n {
            proof {
                assert((bytes as nat) * (n as nat) > u64::MAX) by (nonlinear_arith)
                    requires
                        n > 0,
                        bytes > u64::MAX / n,
                ;
            }
            Some(u64::MAX)
        } else {
            proof {
                assert((bytes as nat) * (n as nat) <= u64::MAX) by (nonlinear_arith)
                    requires
                        n == 0 || bytes <= u64::MAX / n,
                ;
            }
            Some(bytes * n)
        }
    } else {
        Some(bytes)
    }
}

/// One sacct line with exactly ten fields, trimmed, whose JobID and
/// JobName are not empty.
pub struct LineRec {
    pub main_id: Seq<char>,
    pub is_step: bool,
    pub name: Seq<char>,
    pub state: Seq<char>,
    pub elapsed: Seq<char>,
    pub elapsed_raw: Seq<char>,
    pub alloc_cpus: Seq<char>,
    pub timelimit_raw: Seq<char>,
    pub mem_req: Seq<char>,
    pub max_rss: Seq<char>,
    pub total_cpu: Seq<char>,
}

pub open spec fn line_rec(line: Seq<char>) -> Option<LineRec> {
    let f = split(line, '|');
    if f.len() != 10 {
        None
    } else if trim(f[0]).len() == 0 || trim(f[1]).len() == 0 {
        None
    } else {
        let id = trim(f[0]);
        let (main_id, is_step) = match first_index(id, '.') {
            Some(i) => (id.take(i), true),
            None => (id, false),
        };
        Some(
            LineRec {
                main_id,
                is_step,
                name: trim(f[1]),
                state: trim(f[2]),
                elapsed: trim(f[3]),
                elapsed_raw: trim(f[4]),
                alloc_cpus: trim(f[5]),
                timelimit_raw: trim(f[6]),
                mem_req: trim(f[7]),
                max_rss: trim(f[8]),
                total_cpu: trim(f[9]),
            },
        )
    }
}

/// What is gathered for one job id over its main line and its steps.
pub struct PartialView {
    pub name: Seq<char>,
    pub state: Seq<char>,
    pub elapsed: Seq<char>,
    pub alloc_cpus: Option<u64>,
    pub elapsed_raw: Option<u64>,
    pub timelimit_raw: Option<u64>,
    pub total_cpu_secs: Option<u64>,
    pub mem_req: Seq<char>,
    pub mem_req_bytes: Option<u64>,
    pub max_rss_bytes: Option<u64>,
}

pub open spec fn empty_partial() -> PartialView {
    PartialView {
        name: Seq::<char>::empty(),
        state: Seq::<char>::empty(),
        elapsed: Seq::<char>::empty(),
        alloc_cpus: None,
        elapsed_raw: None,
        timelimit_raw: None,
        total_cpu_secs: None,
        mem_req: Seq::<char>::empty(),
        mem_req_bytes: None,
        max_rss_bytes: None,
    }
}

/// `Option<u64>` order: `None` below every value.
pub open spec fn opt_gt(a: Option<u64>, b: Option<u64>) -> bool {
    match (a, b) {
        (Some(x), Some(y)) => x > y,
        (Some(_), None) => true,
        _ => false,
    }
}

/// The larger of the kept value and a new one.
pub open spec fn keep_larger(old: Option<u64>, new: Option<u64>) -> Option<u64> {
    if opt_gt(new, old) {
        new
    } else {
        old
    }
}

pub open spec fn read_u64(s: Seq<char>) -> Option<u64> {
    match parse_unsigned(s, u64::MAX as nat) {
        Some(v) => Some(v as u64),
        None => None,
    }
}

pub open spec fn read_duration(s: Seq<char>) -> Option<u64> {
    match duration_secs(s) {
        Some(v) => Some(v as u64),
        None => None,
    }
}

/// Fold one line into its job: MaxRSS and TotalCPU keep the largest seen
/// over all lines; only the main line (no `.step`) sets the other fields.
pub open spec fn apply_line(p: PartialView, r: LineRec) -> PartialView {
    let rss = keep_larger(p.max_rss_bytes, bytes_of(r.max_rss));
    let tcpu = keep_larger(p.total_cpu_secs, read_duration(r.total_cpu));
    if r.is_step {
        PartialView { max_rss_bytes: rss, total_cpu_secs: tcpu, ..p }
    } else {
        let alloc = read_u64(r.alloc_cpus);
        PartialView {
            name: r.name,
            state: first_word(r.state),
            elapsed: r.elapsed,
            alloc_cpus: alloc,
            elapsed_raw: read_u64(r.elapsed_raw),
            timelimit_raw: read_u64(r.timelimit_raw),
            total_cpu_secs: tcpu,
            mem_req: r.mem_req,
            mem_req_bytes: reqmem_bytes(r.mem_req, alloc),
            max_rss_bytes: rss,
        }
    }
}

/// The last index of `id` among the table's keys, or -1.
pub open spec fn key_index(tab: Seq<(Seq<char>, PartialView)>, id: Seq<char>) -> int
    decreases tab.len(),
{
    if tab.len() == 0 {
        -1
    } else if tab.last().0 == id {
        tab.len() - 1
    } else {
        key_index(tab.drop_last(), id)
    }
}

/// Add a line to the table of jobs, in order of first appearance.
pub open spec fn table_step(tab: Seq<(Seq<char>, PartialView)>, r: LineRec) -> Seq<
    (Seq<char>, PartialView),
> {
    let k = key_index(tab, r.main_id);
    if k >= 0 {
        tab.update(k, (r.main_id, apply_line(tab[k].1, r)))
    } else {
        tab.push((r.main_id, apply_line(empty_partial(), r)))
    }
}

pub open spec fn table_of(recs: Seq<LineRec>) -> Seq<(Seq<char>, PartialView)>
    decreases recs.len(),
{
    if recs.len() == 0 {
        Seq::<(Seq<char>, PartialView)>::empty()
    } else {
        table_step(table_of(recs.drop_last()), recs.last())
    }
}

/// The reported record of one job: none when its main line was never seen
/// (empty state or elapsed), `"N/A"` for unknown figures.
pub open spec fn finish(id: Seq<char>, p: PartialView) -> Option<EfficiencyView> {
    if p.state.len() == 0 || p.elapsed.len() == 0 {
        None
    } else {
        Some(
            EfficiencyView {
                id: id,
                name: p.name,
                state: p.state,
                elapsed: p.elapsed,
                alloc_cpus: match p.alloc_cpus {
                    Some(c) => decimal(c as nat),
                    None => "N/A"@,
                },
                mem_req: if p.mem_req.len() == 0 {
                    "N/A"@
                } else {
                    p.mem_req
                },
                mem_used: match p.max_rss_bytes {
                    Some(b) => human_bytes(b as nat),
                    None => "N/A"@,
                },
                cpu_util_pct: match (p.elapsed_raw, p.alloc_cpus, p.total_cpu_secs) {
                    (Some(e), Some(c), Some(t)) => cpu_util(e as nat, c as nat, t as nat),
                    _ => None,
                },
                walltime_pct: match (p.elapsed_raw, p.timelimit_raw) {
                    (Some(e), Some(l)) => walltime_share(e as nat, l as nat),
                    _ => None,
                },
                mem_ratio_pct: mem_share(p.max_rss_bytes, p.mem_req_bytes),
            },
        )
    }
}

pub open spec fn line_recs(output: Seq<char>) -> Seq<LineRec> {
    keep_some(lines(output).map_values(|l: Seq<char>| line_rec(l)))
}

/// The jobs of a whole sacct output, in order of first appearance.
pub open spec fn efficiency_rows(output: Seq<char>) -> Seq<EfficiencyView> {
    keep_some(
        table_of(line_recs(output)).map_values(
            |e: (Seq<char>, PartialView)| finish(e.0, e.1),
        ),
    )
}

struct Partial {
    name: String,
    state: String,
    elapsed: String,
    alloc_cpus: Option<u64>,
    elapsed_raw: Option<u64>,
    timelimit_raw: Option<u64>,
    total_cpu_secs: Option<u64>,
    mem_req: String,
    mem_req_bytes: Option<u64>,
    max_rss_bytes: Option<u64>,
}

impl View for Partial {
    type V = PartialView;

    closed spec fn view(&self) -> PartialView {
        PartialView {
            name: self.name@,
            state: self.state@,
            elapsed: self.elapsed@,
            alloc_cpus: self.alloc_cpus,
            elapsed_raw: self.elapsed_raw,
            timelimit_raw: self.timelimit_raw,
            total_cpu_secs: self.total_cpu_secs,
            mem_req: self.mem_req@,
            mem_req_bytes: self.mem_req_bytes,
            max_rss_bytes: self.max_rss_bytes,
        }
    }
}

fn new_partial() -> (r: Partial)
    ensures
        r@ == empty_partial(),
{
    Partial {
        name: String::new(),
        state: String::new(),
        elapsed: String::new(),
        alloc_cpus: None,
        elapsed_raw: None,
        timelimit_raw: None,
        total_cpu_secs: None,
        mem_req: String::new(),
        mem_req_bytes: None,
        max_rss_bytes: None,
    }
}

struct Line {
    main_id: Vec<char>,
    is_step: bool,
    name: Vec<char>,
    state: Vec<char>,
    elapsed: Vec<char>,
    elapsed_raw: Vec<char>,
    alloc_cpus: Vec<char>,
    timelimit_raw: Vec<char>,
    mem_req: Vec<char>,
    max_rss: Vec<char>,
    total_cpu: Vec<char>,
}

impl View for Line {
    type V = LineRec;

    closed spec fn view(&self) -> LineRec {
        LineRec {
            main_id: self.main_id@,
            is_step: self.is_step,
            name: self.name@,
            state: self.state@,
            elapsed: self.elapsed@,
            elapsed_raw: self.elapsed_raw@,
            alloc_cpus: self.alloc_cpus@,
            timelimit_raw: self.timelimit_raw@,
            mem_req: self.mem_req@,
            max_rss: self.max_rss@,
            total_cpu: self.total_cpu@,
        }
    }
}

fn read_line(line: &[char]) -> (r: Option<Line>)
    ensures
        match r {
            Some(l) => line_rec(line@) == Some(l@),
            None => line_rec(line@) is None,
        },
{
    let f = split_chars(line, '|');
    if f.len() != 10 {
        return None;
    }
    let id = trimmed(&f[0]);
    let name = trimmed(&f[1]);
    if id.len() == 0 || name.len() == 0 {
        return None;
    }
    let (main_id, is_step) = match first_index_exec(&id, '.') {
        Some(i) => {
            let m = slice_copy(&id, 0, i);
            assert(m@ =~= id@.take(i as int));
            (m, true)
        },
        None => (id, false),
    };
    Some(
        Line {
            main_id,
            is_step,
            name,
            state: trimmed(&f[2]),
            elapsed: trimmed(&f[3]),
            elapsed_raw: trimmed(&f[4]),
            alloc_cpus: trimmed(&f[5]),
            timelimit_raw: trimmed(&f[6]),
            mem_req: trimmed(&f[7]),
            max_rss: trimmed(&f[8]),
            total_cpu: trimmed(&f[9]),
        },
    )
}

fn keep_larger_exec(old: Option<u64>, new: Option<u64>) -> (r: Option<u64>)
    ensures
        r == keep_larger(old, new),
{
    let gt = match (new, old) {
        (Some(x), Some(y)) => x > y,
        (Some(_), None) => true,
        _ => false,
    };
    if gt {
        new
    } else {
        old
    }
}

fn read_u64_exec(s: &[char]) -> (r: Option<u64>)
    ensures
        r == read_u64(s@),
{
    parse_unsigned_exec(s, u64::MAX)
}

fn apply_line_exec(p: &Partial, r: &Line) -> (q: Partial)
    ensures
        q@ == apply_line(p@, r@),
{
    let rss = keep_larger_exec(p.max_rss_bytes, parse_bytes(string_of(&r.max_rss).as_str()));
    let tcpu = keep_larger_exec(
        p.total_cpu_secs,
        parse_slurm_duration(string_of(&r.total_cpu).as_str()),
    );
    if r.is_step {
        Partial {
            name: p.name.clone(),
            state: p.state.clone(),
            elapsed: p.elapsed.clone(),
            alloc_cpus: p.alloc_cpus,
            elapsed_raw: p.elapsed_raw,
            timelimit_raw: p.timelimit_raw,
            total_cpu_secs: tcpu,
            mem_req: p.mem_req.clone(),
            mem_req_bytes: p.mem_req_bytes,
            max_rss_bytes: rss,
        }
    } else {
        let alloc = read_u64_exec(&r.alloc_cpus);
        let mem_req = string_of(&r.mem_req);
        let mem_req_bytes = parse_reqmem_bytes(mem_req.as_str(), alloc);
        Partial {
            name: string_of(&r.name),
            state: first_word_string(&r.state),
            elapsed: string_of(&r.elapsed),
            alloc_cpus: alloc,
            elapsed_raw: read_u64_exec(&r.elapsed_raw),
            timelimit_raw: read_u64_exec(&r.timelimit_raw),
            total_cpu_secs: tcpu,
            mem_req,
            mem_req_bytes,
            max_rss_bytes: rss,
        }
    }
}

spec fn table_view(t: Seq<(Vec<char>, Partial)>) -> Seq<(Seq<char>, PartialView)> {
    t.map_values(|e: (Vec<char>, Partial)| (e.0@, e.1@))
}

#[verifier::rlimit(40)]
fn table_step_exec(tab: &mut Vec<(Vec<char>, Partial)>, r: &Line)
    ensures
        table_view(final(tab)@) == table_step(table_view(old(tab)@), r@),
{
    let ghost tv = table_view(tab@);
    let mut k: usize = tab.len();
    assert(tv.take(tv.len() as int) =~= tv);
    while k > 0
        invariant
            k <= tab@.len(),
            tv == table_view(tab@),
            tv == table_view(old(tab)@),
            key_index(tv, r.main_id@) == key_index(tv.take(k as int), r.main_id@),
        decreases k,
    {
        let found = crate::text::eq_chars(&tab[k - 1].0, &r.main_id);
        proof {
            assert(tv.take(k as int).drop_last() =~= tv.take(k - 1));
            assert(tv.take(k as int).last() == tv[k - 1]);
        }
        if found {
            assert(tv[k - 1].0 == r.main_id@);
            assert(key_index(tv, r.main_id@) == k - 1);
            let newp = apply_line_exec(&tab[k - 1].1, r);
            let key = crate::text::slice_copy(&r.main_id, 0, r.main_id.len());
            assert(key@ =~= r.main_id@);
            tab.set(k - 1, (key, newp));
            proof {
                assert(table_view(tab@) =~= tv.update(k - 1, (r.main_id@, apply_line(tv[k - 1].1, r@))));
            }
            return;
        }
        k = k - 1;
    }
    assert(tv.take(0) =~= Seq::<(Seq<char>, PartialView)>::empty());
    let key = crate::text::slice_copy(&r.main_id, 0, r.main_id.len());
    assert(key@ =~= r.main_id@);
    let newp = apply_line_exec(&new_partial(), r);
    tab.push((key, newp));
    assert(table_view(tab@) =~= tv.push((r.main_id@, apply_line(empty_partial(), r@))));
}

fn finish_exec(id: &[char], p: &Partial) -> (r: Option<JobEfficiency>)
    ensures
        match r {
            Some(e) => finish(id@, p@) == Some(e@),
            None => finish(id@, p@) is None,
        },
{
    if p.state.as_str().is_empty() || p.elapsed.as_str().is_empty() {
        return None;
    }
    let alloc_cpus = match p.alloc_cpus {
        Some(c) => decimal_string(c),
        None => String::from_str("N/A"),
    };
    let mem_req = if p.mem_req.as_str().is_empty() {
        String::from_str("N/A")
    } else {
        p.mem_req.clone()
    };
    let mem_used = match p.max_rss_bytes {
        Some(b) => format_bytes(b),
        None => String::from_str("N/A"),
    };
    let cpu_util_pct = match (p.elapsed_raw, p.alloc_cpus, p.total_cpu_secs) {
        (Some(e), Some(c), Some(t)) => compute_cpu_util(e, c, t),
        _ => None,
    };
    let walltime_pct = match (p.elapsed_raw, p.timelimit_raw) {
        (Some(e), Some(l)) => compute_walltime_pct(e, l),
        _ => None,
    };
    Some(
        JobEfficiency {
            id: string_of(id),
            name: p.name.clone(),
            state: p.state.clone(),
            elapsed: p.elapsed.clone(),
            alloc_cpus,
            mem_req,
            mem_used,
            cpu_util_pct,
            walltime_pct,
            mem_ratio_pct: compute_mem_ratio(p.max_rss_bytes, p.mem_req_bytes),
        },
    )
}

fn build_table(output: &str) -> (tab: Vec<(Vec<char>, Partial)>)
    ensures
        table_view(tab@) == table_of(line_recs(output@)),
{
    let cs = chars_of(output);
    let ls = lines_of(&cs);
    let ghost opts = lines(output@).map_values(|l: Seq<char>| line_rec(l));
    let mut tab: Vec<(Vec<char>, Partial)> = Vec::new();
    let mut i: usize = 0;
    assert(table_view(tab@) =~= table_of(keep_some(opts.take(0))));
    while i < ls.len()
        invariant
            i <= ls@.len(),
            ls@.len() == lines(output@).len(),
            forall|k: int| 0 <= k < ls@.len() ==> (#[trigger] ls@[k])@ == lines(output@)[k],
            opts == lines(output@).map_values(|l: Seq<char>| line_rec(l)),
            table_view(tab@) == table_of(keep_some(opts.take(i as int))),
        decreases ls.len() - i,
    {
        proof {
            lemma_keep_some_step(opts, i as int);
        }
        match read_line(&ls[i]) {
            Some(l) => {
                proof {
                    let recs = keep_some(opts.take(i as int)).push(l@);
                    assert(recs.drop_last() =~= keep_some(opts.take(i as int)));
                }
                table_step_exec(&mut tab, &l);
            },
            None => {},
        }
        i = i + 1;
    }
    assert(opts.take(ls.len() as int) =~= opts);
    tab
}

fn finish_all(tab: &Vec<(Vec<char>, Partial)>) -> (out: Vec<JobEfficiency>)
    ensures
        efficiencies_view(out@) == keep_some(
            table_view(tab@).map_values(|e: (Seq<char>, PartialView)| finish(e.0, e.1)),
        ),
{
    let ghost tv = table_view(tab@);
    let ghost fins = tv.map_values(|e: (Seq<char>, PartialView)| finish(e.0, e.1));
    let mut out: Vec<JobEfficiency> = Vec::new();
    let mut j: usize = 0;
    while j < tab.len()
        invariant
            j <= tab@.len(),
            tv == table_view(tab@),
            fins == tv.map_values(|e: (Seq<char>, PartialView)| finish(e.0, e.1)),
            efficiencies_view(out@) == keep_some(fins.take(j as int)),
        decreases tab.len() - j,
    {
        proof {
            lemma_keep_some_step(fins, j as int);
        }
        match finish_exec(&tab[j].0, &tab[j].1) {
            Some(e) => {
                out.push(e);
                assert(efficiencies_view(out@) =~= keep_some(fins.take(j as int)).push(e@));
            },
            None => {},
        }
        j = j + 1;
    }
    assert(fins.take(tab.len() as int) =~= fins);
    out
}

/// Parse `sacct --parsable2` output of [`build_command`]. Only main job
/// lines (JobID without a dot) fill the record; MaxRSS and TotalCPU are
/// reported on the `.batch`/`.extern` steps on most sites, so a step's
/// larger figure is folded into its main job.
pub fn parse(output: &str) -> (r: Vec<JobEfficiency>)
    ensures
        efficiencies_view(r@) == efficiency_rows(output@),
{
    let tab = build_table(output);
    finish_all(&tab)
}

/// A line is a job step exactly when its trimmed JobID holds a `.`; its
/// job is the JobID up to the first `.`.
pub proof fn law_step_lines_are_dotted(line: Seq<char>)
    ensures
        line_rec(line) matches Some(r) ==> (r.is_step <==> exists|i: int|
            0 <= i < trim(split(line, '|')[0]).len() && trim(split(line, '|')[0])[i] == '.'),
{
    let f = split(line, '|');
    if f.len() == 10 && trim(f[0]).len() > 0 && trim(f[1]).len() > 0 {
        let id = trim(f[0]);
        assert(line_rec(line)->0.is_step == (first_index(id, '.') is Some));
    }
}

/// Folding a job-step line into its job changes nothing but the peak
/// memory and the CPU time, and those only to the larger of the kept value
/// and the step's: the name, state, elapsed time, CPU count, raw times and
/// requested memory stay as the main line set them.
pub proof fn law_step_line_keeps_job(p: PartialView, line: Seq<char>)
    requires
        line_rec(line) matches Some(r) && r.is_step,
    ensures
        ({
            let r = line_rec(line)->0;
            let q = apply_line(p, r);
            &&& q.name == p.name
            &&& q.state == p.state
            &&& q.elapsed == p.elapsed
            &&& q.alloc_cpus == p.alloc_cpus
            &&& q.elapsed_raw == p.elapsed_raw
            &&& q.timelimit_raw == p.timelimit_raw
            &&& q.mem_req == p.mem_req
            &&& q.mem_req_bytes == p.mem_req_bytes
            &&& (q.max_rss_bytes == p.max_rss_bytes || q.max_rss_bytes == bytes_of(r.max_rss))
            &&& !opt_gt(p.max_rss_bytes, q.max_rss_bytes)
            &&& !opt_gt(bytes_of(r.max_rss), q.max_rss_bytes)
            &&& (q.total_cpu_secs == p.total_cpu_secs || q.total_cpu_secs == read_duration(
                r.total_cpu,
            ))
            &&& !opt_gt(p.total_cpu_secs, q.total_cpu_secs)
            &&& !opt_gt(read_duration(r.total_cpu), q.total_cpu_secs)
        }),
{
}

/// The main line of a job (its JobID holds no `.`) sets the job's name,
/// state (first word), elapsed time, CPU count, raw times and requested
/// memory from its own fields; peak memory and CPU time keep the larger of
/// what was gathered and its own figures.
pub proof fn law_main_line_sets_job(p: PartialView, line: Seq<char>)
    requires
        line_rec(line) matches Some(r) && !r.is_step,
    ensures
        ({
            let r = line_rec(line)->0;
            let q = apply_line(p, r);
            &&& q.name == r.name
            &&& q.state == first_word(r.state)
            &&& q.elapsed == r.elapsed
            &&& q.alloc_cpus == read_u64(r.alloc_cpus)
            &&& q.elapsed_raw == read_u64(r.elapsed_raw)
            &&& q.timelimit_raw == read_u64(r.timelimit_raw)
            &&& q.mem_req == r.mem_req
            &&& !opt_gt(p.max_rss_bytes, q.max_rss_bytes)
            &&& !opt_gt(bytes_of(r.max_rss), q.max_rss_bytes)
            &&& !opt_gt(p.total_cpu_secs, q.total_cpu_secs)
            &&& !opt_gt(read_duration(r.total_cpu), q.total_cpu_secs)
        }),
{
}

} // verus!
