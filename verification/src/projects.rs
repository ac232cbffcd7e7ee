//! Project (account) usage and budgets: `sshare`, `sreport`, and the QOS
//! and association limits from `sacctmgr`.
use vstd::prelude::*;

use crate::config::{env_prefix, opt_str_view, slurm_env_prefix};
use crate::number::{float_text, is_float_text, number_value, read_number, show_rounded, show_rounded_exec, show_parts, show_value, show_value_exec};
use crate::text::{
    chars_of, contains, ends_with, eq_chars, eq_str, find, first_index, first_index_exec, has_suffix, keep_some,
    lemma_split_nonempty, lemma_take_last,
    lemma_keep_some_step, lines, lines_of, occurs_at, push_chars, slice_copy, split, split_chars,
    string_of, trim, trimmed,
};

verus! {

broadcast use vstd::string::group_string_axioms;

/// One user's usage within a project.
#[derive(Debug, Clone, PartialEq, Eq)]
pub struct ProjectUser {
    pub login: String,
    pub name: String,
    pub gpu_hours: String,
    pub cpu_hours: String,
    pub billing_hours: String,
}

/// Usage and budget of one project (SLURM account).
#[derive(Debug, Clone, PartialEq, Eq)]
pub struct ProjectInfo {
    pub account: String,
    pub raw_usage: String,
    /// Total GPU-hours consumed by the account, from sreport.
    pub gpu_hours: String,
    /// Allocated GPU-hours cap (QOS GrpTRESMins gres/gpu minutes / 60); "0"
    /// when no cap is known.
    pub gpu_hours_allocated: String,
    /// Per-user breakdown, from sreport.
    pub users: Vec<ProjectUser>,
    /// Raw gres/gpu TRES usage from sshare's GrpTRESRaw.
    pub gpu_usage: String,
    /// Total CPU core-hours consumed, from sreport.
    pub cpu_hours: String,
    /// Allocated CPU core-hours cap (QOS GrpTRESMins cpu minutes / 60).
    pub cpu_hours_allocated: String,
    /// Billing TRES hours consumed.
    pub billing_hours: String,
    /// Allocated billing-hours cap, summed over the `<account>` and
    /// `<account>_gpu` QOS.
    pub billing_hours_allocated: String,
}

pub struct UserView {
    pub login: Seq<char>,
    pub name: Seq<char>,
    pub gpu_hours: Seq<char>,
    pub cpu_hours: Seq<char>,
    pub billing_hours: Seq<char>,
}

pub struct ProjectView {
    pub account: Seq<char>,
    pub raw_usage: Seq<char>,
    pub gpu_hours: Seq<char>,
    pub gpu_hours_allocated: Seq<char>,
    pub users: Seq<UserView>,
    pub gpu_usage: Seq<char>,
    pub cpu_hours: Seq<char>,
    pub cpu_hours_allocated: Seq<char>,
    pub billing_hours: Seq<char>,
    pub billing_hours_allocated: Seq<char>,
}

impl View for ProjectUser {
    type V = UserView;

    open spec fn view(&self) -> UserView {
        UserView {
            login: self.login@,
            name: self.name@,
            gpu_hours: self.gpu_hours@,
            cpu_hours: self.cpu_hours@,
            billing_hours: self.billing_hours@,
        }
    }
}

pub open spec fn users_view(v: Seq<ProjectUser>) -> Seq<UserView> {
    v.map_values(|u: ProjectUser| u@)
}

impl View for ProjectInfo {
    type V = ProjectView;

    open spec fn view(&self) -> ProjectView {
        ProjectView {
            account: self.account@,
            raw_usage: self.raw_usage@,
            gpu_hours: self.gpu_hours@,
            gpu_hours_allocated: self.gpu_hours_allocated@,
            users: users_view(self.users@),
            gpu_usage: self.gpu_usage@,
            cpu_hours: self.cpu_hours@,
            cpu_hours_allocated: self.cpu_hours_allocated@,
            billing_hours: self.billing_hours@,
            billing_hours_allocated: self.billing_hours_allocated@,
        }
    }
}

pub open spec fn projects_view(v: Seq<ProjectInfo>) -> Seq<ProjectView> {
    v.map_values(|p: ProjectInfo| p@)
}

// ---------------------------------------------------------------------------
// Commands
// ---------------------------------------------------------------------------

pub open spec fn sshare_projects_command(user: Seq<char>, conf: Option<Seq<char>>) -> Seq<char> {
    "bash -lc '"@ + env_prefix(conf) + "sshare -U -u "@ + user
        + " --noheader --parsable2 --format=Account,RawUsage,EffectvUsage,GrpTRESRaw'"@
}

/// The user's accounts with raw usage and TRES usage, from sshare.
pub fn build_command(user: &str, slurm_conf: Option<&str>) -> (r: String)
    ensures
        r@ == sshare_projects_command(user@, opt_str_view(slurm_conf)),
{
    let env = slurm_env_prefix(slurm_conf);
    let mut r = String::from_str("bash -lc '");
    r.append(env.as_str());
    r.append("sshare -U -u ");
    r.append(user);
    r.append(" --noheader --parsable2 --format=Account,RawUsage,EffectvUsage,GrpTRESRaw'");
    r
}

pub open spec fn sreport_command(accounts: Seq<char>, conf: Option<Seq<char>>) -> Seq<char> {
    "bash -lc '"@ + env_prefix(conf)
        + "sreport cluster AccountUtilizationByUser Start=2024-01-01 End=now -t Hour -T cpu,gres/gpu,billing --parsable2 account="@
        + accounts + "'"@
}

/// Per-project and per-user CPU, GPU and billing hours from sreport;
/// `accounts` is a comma-separated account list.
pub fn build_sreport_command(accounts: &str, slurm_conf: Option<&str>) -> (r: String)
    ensures
        r@ == sreport_command(accounts@, opt_str_view(slurm_conf)),
{
    let env = slurm_env_prefix(slurm_conf);
    let mut r = String::from_str("bash -lc '");
    r.append(env.as_str());
    r.append(
        "sreport cluster AccountUtilizationByUser Start=2024-01-01 End=now -t Hour -T cpu,gres/gpu,billing --parsable2 account=",
    );
    r.append(accounts);
    r.append("'");
    r
}

pub open spec fn assoc_command(user: Seq<char>, conf: Option<Seq<char>>) -> Seq<char> {
    "bash -lc '"@ + env_prefix(conf) + "sacctmgr -n show assoc user="@ + user
        + " format=Account,GrpTRES --parsable2'"@
}

/// The user's associations with their GrpTRES limits, whose node limit
/// tells expired allocations apart.
pub fn build_assoc_command(user: &str, slurm_conf: Option<&str>) -> (r: String)
    ensures
        r@ == assoc_command(user@, opt_str_view(slurm_conf)),
{
    let env = slurm_env_prefix(slurm_conf);
    let mut r = String::from_str("bash -lc '");
    r.append(env.as_str());
    r.append("sacctmgr -n show assoc user=");
    r.append(user);
    r.append(" format=Account,GrpTRES --parsable2'");
    r
}

/// The items joined by commas.
pub open spec fn comma_join(items: Seq<Seq<char>>) -> Seq<char>
    decreases items.len(),
{
    if items.len() == 0 {
        Seq::<char>::empty()
    } else if items.len() == 1 {
        items[0]
    } else {
        comma_join(items.drop_last()) + ","@ + items.last()
    }
}

/// The trimmed, non-empty names of a comma-separated list.
pub open spec fn account_names(accounts: Seq<char>) -> Seq<Seq<char>> {
    keep_some(
        split(accounts, ',').map_values(
            |n: Seq<char>|
                if trim(n).len() > 0 {
                    Some(trim(n))
                } else {
                    None
                },
        ),
    )
}

/// Each account's own QOS, then each account's `_gpu` QOS.
pub open spec fn qos_names(accounts: Seq<char>) -> Seq<Seq<char>> {
    let n = account_names(accounts);
    n + n.map_values(|x: Seq<char>| x + "_gpu"@)
}

pub open spec fn qos_command(accounts: Seq<char>, conf: Option<Seq<char>>) -> Seq<char> {
    "bash -lc '"@ + env_prefix(conf) + "sacctmgr -n show qos "@ + comma_join(qos_names(accounts))
        + " format=Name,GrpTRESMins --parsable2'"@
}

/// One more item joined onto a comma-joined prefix.
proof fn lemma_join_step(items: Seq<Seq<char>>, i: int, before: Seq<char>, after: Seq<char>)
    requires
        0 <= i < items.len(),
        before == comma_join(items.take(i)),
        i == 0 ==> after == before + items[i],
        i > 0 ==> after == before + ","@ + items[i],
    ensures
        after == comma_join(items.take(i + 1)),
{
    let t = items.take(i + 1);
    assert(t.drop_last() =~= items.take(i));
    if i == 0 {
        assert(before == Seq::<char>::empty());
        assert(after =~= t[0]);
    } else {
        assert(after =~= before + ","@ + t.last());
    }
}

fn account_names_exec(accounts: &str) -> (r: Vec<Vec<char>>)
    ensures
        r@.len() == account_names(accounts@).len(),
        forall|k: int| 0 <= k < r@.len() ==> (#[trigger] r@[k])@ == account_names(accounts@)[k],
{
    let cs = chars_of(accounts);
    let parts = split_chars(&cs, ',');
    let ghost opts = split(accounts@, ',').map_values(
        |n: Seq<char>|
            if trim(n).len() > 0 {
                Some(trim(n))
            } else {
                None
            },
    );
    let mut r: Vec<Vec<char>> = Vec::new();
    let mut i: usize = 0;
    while i < parts.len()
        invariant
            i <= parts@.len(),
            parts@.len() == split(accounts@, ',').len(),
            forall|k: int|
                0 <= k < parts@.len() ==> (#[trigger] parts@[k])@ == split(accounts@, ',')[k],
            opts == split(accounts@, ',').map_values(
                |n: Seq<char>|
                    if trim(n).len() > 0 {
                        Some(trim(n))
                    } else {
                        None
                    },
            ),
            r@.len() == keep_some(opts.take(i as int)).len(),
            forall|k: int|
                0 <= k < r@.len() ==> (#[trigger] r@[k])@ == keep_some(opts.take(i as int))[k],
        decreases parts.len() - i,
    {
        proof {
            lemma_keep_some_step(opts, i as int);
        }
        let t = trimmed(&parts[i]);
        if t.len() > 0 {
            r.push(t);
        }
        i = i + 1;
    }
    assert(opts.take(parts.len() as int) =~= opts);
    r
}

/// The QOS budgets of the given accounts. On Devana a project's budget is
/// split across the `<account>` and `<account>_gpu` QOS, so both are
/// queried. `accounts` is a comma-separated list.
pub fn build_qos_command(accounts: &str, slurm_conf: Option<&str>) -> (r: String)
    ensures
        r@ == qos_command(accounts@, opt_str_view(slurm_conf)),
{
    let names = account_names_exec(accounts);
    let ghost nv = account_names(accounts@);
    let ghost all = qos_names(accounts@);
    let mut list = String::new();
    let n = names.len();
    proof {
        reveal_strlit("_gpu");
    }
    let mut i: usize = 0;
    while i < n
        invariant
            n == names@.len(),
            n == nv.len(),
            nv == account_names(accounts@),
            all == qos_names(accounts@),
            all.len() == 2 * n,
            forall|k: int| 0 <= k < n ==> (#[trigger] names@[k])@ == nv[k],
            i <= n,
            list@ == comma_join(all.take(i as int)),
        decreases n - i,
    {
        let ghost before = list@;
        if i > 0 {
            list.append(",");
        }
        push_chars(&mut list, &names[i]);
        assert(all[i as int] == nv[i as int]);
        proof {
            lemma_join_step(all, i as int, before, list@);
        }
        i = i + 1;
    }
    let mut j: usize = 0;
    while j < n
        invariant
            n == names@.len(),
            n == nv.len(),
            nv == account_names(accounts@),
            all == qos_names(accounts@),
            all.len() == 2 * n,
            forall|k: int| 0 <= k < n ==> (#[trigger] names@[k])@ == nv[k],
            j <= n,
            list@ == comma_join(all.take(n + j)),
        decreases n - j,
    {
        let ghost before = list@;
        list.append(",");
        push_chars(&mut list, &names[j]);
        list.append("_gpu");
        assert(all[n + j] == nv[j as int] + "_gpu"@);
        assert(list@ =~= before + ","@ + all[n + j]);
        proof {
            lemma_join_step(all, n + j, before, list@);
        }
        j = j + 1;
    }
    assert(all.take(n + n) =~= all);
    let env = slurm_env_prefix(slurm_conf);
    let mut r = String::from_str("bash -lc '");
    r.append(env.as_str());
    r.append("sacctmgr -n show qos ");
    r.append(list.as_str());
    r.append(" format=Name,GrpTRESMins --parsable2'");
    r
}

/// The accounts of a project list joined by commas, as the sreport and
/// QOS queries take them.
pub open spec fn accounts_list(ps: Seq<ProjectView>) -> Seq<char> {
    comma_join(ps.map_values(|p: ProjectView| p.account))
}

pub fn account_list(projects: &[ProjectInfo]) -> (r: String)
    ensures
        r@ == accounts_list(projects_view(projects@)),
{
    let ghost items = projects_view(projects@).map_values(|p: ProjectView| p.account);
    let mut r = String::new();
    let mut i: usize = 0;
    while i < projects.len()
        invariant
            i <= projects@.len(),
            items == projects_view(projects@).map_values(|p: ProjectView| p.account),
            r@ == comma_join(items.take(i as int)),
        decreases projects.len() - i,
    {
        let ghost before = r@;
        if i > 0 {
            r.append(",");
        }
        r.append(projects[i].account.as_str());
        proof {
            let t = items.take(i + 1);
            assert(t.drop_last() =~= items.take(i as int));
            assert(t.last() == projects@[i as int].account@);
            if i == 0 {
                assert(r@ =~= t[0]);
            } else {
                assert(r@ =~= before + ","@ + t.last());
            }
        }
        i = i + 1;
    }
    assert(items.take(projects.len() as int) =~= items);
    r
}

// ---------------------------------------------------------------------------
// TRES strings
// ---------------------------------------------------------------------------

/// The first `Some` of a sequence, if any.
pub open spec fn first_some<T>(xs: Seq<Option<T>>) -> Option<T>
    decreases xs.len(),
{
    if xs.len() == 0 {
        None
    } else {
        match xs[0] {
            Some(v) => Some(v),
            None => first_some(xs.drop_first()),
        }
    }
}

proof fn lemma_first_some_skip<T>(xs: Seq<Option<T>>, i: int)
    requires
        0 <= i <= xs.len(),
    ensures
        i == xs.len() ==> first_some(xs.skip(i)) is None,
        i < xs.len() ==> first_some(xs.skip(i)) == match xs[i] {
            Some(v) => Some(v),
            None => first_some(xs.skip(i + 1)),
        },
{
    if i < xs.len() {
        assert(xs.skip(i)[0] == xs[i]);
        assert(xs.skip(i).drop_first() =~= xs.skip(i + 1));
    } else {
        assert(xs.skip(i).len() == 0);
    }
}

/// One `k=v` piece of a TRES string matched against `key`: split at its
/// first `=`, the trimmed value when the trimmed name is `key`.
pub open spec fn tres_entry(part: Seq<char>, key: Seq<char>) -> Option<Seq<char>> {
    match first_index(part, '=') {
        Some(e) => if trim(part.take(e)) == key {
            Some(trim(part.skip(e + 1)))
        } else {
            None
        },
        None => None,
    }
}

/// The value of `key` in a `k1=v1,k2=v2` TRES string: that of the first
/// piece whose name is `key`.
pub open spec fn tres_value(tres: Seq<char>, key: Seq<char>) -> Option<Seq<char>> {
    first_some(split(tres, ',').map_values(|p: Seq<char>| tres_entry(p, key)))
}

/// A single TRES value by key, e.g. `node` in `cpu=8,node=0` is `0`.
pub(crate) fn extract_tres(tres: &[char], key: &str) -> (r: Option<Vec<char>>)
    ensures
        match r {
            Some(v) => tres_value(tres@, key@) == Some(v@),
            None => tres_value(tres@, key@) is None,
        },
{
    let parts = split_chars(tres, ',');
    let ghost xs = split(tres@, ',').map_values(|p: Seq<char>| tres_entry(p, key@));
    let mut i: usize = 0;
    assert(xs.skip(0) =~= xs);
    while i < parts.len()
        invariant
            i <= parts@.len(),
            parts@.len() == split(tres@, ',').len(),
            forall|k: int| 0 <= k < parts@.len() ==> (#[trigger] parts@[k])@ == split(tres@, ',')[k],
            xs == split(tres@, ',').map_values(|p: Seq<char>| tres_entry(p, key@)),
            first_some(xs) == first_some(xs.skip(i as int)),
        decreases parts.len() - i,
    {
        proof {
            lemma_first_some_skip(xs, i as int);
        }
        let part = &parts[i];
        let n = part.len();
        match first_index_exec(part, '=') {
            Some(e) => {
                let name = trimmed(&slice_copy(part, 0, e));
                assert(part@.subrange(0, e as int) =~= part@.take(e as int));
                if eq_str(&name, key) {
                    let value = trimmed(&slice_copy(part, e + 1, n));
                    assert(part@.subrange(e + 1, part@.len() as int) =~= part@.skip(e + 1));
                    return Some(value);
                }
            },
            None => {},
        }
        i = i + 1;
    }
    proof {
        lemma_first_some_skip(xs, i as int);
    }
    None
}

/// Where `p` first occurs in `s`, if anywhere (`str::find`).
pub open spec fn first_occurrence(s: Seq<char>, p: Seq<char>) -> Option<int> {
    if contains(s, p) {
        Some(choose|i: int| occurs_at(s, p, i) && forall|k: int| 0 <= k < i ==> !occurs_at(s, p, k))
    } else {
        None
    }
}

/// The GPU figure of a TRES string such as `gres/gpu=123,mem=4` or
/// `gres/gpu:a100=123`: from the first `gres/gpu`, the trimmed text after
/// the next `=` up to the next `,`; `"0"` when there is none or it is empty.
pub open spec fn gpu_value(tres: Seq<char>) -> Seq<char> {
    match first_occurrence(tres, "gres/gpu"@) {
        Some(start) => {
            let rest = tres.skip(start);
            match first_index(rest, '=') {
                Some(e) => {
                    let v = trim(split(rest.skip(e + 1), ',')[0]);
                    if v.len() > 0 {
                        v
                    } else {
                        "0"@
                    }
                },
                None => "0"@,
            }
        },
        None => "0"@,
    }
}

fn zero_chars() -> (r: Vec<char>)
    ensures
        r@ == "0"@,
{
    chars_of("0")
}

pub(crate) fn extract_gpu(tres: &[char]) -> (r: Vec<char>)
    ensures
        r@ == gpu_value(tres@),
{
    let pat = chars_of("gres/gpu");
    match find(tres, &pat) {
        Some(start) => {
            proof {
                let k = choose|i: int|
                    occurs_at(tres@, pat@, i) && forall|j: int| 0 <= j < i ==> !occurs_at(tres@, pat@, j);
                assert(contains(tres@, pat@));
                assert(k == start as int) by {
                    if k < start {
                        assert(!occurs_at(tres@, pat@, k));
                    }
                    if start < k {
                        assert(!occurs_at(tres@, pat@, start as int));
                    }
                }
            }
            let rest = slice_copy(tres, start, tres.len());
            assert(rest@ =~= tres@.skip(start as int));
            match first_index_exec(&rest, '=') {
                Some(e) => {
                    let after = slice_copy(&rest, e + 1, rest.len());
                    assert(after@ =~= rest@.skip(e + 1));
                    let pieces = split_chars(&after, ',');
                    proof {
                        lemma_split_nonempty(after@, ',');
                    }
                    let v = trimmed(&pieces[0]);
                    if v.len() > 0 {
                        v
                    } else {
                        zero_chars()
                    }
                },
                None => zero_chars(),
            }
        },
        None => zero_chars(),
    }
}

// ---------------------------------------------------------------------------
// sshare
// ---------------------------------------------------------------------------

/// A project as read from one `Account|RawUsage|EffectvUsage|GrpTRESRaw`
/// line (the last two fields may be missing); every hour figure starts at
/// `"0"`.
pub open spec fn project_of_line(line: Seq<char>) -> Option<ProjectView> {
    let f = split(line, '|');
    if f.len() < 2 || trim(f[0]).len() == 0 {
        None
    } else {
        Some(
            ProjectView {
                account: trim(f[0]),
                raw_usage: trim(f[1]),
                gpu_hours: "0"@,
                gpu_hours_allocated: "0"@,
                users: Seq::empty(),
                gpu_usage: if f.len() > 3 {
                    gpu_value(f[3])
                } else {
                    "0"@
                },
                cpu_hours: "0"@,
                cpu_hours_allocated: "0"@,
                billing_hours: "0"@,
                billing_hours_allocated: "0"@,
            },
        )
    }
}

pub open spec fn sshare_projects(output: Seq<char>) -> Seq<ProjectView> {
    keep_some(lines(output).map_values(|l: Seq<char>| project_of_line(l)))
}

fn zero_string() -> (r: String)
    ensures
        r@ == "0"@,
{
    String::from_str("0")
}

fn project_from_fields(f: &Vec<Vec<char>>) -> (r: ProjectInfo)
    requires
        f@.len() >= 2,
    ensures
        r@ == (ProjectView {
            account: trim(f@[0]@),
            raw_usage: trim(f@[1]@),
            gpu_hours: "0"@,
            gpu_hours_allocated: "0"@,
            users: Seq::empty(),
            gpu_usage: if f@.len() > 3 {
                gpu_value(f@[3]@)
            } else {
                "0"@
            },
            cpu_hours: "0"@,
            cpu_hours_allocated: "0"@,
            billing_hours: "0"@,
            billing_hours_allocated: "0"@,
        }),
{
    let gpu_usage = if f.len() > 3 {
        string_of(&extract_gpu(&f[3]))
    } else {
        zero_string()
    };
    let r = ProjectInfo {
        account: string_of(&trimmed(&f[0])),
        raw_usage: string_of(&trimmed(&f[1])),
        gpu_hours: zero_string(),
        gpu_hours_allocated: zero_string(),
        users: Vec::new(),
        gpu_usage,
        cpu_hours: zero_string(),
        cpu_hours_allocated: zero_string(),
        billing_hours: zero_string(),
        billing_hours_allocated: zero_string(),
    };
    assert(users_view(r.users@) =~= Seq::<UserView>::empty());
    r
}

/// Parse `sshare` output of [`build_command`]: one project per line with
/// at least two fields and a non-empty account.
pub fn parse(output: &str) -> (r: Vec<ProjectInfo>)
    ensures
        projects_view(r@) == sshare_projects(output@),
{
    let cs = chars_of(output);
    let ls = lines_of(&cs);
    let ghost opts = lines(output@).map_values(|l: Seq<char>| project_of_line(l));
    let mut out: Vec<ProjectInfo> = Vec::new();
    let mut i: usize = 0;
    while i < ls.len()
        invariant
            i <= ls@.len(),
            ls@.len() == lines(output@).len(),
            forall|k: int| 0 <= k < ls@.len() ==> (#[trigger] ls@[k])@ == lines(output@)[k],
            opts == lines(output@).map_values(|l: Seq<char>| project_of_line(l)),
            projects_view(out@) == keep_some(opts.take(i as int)),
        decreases ls.len() - i,
    {
        proof {
            lemma_keep_some_step(opts, i as int);
        }
        let f = split_chars(&ls[i], '|');
        if f.len() >= 2 {
            let account = trimmed(&f[0]);
            if account.len() > 0 {
                let p = project_from_fields(&f);
                out.push(p);
                assert(projects_view(out@) =~= keep_some(opts.take(i as int)).push(p@));
            }
        }
        i = i + 1;
    }
    assert(opts.take(ls.len() as int) =~= opts);
    out
}

// ---------------------------------------------------------------------------
// Expired allocations
// ---------------------------------------------------------------------------

/// The account of an `Account|GrpTRES` association line whose node limit
/// is `0`.
pub open spec fn expired_account(line: Seq<char>) -> Option<Seq<char>> {
    let f = split(line, '|');
    if f.len() >= 2 && trim(f[0]).len() > 0 && tres_value(trim(f[1]), "node"@) == Some("0"@) {
        Some(trim(f[0]))
    } else {
        None
    }
}

pub open spec fn expired_accounts(assoc_output: Seq<char>) -> Seq<Seq<char>> {
    keep_some(lines(assoc_output).map_values(|l: Seq<char>| expired_account(l)))
}

/// The projects whose account is not among `expired`, in order.
pub open spec fn active_projects(ps: Seq<ProjectView>, expired: Seq<Seq<char>>) -> Seq<ProjectView> {
    keep_some(
        ps.map_values(
            |p: ProjectView|
                if expired.contains(p.account) {
                    None
                } else {
                    Some(p)
                },
        ),
    )
}

fn expired_list(assoc_output: &str) -> (r: Vec<Vec<char>>)
    ensures
        r@.len() == expired_accounts(assoc_output@).len(),
        forall|k: int| 0 <= k < r@.len() ==> (#[trigger] r@[k])@ == expired_accounts(assoc_output@)[k],
{
    let cs = chars_of(assoc_output);
    let ls = lines_of(&cs);
    let ghost opts = lines(assoc_output@).map_values(|l: Seq<char>| expired_account(l));
    let mut out: Vec<Vec<char>> = Vec::new();
    let mut i: usize = 0;
    proof {
        reveal_strlit("0");
    }
    while i < ls.len()
        invariant
            i <= ls@.len(),
            ls@.len() == lines(assoc_output@).len(),
            forall|k: int| 0 <= k < ls@.len() ==> (#[trigger] ls@[k])@ == lines(assoc_output@)[k],
            opts == lines(assoc_output@).map_values(|l: Seq<char>| expired_account(l)),
            out@.len() == keep_some(opts.take(i as int)).len(),
            forall|k: int| 0 <= k < out@.len() ==> (#[trigger] out@[k])@ == keep_some(opts.take(i as int))[k],
        decreases ls.len() - i,
    {
        proof {
            lemma_keep_some_step(opts, i as int);
        }
        let f = split_chars(&ls[i], '|');
        if f.len() >= 2 {
            let account = trimmed(&f[0]);
            if account.len() > 0 {
                let limits = trimmed(&f[1]);
                match extract_tres(&limits, "node") {
                    Some(v) => {
                        if eq_str(&v, "0") {
                            out.push(account);
                        }
                    },
                    None => {},
                }
            }
        }
        i = i + 1;
    }
    assert(opts.take(ls.len() as int) =~= opts);
    out
}

fn listed(names: &Vec<Vec<char>>, account: &str) -> (b: bool)
    ensures
        b == exists|k: int| 0 <= k < names@.len() && (#[trigger] names@[k])@ == account@,
{
    let a = chars_of(account);
    let mut i: usize = 0;
    while i < names.len()
        invariant
            i <= names@.len(),
            a@ == account@,
            forall|k: int| 0 <= k < i ==> (#[trigger] names@[k])@ != account@,
        decreases names.len() - i,
    {
        if eq_chars(&names[i], &a) {
            return true;
        }
        i = i + 1;
    }
    false
}

/// Drop the projects whose association node limit is 0: expired
/// allocations that can no longer run jobs. Accounts missing from the
/// association output, or without an explicit node limit, are kept.
pub fn filter_expired(projects: &mut Vec<ProjectInfo>, assoc_output: &str)
    ensures
        projects_view(final(projects)@) == active_projects(
            projects_view(old(projects)@),
            expired_accounts(assoc_output@),
        ),
{
    let expired = expired_list(assoc_output);
    let ghost ex = expired_accounts(assoc_output@);
    let ghost orig = projects_view(projects@);
    let ghost keep = orig.map_values(
        |p: ProjectView|
            if ex.contains(p.account) {
                None
            } else {
                Some(p)
            },
    );
    let mut i: usize = 0;
    let ghost mut j: int = 0;
    while i < projects.len()
        invariant
            expired@.len() == ex.len(),
            forall|k: int| 0 <= k < expired@.len() ==> (#[trigger] expired@[k])@ == ex[k],
            keep == orig.map_values(
                |p: ProjectView|
                    if ex.contains(p.account) {
                        None
                    } else {
                        Some(p)
                    },
            ),
            0 <= j <= orig.len(),
            i == keep_some(keep.take(j)).len(),
            projects_view(projects@) == keep_some(keep.take(j)) + orig.skip(j),
        decreases projects@.len() - i,
    {
        proof {
            lemma_keep_some_step(keep, j);
            assert(projects_view(projects@)[i as int] == orig[j]);
        }
        let hit = listed(&expired, projects[i].account.as_str());
        proof {
            if hit {
                let k = choose|k: int| 0 <= k < expired@.len() && (#[trigger] expired@[k])@ == projects@[i as int].account@;
                assert(ex[k] == orig[j].account);
            } else if ex.contains(orig[j].account) {
                let k = choose|k: int| 0 <= k < ex.len() && ex[k] == orig[j].account;
                assert(expired@[k]@ == ex[k]);
            }
        }
        let ghost before = projects@;
        if hit {
            projects.remove(i);
            proof {
                assert(keep[j] is None);
                assert(projects_view(projects@) =~= projects_view(before).remove(i as int));
                assert(orig.skip(j).remove(0) =~= orig.skip(j + 1));
                assert((keep_some(keep.take(j)) + orig.skip(j)).remove(i as int)
                    =~= keep_some(keep.take(j)) + orig.skip(j + 1));
            }
            assert(projects_view(projects@) =~= keep_some(keep.take(j + 1)) + orig.skip(j + 1));
        } else {
            i = i + 1;
            assert(projects_view(projects@) =~= keep_some(keep.take(j + 1)) + orig.skip(j + 1));
        }
        proof {
            j = j + 1;
        }
    }
    assert(keep.take(j) =~= keep);
    assert(projects_view(projects@) =~= keep_some(keep));
}

// ---------------------------------------------------------------------------
// sreport
// ---------------------------------------------------------------------------

/// One usable `Cluster|Account|Login|Proper Name|TRES Name|Used` row.
pub struct SreportRow {
    pub account: Seq<char>,
    pub login: Seq<char>,
    pub name: Seq<char>,
    pub tres: Seq<char>,
    pub used: Seq<char>,
}

/// A row with exactly six fields, a non-empty account and a `Used` figure
/// that reads as a float; header lines fail the last test.
pub open spec fn sreport_row(line: Seq<char>) -> Option<SreportRow> {
    let f = split(line, '|');
    if f.len() == 6 && trim(f[1]).len() > 0 && float_text(trim(f[5])) {
        Some(
            SreportRow {
                account: trim(f[1]),
                login: trim(f[2]),
                name: trim(f[3]),
                tres: trim(f[4]),
                used: trim(f[5]),
            },
        )
    } else {
        None
    }
}

/// The project's total for a TRES set to `used`: `cpu`, `billing`, or
/// else GPU hours.
pub open spec fn with_total(p: ProjectView, tres: Seq<char>, used: Seq<char>) -> ProjectView {
    if tres == "cpu"@ {
        ProjectView { cpu_hours: used, ..p }
    } else if tres == "billing"@ {
        ProjectView { billing_hours: used, ..p }
    } else {
        ProjectView { gpu_hours: used, ..p }
    }
}

/// A user's figure for a TRES set to `used`.
pub open spec fn with_user_hours(u: UserView, tres: Seq<char>, used: Seq<char>) -> UserView {
    if tres == "cpu"@ {
        UserView { cpu_hours: used, ..u }
    } else if tres == "billing"@ {
        UserView { billing_hours: used, ..u }
    } else {
        UserView { gpu_hours: used, ..u }
    }
}

/// A user first seen in a row: its figure for the row's TRES, `"0"` for
/// the others.
pub open spec fn new_user(r: SreportRow) -> UserView {
    with_user_hours(
        UserView {
            login: r.login,
            name: r.name,
            gpu_hours: "0"@,
            cpu_hours: "0"@,
            billing_hours: "0"@,
        },
        r.tres,
        r.used,
    )
}

/// The first user with this login, if any.
pub open spec fn user_position(us: Seq<UserView>, login: Seq<char>) -> Option<int> {
    if exists|k: int| 0 <= k < us.len() && us[k].login == login {
        Some(
            choose|k: int|
                0 <= k < us.len() && us[k].login == login && forall|j: int|
                    0 <= j < k ==> us[j].login != login,
        )
    } else {
        None
    }
}

/// The first project with this account, if any.
pub open spec fn project_position(ps: Seq<ProjectView>, account: Seq<char>) -> Option<int> {
    if exists|k: int| 0 <= k < ps.len() && ps[k].account == account {
        Some(
            choose|k: int|
                0 <= k < ps.len() && ps[k].account == account && forall|j: int|
                    0 <= j < k ==> ps[j].account != account,
        )
    } else {
        None
    }
}

/// A row applied to its project: an empty login sets the project's total,
/// another updates that user, who is added when not yet listed.
pub open spec fn apply_row(p: ProjectView, r: SreportRow) -> ProjectView {
    if r.login.len() == 0 {
        with_total(p, r.tres, r.used)
    } else {
        match user_position(p.users, r.login) {
            Some(k) => ProjectView {
                users: p.users.update(k, with_user_hours(p.users[k], r.tres, r.used)),
                ..p
            },
            None => ProjectView { users: p.users.push(new_user(r)), ..p },
        }
    }
}

/// One line of sreport output applied to the projects; rows of unknown
/// accounts and unusable lines change nothing.
#[verifier::opaque]
pub open spec fn sreport_step(ps: Seq<ProjectView>, line: Seq<char>) -> Seq<ProjectView> {
    match sreport_row(line) {
        Some(r) => match project_position(ps, r.account) {
            Some(i) => ps.update(i, apply_row(ps[i], r)),
            None => ps,
        },
        None => ps,
    }
}

pub open spec fn sreport_fold(ps: Seq<ProjectView>, ls: Seq<Seq<char>>) -> Seq<ProjectView>
    decreases ls.len(),
{
    if ls.len() == 0 {
        ps
    } else {
        sreport_step(sreport_fold(ps, ls.drop_last()), ls.last())
    }
}

/// A user's figure of one kind: 0 for GPU, 1 for CPU, 2 for billing hours.
pub open spec fn user_hours(u: UserView, kind: int) -> Seq<char> {
    if kind == 1 {
        u.cpu_hours
    } else if kind == 2 {
        u.billing_hours
    } else {
        u.gpu_hours
    }
}

/// The sum, times `10^18`, of the users' figures of one kind that read as
/// numbers.
pub open spec fn hours_sum(us: Seq<UserView>, kind: int) -> int
    decreases us.len(),
{
    if us.len() == 0 {
        0
    } else {
        hours_sum(us.drop_last(), kind) + match number_value(user_hours(us.last(), kind)) {
            Some(v) => v,
            None => 0,
        }
    }
}

/// A total still at `"0"` falls back to the sum of the users' figures.
pub open spec fn fallback(total: Seq<char>, us: Seq<UserView>, kind: int) -> Seq<char> {
    if total == "0"@ && us.len() > 0 {
        show_value(hours_sum(us, kind))
    } else {
        total
    }
}

/// The three totals after the per-user fallback.
pub open spec fn with_fallback_totals(p: ProjectView) -> ProjectView {
    ProjectView {
        gpu_hours: fallback(p.gpu_hours, p.users, 0),
        cpu_hours: fallback(p.cpu_hours, p.users, 1),
        billing_hours: fallback(p.billing_hours, p.users, 2),
        ..p
    }
}

/// The projects after merging sreport output.
pub open spec fn merged_sreport(ps: Seq<ProjectView>, output: Seq<char>) -> Seq<ProjectView> {
    sreport_fold(ps, lines(output)).map_values(|p: ProjectView| with_fallback_totals(p))
}

fn text_is(s: &String, lit: &str) -> (b: bool)
    ensures
        b == (s@ == lit@),
{
    eq_str(&chars_of(s.as_str()), lit)
}

fn set_total(p: &mut ProjectInfo, tres: &[char], used: &[char])
    ensures
        final(p)@ == with_total(old(p)@, tres@, used@),
{
    if eq_str(tres, "cpu") {
        p.cpu_hours = string_of(used);
    } else if eq_str(tres, "billing") {
        p.billing_hours = string_of(used);
    } else {
        p.gpu_hours = string_of(used);
    }
}

fn set_user_hours(u: &mut ProjectUser, tres: &[char], used: &[char])
    ensures
        final(u)@ == with_user_hours(old(u)@, tres@, used@),
{
    if eq_str(tres, "cpu") {
        u.cpu_hours = string_of(used);
    } else if eq_str(tres, "billing") {
        u.billing_hours = string_of(used);
    } else {
        u.gpu_hours = string_of(used);
    }
}

fn find_user(us: &Vec<ProjectUser>, login: &[char]) -> (r: Option<usize>)
    ensures
        match r {
            Some(k) => k < us@.len() && user_position(users_view(us@), login@) == Some(k as int),
            None => user_position(users_view(us@), login@) is None,
        },
{
    let ghost uv = users_view(us@);
    let mut i: usize = 0;
    while i < us.len()
        invariant
            i <= us@.len(),
            uv == users_view(us@),
            forall|j: int| 0 <= j < i ==> uv[j].login != login@,
        decreases us.len() - i,
    {
        if eq_str(login, us[i].login.as_str()) {
            proof {
                assert(uv[i as int].login == login@);
                let k = choose|k: int|
                    0 <= k < uv.len() && uv[k].login == login@ && forall|j: int|
                        0 <= j < k ==> uv[j].login != login@;
                assert(k == i as int) by {
                    if k < i {
                        assert(uv[k].login != login@);
                    }
                    if i < k {
                        assert(uv[i as int].login != login@);
                    }
                }
            }
            return Some(i);
        }
        i = i + 1;
    }
    None
}

fn find_project(ps: &Vec<ProjectInfo>, account: &[char]) -> (r: Option<usize>)
    ensures
        match r {
            Some(k) => k < ps@.len() && project_position(projects_view(ps@), account@) == Some(
                k as int,
            ),
            None => project_position(projects_view(ps@), account@) is None,
        },
{
    let ghost pv = projects_view(ps@);
    let mut i: usize = 0;
    while i < ps.len()
        invariant
            i <= ps@.len(),
            pv == projects_view(ps@),
            forall|j: int| 0 <= j < i ==> pv[j].account != account@,
        decreases ps.len() - i,
    {
        if eq_str(account, ps[i].account.as_str()) {
            proof {
                assert(pv[i as int].account == account@);
                let k = choose|k: int|
                    0 <= k < pv.len() && pv[k].account == account@ && forall|j: int|
                        0 <= j < k ==> pv[j].account != account@;
                assert(k == i as int) by {
                    if k < i {
                        assert(pv[k].account != account@);
                    }
                    if i < k {
                        assert(pv[i as int].account != account@);
                    }
                }
            }
            return Some(i);
        }
        i = i + 1;
    }
    None
}

fn apply_row_exec(
    p: &mut ProjectInfo,
    account: &[char],
    login: &[char],
    name: &[char],
    tres: &[char],
    used: &[char],
)
    ensures
        final(p)@ == apply_row(
            old(p)@,
            SreportRow { account: account@, login: login@, name: name@, tres: tres@, used: used@ },
        ),
{
    let ghost row = SreportRow {
        account: account@,
        login: login@,
        name: name@,
        tres: tres@,
        used: used@,
    };
    if login.len() == 0 {
        set_total(p, tres, used);
    } else {
        let ghost old_users = users_view(p.users@);
        match find_user(&p.users, login) {
            Some(k) => {
                set_user_hours(&mut p.users[k], tres, used);
                assert(users_view(p.users@) =~= old_users.update(
                    k as int,
                    with_user_hours(old_users[k as int], tres@, used@),
                ));
            },
            None => {
                let mut u = ProjectUser {
                    login: string_of(login),
                    name: string_of(name),
                    gpu_hours: zero_string(),
                    cpu_hours: zero_string(),
                    billing_hours: zero_string(),
                };
                set_user_hours(&mut u, tres, used);
                assert(u@ == new_user(row));
                p.users.push(u);
                assert(users_view(p.users@) =~= old_users.push(new_user(row)));
            },
        }
    }
}

/// Apply one line of sreport output to the projects.
fn apply_sreport_line(projects: &mut Vec<ProjectInfo>, line: &[char])
    ensures
        projects_view(final(projects)@) == sreport_step(projects_view(old(projects)@), line@),
{
    reveal(sreport_step);
    let f = split_chars(line, '|');
    if f.len() != 6 {
        return;
    }
    let account = trimmed(&f[1]);
    let used = trimmed(&f[5]);
    if account.len() == 0 || !is_float_text(&used) {
        return;
    }
    let login = trimmed(&f[2]);
    let name = trimmed(&f[3]);
    let tres = trimmed(&f[4]);
    let ghost before = projects_view(projects@);
    match find_project(projects, &account) {
        Some(i) => {
            apply_row_exec(&mut projects[i], &account, &login, &name, &tres, &used);
            proof {
                let row = sreport_row(line@).unwrap();
                assert(projects_view(projects@) =~= before.update(
                    i as int,
                    apply_row(before[i as int], row),
                ));
            }
        },
        None => {},
    }
}

fn user_hours_chars(u: &ProjectUser, kind: u8) -> (r: Vec<char>)
    ensures
        r@ == user_hours(u@, kind as int),
{
    if kind == 1 {
        chars_of(u.cpu_hours.as_str())
    } else if kind == 2 {
        chars_of(u.billing_hours.as_str())
    } else {
        chars_of(u.gpu_hours.as_str())
    }
}

/// `v`, times `10^18` as [`number_value`] gives it, split into whole and
/// fractional parts: `v == whole * 10^18 + frac` with `0 <= frac < 10^18`.
fn split_scaled(v: i128) -> (r: (i128, u64))
    requires
        -1000000000000000000000000000000000000 < v < 1000000000000000000000000000000000000,
    ensures
        r.0 * 1000000000000000000 + r.1 == v,
        r.1 < 1000000000000000000,
        -1000000000000000000 <= r.0 <= 1000000000000000000,
{
    let s: i128 = 1000000000000000000;
    if v >= 0 {
        let q = v / s;
        let m = v % s;
        assert(v == q * 1000000000000000000 + m && 0 <= m < 1000000000000000000 && q <= 1000000000000000000)
            by (nonlinear_arith)
            requires
                q == v / 1000000000000000000i128,
                m == v % 1000000000000000000i128,
                0 <= v < 1000000000000000000000000000000000000,
        ;
        (q, m as u64)
    } else {
        let a = -v;
        let q = a / s;
        let m = a % s;
        assert(a == q * 1000000000000000000 + m && 0 <= m < 1000000000000000000 && q <= 1000000000000000000)
            by (nonlinear_arith)
            requires
                q == a / 1000000000000000000i128,
                m == a % 1000000000000000000i128,
                0 < a < 1000000000000000000000000000000000000,
        ;
        if m == 0 {
            (-q, 0)
        } else {
            (-q - 1, (s - m) as u64)
        }
    }
}

/// The users' figures of one kind, summed exactly, as text
/// ([`show_value`] of [`hours_sum`]).
#[verifier::rlimit(40)]
fn sum_hours_text(us: &Vec<ProjectUser>, kind: u8) -> (r: String)
    ensures
        r@ == show_value(hours_sum(users_view(us@), kind as int)),
{
    let ghost uv = users_view(us@);
    let mut whole: i128 = 0;
    let mut frac: u64 = 0;
    let mut i: usize = 0;
    let n = us.len();
    assert(us@.len() == n);
    while i < us.len()
        invariant
            i <= us@.len(),
            us@.len() <= usize::MAX,
            uv == users_view(us@),
            whole * 1000000000000000000 + frac == hours_sum(uv.take(i as int), kind as int),
            frac < 1000000000000000000,
            -(i as int) * 1000000000000000001 <= whole <= (i as int) * 1000000000000000001,
        decreases us.len() - i,
    {
        let ghost t = uv.take(i + 1);
        assert(t.drop_last() =~= uv.take(i as int));
        let v: i128 = match read_number(&user_hours_chars(&us[i], kind)) {
            Some(v) => v,
            None => 0,
        };
        let (vw, vf) = split_scaled(v);
        let f2: u64 = frac + vf;
        if f2 >= 1000000000000000000 {
            whole = whole + vw + 1;
            frac = f2 - 1000000000000000000;
        } else {
            whole = whole + vw;
            frac = f2;
        }
        i = i + 1;
    }
    assert(uv.take(i as int) =~= uv);
    if whole >= 0 {
        show_parts(false, whole as u128, frac)
    } else if frac == 0 {
        show_parts(true, (-whole) as u128, 0)
    } else {
        show_parts(true, (-whole - 1) as u128, 1000000000000000000 - frac)
    }
}

fn fill_total(total: &mut String, us: &Vec<ProjectUser>, kind: u8)
    ensures
        final(total)@ == fallback(old(total)@, users_view(us@), kind as int),
{
    if text_is(total, "0") && us.len() > 0 {
        *total = sum_hours_text(us, kind);
    }
}

fn fill_totals(p: &mut ProjectInfo)
    ensures
        final(p)@ == with_fallback_totals(old(p)@),
{
    fill_total(&mut p.gpu_hours, &p.users, 0);
    fill_total(&mut p.cpu_hours, &p.users, 1);
    fill_total(&mut p.billing_hours, &p.users, 2);
}

fn fill_all_totals(projects: &mut Vec<ProjectInfo>)
    ensures
        projects_view(final(projects)@) == projects_view(old(projects)@).map_values(
            |p: ProjectView| with_fallback_totals(p),
        ),
{
    let ghost folded = projects_view(projects@);
    let mut k: usize = 0;
    while k < projects.len()
        invariant
            k <= projects@.len(),
            folded.len() == projects@.len(),
            forall|j: int| 0 <= j < k ==> (#[trigger] projects@[j])@ == with_fallback_totals(folded[j]),
            forall|j: int| k <= j < projects@.len() ==> (#[trigger] projects@[j])@ == folded[j],
        decreases projects.len() - k,
    {
        let ghost before = projects@;
        fill_totals(&mut projects[k]);
        proof {
            assert forall|j: int| 0 <= j < projects@.len() && j != k implies (#[trigger] projects@[j])
                == before[j] by {
                assert(projects@ == before.update(k as int, projects@[k as int]));
            }
        }
        k = k + 1;
    }
    assert(projects_view(projects@) =~= folded.map_values(|p: ProjectView| with_fallback_totals(p)));
}

/// Merge sreport output of [`build_sreport_command`] into the projects:
/// account-total rows (empty login) set the project's CPU, GPU or billing
/// hours, per-user rows fill the user list. A total that is still `"0"`
/// afterwards, on a project with users, becomes the sum of its users'
/// figures (some clusters emit no account-total rows).
pub fn merge_sreport(projects: &mut Vec<ProjectInfo>, sreport_output: &str)
    ensures
        projects_view(final(projects)@) == merged_sreport(
            projects_view(old(projects)@),
            sreport_output@,
        ),
{
    let ghost start = projects_view(projects@);
    let cs = chars_of(sreport_output);
    let ls = lines_of(&cs);
    let ghost all = lines(sreport_output@);
    let mut i: usize = 0;
    assert(all.take(0) =~= Seq::<Seq<char>>::empty());
    while i < ls.len()
        invariant
            i <= ls@.len(),
            all == lines(sreport_output@),
            ls@.len() == all.len(),
            forall|k: int| 0 <= k < ls@.len() ==> (#[trigger] ls@[k])@ == all[k],
            projects_view(projects@) == sreport_fold(start, all.take(i as int)),
        decreases ls.len() - i,
    {
        apply_sreport_line(projects, &ls[i]);
        proof {
            lemma_take_last(all, i as int);
        }
        i = i + 1;
    }
    assert(all.take(ls.len() as int) =~= all);
    fill_all_totals(projects);
}

// ---------------------------------------------------------------------------
// QOS budgets
// ---------------------------------------------------------------------------

/// A budget figure, times `10^18`, when it reads as a positive number.
pub open spec fn positive_minutes(t: Option<Seq<char>>) -> Option<int> {
    match t {
        Some(x) => match number_value(x) {
            Some(v) => if v > 0 {
                Some(v)
            } else {
                None
            },
            None => None,
        },
        None => None,
    }
}

/// One `Name|GrpTRESMins` QOS line with at least one positive budget, in
/// minutes times `10^18`.
pub struct QosRow {
    pub name: Seq<char>,
    pub gpu: Option<int>,
    pub cpu: Option<int>,
    pub billing: Option<int>,
}

pub open spec fn qos_row(line: Seq<char>) -> Option<QosRow> {
    let f = split(line, '|');
    if f.len() < 2 || trim(f[0]).len() == 0 {
        None
    } else {
        let limits = trim(f[1]);
        let gpu = positive_minutes(Some(gpu_value(limits)));
        let cpu = positive_minutes(tres_value(limits, "cpu"@));
        let billing = positive_minutes(tres_value(limits, "billing"@));
        if gpu is None && cpu is None && billing is None {
            None
        } else {
            Some(QosRow { name: trim(f[0]), gpu, cpu, billing })
        }
    }
}

/// The account a QOS belongs to: its name without a `_gpu` suffix.
pub open spec fn qos_target(name: Seq<char>) -> Seq<char> {
    if has_suffix(name, "_gpu"@) {
        name.take(name.len() - 4)
    } else {
        name
    }
}

/// Minutes times `10^18` per hour: the divisor that turns a budget into
/// hours.
pub open spec fn minutes_per_hour() -> nat {
    60000000000000000000
}

/// A QOS line's budgets applied to its project: GPU and CPU hours are
/// set, rounded half away from zero; billing hours add to what the project
/// already holds (an unreadable figure counting as 0), then round.
pub open spec fn apply_qos(p: ProjectView, r: QosRow) -> ProjectView {
    let p1 = match r.gpu {
        Some(m) => ProjectView { gpu_hours_allocated: show_rounded(m, minutes_per_hour()), ..p },
        None => p,
    };
    let p2 = match r.cpu {
        Some(m) => ProjectView { cpu_hours_allocated: show_rounded(m, minutes_per_hour()), ..p1 },
        None => p1,
    };
    match r.billing {
        Some(m) => {
            let prev = match number_value(p2.billing_hours_allocated) {
                Some(v) => v,
                None => 0,
            };
            ProjectView {
                billing_hours_allocated: show_rounded(60 * prev + m, minutes_per_hour()),
                ..p2
            }
        },
        None => p2,
    }
}

#[verifier::opaque]
pub open spec fn qos_step(ps: Seq<ProjectView>, line: Seq<char>) -> Seq<ProjectView> {
    match qos_row(line) {
        Some(r) => match project_position(ps, qos_target(r.name)) {
            Some(i) => ps.update(i, apply_qos(ps[i], r)),
            None => ps,
        },
        None => ps,
    }
}

pub open spec fn qos_fold(ps: Seq<ProjectView>, ls: Seq<Seq<char>>) -> Seq<ProjectView>
    decreases ls.len(),
{
    if ls.len() == 0 {
        ps
    } else {
        qos_step(qos_fold(ps, ls.drop_last()), ls.last())
    }
}

pub open spec fn merged_qos(ps: Seq<ProjectView>, output: Seq<char>) -> Seq<ProjectView> {
    qos_fold(ps, lines(output))
}

pub open spec fn opt_int(o: Option<i128>) -> Option<int> {
    match o {
        Some(v) => Some(v as int),
        None => None,
    }
}

fn positive_value(t: Option<Vec<char>>) -> (r: Option<i128>)
    ensures
        opt_int(r) == positive_minutes(
            match t {
                Some(x) => Some(x@),
                None => None,
            },
        ),
        r matches Some(v) ==> 0 < v < 1000000000000000000000000000000000000,
{
    match t {
        Some(x) => match read_number(&x) {
            Some(v) => if v > 0 {
                Some(v)
            } else {
                None
            },
            None => None,
        },
        None => None,
    }
}

fn apply_qos_exec(
    p: &mut ProjectInfo,
    name: &[char],
    gpu: Option<i128>,
    cpu: Option<i128>,
    billing: Option<i128>,
)
    requires
        gpu matches Some(v) ==> 0 < v < 1000000000000000000000000000000000000,
        cpu matches Some(v) ==> 0 < v < 1000000000000000000000000000000000000,
        billing matches Some(v) ==> 0 < v < 1000000000000000000000000000000000000,
    ensures
        final(p)@ == apply_qos(
            old(p)@,
            QosRow { name: name@, gpu: opt_int(gpu), cpu: opt_int(cpu), billing: opt_int(billing) },
        ),
{
    let per_hour: u128 = 60000000000000000000;
    match gpu {
        Some(m) => {
            p.gpu_hours_allocated = show_rounded_exec(m, per_hour);
        },
        None => {},
    }
    match cpu {
        Some(m) => {
            p.cpu_hours_allocated = show_rounded_exec(m, per_hour);
        },
        None => {},
    }
    match billing {
        Some(m) => {
            let prev: i128 = match read_number(&chars_of(p.billing_hours_allocated.as_str())) {
                Some(v) => v,
                None => 0,
            };
            p.billing_hours_allocated = show_rounded_exec(60 * prev + m, per_hour);
        },
        None => {},
    }
}

pub open spec fn small_positive(o: Option<i128>) -> bool {
    o matches Some(v) ==> 0 < v < 1000000000000000000000000000000000000
}

/// The parts of a QOS line that [`qos_row`] reads.
fn qos_row_exec(line: &[char]) -> (r: Option<(Vec<char>, Option<i128>, Option<i128>, Option<i128>)>)
    ensures
        match r {
            Some((n, g, c, b)) => qos_row(line@) == Some(
                QosRow { name: n@, gpu: opt_int(g), cpu: opt_int(c), billing: opt_int(b) },
            ) && small_positive(g) && small_positive(c) && small_positive(b),
            None => qos_row(line@) is None,
        },
{
    let f = split_chars(line, '|');
    if f.len() < 2 {
        return None;
    }
    let name = trimmed(&f[0]);
    if name.len() == 0 {
        return None;
    }
    let limits = trimmed(&f[1]);
    let gpu = positive_value(Some(extract_gpu(&limits)));
    let cpu = positive_value(extract_tres(&limits, "cpu"));
    let billing = positive_value(extract_tres(&limits, "billing"));
    if gpu.is_none() && cpu.is_none() && billing.is_none() {
        return None;
    }
    Some((name, gpu, cpu, billing))
}

fn qos_target_exec(name: &[char]) -> (r: Vec<char>)
    ensures
        r@ == qos_target(name@),
{
    let suffix = chars_of("_gpu");
    proof {
        reveal_strlit("_gpu");
    }
    if ends_with(name, &suffix) {
        let r = slice_copy(name, 0, name.len() - suffix.len());
        assert(r@ =~= qos_target(name@));
        r
    } else {
        let r = slice_copy(name, 0, name.len());
        assert(r@ =~= name@);
        r
    }
}

fn apply_qos_line(projects: &mut Vec<ProjectInfo>, line: &[char])
    ensures
        projects_view(final(projects)@) == qos_step(projects_view(old(projects)@), line@),
{
    reveal(qos_step);
    match qos_row_exec(line) {
        Some((name, gpu, cpu, billing)) => {
            let target = qos_target_exec(&name);
            let ghost before = projects_view(projects@);
            match find_project(projects, &target) {
                Some(i) => {
                    apply_qos_exec(&mut projects[i], &name, gpu, cpu, billing);
                    proof {
                        let row = qos_row(line@).unwrap();
                        assert(projects_view(projects@) =~= before.update(
                            i as int,
                            apply_qos(before[i as int], row),
                        ));
                    }
                },
                None => {},
            }
        },
        None => {},
    }
}

/// Merge `sacctmgr` QOS output of [`build_qos_command`] into the projects:
/// each QOS's positive GPU and CPU minute budgets become the allocated
/// hours of the account it names (a `_gpu` suffix dropped); billing budgets
/// of an account's QOS add up.
pub fn merge_qos(projects: &mut Vec<ProjectInfo>, qos_output: &str)
    ensures
        projects_view(final(projects)@) == merged_qos(projects_view(old(projects)@), qos_output@),
{
    let ghost start = projects_view(projects@);
    let cs = chars_of(qos_output);
    let ls = lines_of(&cs);
    let ghost all = lines(qos_output@);
    let mut i: usize = 0;
    assert(all.take(0) =~= Seq::<Seq<char>>::empty());
    while i < ls.len()
        invariant
            i <= ls@.len(),
            all == lines(qos_output@),
            ls@.len() == all.len(),
            forall|k: int| 0 <= k < ls@.len() ==> (#[trigger] ls@[k])@ == all[k],
            projects_view(projects@) == qos_fold(start, all.take(i as int)),
        decreases ls.len() - i,
    {
        apply_qos_line(projects, &ls[i]);
        proof {
            lemma_take_last(all, i as int);
        }
        i = i + 1;
    }
    assert(all.take(ls.len() as int) =~= all);
}

// ---------------------------------------------------------------------------
// Laws
// ---------------------------------------------------------------------------

proof fn lemma_keep_all<T>(xs: Seq<T>)
    ensures
        keep_some(xs.map_values(|x: T| Some(x))) == xs,
    decreases xs.len(),
{
    if xs.len() > 0 {
        lemma_keep_all(xs.drop_last());
        assert(xs.drop_last().map_values(|x: T| Some(x)) =~= xs.map_values(|x: T| Some(x)).drop_last());
        assert(xs.drop_last().push(xs.last()) =~= xs);
    }
}

/// When the association query gives nothing usable, every project is kept.
pub proof fn law_empty_assoc_keeps_all(ps: Seq<ProjectView>)
    ensures
        active_projects(ps, expired_accounts(""@)) == ps,
{
    let e = expired_accounts(""@);
    reveal_strlit("");
    assert(""@ =~= Seq::<char>::empty());
    assert(lines(""@) =~= Seq::<Seq<char>>::empty());
    assert(e =~= Seq::<Seq<char>>::empty());
    assert(ps.map_values(
        |p: ProjectView|
            if e.contains(p.account) {
                None
            } else {
                Some(p)
            },
    ) =~= ps.map_values(|p: ProjectView| Some(p)));
    lemma_keep_all(ps);
}

proof fn lemma_active_members(ps: Seq<ProjectView>, expired: Seq<Seq<char>>)
    ensures
        forall|q: ProjectView|
            #[trigger] active_projects(ps, expired).contains(q) <==> ps.contains(q) && !expired.contains(q.account),
    decreases ps.len(),
{
    if ps.len() > 0 {
        let d = ps.drop_last();
        lemma_active_members(d, expired);
        let f = |p: ProjectView|
            if expired.contains(p.account) {
                None
            } else {
                Some(p)
            };
        assert(ps.map_values(f).drop_last() =~= d.map_values(f));
        let prev = active_projects(d, expired);
        let cur = active_projects(ps, expired);
        assert forall|q: ProjectView| cur.contains(q) <==> ps.contains(q) && !expired.contains(q.account) by {
            if cur.contains(q) {
                let i = choose|i: int| 0 <= i < cur.len() && cur[i] == q;
                if i < prev.len() {
                    assert(prev[i] == q);
                    assert(prev.contains(q));
                    let j = choose|j: int| 0 <= j < d.len() && d[j] == q;
                    assert(ps[j] == q);
                } else {
                    assert(ps[ps.len() - 1] == q);
                }
            }
            if ps.contains(q) && !expired.contains(q.account) {
                let j = choose|j: int| 0 <= j < ps.len() && ps[j] == q;
                if j < d.len() {
                    assert(d[j] == q);
                    assert(prev.contains(q));
                    let i = choose|i: int| 0 <= i < prev.len() && prev[i] == q;
                    assert(cur[i] == q);
                } else {
                    assert(cur.last() == q);
                }
            }
        }
    }
}

/// The projects kept are exactly those whose account is not expired.
pub proof fn law_filter_keeps_exactly_active(ps: Seq<ProjectView>, assoc_output: Seq<char>, q: ProjectView)
    ensures
        active_projects(ps, expired_accounts(assoc_output)).contains(q) <==> ps.contains(q)
            && !expired_accounts(assoc_output).contains(q.account),
{
    lemma_active_members(ps, expired_accounts(assoc_output));
}

/// The parts of a project that sreport output does not touch.
pub open spec fn same_identity(a: ProjectView, b: ProjectView) -> bool {
    &&& a.account == b.account
    &&& a.raw_usage == b.raw_usage
    &&& a.gpu_usage == b.gpu_usage
    &&& a.gpu_hours_allocated == b.gpu_hours_allocated
    &&& a.cpu_hours_allocated == b.cpu_hours_allocated
    &&& a.billing_hours_allocated == b.billing_hours_allocated
}

proof fn lemma_project_position_found(ps: Seq<ProjectView>, account: Seq<char>, w: int)
    requires
        0 <= w < ps.len(),
        ps[w].account == account,
    ensures
        exists|c: int|
            0 <= c < ps.len() && ps[c].account == account && forall|j: int|
                0 <= j < c ==> ps[j].account != account,
    decreases w,
{
    if exists|j: int| 0 <= j < w && ps[j].account == account {
        let j = choose|j: int| 0 <= j < w && ps[j].account == account;
        lemma_project_position_found(ps, account, j);
    } else {
        assert(forall|j: int| 0 <= j < w ==> ps[j].account != account);
    }
}

proof fn lemma_project_position_bounds(ps: Seq<ProjectView>, account: Seq<char>)
    ensures
        project_position(ps, account) matches Some(k) ==> 0 <= k < ps.len() && ps[k].account == account,
{
    if exists|k: int| 0 <= k < ps.len() && ps[k].account == account {
        let w = choose|k: int| 0 <= k < ps.len() && ps[k].account == account;
        lemma_project_position_found(ps, account, w);
    }
}

proof fn lemma_apply_qos_usage(p: ProjectView, r: QosRow)
    ensures
        same_usage(apply_qos(p, r), p),
{
}

proof fn lemma_apply_row_identity(p: ProjectView, r: SreportRow)
    ensures
        same_identity(apply_row(p, r), p),
{
}

proof fn lemma_sreport_step_identity(ps: Seq<ProjectView>, line: Seq<char>)
    ensures
        sreport_step(ps, line).len() == ps.len(),
        forall|i: int| 0 <= i < ps.len() ==> same_identity(#[trigger] sreport_step(ps, line)[i], ps[i]),
{
    reveal(sreport_step);
    match sreport_row(line) {
        Some(r) => match project_position(ps, r.account) {
            Some(k) => {
                lemma_project_position_bounds(ps, r.account);
                lemma_apply_row_identity(ps[k], r);
            },
            None => {},
        },
        None => {},
    }
}

proof fn lemma_sreport_fold_identity(ps: Seq<ProjectView>, ls: Seq<Seq<char>>)
    ensures
        sreport_fold(ps, ls).len() == ps.len(),
        forall|i: int| 0 <= i < ps.len() ==> same_identity(#[trigger] sreport_fold(ps, ls)[i], ps[i]),
    decreases ls.len(),
{
    if ls.len() > 0 {
        lemma_sreport_fold_identity(ps, ls.drop_last());
        let prev = sreport_fold(ps, ls.drop_last());
        lemma_sreport_step_identity(prev, ls.last());
        assert forall|i: int| 0 <= i < ps.len() implies same_identity(#[trigger] sreport_fold(ps, ls)[i], ps[i]) by {
            assert(same_identity(prev[i], ps[i]));
            assert(same_identity(sreport_step(prev, ls.last())[i], prev[i]));
        }
    }
}

/// Merging sreport output keeps every project, in order, with its account,
/// usage and allocations; only hour figures and users change.
pub proof fn law_sreport_keeps_projects(ps: Seq<ProjectView>, output: Seq<char>)
    ensures
        merged_sreport(ps, output).len() == ps.len(),
        forall|i: int| 0 <= i < ps.len() ==> same_identity(#[trigger] merged_sreport(ps, output)[i], ps[i]),
{
    lemma_sreport_fold_identity(ps, lines(output));
}

/// A total set by an account-total row is kept: the users' sum only
/// fills totals that are still `"0"`.
pub proof fn law_total_row_wins(ps: Seq<ProjectView>, output: Seq<char>, i: int)
    requires
        0 <= i < ps.len(),
    ensures
        ({
            let f = sreport_fold(ps, lines(output));
            let m = merged_sreport(ps, output);
            &&& f[i].gpu_hours != "0"@ ==> m[i].gpu_hours == f[i].gpu_hours
            &&& f[i].cpu_hours != "0"@ ==> m[i].cpu_hours == f[i].cpu_hours
            &&& f[i].billing_hours != "0"@ ==> m[i].billing_hours == f[i].billing_hours
        }),
{
    lemma_sreport_fold_identity(ps, lines(output));
}

/// No two users of a project share a login.
pub open spec fn logins_distinct(us: Seq<UserView>) -> bool {
    forall|a: int, b: int| 0 <= a < b < us.len() ==> us[a].login != us[b].login
}

proof fn lemma_apply_row_distinct(p: ProjectView, r: SreportRow)
    requires
        logins_distinct(p.users),
    ensures
        logins_distinct(apply_row(p, r).users),
{
    if r.login.len() > 0 {
        match user_position(p.users, r.login) {
            Some(k) => {
                if exists|c: int| 0 <= c < p.users.len() && p.users[c].login == r.login {
                    let w = choose|c: int| 0 <= c < p.users.len() && p.users[c].login == r.login;
                    lemma_user_position_found(p.users, r.login, w);
                }
                let nu = apply_row(p, r).users;
                assert forall|a: int, b: int| 0 <= a < b < nu.len() implies nu[a].login != nu[b].login by {
                    assert(nu[a].login == p.users[a].login);
                    assert(nu[b].login == p.users[b].login);
                }
            },
            None => {
                let nu = apply_row(p, r).users;
                assert forall|a: int, b: int| 0 <= a < b < nu.len() implies nu[a].login != nu[b].login by {
                    if b == p.users.len() {
                        assert(nu[b].login == r.login);
                        assert(nu[a] == p.users[a]);
                    }
                }
            },
        }
    }
}

proof fn lemma_user_position_found(us: Seq<UserView>, login: Seq<char>, w: int)
    requires
        0 <= w < us.len(),
        us[w].login == login,
    ensures
        exists|c: int|
            0 <= c < us.len() && us[c].login == login && forall|j: int| 0 <= j < c ==> us[j].login != login,
    decreases w,
{
    if exists|j: int| 0 <= j < w && us[j].login == login {
        let j = choose|j: int| 0 <= j < w && us[j].login == login;
        lemma_user_position_found(us, login, j);
    } else {
        assert(forall|j: int| 0 <= j < w ==> us[j].login != login);
    }
}

proof fn lemma_sreport_fold_distinct(ps: Seq<ProjectView>, ls: Seq<Seq<char>>)
    requires
        forall|i: int| 0 <= i < ps.len() ==> logins_distinct(#[trigger] ps[i].users),
    ensures
        forall|i: int| 0 <= i < sreport_fold(ps, ls).len() ==> logins_distinct(
            #[trigger] sreport_fold(ps, ls)[i].users,
        ),
    decreases ls.len(),
{
    if ls.len() > 0 {
        lemma_sreport_fold_distinct(ps, ls.drop_last());
        let prev = sreport_fold(ps, ls.drop_last());
        reveal(sreport_step);
        match sreport_row(ls.last()) {
            Some(r) => match project_position(prev, r.account) {
                Some(k) => {
                    lemma_project_position_bounds(prev, r.account);
                    lemma_apply_row_distinct(prev[k], r);
                },
                None => {},
            },
            None => {},
        }
    }
}

/// Merging sreport output keeps one user entry per login in every project
/// that had that before (a project starts with none).
pub proof fn law_sreport_one_entry_per_user(ps: Seq<ProjectView>, output: Seq<char>)
    requires
        forall|i: int| 0 <= i < ps.len() ==> logins_distinct(#[trigger] ps[i].users),
    ensures
        forall|i: int| 0 <= i < merged_sreport(ps, output).len() ==> logins_distinct(
            #[trigger] merged_sreport(ps, output)[i].users,
        ),
{
    lemma_sreport_fold_distinct(ps, lines(output));
}

/// The parts of a project that QOS output does not touch.
pub open spec fn same_usage(a: ProjectView, b: ProjectView) -> bool {
    &&& a.account == b.account
    &&& a.raw_usage == b.raw_usage
    &&& a.gpu_usage == b.gpu_usage
    &&& a.gpu_hours == b.gpu_hours
    &&& a.cpu_hours == b.cpu_hours
    &&& a.billing_hours == b.billing_hours
    &&& a.users == b.users
}

proof fn lemma_qos_step_usage(ps: Seq<ProjectView>, line: Seq<char>)
    ensures
        qos_step(ps, line).len() == ps.len(),
        forall|i: int| 0 <= i < ps.len() ==> same_usage(#[trigger] qos_step(ps, line)[i], ps[i]),
{
    reveal(qos_step);
    match qos_row(line) {
        Some(r) => match project_position(ps, qos_target(r.name)) {
            Some(k) => {
                lemma_project_position_bounds(ps, qos_target(r.name));
                lemma_apply_qos_usage(ps[k], r);
            },
            None => {},
        },
        None => {},
    }
}

proof fn lemma_qos_fold_usage(ps: Seq<ProjectView>, ls: Seq<Seq<char>>)
    ensures
        qos_fold(ps, ls).len() == ps.len(),
        forall|i: int| 0 <= i < ps.len() ==> same_usage(#[trigger] qos_fold(ps, ls)[i], ps[i]),
    decreases ls.len(),
{
    if ls.len() > 0 {
        lemma_qos_fold_usage(ps, ls.drop_last());
        let prev = qos_fold(ps, ls.drop_last());
        lemma_qos_step_usage(prev, ls.last());
        assert forall|i: int| 0 <= i < ps.len() implies same_usage(#[trigger] qos_fold(ps, ls)[i], ps[i]) by {
            assert(same_usage(prev[i], ps[i]));
            assert(same_usage(qos_step(prev, ls.last())[i], prev[i]));
        }
    }
}

/// Merging QOS output keeps every project, in order, with its account,
/// usage and users; only allocations change.
pub proof fn law_qos_keeps_usage(ps: Seq<ProjectView>, output: Seq<char>)
    ensures
        merged_qos(ps, output).len() == ps.len(),
        forall|i: int| 0 <= i < ps.len() ==> same_usage(#[trigger] merged_qos(ps, output)[i], ps[i]),
{
    lemma_qos_fold_usage(ps, lines(output));
}

// ---------------------------------------------------------------------------
// The projects query as a whole
// ---------------------------------------------------------------------------

/// The sreport and QOS queries that follow the project list, in that
/// order, over its accounts; none when no project is left.
pub open spec fn follow_up_commands(ps: Seq<ProjectView>, conf: Option<Seq<char>>) -> Option<
    (Seq<char>, Seq<char>),
> {
    if ps.len() == 0 {
        None
    } else {
        Some((sreport_command(accounts_list(ps), conf), qos_command(accounts_list(ps), conf)))
    }
}

/// The queries to run after the project list and its expired accounts:
/// sreport, then the QOS budgets; none when no project is left.
pub fn projects_plan(found: &Vec<ProjectInfo>, conf: Option<&str>) -> (r: Option<(String, String)>)
    ensures
        match r {
            Some((sreport, qos)) => follow_up_commands(projects_view(found@), opt_str_view(conf))
                == Some((sreport@, qos@)),
            None => follow_up_commands(projects_view(found@), opt_str_view(conf)) is None,
        },
        r is None <==> found@.len() == 0,
{
    if found.len() == 0 {
        return None;
    }
    let accounts = account_list(found.as_slice());
    Some((build_sreport_command(accounts.as_str(), conf), build_qos_command(accounts.as_str(), conf)))
}

/// The projects shown for the sshare output `ps`: the expired accounts of
/// the association output go when that query answered; then, when projects
/// are left, the sreport usage and the QOS budgets are merged in, each when
/// its query answered. A query that failed leaves its step out.
pub open spec fn projects_outcome(
    ps: Seq<char>,
    assoc: Option<Seq<char>>,
    sreport: Option<Seq<char>>,
    qos: Option<Seq<char>>,
) -> Seq<ProjectView> {
    let found = sshare_projects(ps);
    let kept = match assoc {
        Some(a) => active_projects(found, expired_accounts(a)),
        None => found,
    };
    if kept.len() == 0 {
        kept
    } else {
        let used = match sreport {
            Some(o) => merged_sreport(kept, o),
            None => kept,
        };
        match qos {
            Some(o) => merged_qos(used, o),
            None => used,
        }
    }
}

/// The projects of a cluster from the answers of its queries (see
/// [`projects_outcome`]); `None` for a query that failed or was not run.
pub fn projects_result(
    ps: &str,
    assoc: Option<&str>,
    sreport: Option<&str>,
    qos: Option<&str>,
) -> (r: Vec<ProjectInfo>)
    ensures
        projects_view(r@) == projects_outcome(
            ps@,
            opt_str_view(assoc),
            opt_str_view(sreport),
            opt_str_view(qos),
        ),
{
    let mut found = parse(ps);
    if let Some(a) = assoc {
        filter_expired(&mut found, a);
    }
    if found.len() == 0 {
        return found;
    }
    if let Some(o) = sreport {
        merge_sreport(&mut found, o);
    }
    if let Some(o) = qos {
        merge_qos(&mut found, o);
    }
    found
}

/// The first `Some` is the one before which all are `None`.
proof fn lemma_first_some_at<T>(xs: Seq<Option<T>>, k: int)
    requires
        0 <= k < xs.len(),
        xs[k] is Some,
        forall|j: int| 0 <= j < k ==> xs[j] is None,
    ensures
        first_some(xs) == xs[k],
    decreases k,
{
    if k > 0 {
        let t = xs.drop_first();
        assert forall|j: int| 0 <= j < k - 1 implies t[j] is None by {
            assert(t[j] == xs[j + 1]);
        }
        assert(t[k - 1] == xs[k]);
        lemma_first_some_at(t, k - 1);
    }
}

/// With no `Some`, there is no first one.
proof fn lemma_first_some_none<T>(xs: Seq<Option<T>>)
    requires
        forall|j: int| 0 <= j < xs.len() ==> xs[j] is None,
    ensures
        first_some(xs) is None,
    decreases xs.len(),
{
    if xs.len() > 0 {
        let t = xs.drop_first();
        assert forall|j: int| 0 <= j < t.len() implies t[j] is None by {
            assert(t[j] == xs[j + 1]);
        }
        lemma_first_some_none(t);
    }
}

/// An association line `Account|GrpTRES` marks its account expired exactly
/// when the first piece of the GrpTRES that names `node`, at whatever
/// position among the pieces, has the value `0` (`cpu=192,node=0` does).
pub proof fn law_expired_by_node_piece(line: Seq<char>, k: int)
    requires
        split(line, '|').len() >= 2,
        trim(split(line, '|')[0]).len() > 0,
        0 <= k < split(trim(split(line, '|')[1]), ',').len(),
        tres_entry(split(trim(split(line, '|')[1]), ',')[k], "node"@) is Some,
        forall|j: int|
            0 <= j < k ==> tres_entry(#[trigger] split(trim(split(line, '|')[1]), ',')[j], "node"@) is None,
    ensures
        expired_account(line) is Some <==> tres_entry(split(trim(split(line, '|')[1]), ',')[k], "node"@)
            == Some("0"@),
        expired_account(line) is Some ==> expired_account(line) == Some(trim(split(line, '|')[0])),
{
    let pieces = split(trim(split(line, '|')[1]), ',');
    let xs = pieces.map_values(|p: Seq<char>| tres_entry(p, "node"@));
    assert forall|j: int| 0 <= j < k implies xs[j] is None by {
        assert(xs[j] == tres_entry(pieces[j], "node"@));
    }
    lemma_first_some_at(xs, k);
}

/// An association line whose GrpTRES names no `node` keeps its account.
pub proof fn law_no_node_limit_kept(line: Seq<char>)
    requires
        forall|j: int|
            0 <= j < split(trim(split(line, '|')[1]), ',').len() ==> tres_entry(
                #[trigger] split(trim(split(line, '|')[1]), ',')[j],
                "node"@,
            ) is None,
    ensures
        expired_account(line) is None,
{
    let pieces = split(trim(split(line, '|')[1]), ',');
    let xs = pieces.map_values(|p: Seq<char>| tres_entry(p, "node"@));
    assert forall|j: int| 0 <= j < xs.len() implies xs[j] is None by {
        assert(xs[j] == tres_entry(pieces[j], "node"@));
    }
    lemma_first_some_none(xs);
}

} // verus!
