//! Partition availability from `sinfo`.
use vstd::prelude::*;

use crate::config::{env_prefix, opt_str_view, slurm_env_prefix};
use crate::text::{
    chars_of, keep_some, lemma_keep_some_step, lines, lines_of, split, split_chars, string_of,
    trim, trimmed,
};

verus! {

broadcast use vstd::string::group_string_axioms;

/// One partition: its name, availability and `A/I/O/T` node counts.
#[derive(Debug, Clone, PartialEq, Eq)]
pub struct PartitionInfo {
    pub partition: String,
    pub avail: String,
    pub nodes: String,
}

pub struct PartitionView {
    pub partition: Seq<char>,
    pub avail: Seq<char>,
    pub nodes: Seq<char>,
}

impl View for PartitionInfo {
    type V = PartitionView;

    open spec fn view(&self) -> PartitionView {
        PartitionView { partition: self.partition@, avail: self.avail@, nodes: self.nodes@ }
    }
}

pub open spec fn partitions_view(v: Seq<PartitionInfo>) -> Seq<PartitionView> {
    v.map_values(|p: PartitionInfo| p@)
}

pub open spec fn sinfo_command(conf: Option<Seq<char>>) -> Seq<char> {
    "bash -lc '"@ + env_prefix(conf) + "sinfo --noheader --format=\"%P|%a|%F\"'"@
}

pub fn build_command(slurm_conf: Option<&str>) -> (r: String)
    ensures
        r@ == sinfo_command(opt_str_view(slurm_conf)),
{
    let env = slurm_env_prefix(slurm_conf);
    let mut r = String::from_str("bash -lc '");
    r.append(env.as_str());
    r.append("sinfo --noheader --format=\"%P|%a|%F\"'");
    r
}

/// A line with exactly three `|`-separated fields, each trimmed.
pub open spec fn partition_of_line(line: Seq<char>) -> Option<PartitionView> {
    let f = split(line, '|');
    if f.len() == 3 {
        Some(PartitionView { partition: trim(f[0]), avail: trim(f[1]), nodes: trim(f[2]) })
    } else {
        None
    }
}

pub open spec fn sinfo_partitions(output: Seq<char>) -> Seq<PartitionView> {
    keep_some(lines(output).map_values(|l: Seq<char>| partition_of_line(l)))
}

/// Parse `sinfo` output of [`build_command`]; other lines are skipped.
pub fn parse(output: &str) -> (r: Vec<PartitionInfo>)
    ensures
        partitions_view(r@) == sinfo_partitions(output@),
{
    let cs = chars_of(output);
    let ls = lines_of(&cs);
    let ghost opts = lines(output@).map_values(|l: Seq<char>| partition_of_line(l));
    let mut out: Vec<PartitionInfo> = Vec::new();
    let mut i: usize = 0;
    while i < ls.len()
        invariant
            i <= ls@.len(),
            ls@.len() == lines(output@).len(),
            forall|k: int| 0 <= k < ls@.len() ==> (#[trigger] ls@[k])@ == lines(output@)[k],
            opts == lines(output@).map_values(|l: Seq<char>| partition_of_line(l)),
            partitions_view(out@) == keep_some(opts.take(i as int)),
        decreases ls.len() - i,
    {
        proof {
            lemma_keep_some_step(opts, i as int);
        }
        let f = split_chars(&ls[i], '|');
        if f.len() == 3 {
            let p = PartitionInfo {
                partition: string_of(&trimmed(&f[0])),
                avail: string_of(&trimmed(&f[1])),
                nodes: string_of(&trimmed(&f[2])),
            };
            out.push(p);
            assert(partitions_view(out@) =~= keep_some(opts.take(i as int)).push(p@));
        }
        i = i + 1;
    }
    assert(opts.take(ls.len() as int) =~= opts);
    out
}

} // verus!
