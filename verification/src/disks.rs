//! Filesystem usage from `df`, and the 90 % / 85 % notification latch.
use vstd::prelude::*;

use crate::config::strings_view;
use crate::text::{
    chars_of, eq_chars, lines, lines_of, parse_unsigned, parse_unsigned_exec, push_chars,
    slice_copy, string_of, trim, trimmed, words, words_of,
};

verus! {

broadcast use vstd::string::group_string_axioms;

/// Usage of one filesystem.
#[derive(Debug, Clone, PartialEq, Eq)]
pub struct DiskUsage {
    pub filesystem: String,
    pub size: String,
    pub used: String,
    /// `85` for 85 %: a plain number so the UI can threshold on it.
    pub used_pct: Option<u8>,
}

pub struct DiskView {
    pub filesystem: Seq<char>,
    pub size: Seq<char>,
    pub used: Seq<char>,
    pub used_pct: Option<u8>,
}

impl View for DiskUsage {
    type V = DiskView;

    open spec fn view(&self) -> DiskView {
        DiskView {
            filesystem: self.filesystem@,
            size: self.size@,
            used: self.used@,
            used_pct: self.used_pct,
        }
    }
}

impl DiskUsage {
    /// A field-by-field copy.
    pub fn duplicate(&self) -> (r: Self)
        ensures
            r@ == self@,
    {
        DiskUsage {
            filesystem: self.filesystem.clone(),
            size: self.size.clone(),
            used: self.used.clone(),
            used_pct: self.used_pct,
        }
    }
}

pub open spec fn disks_view(v: Seq<DiskUsage>) -> Seq<DiskView> {
    v.map_values(|d: DiskUsage| d@)
}

/// `"p"`.
pub open spec fn quoted(p: Seq<char>) -> Seq<char> {
    "\""@ + p + "\""@
}

/// The quoted paths joined by single spaces.
pub open spec fn quoted_join(paths: Seq<Seq<char>>) -> Seq<char>
    decreases paths.len(),
{
    if paths.len() == 0 {
        Seq::<char>::empty()
    } else if paths.len() == 1 {
        quoted(paths[0])
    } else {
        quoted_join(paths.drop_last()) + " "@ + quoted(paths.last())
    }
}

pub open spec fn df_command(paths: Seq<Seq<char>>) -> Seq<char> {
    "bash -lc 'sel=; for p in "@ + quoted_join(paths)
        + "; do [ -e \"$p\" ] && sel=\"$sel $p\"; done; [ -n \"$sel\" ] || exit 0; df -h --output=target,size,used,pcent $sel 2>/dev/null || df -hP $sel'"@
}

/// `df -h --output=target,size,used,pcent <paths...>`, falling back to the
/// POSIX `df -hP`. The configured paths are first filtered to those that
/// exist, so a missing one does not fail the whole query; when none
/// exists the command prints nothing and exits 0.
pub fn build_command(paths: &[String]) -> (r: String)
    ensures
        r@ == df_command(strings_view(paths@)),
{
    let mut joined = String::new();
    let mut i: usize = 0;
    while i < paths.len()
        invariant
            i <= paths@.len(),
            joined@ == quoted_join(strings_view(paths@).take(i as int)),
        decreases paths.len() - i,
    {
        let ghost before = joined@;
        if i > 0 {
            joined.append(" ");
        }
        joined.append("\"");
        joined.append(paths[i].as_str());
        joined.append("\"");
        proof {
            let v = strings_view(paths@);
            let t = v.take(i + 1);
            assert(t.drop_last() =~= v.take(i as int));
            assert(t.last() == paths@[i as int]@);
            if i == 0 {
                assert(joined@ =~= quoted(t[0]));
            } else {
                assert(joined@ =~= before + " "@ + quoted(t.last()));
            }
        }
        i = i + 1;
    }
    assert(strings_view(paths@).take(paths.len() as int) =~= strings_view(paths@));
    let mut r = String::from_str("bash -lc 'sel=; for p in ");
    r.append(joined.as_str());
    r.append(
        "; do [ -e \"$p\" ] && sel=\"$sel $p\"; done; [ -n \"$sel\" ] || exit 0; df -h --output=target,size,used,pcent $sel 2>/dev/null || df -hP $sel'",
    );
    r
}

/// `str::trim_end_matches(c)`: drop every trailing `c`.
pub open spec fn strip_trailing(s: Seq<char>, c: char) -> Seq<char>
    decreases s.len(),
{
    if s.len() > 0 && s.last() == c {
        strip_trailing(s.drop_last(), c)
    } else {
        s
    }
}

/// A percentage column: trailing `%` signs dropped, then read as a `u8`.
pub open spec fn percent_of(s: Seq<char>) -> Option<u8> {
    match parse_unsigned(strip_trailing(s, '%'), 255) {
        Some(v) => Some(v as u8),
        None => None,
    }
}

/// One data row: four columns `target size used pcent` (GNU `--output`),
/// or six columns `fs size used avail pcent mount` (plain `df`); blank rows
/// and rows of any other width give nothing.
pub open spec fn disk_of_line(line: Seq<char>) -> Option<DiskView> {
    let f = words(trim(line));
    if trim(line).len() == 0 {
        None
    } else if f.len() == 4 {
        Some(DiskView { filesystem: f[0], size: f[1], used: f[2], used_pct: percent_of(f[3]) })
    } else if f.len() == 6 {
        Some(DiskView { filesystem: f[5], size: f[1], used: f[2], used_pct: percent_of(f[4]) })
    } else {
        None
    }
}

/// The rows of `df` output after its header line.
pub open spec fn df_rows(output: Seq<char>) -> Seq<DiskView> {
    let ls = lines(output);
    if ls.len() == 0 {
        Seq::<DiskView>::empty()
    } else {
        crate::text::keep_some(ls.skip(1).map_values(|l: Seq<char>| disk_of_line(l)))
    }
}

fn strip_trailing_exec(s: &[char], c: char) -> (r: Vec<char>)
    ensures
        r@ == strip_trailing(s@, c),
{
    let mut j: usize = s.len();
    assert(s@.take(s@.len() as int) =~= s@);
    while j > 0 && s[j - 1] == c
        invariant
            j <= s@.len(),
            strip_trailing(s@, c) == strip_trailing(s@.take(j as int), c),
        decreases j,
    {
        assert(s@.take(j as int).drop_last() =~= s@.take(j - 1));
        j = j - 1;
    }
    assert(s@.take(s@.len() as int) =~= s@);
    slice_copy(s, 0, j)
}

/// Drop every trailing `'0'`.
pub fn strip_trailing_zeros(s: &[char]) -> (r: Vec<char>)
    ensures
        r@ == strip_trailing(s@, '0'),
{
    strip_trailing_exec(s, '0')
}

fn percent_exec(s: &[char]) -> (r: Option<u8>)
    ensures
        r == percent_of(s@),
{
    match parse_unsigned_exec(&strip_trailing_exec(s, '%'), 255) {
        Some(v) => Some(v as u8),
        None => None,
    }
}

fn disk_from_line(line: &[char]) -> (r: Option<DiskUsage>)
    ensures
        match r {
            Some(d) => disk_of_line(line@) == Some(d@),
            None => disk_of_line(line@) is None,
        },
{
    let t = trimmed(line);
    if t.len() == 0 {
        return None;
    }
    let f = words_of(&t);
    if f.len() == 4 {
        Some(
            DiskUsage {
                filesystem: string_of(&f[0]),
                size: string_of(&f[1]),
                used: string_of(&f[2]),
                used_pct: percent_exec(&f[3]),
            },
        )
    } else if f.len() == 6 {
        Some(
            DiskUsage {
                filesystem: string_of(&f[5]),
                size: string_of(&f[1]),
                used: string_of(&f[2]),
                used_pct: percent_exec(&f[4]),
            },
        )
    } else {
        None
    }
}

/// Parse `df` output of either shape; the header line is skipped. GNU
/// prints `Use%` with a trailing `%` in both shapes, so they are told apart
/// by column count.
pub fn parse(output: &str) -> (r: Vec<DiskUsage>)
    ensures
        disks_view(r@) == df_rows(output@),
{
    let cs = chars_of(output);
    let ls = lines_of(&cs);
    let ghost all = lines(output@);
    let mut out: Vec<DiskUsage> = Vec::new();
    if ls.len() == 0 {
        return out;
    }
    let ghost opts = all.skip(1).map_values(|l: Seq<char>| disk_of_line(l));
    let mut i: usize = 1;
    assert(opts.take(0) =~= Seq::<Option<DiskView>>::empty());
    while i < ls.len()
        invariant
            1 <= i <= ls@.len(),
            ls@.len() == all.len(),
            all == lines(output@),
            forall|k: int| 0 <= k < ls@.len() ==> (#[trigger] ls@[k])@ == all[k],
            opts == all.skip(1).map_values(|l: Seq<char>| disk_of_line(l)),
            disks_view(out@) == crate::text::keep_some(opts.take(i - 1)),
        decreases ls.len() - i,
    {
        proof {
            crate::text::lemma_keep_some_step(opts, i - 1);
            assert(opts[i - 1] == disk_of_line(all[i as int]));
        }
        match disk_from_line(&ls[i]) {
            Some(d) => {
                out.push(d);
                assert(disks_view(out@) =~= crate::text::keep_some(opts.take(i - 1)).push(d@));
            },
            None => {},
        }
        i = i + 1;
    }
    assert(opts.take(ls.len() - 1) =~= opts);
    out
}

// ---------------------------------------------------------------------------
// Notification latch
// ---------------------------------------------------------------------------

/// The names of filesystems already announced as full. Each name is held
/// once.
pub struct NotifiedSet {
    names: Vec<String>,
}

impl View for NotifiedSet {
    type V = Set<Seq<char>>;

    closed spec fn view(&self) -> Set<Seq<char>> {
        strings_view(self.names@).to_set()
    }
}

impl NotifiedSet {
    /// No name occurs twice.
    #[verifier::type_invariant]
    spec fn distinct(&self) -> bool {
        forall|i: int, j: int|
            0 <= i < j < self.names@.len() ==> self.names@[i]@ != self.names@[j]@
    }

    pub fn new() -> (r: Self)
        ensures
            r@ == Set::<Seq<char>>::empty(),
    {
        let r = NotifiedSet { names: Vec::new() };
        assert(strings_view(r.names@).to_set() =~= Set::<Seq<char>>::empty());
        r
    }

    fn position(&self, name: &[char]) -> (r: Option<usize>)
        ensures
            match r {
                Some(i) => i < self.names@.len() && self.names@[i as int]@ == name@,
                None => !self@.contains(name@),
            },
    {
        let mut i: usize = 0;
        while i < self.names.len()
            invariant
                i <= self.names@.len(),
                forall|k: int| 0 <= k < i ==> self.names@[k]@ != name@,
            decreases self.names.len() - i,
        {
            let have = chars_of(self.names[i].as_str());
            if eq_chars(&have, name) {
                return Some(i);
            }
            i = i + 1;
        }
        proof {
            if strings_view(self.names@).contains(name@) {
                let k = choose|k: int|
                    0 <= k < strings_view(self.names@).len() && strings_view(self.names@)[k]
                        == name@;
                assert(self.names@[k]@ == name@);
            }
        }
        None
    }

    /// Whether `name` is held.
    pub fn contains(&self, name: &str) -> (b: bool)
        ensures
            b == self@.contains(name@),
    {
        let cs = chars_of(name);
        match self.position(&cs) {
            Some(i) => {
                assert(strings_view(self.names@)[i as int] == name@);
                true
            },
            None => false,
        }
    }

    /// Add `name`; true when it was not held before (`HashSet::insert`).
    pub fn insert(&mut self, name: &str) -> (added: bool)
        ensures
            final(self)@ == old(self)@.insert(name@),
            added == !old(self)@.contains(name@),
    {
        let cs = chars_of(name);
        match self.position(&cs) {
            Some(i) => {
                assert(strings_view(self.names@)[i as int] == name@);
                assert(self@.insert(name@) =~= self@);
                false
            },
            None => {
                proof {
                    use_type_invariant(&*self);
                }
                let ghost before = self.names@;
                let mut names: Vec<String> = Vec::new();
                std::mem::swap(&mut names, &mut self.names);
                names.push(String::from_str(name));
                proof {
                    assert(strings_view(names@) =~= strings_view(before).push(name@));
                    strings_view(before).lemma_push_to_set_commute(name@);
                    assert forall|i: int, j: int|
                        0 <= i < j < names@.len() implies names@[i]@ != names@[j]@ by {
                        if j == before.len() {
                            assert(strings_view(before)[i] == before[i]@);
                        }
                    }
                }
                self.names = names;
                true
            },
        }
    }

    /// Drop `name` if held.
    pub fn remove(&mut self, name: &str)
        ensures
            final(self)@ == old(self)@.remove(name@),
    {
        proof {
            use_type_invariant(&*self);
        }
        let cs = chars_of(name);
        match self.position(&cs) {
            Some(i) => {
                let ghost before = self.names@;
                let mut names: Vec<String> = Vec::new();
                std::mem::swap(&mut names, &mut self.names);
                names.remove(i);
                proof {
                    let bv = strings_view(before);
                    let av = strings_view(names@);
                    assert(av =~= bv.remove(i as int));
                    assert forall|x: Seq<char>| av.to_set().contains(x) <==> bv.to_set().remove(
                        name@,
                    ).contains(x) by {
                        if av.contains(x) {
                            let k = choose|k: int| 0 <= k < av.len() && av[k] == x;
                            if k < i {
                                assert(bv[k] == x);
                                assert(before[k]@ != before[i as int]@);
                            } else {
                                assert(bv[k + 1] == x);
                                assert(before[k + 1]@ != before[i as int]@);
                            }
                        }
                        if bv.contains(x) && x != name@ {
                            let k = choose|k: int| 0 <= k < bv.len() && bv[k] == x;
                            if k < i {
                                assert(av[k] == x);
                            } else {
                                assert(k != i);
                                assert(av[k - 1] == x);
                            }
                        }
                    }
                    assert(av.to_set() =~= bv.to_set().remove(name@));
                    assert forall|a: int, b: int|
                        0 <= a < b < names@.len() implies names@[a]@ != names@[b]@ by {
                        let a0 = if a < i {
                            a
                        } else {
                            a + 1
                        };
                        let b0 = if b < i {
                            b
                        } else {
                            b + 1
                        };
                        assert(names@[a] == before[a0]);
                        assert(names@[b] == before[b0]);
                    }
                }
                self.names = names;
            },
            None => {
                assert(self@.remove(name@) =~= self@);
            },
        }
    }
}

/// One step of the latch: a disk at 90 % or more fires when its name was
/// not latched yet, and latches it; a disk under 85 % unlatches; anything
/// else leaves the latch as it is.
pub open spec fn latch_step(s: Set<Seq<char>>, d: DiskView) -> (Set<Seq<char>>, Option<DiskView>) {
    match d.used_pct {
        Some(p) => if p >= 90 {
            if s.contains(d.filesystem) {
                (s, None)
            } else {
                (s.insert(d.filesystem), Some(d))
            }
        } else if p < 85 {
            (s.remove(d.filesystem), None)
        } else {
            (s, None)
        },
        None => (s, None),
    }
}

/// The latch after the disks in order, and the disks that fired.
pub open spec fn latch_run(s: Set<Seq<char>>, disks: Seq<DiskView>) -> (
    Set<Seq<char>>,
    Seq<DiskView>,
)
    decreases disks.len(),
{
    if disks.len() == 0 {
        (s, Seq::<DiskView>::empty())
    } else {
        let (s1, fired) = latch_run(s, disks.drop_last());
        let (s2, f) = latch_step(s1, disks.last());
        match f {
            Some(d) => (s2, fired.push(d)),
            None => (s2, fired),
        }
    }
}

/// Filesystems that crossed 90 % usage in this snapshot and had not been
/// notified. A filesystem drops out of `notified` once it falls back under
/// 85 %, so a later re-fill notifies again.
pub fn crossing_threshold(disks: &[DiskUsage], notified: &mut NotifiedSet) -> (fires: Vec<
    DiskUsage,
>)
    ensures
        (final(notified)@, disks_view(fires@)) == latch_run(old(notified)@, disks_view(disks@)),
{
    let ghost start = notified@;
    let mut fires: Vec<DiskUsage> = Vec::new();
    let mut i: usize = 0;
    while i < disks.len()
        invariant
            i <= disks@.len(),
            (notified@, disks_view(fires@)) == latch_run(start, disks_view(disks@).take(i as int)),
        decreases disks.len() - i,
    {
        let d = &disks[i];
        proof {
            let v = disks_view(disks@);
            assert(v.take(i + 1).drop_last() =~= v.take(i as int));
            assert(v.take(i + 1).last() == d@);
        }
        match d.used_pct {
            Some(p) => {
                if p >= 90 {
                    if notified.insert(d.filesystem.as_str()) {
                        fires.push(d.duplicate());
                        assert(disks_view(fires@) =~= disks_view(fires@).drop_last().push(d@));
                    }
                } else if p < 85 {
                    notified.remove(d.filesystem.as_str());
                }
            },
            None => {},
        }
        i = i + 1;
    }
    assert(disks_view(disks@).take(disks.len() as int) =~= disks_view(disks@));
    fires
}

/// The latch agrees with one disk reading: latched at 90 % or more,
/// unlatched under 85 %.
pub open spec fn latch_agrees(s: Set<Seq<char>>, d: DiskView) -> bool {
    match d.used_pct {
        Some(p) => (p >= 90 ==> s.contains(d.filesystem)) && (p < 85 ==> !s.contains(
            d.filesystem,
        )),
        None => true,
    }
}

/// No two readings name the same filesystem.
pub open spec fn distinct_filesystems(ds: Seq<DiskView>) -> bool {
    forall|i: int, j: int| 0 <= i < j < ds.len() ==> ds[i].filesystem != ds[j].filesystem
}

proof fn lemma_latch_step_other(s: Set<Seq<char>>, d: DiskView, x: Seq<char>)
    requires
        x != d.filesystem,
    ensures
        latch_step(s, d).0.contains(x) == s.contains(x),
{
}

proof fn lemma_latch_run_agrees(s: Set<Seq<char>>, ds: Seq<DiskView>)
    requires
        distinct_filesystems(ds),
    ensures
        forall|k: int| 0 <= k < ds.len() ==> latch_agrees(latch_run(s, ds).0, #[trigger] ds[k]),
    decreases ds.len(),
{
    if ds.len() > 0 {
        let prefix = ds.drop_last();
        assert(distinct_filesystems(prefix)) by {
            assert forall|i: int, j: int| 0 <= i < j < prefix.len() implies prefix[i].filesystem
                != prefix[j].filesystem by {
                assert(prefix[i] == ds[i] && prefix[j] == ds[j]);
            }
        }
        lemma_latch_run_agrees(s, prefix);
        let s1 = latch_run(s, prefix).0;
        let last = ds.last();
        assert forall|k: int| 0 <= k < ds.len() implies latch_agrees(
            latch_run(s, ds).0,
            #[trigger] ds[k],
        ) by {
            if k < ds.len() - 1 {
                assert(ds[k] == prefix[k]);
                assert(latch_agrees(s1, prefix[k]));
                assert(ds[k].filesystem != last.filesystem);
                lemma_latch_step_other(s1, last, ds[k].filesystem);
            }
        }
    }
}

proof fn lemma_latch_run_stable(s: Set<Seq<char>>, ds: Seq<DiskView>)
    requires
        forall|k: int| 0 <= k < ds.len() ==> latch_agrees(s, #[trigger] ds[k]),
    ensures
        latch_run(s, ds).0 == s,
        latch_run(s, ds).1 == Seq::<DiskView>::empty(),
    decreases ds.len(),
{
    if ds.len() > 0 {
        let prefix = ds.drop_last();
        assert forall|k: int| 0 <= k < prefix.len() implies latch_agrees(s, #[trigger] prefix[k]) by {
            assert(prefix[k] == ds[k]);
        }
        lemma_latch_run_stable(s, prefix);
        let last = ds.last();
        assert(latch_agrees(s, ds[ds.len() - 1]));
        match last.used_pct {
            Some(p) => {
                if p < 85 {
                    assert(s.remove(last.filesystem) =~= s);
                }
            },
            None => {},
        }
    }
}

/// A snapshot notifies once until recovery: when no filesystem appears
/// twice in it, checking the same snapshot again fires nothing and leaves
/// the latch as the first check left it.
pub proof fn law_repeat_snapshot_fires_nothing(s: Set<Seq<char>>, ds: Seq<DiskView>)
    requires
        distinct_filesystems(ds),
    ensures
        latch_run(latch_run(s, ds).0, ds).1 == Seq::<DiskView>::empty(),
        latch_run(latch_run(s, ds).0, ds).0 == latch_run(s, ds).0,
{
    lemma_latch_run_agrees(s, ds);
    lemma_latch_run_stable(latch_run(s, ds).0, ds);
}

/// Hysteresis: a reading from 85 % up to (not including) 90 % neither fires
/// nor changes the latch, whatever the latch holds.
pub proof fn law_hysteresis_band_keeps_latch(s: Set<Seq<char>>, d: DiskView)
    requires
        d.used_pct matches Some(p) && 85 <= p < 90,
    ensures
        latch_run(s, seq![d]) == (s, Seq::<DiskView>::empty()),
{
    reveal_with_fuel(latch_run, 2);
    assert(seq![d].drop_last() =~= Seq::<DiskView>::empty());
}

/// Recovery clears the latch: after a reading under 85 %, a later reading
/// of the same filesystem at 90 % or more fires again.
pub proof fn law_refill_after_recovery_fires(s: Set<Seq<char>>, low: DiskView, high: DiskView)
    requires
        low.used_pct matches Some(p) && p < 85,
        high.used_pct matches Some(q) && q >= 90,
        low.filesystem == high.filesystem,
    ensures
        latch_run(latch_run(s, seq![low]).0, seq![high]).1 == seq![high],
        latch_run(latch_run(s, seq![low]).0, seq![high]).0.contains(high.filesystem),
{
    reveal_with_fuel(latch_run, 2);
    assert(seq![low].drop_last() =~= Seq::<DiskView>::empty());
    assert(seq![high].drop_last() =~= Seq::<DiskView>::empty());
    assert(Seq::<DiskView>::empty().push(high) =~= seq![high]);
}

} // verus!
