//! Per-user quota (`lfs quota` / `quota -s`) as disk usage.
use vstd::prelude::*;

use crate::disks::{percent_of, strip_trailing, DiskUsage, DiskView};
use crate::number::{bytes_of, format_bytes, human_bytes, parse_bytes};
use crate::text::{
    all_digits, all_digits_exec, chars_of, contains, contains_exec, digits_value, fold,
    fold_exec, has_prefix, lines, lines_of, parse_unsigned, parse_unsigned_exec, replace_all,
    replace_exec, starts_with, string_of, trim, trimmed, words, words_of,
};

verus! {

broadcast use vstd::string::group_string_axioms;

pub open spec fn quota_command(user: Seq<char>, path: Seq<char>, template: Seq<char>) -> Seq<
    char,
> {
    "bash -lc '"@ + replace_all(
        replace_all(template, "{user}"@, user),
        "{path}"@,
        "\""@ + path + "\""@,
    ) + "'"@
}

/// Build the quota query for one path from a template with `{user}` and
/// `{path}` placeholders; the path is quoted and the whole runs through a
/// login shell.
pub fn build_command(user: &str, path: &str, template: &str) -> (r: String)
    ensures
        r@ == quota_command(user@, path@, template@),
{
    let t = chars_of(template);
    let u = chars_of(user);
    let pu = chars_of("{user}");
    let pp = chars_of("{path}");
    proof {
        reveal_strlit("{user}");
        reveal_strlit("{path}");
    }
    let step1 = replace_exec(&t, &pu, &u);
    let mut quoted = String::from_str("\"");
    quoted.append(path);
    quoted.append("\"");
    let q = chars_of(quoted.as_str());
    let step2 = replace_exec(&step1, &pp, &q);
    let mut r = String::from_str("bash -lc '");
    crate::text::push_chars(&mut r, &step2);
    r.append("'");
    r
}

/// A quota size: after trimming and dropping the trailing `*` over-quota
/// markers, either a bare integer of 1 KiB blocks (saturating at
/// `u64::MAX` bytes) or a human-readable size like `"290G"`; `"-"` and
/// blanks give nothing.
pub open spec fn quota_size(s: Seq<char>) -> Option<u64> {
    let t = trim(strip_trailing(trim(s), '*'));
    if t.len() == 0 || t == "-"@ {
        None
    } else if all_digits(t) {
        match parse_unsigned(t, u64::MAX as nat) {
            Some(kib) => Some(
                if kib * 1024 > u64::MAX {
                    u64::MAX
                } else {
                    (kib * 1024) as u64
                },
            ),
            None => None,
        }
    } else {
        bytes_of(t)
    }
}

fn strip_stars(s: &[char]) -> (r: Vec<char>)
    ensures
        r@ == strip_trailing(s@, '*'),
{
    let mut j: usize = s.len();
    assert(s@.take(s@.len() as int) =~= s@);
    while j > 0 && s[j - 1] == '*'
        invariant
            j <= s@.len(),
            strip_trailing(s@, '*') == strip_trailing(s@.take(j as int), '*'),
        decreases j,
    {
        assert(s@.take(j as int).drop_last() =~= s@.take(j - 1));
        j = j - 1;
    }
    crate::text::slice_copy(s, 0, j)
}

fn quota_size_chars(s: &[char]) -> (r: Option<u64>)
    ensures
        r == quota_size(s@),
{
    let t = trimmed(&strip_stars(&trimmed(s)));
    if t.len() == 0 || crate::text::eq_str(&t, "-") {
        return None;
    }
    if all_digits_exec(&t) {
        match parse_unsigned_exec(&t, u64::MAX) {
            Some(kib) => {
                if kib > u64::MAX / 1024 {
                    Some(u64::MAX)
                } else {
                    Some(kib * 1024)
                }
            },
            None => None,
        }
    } else {
        parse_bytes(string_of(&t).as_str())
    }
}

/// A quota size token (see [`quota_size`]): human-readable with an
/// optional `*` over-quota marker, or a count of 1 KiB blocks.
pub fn parse_quota_size(s: &str) -> (r: Option<u64>)
    ensures
        r == quota_size(s@),
{
    quota_size_chars(&chars_of(s))
}

/// The whole-percent share of `used` in `limit`, rounded half up and
/// capped at 255.
pub open spec fn quota_pct(used: nat, limit: nat) -> u8 {
    let p = (200 * used + limit) / (2 * limit);
    if p > 255 {
        255
    } else {
        p as u8
    }
}

/// The fields of row `i`; a row holding only a (long, wrapped) device
/// name takes the fields of the next line too.
pub open spec fn row_fields(ls: Seq<Seq<char>>, i: int) -> Seq<Seq<char>> {
    let f = words(trim(ls[i]));
    if f.len() == 1 && i < ls.len() - 1 {
        f + words(ls[i + 1])
    } else {
        f
    }
}

/// The usage that row `i` gives for `path`: none for blank rows, the
/// "Disk quotas for …" banner, the column header, rows with fewer than four
/// fields, an unreadable used figure, or no limit. Usage is measured against
/// the soft quota, or the hard limit when there is no soft quota.
pub open spec fn quota_row(ls: Seq<Seq<char>>, i: int, path: Seq<char>) -> Option<DiskView> {
    let l = trim(ls[i]);
    let f = row_fields(ls, i);
    if l.len() == 0 || has_prefix(fold(l), "disk quotas"@) || contains(fold(l), "filesystem"@) {
        None
    } else if f.len() < 4 {
        None
    } else {
        match quota_size(f[1]) {
            None => None,
            Some(used) => {
                let soft: u64 = match quota_size(f[2]) {
                    Some(v) => v,
                    None => 0,
                };
                let hard: u64 = match quota_size(f[3]) {
                    Some(v) => v,
                    None => 0,
                };
                let limit = if soft > 0 {
                    soft
                } else {
                    hard
                };
                if limit == 0 {
                    None
                } else {
                    Some(
                        DiskView {
                            filesystem: path,
                            size: human_bytes(limit as nat),
                            used: human_bytes(used as nat),
                            used_pct: Some(quota_pct(used as nat, limit as nat)),
                        },
                    )
                }
            },
        }
    }
}

/// The first row from index `i` on that gives a usage.
pub open spec fn first_quota_row(ls: Seq<Seq<char>>, i: int, path: Seq<char>) -> Option<DiskView>
    decreases ls.len() - i,
{
    if i < 0 || i >= ls.len() {
        None
    } else {
        match quota_row(ls, i, path) {
            Some(d) => Some(d),
            None => first_quota_row(ls, i + 1, path),
        }
    }
}

fn pct_exec(used: u64, limit: u64) -> (r: u8)
    requires
        limit > 0,
    ensures
        r == quota_pct(used as nat, limit as nat),
{
    let p = (200 * (used as u128) + limit as u128) / (2 * (limit as u128));
    if p > 255 {
        255
    } else {
        p as u8
    }
}

fn row_exec(ls: &Vec<Vec<char>>, i: usize, path: &str) -> (r: Option<DiskUsage>)
    requires
        i < ls@.len(),
    ensures
        match r {
            Some(d) => quota_row(ls@.map_values(|l: Vec<char>| l@), i as int, path@) == Some(d@),
            None => quota_row(ls@.map_values(|l: Vec<char>| l@), i as int, path@) is None,
        },
{
    let ghost lv = ls@.map_values(|l: Vec<char>| l@);
    let l = trimmed(&ls[i]);
    let low = fold_exec(&l);
    let banner = chars_of("disk quotas");
    let header = chars_of("filesystem");
    if l.len() == 0 || starts_with(&low, &banner) || contains_exec(&low, &header) {
        return None;
    }
    let mut f = words_of(&l);
    if f.len() == 1 && i < ls.len() - 1 {
        let ghost f0 = f@;
        let mut more = words_of(&ls[i + 1]);
        f.append(&mut more);
        proof {
            assert(lv[i + 1] == ls@[i + 1]@);
            assert(f@.map_values(|w: Vec<char>| w@) =~= row_fields(lv, i as int)) by {
                assert(words(trim(lv[i as int])) =~= f0.map_values(|w: Vec<char>| w@));
            }
        }
    } else {
        assert(f@.map_values(|w: Vec<char>| w@) =~= row_fields(lv, i as int));
    }
    assert(f@.len() == row_fields(lv, i as int).len());
    if f.len() < 4 {
        return None;
    }
    proof {
        assert(f@[1]@ == row_fields(lv, i as int)[1]);
        assert(f@[2]@ == row_fields(lv, i as int)[2]);
        assert(f@[3]@ == row_fields(lv, i as int)[3]);
    }
    let used = match quota_size_chars(&f[1]) {
        Some(u) => u,
        None => return None,
    };
    let soft: u64 = match quota_size_chars(&f[2]) {
        Some(v) => v,
        None => 0,
    };
    let hard: u64 = match quota_size_chars(&f[3]) {
        Some(v) => v,
        None => 0,
    };
    let limit = if soft > 0 {
        soft
    } else {
        hard
    };
    if limit == 0 {
        return None;
    }
    Some(
        DiskUsage {
            filesystem: String::from_str(path),
            size: format_bytes(limit),
            used: format_bytes(used),
            used_pct: Some(pct_exec(used, limit)),
        },
    )
}

/// Parse `quota -s` / `lfs quota -h` output for one path: the first data
/// row with a non-zero limit wins. None when no row carries a limit, so the
/// caller can fall back to df.
pub fn parse(output: &str, path: &str) -> (r: Option<DiskUsage>)
    ensures
        match r {
            Some(d) => first_quota_row(lines(output@), 0, path@) == Some(d@),
            None => first_quota_row(lines(output@), 0, path@) is None,
        },
{
    let cs = chars_of(output);
    let ls = lines_of(&cs);
    let ghost lv = ls@.map_values(|l: Vec<char>| l@);
    assert(lv =~= lines(output@));
    let mut i: usize = 0;
    while i < ls.len()
        invariant
            i <= ls@.len(),
            lv == ls@.map_values(|l: Vec<char>| l@),
            lv == lines(output@),
            first_quota_row(lv, 0, path@) == first_quota_row(lv, i as int, path@),
        decreases ls.len() - i,
    {
        match row_exec(&ls, i, path) {
            Some(d) => {
                return Some(d);
            },
            None => {},
        }
        i = i + 1;
    }
    None
}

/// The percentage is the share of `used` in `limit` rounded to the nearest
/// whole percent, halves up, and capped at 255: below the cap,
/// `p - 1/2 <= 100 * used / limit < p + 1/2`; at the cap, the share is at
/// least 254.5%. A share of 100.5% or more gives more than 100.
pub proof fn law_quota_pct_rounds_share(used: nat, limit: nat)
    requires
        limit > 0,
    ensures
        quota_pct(used, limit) <= 255,
        quota_pct(used, limit) < 255 ==> limit * (2 * quota_pct(used, limit) - 1) <= 200 * used
            && 200 * used < limit * (2 * quota_pct(used, limit) + 1),
        quota_pct(used, limit) == 255 ==> 200 * used >= 509 * limit,
        200 * used >= 201 * limit ==> quota_pct(used, limit) > 100,
{
    let p = (200 * used + limit) / (2 * limit);
    assert(p * (2 * limit) <= 200 * used + limit < (p + 1) * (2 * limit)) by (nonlinear_arith)
        requires
            p == (200 * used + limit) / (2 * limit),
            limit > 0,
    ;
    if p <= 255 {
        assert(quota_pct(used, limit) == p);
        assert(limit * (2 * p - 1) == p * (2 * limit) - limit) by (nonlinear_arith);
        assert(limit * (2 * p + 1) == (p + 1) * (2 * limit) - limit) by (nonlinear_arith);
    }
    if p >= 255 {
        assert(255 * (2 * limit) <= p * (2 * limit)) by (nonlinear_arith)
            requires
                p >= 255,
        ;
    }
    if 200 * used >= 201 * limit {
        assert(p >= 101) by (nonlinear_arith)
            requires
                p == (200 * used + limit) / (2 * limit),
                101 * (2 * limit) <= 200 * used + limit,
                limit > 0,
        ;
    }
}

} // verus!
