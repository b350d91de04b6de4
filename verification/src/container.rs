//! The container inspection pipeline, on plain values.
//!
//! Given what the runtime and the filesystem report — the listed names of
//! a container, its root process id, the content of the process's cgroup
//! membership file — these functions resolve the display name, derive the
//! paths of the cgroup accounting files, and classify each failure. The
//! reads themselves happen outside this crate.

use vstd::prelude::*;
use vstd::string::StrSliceExecFns;
use vstd::string::StringExecFns;

use crate::errors::CollectError;
use crate::text::spec_trim;
use crate::text::trim_ascii;

verus! {

/// The display name a list of runtime-reported names yields: the first
/// name, with one leading `/` stripped if present. `None` when no name
/// is listed; such a container is skipped silently.
pub open spec fn spec_display_name(names: Option<Seq<Seq<char>>>) -> Option<Seq<char>> {
    match names {
        None => None,
        Some(ns) => {
            if ns.len() == 0 {
                None
            } else {
                let full = ns[0];
                if full.len() > 0 && full[0] == '/' {
                    Some(full.drop_first())
                } else {
                    Some(full)
                }
            }
        },
    }
}

/// Resolve a container's display name from the names the runtime lists
/// for it. A container with no listed name has no display name.
pub fn container_display_name(names: &Option<Vec<String>>) -> (r: Option<String>)
    ensures
        match r {
            Some(n) => spec_display_name(names.deep_view()) == Some(n@),
            None => spec_display_name(names.deep_view()) is None,
        },
{
    match names {
        None => None,
        Some(ns) => {
            if ns.len() == 0 {
                None
            } else {
                let full: &str = ns[0].as_str();
                proof {
                    assert(names.deep_view() == Some(ns.deep_view()));
                    assert(ns.deep_view()[0] == ns@[0]@);
                }
                let n = full.unicode_len();
                if n > 0 && full.get_char(0) == '/' {
                    let stripped = String::from_str(full.substring_char(1, n));
                    proof {
                        assert(stripped@ =~= full@.drop_first());
                    }
                    Some(stripped)
                } else {
                    Some(ns[0].clone())
                }
            }
        },
    }
}

/// Extract the root process id from what inspection reported.
///
/// Fails with `InspectionError` exactly when inspection carried no id.
pub fn inspected_pid(pid: Option<i64>) -> (r: Result<i64, CollectError>)
    ensures
        match r {
            Ok(p) => pid == Some(p),
            Err(e) => pid is None && e == CollectError::InspectionError,
        },
{
    match pid {
        Some(p) => Ok(p),
        None => Err(CollectError::InspectionError),
    }
}

/// The decimal digits of a non-negative integer, most significant first.
pub open spec fn spec_digits(n: int) -> Seq<char>
    decreases n,
{
    if n < 0 {
        Seq::empty()
    } else if n < 10 {
        seq![spec_digit_char(n)]
    } else {
        spec_digits(n / 10).push(spec_digit_char(n % 10))
    }
}

/// The character of one decimal digit.
pub open spec fn spec_digit_char(d: int) -> char {
    if d == 0 {
        '0'
    } else if d == 1 {
        '1'
    } else if d == 2 {
        '2'
    } else if d == 3 {
        '3'
    } else if d == 4 {
        '4'
    } else if d == 5 {
        '5'
    } else if d == 6 {
        '6'
    } else if d == 7 {
        '7'
    } else if d == 8 {
        '8'
    } else {
        '9'
    }
}

/// The decimal rendering of an integer, with a sign when negative.
pub open spec fn spec_decimal(n: int) -> Seq<char> {
    if n < 0 {
        seq!['-'] + spec_digits(-n)
    } else {
        spec_digits(n)
    }
}

/// One decimal digit as text.
fn digit_str(d: u64) -> (r: &'static str)
    requires
        d < 10,
    ensures
        r@ =~= seq![spec_digit_char(d as int)],
{
    proof {
        reveal_strlit("0");
        reveal_strlit("1");
        reveal_strlit("2");
        reveal_strlit("3");
        reveal_strlit("4");
        reveal_strlit("5");
        reveal_strlit("6");
        reveal_strlit("7");
        reveal_strlit("8");
        reveal_strlit("9");
    }
    if d == 0 {
        "0"
    } else if d == 1 {
        "1"
    } else if d == 2 {
        "2"
    } else if d == 3 {
        "3"
    } else if d == 4 {
        "4"
    } else if d == 5 {
        "5"
    } else if d == 6 {
        "6"
    } else if d == 7 {
        "7"
    } else if d == 8 {
        "8"
    } else {
        "9"
    }
}

/// Append the decimal digits of `n` to `out`.
fn push_digits(n: u64, out: &mut String)
    ensures
        final(out)@ == old(out)@ + spec_digits(n as int),
    decreases n,
{
    if n >= 10 {
        proof {
            assert(n / 10 < n) by (nonlinear_arith)
                requires
                    n >= 10,
            ;
        }
        push_digits(n / 10, out);
        out.append(digit_str(n % 10));
        proof {
            assert((n as int) / 10 == (n / 10) as int);
            assert((n as int) % 10 == (n % 10) as int);
            assert(out@ =~= old(out)@ + spec_digits(n as int));
        }
    } else {
        out.append(digit_str(n));
        proof {
            assert(out@ =~= old(out)@ + spec_digits(n as int));
        }
    }
}

/// The path of a process's cgroup membership file, `/proc/<pid>/cgroup`.
pub fn proc_cgroup_file_path(pid: i64) -> (r: String)
    ensures
        r@ == "/proc/"@ + spec_decimal(pid as int) + "/cgroup"@,
{
    let mut s = String::from_str("/proc/");
    if pid < 0 {
        s.append("-");
        let magnitude: u64 = ((-(pid + 1)) as u64) + 1;
        push_digits(magnitude, &mut s);
        proof {
            reveal_strlit("-");
            assert(magnitude as int == -(pid as int));
            assert(s@ =~= "/proc/"@ + spec_decimal(pid as int));
        }
    } else {
        push_digits(pid as u64, &mut s);
    }
    s.append("/cgroup");
    proof {
        assert(s@ =~= "/proc/"@ + spec_decimal(pid as int) + "/cgroup"@);
    }
    s
}

/// Whether cgroup membership content carries the cgroup v2
/// unified-hierarchy marker `0::/`.
pub open spec fn spec_cgroup_v2(content: Seq<char>) -> bool {
    content.len() >= 4 && content[0] == '0' && content[1] == ':' && content[2] == ':'
        && content[3] == '/'
}

/// The cgroup path suffix the membership content names: everything after
/// the marker's first three characters, trimmed of surrounding
/// whitespace. The `/` of the marker stays, so the suffix is
/// root-relative.
pub open spec fn spec_cgroup_suffix(content: Seq<char>) -> Seq<char> {
    spec_trim(content.subrange(4, content.len() as int))
}

/// The paths of the two accounting files of one container's cgroup.
pub struct CgroupStatPaths {
    pub io_stat: String,
    pub io_pressure: String,
}

/// Derive the accounting-file paths from cgroup membership content.
///
/// Fails with `UnsupportedCgroupVersionError` exactly when the content
/// does not start with the unified-hierarchy marker `0::/`; such a host
/// is not on cgroup v2.
pub fn cgroup_stat_paths(content: &str) -> (r: Result<CgroupStatPaths, CollectError>)
    ensures
        r is Ok <==> spec_cgroup_v2(content@),
        match r {
            Ok(p) => {
                &&& p.io_stat@ == "/sys/fs/cgroup/"@ + spec_cgroup_suffix(content@)
                    + "/io.stat"@
                &&& p.io_pressure@ == "/sys/fs/cgroup/"@ + spec_cgroup_suffix(content@)
                    + "/io.pressure"@
            },
            Err(e) => e == CollectError::UnsupportedCgroupVersionError,
        },
{
    let n = content.unicode_len();
    if n < 4 || content.get_char(0) != '0' || content.get_char(1) != ':' || content.get_char(2)
        != ':' || content.get_char(3) != '/' {
        return Err(CollectError::UnsupportedCgroupVersionError);
    }
    let suffix = trim_ascii(content.substring_char(4, n));
    let mut io_stat = String::from_str("/sys/fs/cgroup/");
    io_stat.append(suffix);
    io_stat.append("/io.stat");
    let mut io_pressure = String::from_str("/sys/fs/cgroup/");
    io_pressure.append(suffix);
    io_pressure.append("/io.pressure");
    proof {
        assert(io_stat@ =~= "/sys/fs/cgroup/"@ + spec_cgroup_suffix(content@) + "/io.stat"@);
        assert(io_pressure@ =~= "/sys/fs/cgroup/"@ + spec_cgroup_suffix(content@)
            + "/io.pressure"@);
    }
    Ok(CgroupStatPaths { io_stat, io_pressure })
}

} // verus!
