//! Character-sequence models and verified text helpers.
//!
//! The kernel statistics files are line oriented: lines separated by `\n`,
//! tokens separated by ASCII whitespace. The spec functions here define
//! that structure over `Seq<char>`, and the executable functions are
//! proved to compute exactly those definitions.

use vstd::prelude::*;
use vstd::string::StrSliceExecFns;
use vstd::string::StringExecFns;

verus! {

/// The ASCII whitespace characters, as `split_ascii_whitespace` knows them.
pub open spec fn is_ascii_ws(c: char) -> bool {
    c == ' ' || c == '\t' || c == '\n' || c == '\r' || c == '\x0C'
}

/// Index of the first occurrence of `c` in `s`, or `s.len()` if absent.
pub open spec fn first_at(s: Seq<char>, c: char) -> int
    decreases s.len(),
{
    if s.len() == 0 {
        0
    } else if s[0] == c {
        0
    } else {
        1 + first_at(s.drop_first(), c)
    }
}

/// Index of the first ASCII-whitespace character in `s`, or `s.len()`.
pub open spec fn first_ws_at(s: Seq<char>) -> int
    decreases s.len(),
{
    if s.len() == 0 {
        0
    } else if is_ascii_ws(s[0]) {
        0
    } else {
        1 + first_ws_at(s.drop_first())
    }
}

pub proof fn lemma_first_at_props(s: Seq<char>, c: char)
    ensures
        0 <= first_at(s, c) <= s.len(),
        first_at(s, c) < s.len() ==> s[first_at(s, c)] == c,
        forall|j: int| 0 <= j < first_at(s, c) ==> s[j] != c,
    decreases s.len(),
{
    if s.len() != 0 && s[0] != c {
        lemma_first_at_props(s.drop_first(), c);
        assert forall|j: int| 0 <= j < first_at(s, c) implies s[j] != c by {
            if j > 0 {
                assert(s.drop_first()[j - 1] == s[j]);
            }
        }
    }
}

pub proof fn lemma_first_at_is(s: Seq<char>, c: char, k: int)
    requires
        0 <= k <= s.len(),
        forall|j: int| 0 <= j < k ==> s[j] != c,
        k == s.len() || s[k] == c,
    ensures
        first_at(s, c) == k,
    decreases s.len(),
{
    if k == 0 {
    } else {
        assert(s[0] != c);
        assert forall|j: int| 0 <= j < k - 1 implies s.drop_first()[j] != c by {
            assert(s.drop_first()[j] == s[j + 1]);
        }
        lemma_first_at_is(s.drop_first(), c, k - 1);
    }
}

pub proof fn lemma_first_ws_at_props(s: Seq<char>)
    ensures
        0 <= first_ws_at(s) <= s.len(),
        first_ws_at(s) < s.len() ==> is_ascii_ws(s[first_ws_at(s)]),
        forall|j: int| 0 <= j < first_ws_at(s) ==> !is_ascii_ws(s[j]),
    decreases s.len(),
{
    if s.len() != 0 && !is_ascii_ws(s[0]) {
        lemma_first_ws_at_props(s.drop_first());
        assert forall|j: int| 0 <= j < first_ws_at(s) implies !is_ascii_ws(s[j]) by {
            if j > 0 {
                assert(s.drop_first()[j - 1] == s[j]);
            }
        }
    }
}

pub proof fn lemma_first_ws_at_is(s: Seq<char>, k: int)
    requires
        0 <= k <= s.len(),
        forall|j: int| 0 <= j < k ==> !is_ascii_ws(s[j]),
        k == s.len() || is_ascii_ws(s[k]),
    ensures
        first_ws_at(s) == k,
    decreases s.len(),
{
    if k == 0 {
    } else {
        assert(!is_ascii_ws(s[0]));
        assert forall|j: int| 0 <= j < k - 1 implies !is_ascii_ws(s.drop_first()[j]) by {
            assert(s.drop_first()[j] == s[j + 1]);
        }
        lemma_first_ws_at_is(s.drop_first(), k - 1);
    }
}

/// The lines of `s`: split on `\n`, with no empty line after a trailing
/// `\n`, exactly as `str::lines` iterates them. A `\r` before the `\n`
/// stays in the line; tokenization treats it as whitespace anyway.
pub open spec fn spec_lines(s: Seq<char>) -> Seq<Seq<char>>
    decreases s.len(),
    via spec_lines_dec
{
    if s.len() == 0 {
        Seq::empty()
    } else {
        let i = first_at(s, '\n');
        if i == s.len() {
            seq![s]
        } else {
            seq![s.subrange(0, i)] + spec_lines(s.subrange(i + 1, s.len() as int))
        }
    }
}

#[via_fn]
proof fn spec_lines_dec(s: Seq<char>) {
    lemma_first_at_props(s, '\n');
}

/// The maximal ASCII-whitespace-free tokens of `s`, in order, exactly as
/// `split_ascii_whitespace` yields them.
pub open spec fn spec_tokens(s: Seq<char>) -> Seq<Seq<char>>
    decreases s.len(),
    via spec_tokens_dec
{
    if s.len() == 0 {
        Seq::empty()
    } else if is_ascii_ws(s[0]) {
        spec_tokens(s.drop_first())
    } else {
        let i = first_ws_at(s);
        seq![s.subrange(0, i)] + spec_tokens(s.subrange(i, s.len() as int))
    }
}

#[via_fn]
proof fn spec_tokens_dec(s: Seq<char>) {
    lemma_first_ws_at_props(s);
    if s.len() != 0 && !is_ascii_ws(s[0]) {
        assert(first_ws_at(s) >= 1);
    }
}

/// `s` without its leading ASCII whitespace.
pub open spec fn spec_trim_start(s: Seq<char>) -> Seq<char>
    decreases s.len(),
{
    if s.len() == 0 {
        s
    } else if is_ascii_ws(s[0]) {
        spec_trim_start(s.drop_first())
    } else {
        s
    }
}

/// `s` without its trailing ASCII whitespace.
pub open spec fn spec_trim_end(s: Seq<char>) -> Seq<char>
    decreases s.len(),
{
    if s.len() == 0 {
        s
    } else if is_ascii_ws(s.last()) {
        spec_trim_end(s.drop_last())
    } else {
        s
    }
}

/// `s` without leading and trailing ASCII whitespace.
pub open spec fn spec_trim(s: Seq<char>) -> Seq<char> {
    spec_trim_end(spec_trim_start(s))
}

/// Whether `c` is one of the ASCII whitespace characters.
pub fn is_ws_char(c: char) -> (r: bool)
    ensures
        r == is_ascii_ws(c),
{
    c == ' ' || c == '\t' || c == '\n' || c == '\r' || c == '\x0C'
}

/// Index of the first occurrence of `c` in `s`, or the length if absent.
pub fn find_char(s: &str, c: char) -> (i: usize)
    ensures
        i == first_at(s@, c),
        i <= s@.len(),
{
    let n = s.unicode_len();
    let mut i: usize = 0;
    while i < n
        invariant
            n == s@.len(),
            0 <= i <= n,
            forall|j: int| 0 <= j < i ==> s@[j] != c,
        decreases n - i,
    {
        if s.get_char(i) == c {
            proof {
                lemma_first_at_is(s@, c, i as int);
            }
            return i;
        }
        i = i + 1;
    }
    proof {
        lemma_first_at_is(s@, c, n as int);
    }
    n
}

/// Index of the first ASCII-whitespace character in `s`, or the length.
pub fn find_ws(s: &str) -> (i: usize)
    ensures
        i == first_ws_at(s@),
        i <= s@.len(),
{
    let n = s.unicode_len();
    let mut i: usize = 0;
    while i < n
        invariant
            n == s@.len(),
            0 <= i <= n,
            forall|j: int| 0 <= j < i ==> !is_ascii_ws(s@[j]),
        decreases n - i,
    {
        if is_ws_char(s.get_char(i)) {
            proof {
                lemma_first_ws_at_is(s@, i as int);
            }
            return i;
        }
        i = i + 1;
    }
    proof {
        lemma_first_ws_at_is(s@, n as int);
    }
    n
}

/// Whether two string slices hold the same characters.
pub fn str_eq(a: &str, b: &str) -> (r: bool)
    ensures
        r == (a@ == b@),
{
    let n = a.unicode_len();
    if n != b.unicode_len() {
        return false;
    }
    let mut i: usize = 0;
    while i < n
        invariant
            n == a@.len(),
            n == b@.len(),
            0 <= i <= n,
            forall|j: int| 0 <= j < i ==> a@[j] == b@[j],
        decreases n - i,
    {
        if a.get_char(i) != b.get_char(i) {
            return false;
        }
        i = i + 1;
    }
    proof {
        assert(a@ =~= b@);
    }
    true
}

/// The lines of `s`, as `str::lines` would yield them.
pub fn split_lines(s: &str) -> (r: Vec<String>)
    ensures
        r.deep_view() == spec_lines(s@),
{
    let mut acc: Vec<String> = Vec::new();
    let mut rest: &str = s;
    loop
        invariant
            spec_lines(s@) == acc.deep_view() + spec_lines(rest@),
        decreases rest@.len(),
    {
        let ghost pre = acc.deep_view();
        let n = rest.unicode_len();
        if n == 0 {
            proof {
                assert(pre + spec_lines(rest@) =~= pre);
            }
            return acc;
        }
        let i = find_char(rest, '\n');
        if i == n {
            acc.push(String::from_str(rest));
            proof {
                assert(spec_lines(rest@) == seq![rest@]);
                assert(acc.deep_view() =~= pre.push(rest@));
                assert(pre + seq![rest@] =~= pre.push(rest@));
            }
            return acc;
        }
        let head = rest.substring_char(0, i);
        acc.push(String::from_str(head));
        let tail = rest.substring_char(i + 1, n);
        proof {
            assert(acc.deep_view() =~= pre.push(head@));
            assert(spec_lines(rest@) == seq![rest@.subrange(0, i as int)] + spec_lines(tail@));
            assert(acc.deep_view() + spec_lines(tail@) =~= pre + spec_lines(rest@));
        }
        rest = tail;
    }
}

/// The ASCII-whitespace-separated tokens of `line`.
pub fn tokenize(line: &str) -> (r: Vec<String>)
    ensures
        r.deep_view() == spec_tokens(line@),
{
    let mut acc: Vec<String> = Vec::new();
    let mut rest: &str = line;
    loop
        invariant
            spec_tokens(line@) == acc.deep_view() + spec_tokens(rest@),
        decreases rest@.len(),
    {
        let ghost pre = acc.deep_view();
        let n = rest.unicode_len();
        if n == 0 {
            proof {
                assert(pre + spec_tokens(rest@) =~= pre);
            }
            return acc;
        }
        if is_ws_char(rest.get_char(0)) {
            let tail = rest.substring_char(1, n);
            proof {
                assert(tail@ =~= rest@.drop_first());
            }
            rest = tail;
        } else {
            let i = find_ws(rest);
            proof {
                lemma_first_ws_at_props(rest@);
                assert(i >= 1);
            }
            let tok = rest.substring_char(0, i);
            acc.push(String::from_str(tok));
            let tail = rest.substring_char(i, n);
            proof {
                assert(acc.deep_view() =~= pre.push(tok@));
                assert(spec_tokens(rest@) == seq![rest@.subrange(0, i as int)] + spec_tokens(tail@));
                assert(acc.deep_view() + spec_tokens(tail@) =~= pre + spec_tokens(rest@));
            }
            rest = tail;
        }
    }
}

/// `s` without leading and trailing ASCII whitespace.
pub fn trim_ascii(s: &str) -> (r: &str)
    ensures
        r@ == spec_trim(s@),
{
    let n = s.unicode_len();
    let mut a: usize = 0;
    while a < n && is_ws_char(s.get_char(a))
        invariant
            n == s@.len(),
            0 <= a <= n,
            forall|j: int| 0 <= j < a ==> is_ascii_ws(s@[j]),
        decreases n - a,
    {
        a = a + 1;
    }
    proof {
        lemma_trim_start_is(s@, a as int);
    }
    let mut b: usize = n;
    while b > a && is_ws_char(s.get_char(b - 1))
        invariant
            n == s@.len(),
            a <= b <= n,
            forall|j: int| b <= j < n ==> is_ascii_ws(s@[j]),
        decreases b,
    {
        b = b - 1;
    }
    let r = s.substring_char(a, b);
    proof {
        let t = s@.subrange(a as int, n as int);
        assert forall|j: int| b - a <= j < t.len() implies is_ascii_ws(t[j]) by {
            assert(t[j] == s@[j + a]);
        }
        if b > a {
            assert(t[b - a - 1] == s@[b - 1]);
        }
        lemma_trim_end_is(t, b - a);
        assert(r@ =~= t.subrange(0, b - a));
    }
    r
}

pub proof fn lemma_trim_start_is(s: Seq<char>, a: int)
    requires
        0 <= a <= s.len(),
        forall|j: int| 0 <= j < a ==> is_ascii_ws(s[j]),
        a == s.len() || !is_ascii_ws(s[a]),
    ensures
        spec_trim_start(s) =~= s.subrange(a, s.len() as int),
    decreases s.len(),
{
    if a == 0 {
        if s.len() == 0 || !is_ascii_ws(s[0]) {
            assert(spec_trim_start(s) =~= s.subrange(0, s.len() as int));
        }
    } else {
        assert(is_ascii_ws(s[0]));
        assert forall|j: int| 0 <= j < a - 1 implies is_ascii_ws(s.drop_first()[j]) by {
            assert(s.drop_first()[j] == s[j + 1]);
        }
        if a < s.len() {
            assert(s.drop_first()[a - 1] == s[a]);
        }
        lemma_trim_start_is(s.drop_first(), a - 1);
        assert(s.drop_first().subrange(a - 1, s.len() - 1) =~= s.subrange(a, s.len() as int));
    }
}

pub proof fn lemma_trim_end_is(s: Seq<char>, b: int)
    requires
        0 <= b <= s.len(),
        forall|j: int| b <= j < s.len() ==> is_ascii_ws(s[j]),
        b == 0 || !is_ascii_ws(s[b - 1]),
    ensures
        spec_trim_end(s) =~= s.subrange(0, b),
    decreases s.len(),
{
    if b == s.len() {
        if s.len() == 0 || !is_ascii_ws(s.last()) {
            assert(spec_trim_end(s) =~= s.subrange(0, b));
        }
    } else {
        assert(is_ascii_ws(s.last()));
        assert forall|j: int| b <= j < s.len() - 1 implies is_ascii_ws(s.drop_last()[j]) by {
            assert(s.drop_last()[j] == s[j]);
        }
        lemma_trim_end_is(s.drop_last(), b);
        assert(s.drop_last().subrange(0, b) =~= s.subrange(0, b));
    }
}

} // verus!
