//! The cgroup statistics parser.
//!
//! `io.stat` and `io.pressure` share one line grammar: a first token (a
//! `major:minor` device identifier, or a pressure type such as `some`),
//! then `key=value` tokens. A line with no first token, or with a later
//! token lacking `=`, is malformed; a single malformed line aborts the
//! whole file, yielding no records at all.

use vstd::prelude::*;
use vstd::string::StrSliceExecFns;

use crate::errors::CollectError;
use crate::text::first_at;
use crate::text::spec_lines;
use crate::text::spec_tokens;
use crate::text::split_lines;
use crate::text::tokenize;

verus! {

/// One `key=value` pair, both sides carried verbatim as text.
pub struct KeyValue {
    pub key: String,
    pub value: String,
}

impl DeepView for KeyValue {
    type V = (Seq<char>, Seq<char>);

    open spec fn deep_view(&self) -> Self::V {
        (self.key@, self.value@)
    }
}

/// One parsed `io.stat` line: a device identifier and its pairs.
pub struct IoStatRecord {
    pub device: String,
    pub entries: Vec<KeyValue>,
}

impl DeepView for IoStatRecord {
    type V = (Seq<char>, Seq<(Seq<char>, Seq<char>)>);

    open spec fn deep_view(&self) -> Self::V {
        (self.device@, self.entries.deep_view())
    }
}

/// One parsed `io.pressure` line: a pressure type and its pairs.
pub struct IoPressureRecord {
    pub kind: String,
    pub entries: Vec<KeyValue>,
}

impl DeepView for IoPressureRecord {
    type V = (Seq<char>, Seq<(Seq<char>, Seq<char>)>);

    open spec fn deep_view(&self) -> Self::V {
        (self.kind@, self.entries.deep_view())
    }
}

/// Split a token at its first `=`: key before, value after (the value may
/// itself contain `=`). `None` when the token has no `=` at all.
pub open spec fn spec_split_eq(tok: Seq<char>) -> Option<(Seq<char>, Seq<char>)> {
    let i = first_at(tok, '=');
    if i == tok.len() {
        None
    } else {
        Some((tok.subrange(0, i), tok.subrange(i + 1, tok.len() as int)))
    }
}

/// Parse a line's tokens after the first: all must split at `=`.
pub open spec fn spec_parse_entries(toks: Seq<Seq<char>>) -> Option<Seq<(Seq<char>, Seq<char>)>>
    decreases toks.len(),
{
    if toks.len() == 0 {
        Some(Seq::empty())
    } else {
        match spec_parse_entries(toks.drop_last()) {
            None => None,
            Some(front) => match spec_split_eq(toks.last()) {
                None => None,
                Some(kv) => Some(front.push(kv)),
            },
        }
    }
}

/// Parse one line: the first token is the head (device identifier or
/// pressure type); the rest are `key=value` pairs. An empty line has no
/// head and is malformed.
pub open spec fn spec_parse_line(line: Seq<char>) -> Option<(Seq<char>, Seq<(Seq<char>, Seq<char>)>)> {
    let toks = spec_tokens(line);
    if toks.len() == 0 {
        None
    } else {
        match spec_parse_entries(toks.drop_first()) {
            None => None,
            Some(es) => Some((toks[0], es)),
        }
    }
}

/// Parse a sequence of lines; any malformed line fails the whole file.
pub open spec fn spec_parse_lines(ls: Seq<Seq<char>>) -> Option<
    Seq<(Seq<char>, Seq<(Seq<char>, Seq<char>)>)>,
>
    decreases ls.len(),
{
    if ls.len() == 0 {
        Some(Seq::empty())
    } else {
        match spec_parse_lines(ls.drop_last()) {
            None => None,
            Some(front) => match spec_parse_line(ls.last()) {
                None => None,
                Some(r) => Some(front.push(r)),
            },
        }
    }
}

/// Parse a whole statistics file.
pub open spec fn spec_parse_file(s: Seq<char>) -> Option<
    Seq<(Seq<char>, Seq<(Seq<char>, Seq<char>)>)>,
> {
    spec_parse_lines(spec_lines(s))
}

/// If some prefix of the tokens already fails, the whole list fails.
pub proof fn lemma_parse_entries_prefix_none(toks: Seq<Seq<char>>, i: int)
    requires
        0 <= i <= toks.len(),
        spec_parse_entries(toks.subrange(0, i)) is None,
    ensures
        spec_parse_entries(toks) is None,
    decreases toks.len() - i,
{
    if i == toks.len() {
        assert(toks.subrange(0, i) =~= toks);
    } else {
        assert(toks.subrange(0, i + 1).drop_last() =~= toks.subrange(0, i));
        assert(spec_parse_entries(toks.subrange(0, i + 1)) is None);
        lemma_parse_entries_prefix_none(toks, i + 1);
    }
}

/// If some prefix of the lines already fails, the whole file fails.
pub proof fn lemma_parse_lines_prefix_none(ls: Seq<Seq<char>>, i: int)
    requires
        0 <= i <= ls.len(),
        spec_parse_lines(ls.subrange(0, i)) is None,
    ensures
        spec_parse_lines(ls) is None,
    decreases ls.len() - i,
{
    if i == ls.len() {
        assert(ls.subrange(0, i) =~= ls);
    } else {
        assert(ls.subrange(0, i + 1).drop_last() =~= ls.subrange(0, i));
        assert(spec_parse_lines(ls.subrange(0, i + 1)) is None);
        lemma_parse_lines_prefix_none(ls, i + 1);
    }
}

/// Parse every token after the first as a `key=value` pair.
fn parse_entries(toks: &Vec<String>) -> (r: Result<Vec<KeyValue>, CollectError>)
    requires
        toks@.len() >= 1,
    ensures
        match r {
            Ok(es) => spec_parse_entries(toks.deep_view().drop_first()) == Some(es.deep_view()),
            Err(e) => {
                &&& spec_parse_entries(toks.deep_view().drop_first()) is None
                &&& e == CollectError::MalformedLineError
            },
        },
{
    let ghost u = toks.deep_view().drop_first();
    let mut es: Vec<KeyValue> = Vec::new();
    let mut k: usize = 1;
    while k < toks.len()
        invariant
            u == toks.deep_view().drop_first(),
            1 <= k <= toks@.len(),
            spec_parse_entries(u.subrange(0, k - 1)) == Some(es.deep_view()),
        decreases toks@.len() - k,
    {
        let ghost pre = es.deep_view();
        let tok: &str = toks[k].as_str();
        proof {
            assert(u[k - 1] == toks@[k as int]@);
        }
        let n = tok.unicode_len();
        let i = crate::text::find_char(tok, '=');
        if i == n {
            proof {
                assert(spec_split_eq(u[k - 1]) is None);
                assert(u.subrange(0, k as int).drop_last() =~= u.subrange(0, k - 1));
                assert(u.subrange(0, k as int).last() == u[k - 1]);
                assert(spec_parse_entries(u.subrange(0, k as int)) is None);
                lemma_parse_entries_prefix_none(u, k as int);
            }
            return Err(CollectError::MalformedLineError);
        }
        let key = String::from_str(tok.substring_char(0, i));
        let value = String::from_str(tok.substring_char(i + 1, n));
        let ghost kv = (key@, value@);
        es.push(KeyValue { key, value });
        proof {
            assert(spec_split_eq(u[k - 1]) == Some(kv));
            assert(u.subrange(0, k as int).drop_last() =~= u.subrange(0, k - 1));
            assert(u.subrange(0, k as int).last() == u[k - 1]);
            assert(es.deep_view() =~= pre.push(kv));
        }
        k = k + 1;
    }
    proof {
        assert(u.subrange(0, toks@.len() - 1) =~= u);
    }
    Ok(es)
}

/// Parse the contents of an `io.stat` file.
///
/// On success the records are exactly `spec_parse_file` of the text; on
/// failure the text has a malformed line and no record is produced.
pub fn parse_io_stat(text: &str) -> (r: Result<Vec<IoStatRecord>, CollectError>)
    ensures
        match r {
            Ok(records) => spec_parse_file(text@) == Some(records.deep_view()),
            Err(e) => {
                &&& spec_parse_file(text@) is None
                &&& e == CollectError::MalformedLineError
            },
        },
{
    let lines = split_lines(text);
    let ghost lv = lines.deep_view();
    let mut records: Vec<IoStatRecord> = Vec::new();
    let mut idx: usize = 0;
    while idx < lines.len()
        invariant
            lv == lines.deep_view(),
            lv == spec_lines(text@),
            0 <= idx <= lines@.len(),
            spec_parse_lines(lv.subrange(0, idx as int)) == Some(records.deep_view()),
        decreases lines@.len() - idx,
    {
        let ghost pre = records.deep_view();
        let line: &str = lines[idx].as_str();
        proof {
            assert(lv[idx as int] == lines@[idx as int]@);
        }
        let toks = tokenize(line);
        if toks.len() == 0 {
            proof {
                assert(spec_parse_line(lv[idx as int]) is None);
                assert(lv.subrange(0, idx + 1).drop_last() =~= lv.subrange(0, idx as int));
                assert(lv.subrange(0, idx + 1).last() == lv[idx as int]);
                assert(spec_parse_lines(lv.subrange(0, idx + 1)) is None);
                lemma_parse_lines_prefix_none(lv, idx + 1);
            }
            return Err(CollectError::MalformedLineError);
        }
        let entries = match parse_entries(&toks) {
            Ok(es) => es,
            Err(e) => {
                proof {
                    assert(spec_parse_line(lv[idx as int]) is None);
                    assert(lv.subrange(0, idx + 1).drop_last() =~= lv.subrange(0, idx as int));
                    assert(lv.subrange(0, idx + 1).last() == lv[idx as int]);
                    assert(spec_parse_lines(lv.subrange(0, idx + 1)) is None);
                    lemma_parse_lines_prefix_none(lv, idx + 1);
                }
                return Err(e);
            },
        };
        let ghost edv = entries.deep_view();
        let device = toks[0].clone();
        proof {
            assert(toks.deep_view()[0] == toks@[0]@);
        }
        records.push(IoStatRecord { device, entries });
        proof {
            assert(spec_parse_line(lv[idx as int]) == Some((toks.deep_view()[0], edv)));
            assert(lv.subrange(0, idx + 1).drop_last() =~= lv.subrange(0, idx as int));
            assert(lv.subrange(0, idx + 1).last() == lv[idx as int]);
            assert(records.deep_view() =~= pre.push((toks.deep_view()[0], edv)));
        }
        idx = idx + 1;
    }
    proof {
        assert(lv.subrange(0, lv.len() as int) =~= lv);
    }
    Ok(records)
}

/// Parse the contents of an `io.pressure` file.
///
/// The grammar is the same as `io.stat`'s; the first token of each line is
/// the pressure type rather than a device identifier.
pub fn parse_io_pressure(text: &str) -> (r: Result<Vec<IoPressureRecord>, CollectError>)
    ensures
        match r {
            Ok(records) => spec_parse_file(text@) == Some(records.deep_view()),
            Err(e) => {
                &&& spec_parse_file(text@) is None
                &&& e == CollectError::MalformedLineError
            },
        },
{
    let lines = split_lines(text);
    let ghost lv = lines.deep_view();
    let mut records: Vec<IoPressureRecord> = Vec::new();
    let mut idx: usize = 0;
    while idx < lines.len()
        invariant
            lv == lines.deep_view(),
            lv == spec_lines(text@),
            0 <= idx <= lines@.len(),
            spec_parse_lines(lv.subrange(0, idx as int)) == Some(records.deep_view()),
        decreases lines@.len() - idx,
    {
        let ghost pre = records.deep_view();
        let line: &str = lines[idx].as_str();
        proof {
            assert(lv[idx as int] == lines@[idx as int]@);
        }
        let toks = tokenize(line);
        if toks.len() == 0 {
            proof {
                assert(spec_parse_line(lv[idx as int]) is None);
                assert(lv.subrange(0, idx + 1).drop_last() =~= lv.subrange(0, idx as int));
                assert(lv.subrange(0, idx + 1).last() == lv[idx as int]);
                assert(spec_parse_lines(lv.subrange(0, idx + 1)) is None);
                lemma_parse_lines_prefix_none(lv, idx + 1);
            }
            return Err(CollectError::MalformedLineError);
        }
        let entries = match parse_entries(&toks) {
            Ok(es) => es,
            Err(e) => {
                proof {
                    assert(spec_parse_line(lv[idx as int]) is None);
                    assert(lv.subrange(0, idx + 1).drop_last() =~= lv.subrange(0, idx as int));
                    assert(lv.subrange(0, idx + 1).last() == lv[idx as int]);
                    assert(spec_parse_lines(lv.subrange(0, idx + 1)) is None);
                    lemma_parse_lines_prefix_none(lv, idx + 1);
                }
                return Err(e);
            },
        };
        let ghost edv = entries.deep_view();
        let kind = toks[0].clone();
        proof {
            assert(toks.deep_view()[0] == toks@[0]@);
        }
        records.push(IoPressureRecord { kind, entries });
        proof {
            assert(spec_parse_line(lv[idx as int]) == Some((toks.deep_view()[0], edv)));
            assert(lv.subrange(0, idx + 1).drop_last() =~= lv.subrange(0, idx as int));
            assert(lv.subrange(0, idx + 1).last() == lv[idx as int]);
            assert(records.deep_view() =~= pre.push((toks.deep_view()[0], edv)));
        }
        idx = idx + 1;
    }
    proof {
        assert(lv.subrange(0, lv.len() as int) =~= lv);
    }
    Ok(records)
}

} // verus!
