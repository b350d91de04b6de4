//! Properties of the parsing and rendering pipeline as a whole.
//!
//! These lemmas relate the contracts of the parser and the formatter:
//! a token without `=` anywhere in a file makes the whole file fail, and
//! well-formed input renders to exactly one metric line per `key=value`
//! pair.

use vstd::prelude::*;

use crate::device::spec_lookup;
use crate::format::spec_render_stat;
use crate::format::spec_render_stat_upto;
use crate::format::spec_stat_line;
use crate::format::spec_stat_record_lines;
use crate::format::RecordView;
use crate::parse::spec_parse_entries;
use crate::parse::spec_parse_file;
use crate::parse::spec_parse_line;
use crate::parse::spec_parse_lines;
use crate::parse::spec_split_eq;
use crate::text::first_at;
use crate::text::first_ws_at;
use crate::text::is_ascii_ws;
use crate::text::lemma_first_at_props;
use crate::text::lemma_first_ws_at_props;
use crate::text::spec_lines;
use crate::text::spec_tokens;

verus! {

/// No character of `s` is ASCII whitespace.
pub open spec fn ws_free(s: Seq<char>) -> bool {
    forall|j: int| 0 <= j < s.len() ==> !is_ascii_ws(s[j])
}

/// No character of `s` is a newline.
pub open spec fn newline_free(s: Seq<char>) -> bool {
    forall|j: int| 0 <= j < s.len() ==> s[j] != '\n'
}

/// How many times `c` occurs in `s`.
pub open spec fn count_char(s: Seq<char>, c: char) -> int
    decreases s.len(),
{
    if s.len() == 0 {
        0
    } else {
        count_char(s.drop_last(), c) + if s.last() == c {
            1int
        } else {
            0int
        }
    }
}

/// The total number of `key=value` pairs across a record sequence.
pub open spec fn total_pairs(records: Seq<RecordView>) -> int
    decreases records.len(),
{
    if records.len() == 0 {
        0
    } else {
        total_pairs(records.drop_last()) + records.last().1.len()
    }
}

pub proof fn lemma_count_char_add(a: Seq<char>, b: Seq<char>, c: char)
    ensures
        count_char(a + b, c) == count_char(a, c) + count_char(b, c),
    decreases b.len(),
{
    if b.len() == 0 {
        assert(a + b =~= a);
    } else {
        assert((a + b).drop_last() =~= a + b.drop_last());
        assert((a + b).last() == b.last());
        lemma_count_char_add(a, b.drop_last(), c);
    }
}

pub proof fn lemma_count_char_zero(s: Seq<char>, c: char)
    requires
        forall|j: int| 0 <= j < s.len() ==> s[j] != c,
    ensures
        count_char(s, c) == 0,
    decreases s.len(),
{
    if s.len() != 0 {
        lemma_count_char_zero(s.drop_last(), c);
    }
}

/// Collected output is never disturbed by what comes after it: every
/// formatter call only appends, and whatever a later step appends — more
/// metrics, or nothing because its container failed — the content already
/// in the buffer stays in place as the same prefix.
pub proof fn lemma_append_preserves_prefix(before: Seq<char>, appended: Seq<char>)
    ensures
        (before + appended).subrange(0, before.len() as int) == before,
{
    assert((before + appended).subrange(0, before.len() as int) =~= before);
}

/// Every token `spec_tokens` yields is whitespace-free.
pub proof fn lemma_tokens_ws_free(s: Seq<char>)
    ensures
        forall|i: int| 0 <= i < spec_tokens(s).len() ==> ws_free(#[trigger] spec_tokens(s)[i]),
    decreases s.len(),
{
    if s.len() == 0 {
    } else if is_ascii_ws(s[0]) {
        lemma_tokens_ws_free(s.drop_first());
        assert forall|i: int| 0 <= i < spec_tokens(s).len() implies ws_free(
            #[trigger] spec_tokens(s)[i],
        ) by {
            assert(spec_tokens(s)[i] == spec_tokens(s.drop_first())[i]);
            assert(ws_free(spec_tokens(s.drop_first())[i]));
        }
    } else {
        let k = first_ws_at(s);
        lemma_first_ws_at_props(s);
        let head = s.subrange(0, k);
        let rest = s.subrange(k, s.len() as int);
        lemma_tokens_ws_free(rest);
        assert(spec_tokens(s) == seq![head] + spec_tokens(rest));
        assert forall|i: int| 0 <= i < spec_tokens(s).len() implies ws_free(
            #[trigger] spec_tokens(s)[i],
        ) by {
            if i == 0 {
                assert(spec_tokens(s)[0] == head);
                assert forall|j: int| 0 <= j < head.len() implies !is_ascii_ws(head[j]) by {
                    assert(head[j] == s[j]);
                }
                assert(ws_free(head));
            } else {
                assert(spec_tokens(s)[i] == spec_tokens(rest)[i - 1]);
                assert(ws_free(spec_tokens(rest)[i - 1]));
            }
        }
    }
}

/// If one token after the first lacks `=`, the line's pairs fail.
pub proof fn lemma_entry_without_eq_fails(toks: Seq<Seq<char>>, j: int)
    requires
        0 <= j < toks.len(),
        spec_split_eq(toks[j]) is None,
    ensures
        spec_parse_entries(toks) is None,
    decreases toks.len(),
{
    if j < toks.len() - 1 {
        assert(toks.drop_last()[j] == toks[j]);
        lemma_entry_without_eq_fails(toks.drop_last(), j);
    }
}

/// If one line is malformed, the whole file's parse fails.
pub proof fn lemma_line_fails_file(ls: Seq<Seq<char>>, i: int)
    requires
        0 <= i < ls.len(),
        spec_parse_line(ls[i]) is None,
    ensures
        spec_parse_lines(ls) is None,
    decreases ls.len(),
{
    if i < ls.len() - 1 {
        assert(ls.drop_last()[i] == ls[i]);
        lemma_line_fails_file(ls.drop_last(), i);
    }
}

/// A token without `=` poisons its whole file: if line `i` of the text
/// has, after its first token, a token `j` with no `=` in it, then the
/// file's parse fails — it yields no records, and so no output lines at
/// all come from that file.
pub proof fn lemma_malformed_token_fails_file(text: Seq<char>, i: int, j: int)
    requires
        0 <= i < spec_lines(text).len(),
        1 <= j < spec_tokens(spec_lines(text)[i]).len(),
        spec_split_eq(spec_tokens(spec_lines(text)[i])[j]) is None,
    ensures
        spec_parse_file(text) is None,
{
    let line = spec_lines(text)[i];
    let toks = spec_tokens(line);
    assert(toks.drop_first()[j - 1] == toks[j]);
    lemma_entry_without_eq_fails(toks.drop_first(), j - 1);
    assert(spec_parse_line(line) is None);
    lemma_line_fails_file(spec_lines(text), i);
}

/// An empty line — one with no token at all — poisons its file too.
pub proof fn lemma_empty_line_fails_file(text: Seq<char>, i: int)
    requires
        0 <= i < spec_lines(text).len(),
        spec_tokens(spec_lines(text)[i]).len() == 0,
    ensures
        spec_parse_file(text) is None,
{
    assert(spec_parse_line(spec_lines(text)[i]) is None);
    lemma_line_fails_file(spec_lines(text), i);
}

/// The keys and values a successful line parse yields are all
/// whitespace-free, being slices of whitespace-free tokens.
proof fn lemma_entries_fields_ws_free(toks: Seq<Seq<char>>, es: Seq<(Seq<char>, Seq<char>)>)
    requires
        spec_parse_entries(toks) == Some(es),
        forall|i: int| 0 <= i < toks.len() ==> ws_free(#[trigger] toks[i]),
    ensures
        es.len() == toks.len(),
        forall|i: int|
            #![trigger es[i]]
            0 <= i < es.len() ==> ws_free(es[i].0) && ws_free(es[i].1),
    decreases toks.len(),
{
    if toks.len() == 0 {
    } else {
        let front = spec_parse_entries(toks.drop_last())->0;
        let tok = toks.last();
        let kv = spec_split_eq(tok)->0;
        assert(es == front.push(kv));
        assert forall|i: int| 0 <= i < toks.drop_last().len() implies ws_free(
            #[trigger] toks.drop_last()[i],
        ) by {
            assert(toks.drop_last()[i] == toks[i]);
        }
        lemma_entries_fields_ws_free(toks.drop_last(), front);
        let cut = first_at(tok, '=');
        lemma_first_at_props(tok, '=');
        assert(ws_free(tok));
        assert forall|j: int| 0 <= j < kv.0.len() implies !is_ascii_ws(kv.0[j]) by {
            assert(kv.0[j] == tok[j]);
        }
        assert forall|j: int| 0 <= j < kv.1.len() implies !is_ascii_ws(kv.1[j]) by {
            assert(kv.1[j] == tok[j + cut + 1]);
        }
        assert(ws_free(kv.0));
        assert(ws_free(kv.1));
        assert(front.len() == toks.len() - 1);
        assert forall|i: int| #![trigger es[i]] 0 <= i < es.len() implies ws_free(es[i].0)
            && ws_free(es[i].1) by {
            if i < es.len() - 1 {
                assert(0 <= i < front.len());
                assert(es[i] == front[i]);
                assert(ws_free(front[i].0));
                assert(ws_free(front[i].1));
            } else {
                assert(es[i] == kv);
            }
        }
    }
}

/// The keys and values of every record a successful file parse yields
/// are whitespace-free, so in particular newline-free.
pub proof fn lemma_parsed_fields_ws_free(ls: Seq<Seq<char>>, records: Seq<RecordView>)
    requires
        spec_parse_lines(ls) == Some(records),
    ensures
        records.len() == ls.len(),
        forall|i: int, j: int|
            #![trigger records[i].1[j]]
            0 <= i < records.len() && 0 <= j < records[i].1.len() ==> ws_free(records[i].1[j].0)
                && ws_free(records[i].1[j].1),
    decreases ls.len(),
{
    if ls.len() == 0 {
    } else {
        let front = spec_parse_lines(ls.drop_last())->0;
        let line = ls.last();
        let r = spec_parse_line(line)->0;
        assert(records == front.push(r));
        lemma_parsed_fields_ws_free(ls.drop_last(), front);
        let toks = spec_tokens(line);
        lemma_tokens_ws_free(line);
        assert forall|i: int| 0 <= i < toks.drop_first().len() implies ws_free(
            #[trigger] toks.drop_first()[i],
        ) by {
            assert(toks.drop_first()[i] == toks[i + 1]);
        }
        lemma_entries_fields_ws_free(toks.drop_first(), r.1);
        assert forall|i: int, j: int|
            #![trigger records[i].1[j]]
            0 <= i < records.len() && 0 <= j < records[i].1.len() implies ws_free(
            records[i].1[j].0,
        ) && ws_free(records[i].1[j].1) by {
            if i < records.len() - 1 {
                assert(records[i] == front[i]);
                assert(ws_free(front[i].1[j].0));
                assert(ws_free(front[i].1[j].1));
            } else {
                assert(records[i] == r);
                assert(ws_free(r.1[j].0));
                assert(ws_free(r.1[j].1));
            }
        }
    }
}

proof fn lemma_literal_counts()
    ensures
        count_char("docker_iostat_"@, '\n') == 0,
        count_char("{device=\""@, '\n') == 0,
        count_char("\",container=\""@, '\n') == 0,
        count_char("\"} "@, '\n') == 0,
        count_char("\n"@, '\n') == 1,
{
    reveal_strlit("docker_iostat_");
    reveal_strlit("{device=\"");
    reveal_strlit("\",container=\"");
    reveal_strlit("\"} ");
    reveal_strlit("\n");
    lemma_count_char_zero("docker_iostat_"@, '\n');
    lemma_count_char_zero("{device=\""@, '\n');
    lemma_count_char_zero("\",container=\""@, '\n');
    lemma_count_char_zero("\"} "@, '\n');
    assert(count_char("\n"@.drop_last(), '\n') == 0);
    assert(count_char("\n"@, '\n') == 1);
}

/// One metric line holds exactly one newline — the one that ends it —
/// when none of its label or value parts holds one.
proof fn lemma_stat_line_count(key: Seq<char>, device: Seq<char>, container: Seq<char>, value: Seq<char>)
    requires
        newline_free(key),
        newline_free(device),
        newline_free(container),
        newline_free(value),
    ensures
        count_char(spec_stat_line(key, device, container, value), '\n') == 1,
{
    lemma_literal_counts();
    lemma_count_char_zero(key, '\n');
    lemma_count_char_zero(device, '\n');
    lemma_count_char_zero(container, '\n');
    lemma_count_char_zero(value, '\n');
    let p1 = "docker_iostat_"@ + key;
    let p2 = p1 + "{device=\""@;
    let p3 = p2 + device;
    let p4 = p3 + "\",container=\""@;
    let p5 = p4 + container;
    let p6 = p5 + "\"} "@;
    let p7 = p6 + value;
    lemma_count_char_add("docker_iostat_"@, key, '\n');
    lemma_count_char_add(p1, "{device=\""@, '\n');
    lemma_count_char_add(p2, device, '\n');
    lemma_count_char_add(p3, "\",container=\""@, '\n');
    lemma_count_char_add(p4, container, '\n');
    lemma_count_char_add(p5, "\"} "@, '\n');
    lemma_count_char_add(p6, value, '\n');
    lemma_count_char_add(p7, "\n"@, '\n');
}

/// One record renders one line per pair.
proof fn lemma_record_lines_count(
    entries: Seq<(Seq<char>, Seq<char>)>,
    device: Seq<char>,
    container: Seq<char>,
)
    requires
        forall|i: int|
            #![trigger entries[i]]
            0 <= i < entries.len() ==> newline_free(entries[i].0) && newline_free(entries[i].1),
        newline_free(device),
        newline_free(container),
    ensures
        count_char(spec_stat_record_lines(entries, device, container), '\n') == entries.len(),
    decreases entries.len(),
{
    if entries.len() != 0 {
        assert forall|i: int| #![trigger entries.drop_last()[i]]
            0 <= i < entries.drop_last().len() implies newline_free(entries.drop_last()[i].0)
            && newline_free(entries.drop_last()[i].1) by {
            assert(entries.drop_last()[i] == entries[i]);
            assert(newline_free(entries[i].0));
            assert(newline_free(entries[i].1));
        }
        lemma_record_lines_count(entries.drop_last(), device, container);
        lemma_stat_line_count(entries.last().0, device, container, entries.last().1);
        lemma_count_char_add(
            spec_stat_record_lines(entries.drop_last(), device, container),
            spec_stat_line(entries.last().0, device, container, entries.last().1),
            '\n',
        );
    }
}

proof fn lemma_render_stat_upto_count(
    records: Seq<RecordView>,
    dir: Seq<(Seq<char>, Seq<char>)>,
    container: Seq<char>,
    n: int,
)
    requires
        0 <= n <= records.len(),
        forall|i: int| 0 <= i < records.len() ==> spec_lookup(dir, #[trigger] records[i].0) is Some,
        forall|i: int|
            0 <= i < records.len() ==> newline_free(spec_lookup(dir, #[trigger] records[i].0)->0),
        forall|i: int, j: int|
            #![trigger records[i].1[j]]
            0 <= i < records.len() && 0 <= j < records[i].1.len() ==> newline_free(
                records[i].1[j].0,
            ) && newline_free(records[i].1[j].1),
        newline_free(container),
    ensures
        count_char(spec_render_stat_upto(records, dir, container, n), '\n') == total_pairs(
            records.subrange(0, n),
        ),
    decreases n,
{
    if n == 0 {
        assert(records.subrange(0, 0) =~= Seq::<RecordView>::empty());
    } else {
        lemma_render_stat_upto_count(records, dir, container, n - 1);
        let dev = spec_lookup(dir, records[n - 1].0)->0;
        lemma_record_lines_count(records[n - 1].1, dev, container);
        lemma_count_char_add(
            spec_render_stat_upto(records, dir, container, n - 1),
            spec_stat_record_lines(records[n - 1].1, dev, container),
            '\n',
        );
        assert(records.subrange(0, n).drop_last() =~= records.subrange(0, n - 1));
        assert(records.subrange(0, n).last() == records[n - 1]);
    }
}

/// For all well-formed `io.stat` text whose device identifiers all
/// resolve, the rendered output holds exactly one metric line per
/// `key=value` pair of the input: its newline count equals the total
/// pair count. Each record's lines carry, by construction of the
/// rendering, the device label the directory resolves for that record's
/// `major:minor` token.
pub proof fn lemma_stat_output_line_count(
    text: Seq<char>,
    records: Seq<RecordView>,
    dir: Seq<(Seq<char>, Seq<char>)>,
    container: Seq<char>,
)
    requires
        spec_parse_file(text) == Some(records),
        forall|i: int| 0 <= i < records.len() ==> spec_lookup(dir, #[trigger] records[i].0) is Some,
        forall|i: int|
            0 <= i < records.len() ==> newline_free(spec_lookup(dir, #[trigger] records[i].0)->0),
        newline_free(container),
    ensures
        count_char(spec_render_stat(records, dir, container), '\n') == total_pairs(records),
{
    lemma_parsed_fields_ws_free(spec_lines(text), records);
    assert forall|i: int, j: int|
        #![trigger records[i].1[j]]
        0 <= i < records.len() && 0 <= j < records[i].1.len() implies newline_free(
        records[i].1[j].0,
    ) && newline_free(records[i].1[j].1) by {
        assert(ws_free(records[i].1[j].0));
        assert(ws_free(records[i].1[j].1));
        assert forall|k: int| 0 <= k < records[i].1[j].0.len() implies records[i].1[j].0[k]
            != '\n' by {
            assert(!is_ascii_ws(records[i].1[j].0[k]));
        }
        assert forall|k: int| 0 <= k < records[i].1[j].1.len() implies records[i].1[j].1[k]
            != '\n' by {
            assert(!is_ascii_ws(records[i].1[j].1[k]));
        }
    }
    lemma_render_stat_upto_count(records, dir, container, records.len() as int);
    assert(records.subrange(0, records.len() as int) =~= records);
}

} // verus!
