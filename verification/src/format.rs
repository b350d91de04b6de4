//! The metrics formatter and the output buffer.
//!
//! Rendered output is metrics-exposition text: one sample per line,
//! `name{label="value",...} value\n`. Metric names are the fixed prefixes
//! `docker_iostat_` and `docker_iopressure_` followed by the raw key; the
//! device or pressure-type label comes first, the container label second.
//! Records render in file order and keys in line order, with no sorting
//! and no deduplication.

use vstd::prelude::*;
use vstd::string::StringExecFns;

use crate::device::spec_lookup;
use crate::device::DeviceDirectory;
use crate::errors::CollectError;

verus! {

/// The shape of one parsed record in specifications: the head token and
/// the `key=value` pairs.
pub type RecordView = (Seq<char>, Seq<(Seq<char>, Seq<char>)>);

/// The output of one collection cycle, owned by that cycle alone. Every
/// operation only appends: lines once written are never altered, so one
/// container's failure cannot disturb what earlier containers produced.
pub struct MetricsBuffer {
    text: String,
}

impl View for MetricsBuffer {
    type V = Seq<char>;

    closed spec fn view(&self) -> Seq<char> {
        self.text@
    }
}

impl MetricsBuffer {
    /// An empty buffer, for the start of a cycle.
    pub fn new() -> (b: Self)
        ensures
            b@ == Seq::<char>::empty(),
    {
        MetricsBuffer { text: String::new() }
    }

    /// Hand the accumulated text to the delivery adapter.
    pub fn into_text(self) -> (r: String)
        ensures
            r@ == self@,
    {
        self.text
    }

    /// Read the accumulated text.
    pub fn as_str(&self) -> (r: &str)
        ensures
            r@ == self@,
    {
        self.text.as_str()
    }
}

/// Append `string` to the output buffer.
pub fn write_utf8(output: &mut MetricsBuffer, string: &str)
    ensures
        final(output)@ == old(output)@ + string@,
{
    output.text.append(string);
}

/// One `io.stat` metric line.
pub open spec fn spec_stat_line(
    key: Seq<char>,
    device: Seq<char>,
    container: Seq<char>,
    value: Seq<char>,
) -> Seq<char> {
    "docker_iostat_"@ + key + "{device=\""@ + device + "\",container=\""@ + container + "\"} "@
        + value + "\n"@
}

/// One `io.pressure` metric line.
pub open spec fn spec_pressure_line(
    key: Seq<char>,
    kind: Seq<char>,
    container: Seq<char>,
    value: Seq<char>,
) -> Seq<char> {
    "docker_iopressure_"@ + key + "{type=\""@ + kind + "\",container=\""@ + container + "\"} "@
        + value + "\n"@
}

/// The `io.stat` lines of one record: one line per pair, in order.
pub open spec fn spec_stat_record_lines(
    entries: Seq<(Seq<char>, Seq<char>)>,
    device: Seq<char>,
    container: Seq<char>,
) -> Seq<char>
    decreases entries.len(),
{
    if entries.len() == 0 {
        Seq::empty()
    } else {
        spec_stat_record_lines(entries.drop_last(), device, container) + spec_stat_line(
            entries.last().0,
            device,
            container,
            entries.last().1,
        )
    }
}

/// The `io.pressure` lines of one record: one line per pair, in order.
pub open spec fn spec_pressure_record_lines(
    entries: Seq<(Seq<char>, Seq<char>)>,
    kind: Seq<char>,
    container: Seq<char>,
) -> Seq<char>
    decreases entries.len(),
{
    if entries.len() == 0 {
        Seq::empty()
    } else {
        spec_pressure_record_lines(entries.drop_last(), kind, container) + spec_pressure_line(
            entries.last().0,
            kind,
            container,
            entries.last().1,
        )
    }
}

/// Index of the first record whose device identifier the directory cannot
/// resolve, or the record count when all resolve.
pub open spec fn first_unresolved(
    records: Seq<RecordView>,
    dir: Seq<(Seq<char>, Seq<char>)>,
) -> int
    decreases records.len(),
{
    if records.len() == 0 {
        0
    } else if spec_lookup(dir, records[0].0) is None {
        0
    } else {
        1 + first_unresolved(records.drop_first(), dir)
    }
}

pub proof fn lemma_first_unresolved_is(
    records: Seq<RecordView>,
    dir: Seq<(Seq<char>, Seq<char>)>,
    k: int,
)
    requires
        0 <= k <= records.len(),
        forall|j: int| 0 <= j < k ==> spec_lookup(dir, records[j].0) is Some,
        k == records.len() || spec_lookup(dir, records[k].0) is None,
    ensures
        first_unresolved(records, dir) == k,
    decreases records.len(),
{
    if k == 0 {
    } else {
        assert(spec_lookup(dir, records[0].0) is Some);
        assert forall|j: int| 0 <= j < k - 1 implies spec_lookup(
            dir,
            records.drop_first()[j].0,
        ) is Some by {
            assert(records.drop_first()[j] == records[j + 1]);
        }
        if k < records.len() {
            assert(records.drop_first()[k - 1] == records[k]);
        }
        lemma_first_unresolved_is(records.drop_first(), dir, k - 1);
    }
}

/// The `io.stat` output of the first `n` records, each with its device
/// label resolved through the directory.
pub open spec fn spec_render_stat_upto(
    records: Seq<RecordView>,
    dir: Seq<(Seq<char>, Seq<char>)>,
    container: Seq<char>,
    n: int,
) -> Seq<char>
    decreases n,
{
    if n <= 0 {
        Seq::empty()
    } else {
        spec_render_stat_upto(records, dir, container, n - 1) + spec_stat_record_lines(
            records[n - 1].1,
            spec_lookup(dir, records[n - 1].0)->0,
            container,
        )
    }
}

/// The full `io.stat` output of a record sequence.
pub open spec fn spec_render_stat(
    records: Seq<RecordView>,
    dir: Seq<(Seq<char>, Seq<char>)>,
    container: Seq<char>,
) -> Seq<char> {
    spec_render_stat_upto(records, dir, container, records.len() as int)
}

/// The full `io.pressure` output of a record sequence.
pub open spec fn spec_render_pressure(records: Seq<RecordView>, container: Seq<char>) -> Seq<char>
    decreases records.len(),
{
    if records.len() == 0 {
        Seq::empty()
    } else {
        spec_render_pressure(records.drop_last(), container) + spec_pressure_record_lines(
            records.last().1,
            records.last().0,
            container,
        )
    }
}

/// Append one `io.stat` metric line to the buffer.
fn write_stat_line(output: &mut MetricsBuffer, key: &str, device: &str, container: &str, value: &str)
    ensures
        final(output)@ == old(output)@ + spec_stat_line(key@, device@, container@, value@),
{
    write_utf8(output, "docker_iostat_");
    write_utf8(output, key);
    write_utf8(output, "{device=\"");
    write_utf8(output, device);
    write_utf8(output, "\",container=\"");
    write_utf8(output, container);
    write_utf8(output, "\"} ");
    write_utf8(output, value);
    write_utf8(output, "\n");
    proof {
        assert(output@ =~= old(output)@ + spec_stat_line(key@, device@, container@, value@));
    }
}

/// Append one `io.pressure` metric line to the buffer.
fn write_pressure_line(
    output: &mut MetricsBuffer,
    key: &str,
    kind: &str,
    container: &str,
    value: &str,
)
    ensures
        final(output)@ == old(output)@ + spec_pressure_line(key@, kind@, container@, value@),
{
    write_utf8(output, "docker_iopressure_");
    write_utf8(output, key);
    write_utf8(output, "{type=\"");
    write_utf8(output, kind);
    write_utf8(output, "\",container=\"");
    write_utf8(output, container);
    write_utf8(output, "\"} ");
    write_utf8(output, value);
    write_utf8(output, "\n");
    proof {
        assert(output@ =~= old(output)@ + spec_pressure_line(key@, kind@, container@, value@));
    }
}

/// Render `io.stat` records into the buffer.
///
/// Each record's device identifier is resolved through the directory and
/// its pairs become one line each. Records are rendered in order up to the
/// first record whose device the directory cannot resolve; at such a
/// record rendering stops with `DeviceResolutionError`, leaving the lines
/// already rendered in place.
pub fn format_iostat(
    container_name: &str,
    records: &Vec<crate::parse::IoStatRecord>,
    devices: &DeviceDirectory,
    output: &mut MetricsBuffer,
) -> (r: Result<(), CollectError>)
    ensures
        final(output)@ == old(output)@ + spec_render_stat_upto(
            records.deep_view(),
            devices@,
            container_name@,
            first_unresolved(records.deep_view(), devices@),
        ),
        r is Ok <==> first_unresolved(records.deep_view(), devices@)
            == records.deep_view().len(),
        r is Err ==> r == Err::<(), CollectError>(CollectError::DeviceResolutionError),
{
    let ghost rv = records.deep_view();
    let ghost dv = devices@;
    let mut i: usize = 0;
    proof {
        assert(old(output)@ + spec_render_stat_upto(rv, dv, container_name@, 0) =~= old(output)@);
    }
    while i < records.len()
        invariant
            rv == records.deep_view(),
            dv == devices@,
            0 <= i <= records@.len(),
            rv.len() == records@.len(),
            forall|j: int| 0 <= j < i ==> spec_lookup(dv, rv[j].0) is Some,
            output@ == old(output)@ + spec_render_stat_upto(rv, dv, container_name@, i as int),
        decreases records@.len() - i,
    {
        let ghost mid = output@;
        let rec = &records[i];
        proof {
            assert(rv[i as int] == (records@[i as int].device@, records@[
                i as int
            ].entries.deep_view()));
        }
        let device_name = match devices.lookup(rec.device.as_str()) {
            Some(name) => name,
            None => {
                proof {
                    lemma_first_unresolved_is(rv, dv, i as int);
                }
                return Err(CollectError::DeviceResolutionError);
            },
        };
        let ghost ev = records@[i as int].entries.deep_view();
        let mut j: usize = 0;
        proof {
            assert(ev.subrange(0, 0) =~= Seq::<(Seq<char>, Seq<char>)>::empty());
            assert(mid + spec_stat_record_lines(ev.subrange(0, 0), device_name@, container_name@)
                =~= mid);
        }
        while j < rec.entries.len()
            invariant
                ev == rec.entries.deep_view(),
                0 <= j <= rec.entries@.len(),
                ev.len() == rec.entries@.len(),
                spec_lookup(dv, rv[i as int].0) == Some(device_name@),
                rv[i as int].1 == ev,
                output@ == mid + spec_stat_record_lines(
                    ev.subrange(0, j as int),
                    device_name@,
                    container_name@,
                ),
            decreases rec.entries@.len() - j,
        {
            let kv = &rec.entries[j];
            proof {
                assert(ev[j as int] == (rec.entries@[j as int].key@, rec.entries@[
                    j as int
                ].value@));
            }
            write_stat_line(
                output,
                kv.key.as_str(),
                device_name.as_str(),
                container_name,
                kv.value.as_str(),
            );
            proof {
                assert(ev.subrange(0, j + 1).drop_last() =~= ev.subrange(0, j as int));
                assert(ev.subrange(0, j + 1).last() == ev[j as int]);
                assert(output@ =~= mid + spec_stat_record_lines(
                    ev.subrange(0, j + 1),
                    device_name@,
                    container_name@,
                ));
            }
            j = j + 1;
        }
        proof {
            assert(ev.subrange(0, ev.len() as int) =~= ev);
            assert(output@ =~= old(output)@ + spec_render_stat_upto(
                rv,
                dv,
                container_name@,
                i + 1,
            ));
        }
        i = i + 1;
    }
    proof {
        lemma_first_unresolved_is(rv, dv, rv.len() as int);
    }
    Ok(())
}

/// Render `io.pressure` records into the buffer: one line per pair, the
/// record's pressure type as the `type` label. Rendering never fails.
pub fn format_iopressure(
    container_name: &str,
    records: &Vec<crate::parse::IoPressureRecord>,
    output: &mut MetricsBuffer,
)
    ensures
        final(output)@ == old(output)@ + spec_render_pressure(
            records.deep_view(),
            container_name@,
        ),
{
    let ghost rv = records.deep_view();
    let mut i: usize = 0;
    proof {
        assert(rv.subrange(0, 0) =~= Seq::<RecordView>::empty());
        assert(old(output)@ + spec_render_pressure(rv.subrange(0, 0), container_name@)
            =~= old(output)@);
    }
    while i < records.len()
        invariant
            rv == records.deep_view(),
            0 <= i <= records@.len(),
            rv.len() == records@.len(),
            output@ == old(output)@ + spec_render_pressure(rv.subrange(0, i as int), container_name@),
        decreases records@.len() - i,
    {
        let ghost mid = output@;
        let rec = &records[i];
        proof {
            assert(rv[i as int] == (records@[i as int].kind@, records@[
                i as int
            ].entries.deep_view()));
        }
        let ghost ev = records@[i as int].entries.deep_view();
        let mut j: usize = 0;
        proof {
            assert(ev.subrange(0, 0) =~= Seq::<(Seq<char>, Seq<char>)>::empty());
            assert(mid + spec_pressure_record_lines(ev.subrange(0, 0), rec.kind@, container_name@)
                =~= mid);
        }
        while j < rec.entries.len()
            invariant
                ev == rec.entries.deep_view(),
                0 <= j <= rec.entries@.len(),
                ev.len() == rec.entries@.len(),
                rv[i as int] == (rec.kind@, ev),
                output@ == mid + spec_pressure_record_lines(
                    ev.subrange(0, j as int),
                    rec.kind@,
                    container_name@,
                ),
            decreases rec.entries@.len() - j,
        {
            let kv = &rec.entries[j];
            proof {
                assert(ev[j as int] == (rec.entries@[j as int].key@, rec.entries@[
                    j as int
                ].value@));
            }
            write_pressure_line(
                output,
                kv.key.as_str(),
                rec.kind.as_str(),
                container_name,
                kv.value.as_str(),
            );
            proof {
                assert(ev.subrange(0, j + 1).drop_last() =~= ev.subrange(0, j as int));
                assert(ev.subrange(0, j + 1).last() == ev[j as int]);
                assert(output@ =~= mid + spec_pressure_record_lines(
                    ev.subrange(0, j + 1),
                    rec.kind@,
                    container_name@,
                ));
            }
            j = j + 1;
        }
        proof {
            assert(ev.subrange(0, ev.len() as int) =~= ev);
            assert(rv.subrange(0, i + 1).drop_last() =~= rv.subrange(0, i as int));
            assert(rv.subrange(0, i + 1).last() == rv[i as int]);
            assert(output@ =~= old(output)@ + spec_render_pressure(
                rv.subrange(0, i + 1),
                container_name@,
            ));
        }
        i = i + 1;
    }
    proof {
        assert(rv.subrange(0, rv.len() as int) =~= rv);
    }
}

} // verus!
