//! The row-oriented snapshot encoding: a fixed header line naming twenty
//! columns, then one comma-separated row per snapshot. Numeric latency and
//! loss fields are rendered with two-decimal fixed precision; an absent
//! min/max/avg renders as an empty field.
//!
//! The row writer and the row reader are proved inverses: a row written
//! for a consistent snapshot reads back as exactly that snapshot.

use vstd::prelude::*;
use crate::stats::PingStats;
use crate::stats::SnapModel;
use crate::histogram::BUCKET_COUNT;
use crate::histogram::bucket_label;
use crate::clock::rfc3339_of;
use crate::clock::is_rfc3339_char;
use crate::clock::rfc3339_of_millis;
use crate::clock::parse_rfc3339_millis;
use crate::clock::clamp_timestamp;
use crate::text::dec_digits;
use crate::text::fixed2_digits;
use crate::text::all_digits;
use crate::text::free_of;
use crate::text::join_sep;
use crate::text::split_sep;
use crate::text::join_sep_exec;
use crate::text::split_sep_exec;
use crate::text::parse_u64_field;
use crate::text::parse_fixed2_field;
use crate::text::parse_opt_fixed2_field;
use crate::text::parse_u64_field_exec;
use crate::text::parse_fixed2_field_exec;
use crate::text::parse_opt_fixed2_field_exec;
use crate::text::lemma_dec_digits_val;
use crate::text::lemma_fixed2_chars;
use crate::text::lemma_parse_u64_field;
use crate::text::lemma_parse_fixed2_field;
use crate::text::lemma_split_join;
use crate::text::push_dec;
use crate::text::push_fixed2;
use crate::text::chars_of_str;
use crate::text::string_of_chars;

verus! {

/// Text that may stand unquoted in one CSV field: no separator, no quote,
/// no line break.
pub open spec fn csv_plain(s: Seq<char>) -> bool {
    forall|i: int|
        0 <= i < s.len() ==> s[i] != ',' && s[i] != '"' && s[i] != '\n' && s[i] != '\r'
}

/// Whether a string may stand unquoted in one CSV field.
pub fn csv_plain_check(s: &str) -> (r: bool)
    ensures
        r == csv_plain(s@),
{
    let chars = chars_of_str(s);
    let mut i: usize = 0;
    while i < chars.len()
        invariant
            i <= chars@.len(),
            chars@ == s@,
            forall|k: int|
                0 <= k < i ==> s@[k] != ',' && s@[k] != '"' && s@[k] != '\n' && s@[k] != '\r',
        decreases chars@.len() - i,
    {
        let c = chars[i];
        if c == ',' || c == '"' || c == '\n' || c == '\r' {
            return false;
        }
        i += 1;
    }
    true
}

/// The optional fixed-point rendering: an absent value renders as the
/// empty field.
pub open spec fn opt_fixed2_digits(v: Option<u64>) -> Seq<char> {
    match v {
        Option::Some(x) => fixed2_digits(x as int),
        Option::None => Seq::<char>::empty(),
    }
}

/// The twenty fields of one data row, in column order: target, timestamp,
/// sent, received, loss, min, max, avg, then one count per bucket.
pub open spec fn csv_fields(m: SnapModel, ts: Seq<char>) -> Seq<Seq<char>> {
    seq![
        m.target,
        ts,
        dec_digits(m.sent as int),
        dec_digits(m.received as int),
        fixed2_digits(m.loss_centi_percent as int),
        opt_fixed2_digits(m.min_centi_ms),
        opt_fixed2_digits(m.max_centi_ms),
        opt_fixed2_digits(m.avg_centi_ms),
        dec_digits(m.buckets[0] as int),
        dec_digits(m.buckets[1] as int),
        dec_digits(m.buckets[2] as int),
        dec_digits(m.buckets[3] as int),
        dec_digits(m.buckets[4] as int),
        dec_digits(m.buckets[5] as int),
        dec_digits(m.buckets[6] as int),
        dec_digits(m.buckets[7] as int),
        dec_digits(m.buckets[8] as int),
        dec_digits(m.buckets[9] as int),
        dec_digits(m.buckets[10] as int),
        dec_digits(m.buckets[11] as int),
    ]
}

/// One data row: the twenty fields joined with commas.
pub open spec fn csv_row_text(m: SnapModel, ts: Seq<char>) -> Seq<char> {
    join_sep(csv_fields(m, ts), ',')
}

/// The twenty column names, in order.
pub open spec fn csv_header_fields() -> Seq<Seq<char>> {
    seq![
        "target"@,
        "timestamp"@,
        "sent"@,
        "received"@,
        "loss_percent"@,
        "min"@,
        "max"@,
        "avg"@,
        bucket_label(0),
        bucket_label(1),
        bucket_label(2),
        bucket_label(3),
        bucket_label(4),
        bucket_label(5),
        bucket_label(6),
        bucket_label(7),
        bucket_label(8),
        bucket_label(9),
        bucket_label(10),
        bucket_label(11),
    ]
}

/// The header line: the column names joined with commas.
pub open spec fn csv_header_text() -> Seq<char> {
    join_sep(csv_header_fields(), ',')
}

/// Every numeric field of a row parses, and there are exactly twenty
/// fields.
pub open spec fn row_fields_ok(fs: Seq<Seq<char>>) -> bool {
    &&& fs.len() == 20
    &&& parse_u64_field(fs[2]) is Some
    &&& parse_u64_field(fs[3]) is Some
    &&& parse_fixed2_field(fs[4]) is Some
    &&& parse_opt_fixed2_field(fs[5]) is Some
    &&& parse_opt_fixed2_field(fs[6]) is Some
    &&& parse_opt_fixed2_field(fs[7]) is Some
    &&& (forall|b: int| 8 <= b < 20 ==> parse_u64_field(#[trigger] fs[b]) is Some)
}

/// The snapshot content a row's fields carry.
pub open spec fn model_of_fields(fs: Seq<Seq<char>>) -> SnapModel
    recommends
        row_fields_ok(fs),
{
    SnapModel {
        target: fs[0],
        sent: parse_u64_field(fs[2])->0,
        received: parse_u64_field(fs[3])->0,
        loss_centi_percent: parse_fixed2_field(fs[4])->0,
        min_centi_ms: parse_opt_fixed2_field(fs[5])->0,
        max_centi_ms: parse_opt_fixed2_field(fs[6])->0,
        avg_centi_ms: parse_opt_fixed2_field(fs[7])->0,
        buckets: Seq::new(BUCKET_COUNT as nat, |b: int| parse_u64_field(fs[8 + b])->0),
    }
}

/// What one data row reads back as: `None` unless it has exactly twenty
/// fields, every numeric field parses, and the fields form an internally
/// consistent snapshot.
pub open spec fn parse_row_spec(s: Seq<char>) -> Option<SnapModel> {
    let fs = split_sep(s, ',');
    if row_fields_ok(fs) && model_of_fields(fs).wf() {
        Some(model_of_fields(fs))
    } else {
        None
    }
}

/// Law: writing a consistent snapshot as a CSV row and re-reading the row
/// reproduces the snapshot — target, sent, received, loss rate, extremes,
/// average and every bucket count all survive the encoding.
pub proof fn lemma_csv_round_trip(m: SnapModel, ts: Seq<char>)
    requires
        m.wf(),
        csv_plain(m.target),
        forall|i: int| 0 <= i < ts.len() ==> is_rfc3339_char(#[trigger] ts[i]),
    ensures
        parse_row_spec(csv_row_text(m, ts)) == Some(m),
{
    let fs = csv_fields(m, ts);
    lemma_dec_digits_val(m.sent as int);
    lemma_dec_digits_val(m.received as int);
    lemma_fixed2_chars(m.loss_centi_percent as int);
    if m.min_centi_ms is Some {
        lemma_fixed2_chars(m.min_centi_ms->0 as int);
    }
    if m.max_centi_ms is Some {
        lemma_fixed2_chars(m.max_centi_ms->0 as int);
    }
    if m.avg_centi_ms is Some {
        lemma_fixed2_chars(m.avg_centi_ms->0 as int);
    }
    assert forall|b: int| 0 <= b < 12 implies all_digits(dec_digits(m.buckets[b] as int))
        && parse_u64_field(dec_digits(m.buckets[b] as int)) == Some(m.buckets[b]) by {
        lemma_dec_digits_val(m.buckets[b] as int);
        lemma_parse_u64_field(m.buckets[b]);
    }
    assert forall|k: int| 0 <= k < fs.len() implies free_of(#[trigger] fs[k], ',') by {
        assert forall|i: int| 0 <= i < fs[k].len() implies fs[k][i] != ',' by {
            if k == 1 {
                assert(is_rfc3339_char(ts[i]));
            }
        }
    }
    lemma_split_join(fs, ',');
    lemma_parse_u64_field(m.sent);
    lemma_parse_u64_field(m.received);
    lemma_parse_fixed2_field(m.loss_centi_percent);
    if m.min_centi_ms is Some {
        lemma_parse_fixed2_field(m.min_centi_ms->0);
        lemma_dec_digits_val(m.min_centi_ms->0 as int / 100);
    }
    if m.max_centi_ms is Some {
        lemma_parse_fixed2_field(m.max_centi_ms->0);
        lemma_dec_digits_val(m.max_centi_ms->0 as int / 100);
    }
    if m.avg_centi_ms is Some {
        lemma_parse_fixed2_field(m.avg_centi_ms->0);
        lemma_dec_digits_val(m.avg_centi_ms->0 as int / 100);
    }
    assert(row_fields_ok(fs));
    let m2 = model_of_fields(fs);
    assert(m2.buckets =~= m.buckets);
    assert(m2 =~= m);
}

/// Build one data row for a consistent snapshot, as characters.
fn csv_row_chars(stats: &PingStats) -> (r: Vec<char>)
    requires
        stats.wf(),
        csv_plain(stats.target@),
    ensures
        r@ == csv_row_text(stats.model(), rfc3339_of(stats.timestamp_ms)),
{
    let ghost m = stats.model();
    let ghost ts = rfc3339_of(stats.timestamp_ms);
    let mut fields: Vec<Vec<char>> = Vec::new();
    fields.push(chars_of_str(stats.target.as_str()));
    let ts_text = rfc3339_of_millis(stats.timestamp_ms);
    fields.push(chars_of_str(ts_text.as_str()));
    let mut f_sent: Vec<char> = Vec::new();
    push_dec(&mut f_sent, stats.sent);
    fields.push(f_sent);
    let mut f_recv: Vec<char> = Vec::new();
    push_dec(&mut f_recv, stats.received);
    fields.push(f_recv);
    let mut f_loss: Vec<char> = Vec::new();
    push_fixed2(&mut f_loss, stats.loss_centi_percent);
    fields.push(f_loss);
    let mut f_min: Vec<char> = Vec::new();
    if let Some(v) = stats.min_centi_ms {
        push_fixed2(&mut f_min, v);
    }
    fields.push(f_min);
    let mut f_max: Vec<char> = Vec::new();
    if let Some(v) = stats.max_centi_ms {
        push_fixed2(&mut f_max, v);
    }
    fields.push(f_max);
    let mut f_avg: Vec<char> = Vec::new();
    if let Some(v) = stats.avg_centi_ms {
        push_fixed2(&mut f_avg, v);
    }
    fields.push(f_avg);
    let mut b: usize = 0;
    while b < BUCKET_COUNT
        invariant
            b <= BUCKET_COUNT,
            stats.latency_buckets@.len() == BUCKET_COUNT,
            fields@.len() == 8 + b,
            forall|k: int| 0 <= k < 8 ==> fields@[k]@ == csv_fields(stats.model(), rfc3339_of(
                stats.timestamp_ms,
            ))[k],
            forall|k: int|
                8 <= k < 8 + b ==> fields@[k]@ == dec_digits(
                    stats.latency_buckets@[k - 8] as int,
                ),
        decreases BUCKET_COUNT - b,
    {
        let mut f: Vec<char> = Vec::new();
        push_dec(&mut f, stats.latency_buckets[b]);
        fields.push(f);
        b += 1;
    }
    proof {
        assert(forall|k: int|
            0 <= k < fields@.len() ==> #[trigger] fields.deep_view()[k] =~= fields@[k]@);
        assert(fields.deep_view() =~~= csv_fields(m, ts));
    }
    join_sep_exec(&fields, ',')
}

/// One data row for a consistent snapshot, ready to append to the table.
pub fn csv_row_line(stats: &PingStats) -> (r: String)
    requires
        stats.wf(),
        csv_plain(stats.target@),
    ensures
        r@ == csv_row_text(stats.model(), rfc3339_of(stats.timestamp_ms)),
{
    let chars = csv_row_chars(stats);
    string_of_chars(&chars)
}

/// The header line naming the twenty columns.
pub fn csv_header_line() -> (r: String)
    ensures
        r@ == csv_header_text(),
{
    let mut fields: Vec<Vec<char>> = Vec::new();
    fields.push(chars_of_str("target"));
    fields.push(chars_of_str("timestamp"));
    fields.push(chars_of_str("sent"));
    fields.push(chars_of_str("received"));
    fields.push(chars_of_str("loss_percent"));
    fields.push(chars_of_str("min"));
    fields.push(chars_of_str("max"));
    fields.push(chars_of_str("avg"));
    fields.push(chars_of_str("0-50ms"));
    fields.push(chars_of_str("50-100ms"));
    fields.push(chars_of_str("100-150ms"));
    fields.push(chars_of_str("150-200ms"));
    fields.push(chars_of_str("200-250ms"));
    fields.push(chars_of_str("250-300ms"));
    fields.push(chars_of_str("300-350ms"));
    fields.push(chars_of_str("350-400ms"));
    fields.push(chars_of_str("400-450ms"));
    fields.push(chars_of_str("450-500ms"));
    fields.push(chars_of_str("500-999ms"));
    fields.push(chars_of_str(">1000ms"));
    proof {
        assert(forall|k: int|
            0 <= k < fields@.len() ==> #[trigger] fields.deep_view()[k] =~= fields@[k]@);
        assert(fields.deep_view() =~~= csv_header_fields());
    }
    let chars = join_sep_exec(&fields, ',');
    string_of_chars(&chars)
}

/// What one append to the table writes: the row, preceded by the header
/// when the table is new, each line ended by a newline.
pub open spec fn csv_chunk_text(m: SnapModel, ts: Seq<char>, table_exists: bool) -> Seq<char> {
    if table_exists {
        csv_row_text(m, ts) + seq!['\n']
    } else {
        csv_header_text() + seq!['\n'] + csv_row_text(m, ts) + seq!['\n']
    }
}

/// The text one append to the table writes: the row for this snapshot,
/// preceded by the header when the table does not exist yet.
pub fn csv_chunk(stats: &PingStats, table_exists: bool) -> (r: String)
    requires
        stats.wf(),
        csv_plain(stats.target@),
    ensures
        r@ == csv_chunk_text(stats.model(), rfc3339_of(stats.timestamp_ms), table_exists),
{
    let mut out: Vec<char> = Vec::new();
    if !table_exists {
        let header = csv_header_line();
        crate::text::push_str_chars(&mut out, header.as_str());
        out.push('\n');
    }
    let row = csv_row_chars(stats);
    crate::text::push_all(&mut out, &row);
    out.push('\n');
    proof {
        assert(out@ =~= csv_chunk_text(stats.model(), rfc3339_of(stats.timestamp_ms), table_exists));
    }
    string_of_chars(&out)
}

/// Read one data row back as a snapshot record. The timestamp field is
/// re-read through chrono where it parses, and set to the epoch where it
/// does not; every other field must parse exactly and the whole must be
/// internally consistent, else nothing is returned.
pub fn parse_csv_row(line: &str) -> (r: Option<PingStats>)
    ensures
        match r {
            Option::Some(st) => parse_row_spec(line@) == Some(st.model()) && st.wf(),
            Option::None => parse_row_spec(line@) is None,
        },
{
    let chars = chars_of_str(line);
    let fields = split_sep_exec(&chars, ',');
    proof {
        assert(forall|k: int|
            0 <= k < fields@.len() ==> #[trigger] fields.deep_view()[k] =~= fields@[k]@);
    }
    let ghost fs = split_sep(line@, ',');
    if fields.len() != 20 {
        return None;
    }
    let sent = match parse_u64_field_exec(&fields[2]) {
        Some(v) => v,
        None => {
            return None;
        },
    };
    let received = match parse_u64_field_exec(&fields[3]) {
        Some(v) => v,
        None => {
            return None;
        },
    };
    let loss = match parse_fixed2_field_exec(&fields[4]) {
        Some(v) => v,
        None => {
            return None;
        },
    };
    let min_v = match parse_opt_fixed2_field_exec(&fields[5]) {
        Some(v) => v,
        None => {
            return None;
        },
    };
    let max_v = match parse_opt_fixed2_field_exec(&fields[6]) {
        Some(v) => v,
        None => {
            return None;
        },
    };
    let avg_v = match parse_opt_fixed2_field_exec(&fields[7]) {
        Some(v) => v,
        None => {
            return None;
        },
    };
    let mut buckets: Vec<u64> = Vec::new();
    let mut b: usize = 8;
    while b < 20
        invariant
            8 <= b <= 20,
            fields@.len() == 20,
            fs == split_sep(line@, ','),
            fs =~= fields.deep_view(),
            forall|k: int|
                0 <= k < fields@.len() ==> #[trigger] fields.deep_view()[k] == fields@[k]@,
            buckets@.len() == b - 8,
            forall|k: int|
                8 <= k < b ==> parse_u64_field(fs[k]) == Some(buckets@[k - 8]),
        decreases 20 - b,
    {
        match parse_u64_field_exec(&fields[b]) {
            Some(v) => {
                buckets.push(v);
            },
            None => {
                proof {
                    assert(parse_u64_field(fs[b as int]) is None);
                    assert(!row_fields_ok(fs));
                    assert(parse_row_spec(line@) is None);
                }
                return None;
            },
        }
        b += 1;
    }
    // consistency of what was read, exactly as the model demands
    if received > sent {
        return None;
    }
    if loss > 10000 {
        return None;
    }
    if min_v.is_some() != (received > 0) {
        return None;
    }
    if max_v.is_some() != (received > 0) {
        return None;
    }
    if avg_v.is_some() != (received > 0) {
        return None;
    }
    let total: u128 = buckets[0] as u128 + buckets[1] as u128 + buckets[2] as u128
        + buckets[3] as u128 + buckets[4] as u128 + buckets[5] as u128 + buckets[6] as u128
        + buckets[7] as u128 + buckets[8] as u128 + buckets[9] as u128 + buckets[10] as u128
        + buckets[11] as u128;
    if total != received as u128 {
        return None;
    }
    let ts_string = string_of_chars(&fields[1]);
    let ts_ms = match parse_rfc3339_millis(ts_string.as_str()) {
        Some(t) => clamp_timestamp(t),
        None => 0,
    };
    let st = PingStats {
        target: string_of_chars(&fields[0]),
        timestamp_ms: ts_ms,
        sent,
        received,
        loss_centi_percent: loss,
        min_centi_ms: min_v,
        max_centi_ms: max_v,
        avg_centi_ms: avg_v,
        latency_buckets: buckets,
    };
    proof {
        assert(row_fields_ok(fs));
        let m = model_of_fields(fs);
        assert(st.model().buckets =~= m.buckets);
        assert(st.model() =~= m);
        assert(m.wf());
    }
    Some(st)
}

} // verus!
