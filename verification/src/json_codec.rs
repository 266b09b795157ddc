//! The list-oriented snapshot encoding: the destination holds one JSON
//! array of every snapshot ever appended. Appending re-reads the list,
//! adds the new snapshot and rewrites the whole text.
//!
//! One snapshot is a JSON object with a fixed key order; the histogram is
//! a nested object keyed by bucket name. Objects stand one per line inside
//! the array. The writer and the reader are proved inverses.

use vstd::prelude::*;
use crate::stats::PingStats;
use crate::stats::SnapModel;
use crate::histogram::BUCKET_COUNT;
use crate::histogram::bucket_label;
use crate::histogram::classify_label;
use crate::clock::rfc3339_of;
use crate::clock::is_rfc3339_char;
use crate::clock::rfc3339_of_millis;
use crate::clock::parse_rfc3339_millis;
use crate::clock::clamp_timestamp;
use crate::text::dec_digits;
use crate::text::fixed2_digits;
use crate::text::is_digit;
use crate::text::free_of;
use crate::text::join_sep;
use crate::text::split_sep;
use crate::text::join_sep_exec;
use crate::text::split_sep_exec;
use crate::text::parse_u64_field;
use crate::text::parse_fixed2_field;
use crate::text::parse_u64_field_exec;
use crate::text::parse_fixed2_field_exec;
use crate::text::lemma_dec_digits_val;
use crate::text::lemma_fixed2_chars;
use crate::text::lemma_parse_u64_field;
use crate::text::lemma_parse_fixed2_field;
use crate::text::lemma_split_join;
use crate::text::lemma_free_concat;
use crate::text::lemma_digits_free;
use crate::text::lemma_fixed2_free;
use crate::text::push_dec;
use crate::text::push_fixed2;
use crate::text::push_all;
use crate::text::push_str_chars;
use crate::text::chars_of_str;
use crate::text::string_of_chars;
use crate::text::subrange_chars;
use crate::text::eq_chars;

verus! {

/// Text that may stand inside a JSON string of this encoding without
/// escaping, and inside one comma-separated piece of an object: printable,
/// no quote, no backslash, no comma, no brace, no line break.
pub open spec fn json_plain(s: Seq<char>) -> bool {
    forall|i: int|
        0 <= i < s.len() ==> s[i] != '"' && s[i] != '\\' && s[i] != ',' && s[i] != '{' && s[i]
            != '}' && (s[i] as u32) >= 32
}

/// Whether a string may stand unescaped in this encoding's JSON strings.
pub fn json_plain_check(s: &str) -> (r: bool)
    ensures
        r == json_plain(s@),
{
    let chars = chars_of_str(s);
    let mut i: usize = 0;
    while i < chars.len()
        invariant
            i <= chars@.len(),
            chars@ == s@,
            forall|k: int|
                0 <= k < i ==> s@[k] != '"' && s@[k] != '\\' && s@[k] != ',' && s@[k] != '{'
                    && s@[k] != '}' && (s@[k] as u32) >= 32,
        decreases chars@.len() - i,
    {
        let c = chars[i];
        let cv = c as u32;
        if c == '"' || c == '\\' || c == ',' || c == '{' || c == '}' || cv < 32 {
            return false;
        }
        i += 1;
    }
    true
}

/// A JSON number or `null` for an optional fixed-point value.
pub open spec fn json_opt_fixed2(v: Option<u64>) -> Seq<char> {
    match v {
        Option::Some(x) => fixed2_digits(x as int),
        Option::None => "null"@,
    }
}

/// The key text in front of bucket `b`'s count, inside the histogram
/// object (the first key also opens the object).
pub open spec fn bucket_key(b: int) -> Seq<char> {
    (if b == 0 {
        "{\""@
    } else {
        "\""@
    }) + bucket_label(b) + "\":"@
}

/// The twenty comma-separated pieces of one snapshot object, in order.
/// The last piece also closes the histogram object.
pub open spec fn json_fields(m: SnapModel, ts: Seq<char>) -> Seq<Seq<char>> {
    seq![
        "\"target\":\""@ + m.target + "\""@,
        "\"timestamp\":\""@ + ts + "\""@,
        "\"sent\":"@ + dec_digits(m.sent as int),
        "\"received\":"@ + dec_digits(m.received as int),
        "\"loss_percent\":"@ + fixed2_digits(m.loss_centi_percent as int),
        "\"min\":"@ + json_opt_fixed2(m.min_centi_ms),
        "\"max\":"@ + json_opt_fixed2(m.max_centi_ms),
        "\"avg\":"@ + json_opt_fixed2(m.avg_centi_ms),
        "\"latency_buckets\":"@ + bucket_key(0) + dec_digits(m.buckets[0] as int),
        bucket_key(1) + dec_digits(m.buckets[1] as int),
        bucket_key(2) + dec_digits(m.buckets[2] as int),
        bucket_key(3) + dec_digits(m.buckets[3] as int),
        bucket_key(4) + dec_digits(m.buckets[4] as int),
        bucket_key(5) + dec_digits(m.buckets[5] as int),
        bucket_key(6) + dec_digits(m.buckets[6] as int),
        bucket_key(7) + dec_digits(m.buckets[7] as int),
        bucket_key(8) + dec_digits(m.buckets[8] as int),
        bucket_key(9) + dec_digits(m.buckets[9] as int),
        bucket_key(10) + dec_digits(m.buckets[10] as int),
        bucket_key(11) + dec_digits(m.buckets[11] as int) + "}"@,
    ]
}

/// One snapshot object: the pieces joined with commas, in braces.
pub open spec fn json_obj_text(m: SnapModel, ts: Seq<char>) -> Seq<char> {
    "{"@ + join_sep(json_fields(m, ts), ',') + "}"@
}

/// The rest of a piece after a fixed key text, when the piece starts with
/// that text.
pub open spec fn strip_key(f: Seq<char>, key: Seq<char>) -> Option<Seq<char>> {
    if key.len() <= f.len() && f.subrange(0, key.len() as int) == key {
        Some(f.subrange(key.len() as int, f.len() as int))
    } else {
        None
    }
}

/// The content of a quoted value: the rest with its closing quote
/// removed.
pub open spec fn strip_quote(rest: Seq<char>) -> Option<Seq<char>> {
    if rest.len() >= 1 && rest.last() == '"' {
        Some(rest.drop_last())
    } else {
        None
    }
}

/// A JSON number or `null`, read back.
pub open spec fn parse_json_opt_fixed2(rest: Seq<char>) -> Option<Option<u64>> {
    if rest == "null"@ {
        Some(None)
    } else {
        match parse_fixed2_field(rest) {
            Some(v) => Some(Some(v)),
            None => None,
        }
    }
}

/// The value piece of bucket `b`, read back.
pub open spec fn parse_bucket_piece(f: Seq<char>, b: int) -> Option<u64> {
    let key = if b == 0 {
        "\"latency_buckets\":"@ + bucket_key(0)
    } else {
        bucket_key(b)
    };
    match strip_key(f, key) {
        Some(rest) => {
            if b == 11 {
                if rest.len() >= 1 && rest.last() == '}' {
                    parse_u64_field(rest.drop_last())
                } else {
                    None
                }
            } else {
                parse_u64_field(rest)
            }
        },
        None => None,
    }
}

/// Every piece of an object parses: the keys stand in order, the numeric
/// values read back, and there are exactly twenty pieces.
pub open spec fn obj_fields_ok(fs: Seq<Seq<char>>) -> bool {
    &&& fs.len() == 20
    &&& (strip_key(fs[0], "\"target\":\""@) matches Some(r) && strip_quote(r) matches Some(t)
        && json_plain(t))
    &&& (strip_key(fs[1], "\"timestamp\":\""@) matches Some(r) && strip_quote(r) is Some)
    &&& (strip_key(fs[2], "\"sent\":"@) matches Some(r) && parse_u64_field(r) is Some)
    &&& (strip_key(fs[3], "\"received\":"@) matches Some(r) && parse_u64_field(r) is Some)
    &&& (strip_key(fs[4], "\"loss_percent\":"@) matches Some(r) && parse_fixed2_field(r) is Some)
    &&& (strip_key(fs[5], "\"min\":"@) matches Some(r) && parse_json_opt_fixed2(r) is Some)
    &&& (strip_key(fs[6], "\"max\":"@) matches Some(r) && parse_json_opt_fixed2(r) is Some)
    &&& (strip_key(fs[7], "\"avg\":"@) matches Some(r) && parse_json_opt_fixed2(r) is Some)
    &&& (forall|b: int| 0 <= b < 12 ==> parse_bucket_piece(#[trigger] fs[8 + b], b) is Some)
}

/// The snapshot content an object's pieces carry.
pub open spec fn model_of_obj_fields(fs: Seq<Seq<char>>) -> SnapModel
    recommends
        obj_fields_ok(fs),
{
    SnapModel {
        target: strip_quote(strip_key(fs[0], "\"target\":\""@)->0)->0,
        sent: parse_u64_field(strip_key(fs[2], "\"sent\":"@)->0)->0,
        received: parse_u64_field(strip_key(fs[3], "\"received\":"@)->0)->0,
        loss_centi_percent: parse_fixed2_field(strip_key(fs[4], "\"loss_percent\":"@)->0)->0,
        min_centi_ms: parse_json_opt_fixed2(strip_key(fs[5], "\"min\":"@)->0)->0,
        max_centi_ms: parse_json_opt_fixed2(strip_key(fs[6], "\"max\":"@)->0)->0,
        avg_centi_ms: parse_json_opt_fixed2(strip_key(fs[7], "\"avg\":"@)->0)->0,
        buckets: Seq::new(BUCKET_COUNT as nat, |b: int| parse_bucket_piece(fs[8 + b], b)->0),
    }
}

/// What one snapshot object reads back as: `None` unless it is braced,
/// every piece parses in order, and the whole is internally consistent.
pub open spec fn parse_obj_spec(s: Seq<char>) -> Option<SnapModel> {
    if s.len() >= 2 && s[0] == '{' && s.last() == '}' {
        let fs = split_sep(s.subrange(1, s.len() - 1), ',');
        if obj_fields_ok(fs) && model_of_obj_fields(fs).wf() {
            Some(model_of_obj_fields(fs))
        } else {
            None
        }
    } else {
        None
    }
}

/// The snapshot contents of a list of records.
pub open spec fn models_seq(l: Seq<PingStats>) -> Seq<SnapModel> {
    Seq::new(l.len(), |k: int| l[k].model())
}

/// The timestamp texts of a list of records.
pub open spec fn ts_seq(l: Seq<PingStats>) -> Seq<Seq<char>> {
    Seq::new(l.len(), |k: int| rfc3339_of(l[k].timestamp_ms))
}

/// The line pieces of a nonempty history: the opening bracket, one object
/// per line (every object but the last followed by a comma), the closing
/// bracket.
pub open spec fn history_pieces(ms: Seq<SnapModel>, tss: Seq<Seq<char>>) -> Seq<Seq<char>>
    recommends
        ms.len() == tss.len(),
        ms.len() >= 1,
{
    seq!["["@] + Seq::new(
        ms.len(),
        |k: int|
            json_obj_text(ms[k], tss[k]) + (if k < ms.len() - 1 {
                ","@
            } else {
                Seq::<char>::empty()
            }),
    ) + seq!["]"@]
}

/// The whole history text: `[]` when empty, else the line pieces joined
/// with line breaks.
pub open spec fn history_text(ms: Seq<SnapModel>, tss: Seq<Seq<char>>) -> Seq<char>
    recommends
        ms.len() == tss.len(),
{
    if ms.len() == 0 {
        "[]"@
    } else {
        join_sep(history_pieces(ms, tss), '\n')
    }
}

/// What one history line reads back as: the object, behind its comma on
/// every line but the last.
pub open spec fn piece_obj(p: Seq<char>, last: bool) -> Option<SnapModel> {
    if last {
        parse_obj_spec(p)
    } else if p.len() >= 1 && p.last() == ',' {
        parse_obj_spec(p.drop_last())
    } else {
        None
    }
}

/// What a history text reads back as: `None` unless it is `[]`, or
/// bracket lines around object lines that all parse.
pub open spec fn parse_history_spec(s: Seq<char>) -> Option<Seq<SnapModel>> {
    if s == "[]"@ {
        Some(Seq::<SnapModel>::empty())
    } else {
        let ps = split_sep(s, '\n');
        if ps.len() >= 3 && ps[0] == "["@ && ps.last() == "]"@ && (forall|k: int|
            1 <= k < ps.len() - 1 ==> piece_obj(#[trigger] ps[k], k == ps.len() - 2) is Some) {
            Some(
                Seq::new(
                    (ps.len() - 2) as nat,
                    |k: int| piece_obj(ps[k + 1], k + 1 == ps.len() - 2)->0,
                ),
            )
        } else {
            None
        }
    }
}

/// A whole snapshot object is free of line breaks.
proof fn lemma_obj_newline_free(m: SnapModel, ts: Seq<char>)
    requires
        m.wf(),
        json_plain(m.target),
        forall|i: int| 0 <= i < ts.len() ==> is_rfc3339_char(#[trigger] ts[i]),
    ensures
        free_of(json_obj_text(m, ts), '\n'),
{
    lemma_reveal_keys();
    lemma_json_fields_free(m, ts);
    crate::text::lemma_join_free(json_fields(m, ts), ',', '\n');
    lemma_free_concat("{"@, join_sep(json_fields(m, ts), ','), '\n');
    lemma_free_concat("{"@ + join_sep(json_fields(m, ts), ','), "}"@, '\n');
}

/// Law: writing a history of consistent snapshots and re-reading the text
/// reproduces every snapshot, in order.
pub proof fn lemma_json_history_round_trip(ms: Seq<SnapModel>, tss: Seq<Seq<char>>)
    requires
        ms.len() == tss.len(),
        forall|k: int| 0 <= k < ms.len() ==> (#[trigger] ms[k]).wf() && json_plain(ms[k].target),
        forall|k: int, i: int|
            0 <= k < tss.len() && 0 <= i < tss[k].len() ==> is_rfc3339_char(#[trigger] tss[k][i]),
    ensures
        parse_history_spec(history_text(ms, tss)) == Some(ms),
{
    reveal_strlit("[]");
    reveal_strlit("[");
    reveal_strlit("]");
    reveal_strlit(",");
    if ms.len() == 0 {
        assert(parse_history_spec("[]"@) == Some(Seq::<SnapModel>::empty()));
        assert(ms =~= Seq::<SnapModel>::empty());
    } else {
        let pieces = history_pieces(ms, tss);
        let s = history_text(ms, tss);
        assert(pieces.len() == ms.len() + 2);
        assert forall|k: int| 0 <= k < pieces.len() implies free_of(#[trigger] pieces[k], '\n') by {
            if 1 <= k < pieces.len() - 1 {
                lemma_obj_newline_free(ms[k - 1], tss[k - 1]);
                lemma_free_concat(
                    json_obj_text(ms[k - 1], tss[k - 1]),
                    if k - 1 < ms.len() - 1 {
                        ","@
                    } else {
                        Seq::<char>::empty()
                    },
                    '\n',
                );
            }
        }
        lemma_split_join(pieces, '\n');
        assert(s != "[]"@) by {
            crate::text::lemma_find_char_past("[]"@, 0, 2, '\n');
            assert(split_sep("[]"@, '\n') =~~= seq!["[]"@]);
            if s == "[]"@ {
                assert(pieces.len() == 1);
            }
        }
        let ps = split_sep(s, '\n');
        assert(ps == pieces);
        assert(ps[0] == "["@);
        assert(ps.last() == "]"@);
        assert forall|k: int| 1 <= k < ps.len() - 1 implies piece_obj(
            #[trigger] ps[k],
            k == ps.len() - 2,
        ) == Some(ms[k - 1]) by {
            lemma_json_obj_round_trip(ms[k - 1], tss[k - 1]);
            let obj = json_obj_text(ms[k - 1], tss[k - 1]);
            if k == ps.len() - 2 {
                assert(ps[k] =~= obj);
            } else {
                assert(ps[k] == obj + ","@);
                assert(ps[k].last() == ',');
                assert(ps[k].drop_last() =~= obj);
            }
        }
        let got = parse_history_spec(s)->0;
        assert(got =~= ms);
    }
}

/// The bucket name texts hold no comma, quote or line break.
proof fn lemma_bucket_label_free(b: int)
    requires
        0 <= b < 12,
    ensures
        free_of(bucket_label(b), ','),
        free_of(bucket_label(b), '\n'),
        free_of(bucket_label(b), '"'),
{
    if b == 0 {
        reveal_strlit("0-50ms");
    } else if b == 1 {
        reveal_strlit("50-100ms");
    } else if b == 2 {
        reveal_strlit("100-150ms");
    } else if b == 3 {
        reveal_strlit("150-200ms");
    } else if b == 4 {
        reveal_strlit("200-250ms");
    } else if b == 5 {
        reveal_strlit("250-300ms");
    } else if b == 6 {
        reveal_strlit("300-350ms");
    } else if b == 7 {
        reveal_strlit("350-400ms");
    } else if b == 8 {
        reveal_strlit("400-450ms");
    } else if b == 9 {
        reveal_strlit("450-500ms");
    } else if b == 10 {
        reveal_strlit("500-999ms");
    } else {
        reveal_strlit(">1000ms");
    }
}

/// The fixed key texts of the object encoding, revealed.
proof fn lemma_reveal_keys()
    ensures
        free_of("\"target\":\""@, ',') && free_of("\"target\":\""@, '\n'),
        free_of("\"timestamp\":\""@, ',') && free_of("\"timestamp\":\""@, '\n'),
        free_of("\"sent\":"@, ',') && free_of("\"sent\":"@, '\n'),
        free_of("\"received\":"@, ',') && free_of("\"received\":"@, '\n'),
        free_of("\"loss_percent\":"@, ',') && free_of("\"loss_percent\":"@, '\n'),
        free_of("\"min\":"@, ',') && free_of("\"min\":"@, '\n'),
        free_of("\"max\":"@, ',') && free_of("\"max\":"@, '\n'),
        free_of("\"avg\":"@, ',') && free_of("\"avg\":"@, '\n'),
        free_of("\"latency_buckets\":"@, ',') && free_of("\"latency_buckets\":"@, '\n'),
        free_of("{\""@, ',') && free_of("{\""@, '\n'),
        free_of("\""@, ',') && free_of("\""@, '\n'),
        free_of("\":"@, ',') && free_of("\":"@, '\n'),
        free_of("null"@, ',') && free_of("null"@, '\n'),
        "null"@.len() == 4 && "null"@[0] == 'n',
        "\""@.len() == 1 && "\""@[0] == '"',
        "}"@.len() == 1 && "}"@[0] == '}',
        "{"@.len() == 1 && "{"@[0] == '{',
{
    reveal_strlit("\"target\":\"");
    reveal_strlit("\"timestamp\":\"");
    reveal_strlit("\"sent\":");
    reveal_strlit("\"received\":");
    reveal_strlit("\"loss_percent\":");
    reveal_strlit("\"min\":");
    reveal_strlit("\"max\":");
    reveal_strlit("\"avg\":");
    reveal_strlit("\"latency_buckets\":");
    reveal_strlit("{\"");
    reveal_strlit("\"");
    reveal_strlit("\":");
    reveal_strlit("null");
    reveal_strlit("}");
    reveal_strlit("{");
}

/// Every piece of a well-formed snapshot object is free of commas and
/// line breaks.
#[verifier::rlimit(100)]
proof fn lemma_json_fields_free(m: SnapModel, ts: Seq<char>)
    requires
        m.wf(),
        json_plain(m.target),
        forall|i: int| 0 <= i < ts.len() ==> is_rfc3339_char(#[trigger] ts[i]),
    ensures
        forall|k: int|
            0 <= k < json_fields(m, ts).len() ==> free_of(#[trigger] json_fields(m, ts)[k], ',')
                && free_of(json_fields(m, ts)[k], '\n'),
{
    let fs = json_fields(m, ts);
    lemma_reveal_keys();
    lemma_dec_digits_val(m.sent as int);
    lemma_dec_digits_val(m.received as int);
    lemma_fixed2_chars(m.loss_centi_percent as int);
    if m.min_centi_ms is Some {
        lemma_fixed2_chars(m.min_centi_ms->0 as int);
    }
    if m.max_centi_ms is Some {
        lemma_fixed2_chars(m.max_centi_ms->0 as int);
    }
    if m.avg_centi_ms is Some {
        lemma_fixed2_chars(m.avg_centi_ms->0 as int);
    }
    assert(free_of(m.target, ',') && free_of(m.target, '\n'));
    assert(free_of(ts, ',') && free_of(ts, '\n')) by {
        assert forall|i: int| 0 <= i < ts.len() implies ts[i] != ',' && ts[i] != '\n' by {
            assert(is_rfc3339_char(ts[i]));
        }
    }
    proof_head_pieces_free(m, ts, ',');
    proof_head_pieces_free(m, ts, '\n');
    assert forall|b: int| 0 <= b < 12 implies free_of(#[trigger] fs[8 + b], ',') && free_of(
        fs[8 + b],
        '\n',
    ) by {
        proof_bucket_piece_free(m, ts, b, ',');
        proof_bucket_piece_free(m, ts, b, '\n');
    }
    assert forall|k: int| 0 <= k < fs.len() implies free_of(#[trigger] fs[k], ',') && free_of(
        fs[k],
        '\n',
    ) by {
        if 8 <= k < 20 {
            assert(fs[k] == fs[8 + (k - 8)]);
            assert(free_of(fs[8 + (k - 8)], ',') && free_of(fs[8 + (k - 8)], '\n'));
        }
    }
}

/// The first eight pieces of an object are free of `c`, for any `c` that
/// is no digit, no point, and none of the characters the key texts, the
/// target or the timestamp hold.
proof fn proof_head_pieces_free(m: SnapModel, ts: Seq<char>, c: char)
    requires
        json_plain(m.target),
        forall|i: int| 0 <= i < ts.len() ==> is_rfc3339_char(#[trigger] ts[i]),
        c == ',' || c == '\n',
    ensures
        free_of(json_fields(m, ts)[0], c),
        free_of(json_fields(m, ts)[1], c),
        free_of(json_fields(m, ts)[2], c),
        free_of(json_fields(m, ts)[3], c),
        free_of(json_fields(m, ts)[4], c),
        free_of(json_fields(m, ts)[5], c),
        free_of(json_fields(m, ts)[6], c),
        free_of(json_fields(m, ts)[7], c),
{
    lemma_reveal_keys();
    lemma_dec_digits_val(m.sent as int);
    lemma_dec_digits_val(m.received as int);
    assert(free_of(m.target, c));
    assert(free_of(ts, c)) by {
        assert forall|i: int| 0 <= i < ts.len() implies ts[i] != c by {
            assert(is_rfc3339_char(ts[i]));
        }
    }
    lemma_free_concat("\"target\":\""@, m.target, c);
    lemma_free_concat("\"target\":\""@ + m.target, "\""@, c);
    lemma_free_concat("\"timestamp\":\""@, ts, c);
    lemma_free_concat("\"timestamp\":\""@ + ts, "\""@, c);
    lemma_digits_free(dec_digits(m.sent as int), c);
    lemma_free_concat("\"sent\":"@, dec_digits(m.sent as int), c);
    lemma_digits_free(dec_digits(m.received as int), c);
    lemma_free_concat("\"received\":"@, dec_digits(m.received as int), c);
    lemma_fixed2_free(m.loss_centi_percent as int, c);
    lemma_free_concat("\"loss_percent\":"@, fixed2_digits(m.loss_centi_percent as int), c);
    if m.min_centi_ms is Some {
        lemma_fixed2_free(m.min_centi_ms->0 as int, c);
    }
    lemma_free_concat("\"min\":"@, json_opt_fixed2(m.min_centi_ms), c);
    if m.max_centi_ms is Some {
        lemma_fixed2_free(m.max_centi_ms->0 as int, c);
    }
    lemma_free_concat("\"max\":"@, json_opt_fixed2(m.max_centi_ms), c);
    if m.avg_centi_ms is Some {
        lemma_fixed2_free(m.avg_centi_ms->0 as int, c);
    }
    lemma_free_concat("\"avg\":"@, json_opt_fixed2(m.avg_centi_ms), c);
}

/// Each bucket piece of an object is free of `c` for the separator
/// characters.
proof fn proof_bucket_piece_free(m: SnapModel, ts: Seq<char>, b: int, c: char)
    requires
        m.wf(),
        0 <= b < 12,
        c == ',' || c == '\n',
    ensures
        free_of(json_fields(m, ts)[8 + b], c),
{
    lemma_reveal_keys();
    lemma_bucket_label_free(b);
    lemma_dec_digits_val(m.buckets[b] as int);
    let key = bucket_key(b);
    assert(free_of(key, c)) by {
        if b == 0 {
            lemma_free_concat("{\""@, bucket_label(b), c);
            lemma_free_concat("{\""@ + bucket_label(b), "\":"@, c);
        } else {
            lemma_free_concat("\""@, bucket_label(b), c);
            lemma_free_concat("\""@ + bucket_label(b), "\":"@, c);
        }
    }
    lemma_digits_free(dec_digits(m.buckets[b] as int), c);
    lemma_free_concat(key, dec_digits(m.buckets[b] as int), c);
    if b == 0 {
        lemma_free_concat("\"latency_buckets\":"@, key, c);
        lemma_free_concat("\"latency_buckets\":"@ + key, dec_digits(m.buckets[0] as int), c);
    } else if b == 11 {
        lemma_free_concat(key + dec_digits(m.buckets[11] as int), "}"@, c);
    }
}

/// Law: writing a consistent snapshot as a JSON object and re-reading the
/// object reproduces the snapshot — target, sent, received, loss rate,
/// extremes, average and every bucket count all survive the encoding.
pub proof fn lemma_json_obj_round_trip(m: SnapModel, ts: Seq<char>)
    requires
        m.wf(),
        json_plain(m.target),
        forall|i: int| 0 <= i < ts.len() ==> is_rfc3339_char(#[trigger] ts[i]),
    ensures
        parse_obj_spec(json_obj_text(m, ts)) == Some(m),
{
    let fs = json_fields(m, ts);
    let body = join_sep(fs, ',');
    let s = json_obj_text(m, ts);
    lemma_reveal_keys();
    assert(s.len() == body.len() + 2);
    assert(s[0] == '{');
    assert(s.last() == '}');
    assert(s.subrange(1, s.len() - 1) =~= body);
    lemma_json_fields_free(m, ts);
    lemma_split_join(fs, ',');
    // target piece
    assert(strip_key(fs[0], "\"target\":\""@) matches Some(r) && r =~= m.target + "\""@) by {
        assert(fs[0].subrange(0, "\"target\":\""@.len() as int) =~= "\"target\":\""@);
        assert(fs[0].subrange("\"target\":\""@.len() as int, fs[0].len() as int) =~= m.target
            + "\""@);
    }
    assert(strip_quote(m.target + "\""@) == Some(m.target)) by {
        assert((m.target + "\""@).last() == '"');
        assert((m.target + "\""@).drop_last() =~= m.target);
    }
    // timestamp piece
    assert(strip_key(fs[1], "\"timestamp\":\""@) matches Some(r) && r =~= ts + "\""@) by {
        assert(fs[1].subrange(0, "\"timestamp\":\""@.len() as int) =~= "\"timestamp\":\""@);
        assert(fs[1].subrange("\"timestamp\":\""@.len() as int, fs[1].len() as int) =~= ts
            + "\""@);
    }
    assert(strip_quote(ts + "\""@) is Some) by {
        assert((ts + "\""@).last() == '"');
    }
    // sent and received pieces
    lemma_parse_u64_field(m.sent);
    assert(strip_key(fs[2], "\"sent\":"@) matches Some(r) && r =~= dec_digits(m.sent as int)) by {
        assert(fs[2].subrange(0, "\"sent\":"@.len() as int) =~= "\"sent\":"@);
        assert(fs[2].subrange("\"sent\":"@.len() as int, fs[2].len() as int) =~= dec_digits(
            m.sent as int,
        ));
    }
    lemma_parse_u64_field(m.received);
    assert(strip_key(fs[3], "\"received\":"@) matches Some(r) && r =~= dec_digits(
        m.received as int,
    )) by {
        assert(fs[3].subrange(0, "\"received\":"@.len() as int) =~= "\"received\":"@);
        assert(fs[3].subrange("\"received\":"@.len() as int, fs[3].len() as int) =~= dec_digits(
            m.received as int,
        ));
    }
    // loss piece
    lemma_parse_fixed2_field(m.loss_centi_percent);
    assert(strip_key(fs[4], "\"loss_percent\":"@) matches Some(r) && r =~= fixed2_digits(
        m.loss_centi_percent as int,
    )) by {
        assert(fs[4].subrange(0, "\"loss_percent\":"@.len() as int) =~= "\"loss_percent\":"@);
        assert(fs[4].subrange("\"loss_percent\":"@.len() as int, fs[4].len() as int)
            =~= fixed2_digits(m.loss_centi_percent as int));
    }
    // optional pieces
    lemma_opt_piece(m.min_centi_ms);
    assert(strip_key(fs[5], "\"min\":"@) matches Some(r) && r =~= json_opt_fixed2(
        m.min_centi_ms,
    )) by {
        assert(fs[5].subrange(0, "\"min\":"@.len() as int) =~= "\"min\":"@);
        assert(fs[5].subrange("\"min\":"@.len() as int, fs[5].len() as int) =~= json_opt_fixed2(
            m.min_centi_ms,
        ));
    }
    lemma_opt_piece(m.max_centi_ms);
    assert(strip_key(fs[6], "\"max\":"@) matches Some(r) && r =~= json_opt_fixed2(
        m.max_centi_ms,
    )) by {
        assert(fs[6].subrange(0, "\"max\":"@.len() as int) =~= "\"max\":"@);
        assert(fs[6].subrange("\"max\":"@.len() as int, fs[6].len() as int) =~= json_opt_fixed2(
            m.max_centi_ms,
        ));
    }
    lemma_opt_piece(m.avg_centi_ms);
    assert(strip_key(fs[7], "\"avg\":"@) matches Some(r) && r =~= json_opt_fixed2(
        m.avg_centi_ms,
    )) by {
        assert(fs[7].subrange(0, "\"avg\":"@.len() as int) =~= "\"avg\":"@);
        assert(fs[7].subrange("\"avg\":"@.len() as int, fs[7].len() as int) =~= json_opt_fixed2(
            m.avg_centi_ms,
        ));
    }
    // bucket pieces
    assert forall|b: int| 0 <= b < 12 implies parse_bucket_piece(#[trigger] fs[8 + b], b) == Some(
        m.buckets[b],
    ) by {
        lemma_bucket_piece(m, ts, b);
    }
    assert(obj_fields_ok(fs));
    let m2 = model_of_obj_fields(fs);
    assert(m2.buckets =~= m.buckets);
    assert(m2 =~= m);
}

/// A `null` or fixed-point value piece reads back as what was written.
proof fn lemma_opt_piece(v: Option<u64>)
    ensures
        parse_json_opt_fixed2(json_opt_fixed2(v)) == Some(v),
{
    lemma_reveal_keys();
    match v {
        Option::Some(x) => {
            lemma_parse_fixed2_field(x);
            lemma_dec_digits_val(x as int / 100);
            assert(json_opt_fixed2(v) != "null"@) by {
                lemma_dec_digits_val(x as int / 100);
                let f = fixed2_digits(x as int);
                assert(is_digit(f[0]) && f[0] == dec_digits(x as int / 100)[0]);
                if f == "null"@ {
                    assert(f[0] == 'n');
                }
            }
        },
        Option::None => {
        },
    }
}

/// A bucket piece reads back as the count that was written.
#[verifier::rlimit(100)]
proof fn lemma_bucket_piece(m: SnapModel, ts: Seq<char>, b: int)
    requires
        m.wf(),
        0 <= b < 12,
    ensures
        parse_bucket_piece(json_fields(m, ts)[8 + b], b) == Some(m.buckets[b]),
{
    let fs = json_fields(m, ts);
    let f = fs[8 + b];
    lemma_reveal_keys();
    lemma_parse_u64_field(m.buckets[b]);
    lemma_dec_digits_val(m.buckets[b] as int);
    if b == 0 {
        let key = "\"latency_buckets\":"@ + bucket_key(0);
        assert(f.subrange(0, key.len() as int) =~= key);
        assert(f.subrange(key.len() as int, f.len() as int) =~= dec_digits(m.buckets[0] as int));
    } else if b == 11 {
        let key = bucket_key(11);
        assert(f.subrange(0, key.len() as int) =~= key);
        let rest = f.subrange(key.len() as int, f.len() as int);
        assert(rest =~= dec_digits(m.buckets[11] as int) + "}"@);
        assert(rest.last() == '}');
        assert(rest.drop_last() =~= dec_digits(m.buckets[11] as int));
    } else {
        let key = bucket_key(b);
        assert(f.subrange(0, key.len() as int) =~= key);
        assert(f.subrange(key.len() as int, f.len() as int) =~= dec_digits(m.buckets[b] as int));
    }
}

/// Build one snapshot object, as characters.
fn json_obj_chars(stats: &PingStats) -> (r: Vec<char>)
    requires
        stats.wf(),
        json_plain(stats.target@),
    ensures
        r@ == json_obj_text(stats.model(), rfc3339_of(stats.timestamp_ms)),
{
    let ghost m = stats.model();
    let ghost ts = rfc3339_of(stats.timestamp_ms);
    let mut fields: Vec<Vec<char>> = Vec::new();
    let mut f0: Vec<char> = Vec::new();
    push_str_chars(&mut f0, "\"target\":\"");
    push_str_chars(&mut f0, stats.target.as_str());
    push_str_chars(&mut f0, "\"");
    proof {
        assert(f0@ =~= json_fields(m, ts)[0]);
    }
    fields.push(f0);
    let ts_text = rfc3339_of_millis(stats.timestamp_ms);
    let mut f1: Vec<char> = Vec::new();
    push_str_chars(&mut f1, "\"timestamp\":\"");
    push_str_chars(&mut f1, ts_text.as_str());
    push_str_chars(&mut f1, "\"");
    proof {
        assert(f1@ =~= json_fields(m, ts)[1]);
    }
    fields.push(f1);
    let mut f2: Vec<char> = Vec::new();
    push_str_chars(&mut f2, "\"sent\":");
    push_dec(&mut f2, stats.sent);
    fields.push(f2);
    let mut f3: Vec<char> = Vec::new();
    push_str_chars(&mut f3, "\"received\":");
    push_dec(&mut f3, stats.received);
    fields.push(f3);
    let mut f4: Vec<char> = Vec::new();
    push_str_chars(&mut f4, "\"loss_percent\":");
    push_fixed2(&mut f4, stats.loss_centi_percent);
    fields.push(f4);
    let mut f5: Vec<char> = Vec::new();
    push_str_chars(&mut f5, "\"min\":");
    match stats.min_centi_ms {
        Some(v) => push_fixed2(&mut f5, v),
        None => push_str_chars(&mut f5, "null"),
    }
    fields.push(f5);
    let mut f6: Vec<char> = Vec::new();
    push_str_chars(&mut f6, "\"max\":");
    match stats.max_centi_ms {
        Some(v) => push_fixed2(&mut f6, v),
        None => push_str_chars(&mut f6, "null"),
    }
    fields.push(f6);
    let mut f7: Vec<char> = Vec::new();
    push_str_chars(&mut f7, "\"avg\":");
    match stats.avg_centi_ms {
        Some(v) => push_fixed2(&mut f7, v),
        None => push_str_chars(&mut f7, "null"),
    }
    fields.push(f7);
    let mut b: usize = 0;
    while b < BUCKET_COUNT
        invariant
            b <= BUCKET_COUNT,
            stats.wf(),
            m == stats.model(),
            ts == rfc3339_of(stats.timestamp_ms),
            stats.latency_buckets@.len() == BUCKET_COUNT,
            fields@.len() == 8 + b,
            forall|k: int| 0 <= k < 8 + b ==> fields@[k]@ == json_fields(m, ts)[k],
        decreases BUCKET_COUNT - b,
    {
        let mut f: Vec<char> = Vec::new();
        if b == 0 {
            push_str_chars(&mut f, "\"latency_buckets\":");
            push_str_chars(&mut f, "{\"");
        } else {
            push_str_chars(&mut f, "\"");
        }
        push_str_chars(&mut f, classify_label(b));
        push_str_chars(&mut f, "\":");
        push_dec(&mut f, stats.latency_buckets[b]);
        if b == BUCKET_COUNT - 1 {
            push_str_chars(&mut f, "}");
        }
        proof {
            assert(f@ =~= json_fields(m, ts)[8 + b]);
        }
        fields.push(f);
        b += 1;
    }
    proof {
        assert(forall|k: int|
            0 <= k < fields@.len() ==> #[trigger] fields.deep_view()[k] =~= fields@[k]@);
        assert(fields.deep_view() =~~= json_fields(m, ts));
    }
    let body = join_sep_exec(&fields, ',');
    let mut out: Vec<char> = Vec::new();
    push_str_chars(&mut out, "{");
    push_all(&mut out, &body);
    push_str_chars(&mut out, "}");
    proof {
        assert(out@ =~= json_obj_text(m, ts));
    }
    out
}

/// The whole history text for a list of snapshot records: a JSON array
/// holding every record, one per line.
pub fn encode_history(list: &Vec<PingStats>) -> (r: String)
    requires
        forall|k: int|
            0 <= k < list@.len() ==> (#[trigger] list@[k]).wf() && json_plain(list@[k].target@),
    ensures
        r@ == history_text(models_seq(list@), ts_seq(list@)),
{
    let ghost ms = models_seq(list@);
    let ghost tss = ts_seq(list@);
    if list.len() == 0 {
        let empty = String::from_str("[]");
        return empty;
    }
    let mut pieces: Vec<Vec<char>> = Vec::new();
    pieces.push(chars_of_str("["));
    let mut k: usize = 0;
    while k < list.len()
        invariant
            k <= list@.len(),
            list@.len() >= 1,
            ms == models_seq(list@),
            tss == ts_seq(list@),
            forall|j: int|
                0 <= j < list@.len() ==> (#[trigger] list@[j]).wf() && json_plain(
                    list@[j].target@,
                ),
            pieces@.len() == 1 + k,
            pieces@[0]@ == "["@,
            forall|j: int|
                1 <= j < k + 1 ==> (#[trigger] pieces@[j])@ == history_pieces(ms, tss)[j],
        decreases list@.len() - k,
    {
        let mut piece = json_obj_chars(&list[k]);
        if k < list.len() - 1 {
            push_str_chars(&mut piece, ",");
        }
        proof {
            assert(piece@ =~= history_pieces(ms, tss)[k + 1]);
        }
        pieces.push(piece);
        k += 1;
    }
    pieces.push(chars_of_str("]"));
    proof {
        assert(forall|j: int|
            0 <= j < pieces@.len() ==> #[trigger] pieces.deep_view()[j] =~= pieces@[j]@);
        assert(pieces.deep_view() =~~= history_pieces(ms, tss));
    }
    let chars = join_sep_exec(&pieces, '\n');
    string_of_chars(&chars)
}

/// Strip a fixed key text from the front of a piece.
fn strip_key_exec(f: &Vec<char>, key: &str) -> (r: Option<Vec<char>>)
    ensures
        match r {
            Option::Some(rest) => strip_key(f@, key@) == Some(rest@),
            Option::None => strip_key(f@, key@) is None,
        },
{
    let kc = chars_of_str(key);
    if kc.len() > f.len() {
        return None;
    }
    let pre = subrange_chars(f, 0, kc.len());
    if !eq_chars(&pre, &kc) {
        return None;
    }
    Some(subrange_chars(f, kc.len(), f.len()))
}

/// Read a `null` or fixed-point value back.
fn parse_json_opt_exec(rest: &Vec<char>) -> (r: Option<Option<u64>>)
    ensures
        r == parse_json_opt_fixed2(rest@),
{
    let nul = chars_of_str("null");
    if eq_chars(rest, &nul) {
        Some(None)
    } else {
        match parse_fixed2_field_exec(rest) {
            Some(v) => Some(Some(v)),
            None => None,
        }
    }
}

/// Read one snapshot object back as a record. The timestamp is re-read
/// through chrono where it parses and set to the epoch where it does not;
/// every other piece must parse exactly and the whole must be internally
/// consistent, else nothing is returned.
#[verifier::rlimit(100)]
pub fn parse_json_obj_chars(s: &Vec<char>) -> (r: Option<PingStats>)
    ensures
        match r {
            Option::Some(st) => parse_obj_spec(s@) == Some(st.model()) && st.wf() && json_plain(
                st.target@,
            ),
            Option::None => parse_obj_spec(s@) is None,
        },
{
    if s.len() < 2 {
        return None;
    }
    if s[0] != '{' || s[s.len() - 1] != '}' {
        return None;
    }
    let interior = subrange_chars(s, 1, s.len() - 1);
    let fields = split_sep_exec(&interior, ',');
    proof {
        assert(forall|k: int|
            0 <= k < fields@.len() ==> #[trigger] fields.deep_view()[k] =~= fields@[k]@);
    }
    let ghost fs = split_sep(s@.subrange(1, s@.len() - 1), ',');
    if fields.len() != 20 {
        return None;
    }
    let target_rest = match strip_key_exec(&fields[0], "\"target\":\"") {
        Some(r) => r,
        None => {
            return None;
        },
    };
    if target_rest.len() == 0 || target_rest[target_rest.len() - 1] != '"' {
        return None;
    }
    let target_chars = subrange_chars(&target_rest, 0, target_rest.len() - 1);
    proof {
        assert(target_rest@.drop_last() =~= target_rest@.subrange(
            0,
            target_rest@.len() - 1,
        ));
    }
    let target = string_of_chars(&target_chars);
    if !json_plain_check(target.as_str()) {
        return None;
    }
    let ts_rest = match strip_key_exec(&fields[1], "\"timestamp\":\"") {
        Some(r) => r,
        None => {
            return None;
        },
    };
    if ts_rest.len() == 0 || ts_rest[ts_rest.len() - 1] != '"' {
        return None;
    }
    let ts_chars = subrange_chars(&ts_rest, 0, ts_rest.len() - 1);
    let ts_string = string_of_chars(&ts_chars);
    let ts_ms = match parse_rfc3339_millis(ts_string.as_str()) {
        Some(t) => clamp_timestamp(t),
        None => 0,
    };
    let sent = match strip_key_exec(&fields[2], "\"sent\":") {
        Some(r) => match parse_u64_field_exec(&r) {
            Some(v) => v,
            None => {
                return None;
            },
        },
        None => {
            return None;
        },
    };
    let received = match strip_key_exec(&fields[3], "\"received\":") {
        Some(r) => match parse_u64_field_exec(&r) {
            Some(v) => v,
            None => {
                return None;
            },
        },
        None => {
            return None;
        },
    };
    let loss = match strip_key_exec(&fields[4], "\"loss_percent\":") {
        Some(r) => match parse_fixed2_field_exec(&r) {
            Some(v) => v,
            None => {
                return None;
            },
        },
        None => {
            return None;
        },
    };
    let min_v = match strip_key_exec(&fields[5], "\"min\":") {
        Some(r) => match parse_json_opt_exec(&r) {
            Some(v) => v,
            None => {
                return None;
            },
        },
        None => {
            return None;
        },
    };
    let max_v = match strip_key_exec(&fields[6], "\"max\":") {
        Some(r) => match parse_json_opt_exec(&r) {
            Some(v) => v,
            None => {
                return None;
            },
        },
        None => {
            return None;
        },
    };
    let avg_v = match strip_key_exec(&fields[7], "\"avg\":") {
        Some(r) => match parse_json_opt_exec(&r) {
            Some(v) => v,
            None => {
                return None;
            },
        },
        None => {
            return None;
        },
    };
    let mut buckets: Vec<u64> = Vec::new();
    let mut b: usize = 0;
    while b < 12
        invariant
            b <= 12,
            fields@.len() == 20,
            fs == split_sep(s@.subrange(1, s@.len() - 1), ','),
            fs =~= fields.deep_view(),
            forall|k: int|
                0 <= k < fields@.len() ==> #[trigger] fields.deep_view()[k] == fields@[k]@,
            buckets@.len() == b,
            forall|k: int| 0 <= k < b ==> parse_bucket_piece(fs[8 + k], k) == Some(buckets@[k]),
        decreases 12 - b,
    {
        let mut key: Vec<char> = Vec::new();
        if b == 0 {
            push_str_chars(&mut key, "\"latency_buckets\":");
            push_str_chars(&mut key, "{\"");
        } else {
            push_str_chars(&mut key, "\"");
        }
        push_str_chars(&mut key, classify_label(b));
        push_str_chars(&mut key, "\":");
        let key_string = string_of_chars(&key);
        proof {
            if b == 0 {
                assert(key@ =~= "\"latency_buckets\":"@ + bucket_key(0));
            } else {
                assert(key@ =~= bucket_key(b as int));
            }
        }
        let rest = match strip_key_exec(&fields[8 + b], key_string.as_str()) {
            Some(r) => r,
            None => {
                proof {
                    assert(parse_bucket_piece(fs[8 + b as int], b as int) is None);
                    assert(!obj_fields_ok(fs));
                }
                return None;
            },
        };
        let v = if b == 11 {
            if rest.len() == 0 || rest[rest.len() - 1] != '}' {
                proof {
                    assert(parse_bucket_piece(fs[8 + b as int], b as int) is None);
                }
                return None;
            }
            let digits = subrange_chars(&rest, 0, rest.len() - 1);
            proof {
                assert(rest@.drop_last() =~= rest@.subrange(0, rest@.len() - 1));
            }
            match parse_u64_field_exec(&digits) {
                Some(v) => v,
                None => {
                    proof {
                        assert(parse_bucket_piece(fs[8 + b as int], b as int) is None);
                    }
                    return None;
                },
            }
        } else {
            match parse_u64_field_exec(&rest) {
                Some(v) => v,
                None => {
                    proof {
                        assert(parse_bucket_piece(fs[8 + b as int], b as int) is None);
                    }
                    return None;
                },
            }
        };
        buckets.push(v);
        b += 1;
    }
    // consistency of what was read, exactly as the model demands
    if received > sent {
        return None;
    }
    if loss > 10000 {
        return None;
    }
    if min_v.is_some() != (received > 0) {
        return None;
    }
    if max_v.is_some() != (received > 0) {
        return None;
    }
    if avg_v.is_some() != (received > 0) {
        return None;
    }
    let total: u128 = buckets[0] as u128 + buckets[1] as u128 + buckets[2] as u128
        + buckets[3] as u128 + buckets[4] as u128 + buckets[5] as u128 + buckets[6] as u128
        + buckets[7] as u128 + buckets[8] as u128 + buckets[9] as u128 + buckets[10] as u128
        + buckets[11] as u128;
    if total != received as u128 {
        return None;
    }
    let st = PingStats {
        target,
        timestamp_ms: ts_ms,
        sent,
        received,
        loss_centi_percent: loss,
        min_centi_ms: min_v,
        max_centi_ms: max_v,
        avg_centi_ms: avg_v,
        latency_buckets: buckets,
    };
    proof {
        assert(obj_fields_ok(fs));
        let m = model_of_obj_fields(fs);
        assert(st.model().buckets =~= m.buckets);
        assert(st.model() =~= m);
        assert(m.wf());
    }
    Some(st)
}

/// Read a whole history text back as its list of snapshot records, oldest
/// first. `None` when the text is not a history this encoding wrote.
pub fn parse_history(content: &str) -> (r: Option<Vec<PingStats>>)
    ensures
        match r {
            Option::Some(v) => {
                &&& parse_history_spec(content@) is Some
                &&& v@.len() == parse_history_spec(content@)->0.len()
                &&& forall|k: int|
                    0 <= k < v@.len() ==> (#[trigger] v@[k]).model() == parse_history_spec(
                        content@,
                    )->0[k] && v@[k].wf() && json_plain(v@[k].target@)
            },
            Option::None => parse_history_spec(content@) is None,
        },
{
    let chars = chars_of_str(content);
    let empty_lit = chars_of_str("[]");
    if eq_chars(&chars, &empty_lit) {
        let v: Vec<PingStats> = Vec::new();
        return Some(v);
    }
    let ps = split_sep_exec(&chars, '\n');
    proof {
        assert(forall|k: int| 0 <= k < ps@.len() ==> #[trigger] ps.deep_view()[k] =~= ps@[k]@);
    }
    let ghost specps = split_sep(content@, '\n');
    if ps.len() < 3 {
        return None;
    }
    let open_lit = chars_of_str("[");
    let close_lit = chars_of_str("]");
    if !eq_chars(&ps[0], &open_lit) {
        return None;
    }
    if !eq_chars(&ps[ps.len() - 1], &close_lit) {
        proof {
            assert(specps.last() == specps[specps.len() - 1]);
        }
        return None;
    }
    let mut out: Vec<PingStats> = Vec::new();
    let mut k: usize = 1;
    let n = ps.len();
    while k < n - 1
        invariant
            1 <= k <= n - 1,
            n == ps@.len() >= 3,
            content@ != "[]"@,
            specps == split_sep(content@, '\n'),
            specps =~= ps.deep_view(),
            forall|j: int| 0 <= j < ps@.len() ==> #[trigger] ps.deep_view()[j] == ps@[j]@,
            out@.len() == k - 1,
            forall|j: int|
                1 <= j < k ==> piece_obj(#[trigger] specps[j], j == n - 2) == Some(
                    out@[j - 1].model(),
                ) && out@[j - 1].wf() && json_plain(out@[j - 1].target@),
        decreases n - k,
    {
        let st = if k == n - 2 {
            match parse_json_obj_chars(&ps[k]) {
                Some(st) => st,
                None => {
                    proof {
                        assert(piece_obj(specps[k as int], true) is None);
                    }
                    return None;
                },
            }
        } else {
            let piece = &ps[k];
            if piece.len() == 0 || piece[piece.len() - 1] != ',' {
                proof {
                    assert(piece_obj(specps[k as int], false) is None);
                }
                return None;
            }
            let obj_part = subrange_chars(piece, 0, piece.len() - 1);
            proof {
                assert(piece@.drop_last() =~= piece@.subrange(0, piece@.len() - 1));
            }
            match parse_json_obj_chars(&obj_part) {
                Some(st) => st,
                None => {
                    proof {
                        assert(piece_obj(specps[k as int], false) is None);
                    }
                    return None;
                },
            }
        };
        out.push(st);
        k += 1;
    }
    proof {
        let ms = parse_history_spec(content@)->0;
        assert(parse_history_spec(content@) is Some);
        assert(out@.len() == ms.len());
        assert(forall|j: int|
            0 <= j < out@.len() ==> (#[trigger] out@[j]).model() == ms[j]);
    }
    Some(out)
}

/// The list one append to the history produces: whatever the old text
/// held (an unreadable or absent history counts as empty, and is started
/// afresh), with the new snapshot at the end.
pub fn appended_history(old_content: Option<&str>, stats: PingStats) -> (r: Vec<PingStats>)
    requires
        stats.wf(),
    ensures
        r@.len() >= 1,
        r@.last() == stats,
        forall|k: int| 0 <= k < r@.len() ==> (#[trigger] r@[k]).wf(),
        match old_content {
            Option::Some(c) => match parse_history_spec(c@) {
                Option::Some(ms) => r@.len() == ms.len() + 1 && (forall|k: int|
                    0 <= k < ms.len() ==> (#[trigger] r@[k]).model() == ms[k]),
                Option::None => r@.len() == 1,
            },
            Option::None => r@.len() == 1,
        },
{
    let mut list: Vec<PingStats> = match old_content {
        Some(c) => match parse_history(c) {
            Some(v) => v,
            None => Vec::new(),
        },
        None => Vec::new(),
    };
    list.push(stats);
    list
}

} // verus!
