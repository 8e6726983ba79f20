//! The report's export text: one flat record, as JSON or CSV.
//!
//! Both formats are the same shape: fixed text segments with the
//! report's fourteen numbers between them. Encoding writes the segments
//! and the decimal numbers in turn; parsing expects exactly that shape
//! back and recovers the numbers. Parsing an encoded report yields the
//! report again, field for field.

use vstd::prelude::*;
use crate::digits::{
    dec_of, digits_end, encode_u64, is_digit, lemma_dec_digits, lemma_digits_end_at,
    lemma_num_val_dec, num_val, parse_num_at,
};
use crate::report::BenchmarkReport;

verus! {

/// Consume the fixed text `lit` at `pos`: the position after it, or
/// nothing if the input differs there.
pub open spec fn spec_expect(s: Seq<char>, pos: int, lit: Seq<char>) -> Option<int> {
    if pos + lit.len() <= s.len() && s.subrange(pos, pos + lit.len()) == lit {
        Some(pos + lit.len())
    } else {
        None
    }
}

/// Consume the decimal number at `pos`: its value and the position after
/// its digits, or nothing if no digit stands there or the digits outgrow
/// a `u64`.
pub open spec fn spec_num(s: Seq<char>, pos: int) -> Option<(int, int)> {
    let e = digits_end(s, pos);
    if pos < e && num_val(s.subrange(pos, e)) <= u64::MAX {
        Some((num_val(s.subrange(pos, e)), e))
    } else {
        None
    }
}

/// The record text of `fields` values between `segs` fixed segments:
/// one more segment than fields, a number after each segment but the
/// last.
pub open spec fn spec_record(segs: Seq<Seq<char>>, fields: Seq<int>) -> Seq<char>
    recommends
        segs.len() == fields.len() + 1,
    decreases fields.len(),
{
    if fields.len() == 0 {
        segs[0]
    } else {
        segs[0] + dec_of(fields[0]) + spec_record(segs.drop_first(), fields.drop_first())
    }
}

/// Parse `nf` numbers between the fixed segments, starting at `pos`:
/// the numbers and the position after the last segment.
pub open spec fn spec_parse_record(s: Seq<char>, pos: int, segs: Seq<Seq<char>>, nf: int) -> Option<
    (Seq<int>, int),
>
    recommends
        segs.len() == nf + 1,
        nf >= 0,
    decreases nf,
{
    if nf <= 0 {
        match spec_expect(s, pos, segs[0]) {
            Option::Some(p) => Some((Seq::empty(), p)),
            Option::None => None,
        }
    } else {
        match spec_expect(s, pos, segs[0]) {
            Option::Some(p) => match spec_num(s, p) {
                Option::Some(ve) => match spec_parse_record(s, ve.1, segs.drop_first(), nf - 1) {
                    Option::Some(rest) => Some((seq![ve.0] + rest.0, rest.1)),
                    Option::None => None,
                },
                Option::None => None,
            },
            Option::None => None,
        }
    }
}

/// Every segment after the first is non-empty and starts with a
/// non-digit, so that it ends the digits of the number before it.
pub open spec fn segs_wf(segs: Seq<Seq<char>>) -> bool {
    forall|i: int|
        1 <= i < segs.len() ==> (#[trigger] segs[i]).len() >= 1 && !is_digit(segs[i][0])
}

/// Every field value fits a `u64`.
pub open spec fn fields_wf(fields: Seq<int>) -> bool {
    forall|i: int| 0 <= i < fields.len() ==> 0 <= #[trigger] fields[i] <= u64::MAX
}

/// Splitting a known concatenation of the input's tail.
proof fn lemma_split(s: Seq<char>, pos: int, a: Seq<char>, b: Seq<char>)
    requires
        0 <= pos <= s.len(),
        s.subrange(pos, s.len() as int) == a + b,
    ensures
        pos + a.len() + b.len() == s.len(),
        s.subrange(pos, pos + a.len()) == a,
        s.subrange(pos + a.len(), s.len() as int) == b,
{
    let t = s.subrange(pos, s.len() as int);
    assert(t.len() == a.len() + b.len());
    assert forall|k: int| 0 <= k < a.len() implies s.subrange(pos, pos + a.len())[k] == a[k] by {
        assert(t[k] == (a + b)[k]);
        assert((a + b)[k] == a[k]);
        assert(t[k] == s[pos + k]);
        assert(s.subrange(pos, pos + a.len())[k] == s[pos + k]);
    }
    assert(s.subrange(pos, pos + a.len()) =~= a);
    assert forall|k: int| 0 <= k < b.len() implies s.subrange(pos + a.len(), s.len() as int)[k]
        == b[k] by {
        assert(t[a.len() + k] == (a + b)[a.len() + k]);
        assert((a + b)[a.len() + k] == b[k]);
        assert(t[a.len() + k] == s[pos + a.len() + k]);
        assert(s.subrange(pos + a.len(), s.len() as int)[k] == s[pos + a.len() + k]);
    }
    assert(s.subrange(pos + a.len(), s.len() as int) =~= b);
}

/// The record round trip: parsing the record text of any in-range field
/// values, wherever it stands as the input's tail, recovers exactly
/// those values and consumes the whole input.
pub proof fn lemma_record_round_trip(
    s: Seq<char>,
    pos: int,
    segs: Seq<Seq<char>>,
    fields: Seq<int>,
)
    requires
        0 <= pos <= s.len(),
        segs.len() == fields.len() + 1,
        segs_wf(segs),
        fields_wf(fields),
        s.subrange(pos, s.len() as int) == spec_record(segs, fields),
    ensures
        spec_parse_record(s, pos, segs, fields.len() as int) == Some(
            (fields, s.len() as int),
        ),
    decreases fields.len(),
{
    if fields.len() == 0 {
        let l0 = segs[0].len() as int;
        assert(s.len() - pos == l0);
        assert(s.subrange(pos, pos + l0) == segs[0]);
        assert(spec_expect(s, pos, segs[0]) == Some(pos + l0));
        assert(fields =~= Seq::<int>::empty());
    } else {
        let f0 = fields[0];
        let d = dec_of(f0);
        lemma_dec_digits(f0);
        let rest = spec_record(segs.drop_first(), fields.drop_first());
        assert(s.subrange(pos, s.len() as int) == segs[0] + (d + rest)) by {
            assert(segs[0] + d + rest =~= segs[0] + (d + rest));
        }
        lemma_split(s, pos, segs[0], d + rest);
        let p = pos + segs[0].len() as int;
        assert(spec_expect(s, pos, segs[0]) == Some(p));
        lemma_split(s, p, d, rest);
        let k = p + d.len() as int;

        // the rest is non-empty and starts with the next segment's first
        // character, which is no digit
        assert(segs.drop_first()[0] == segs[1]);
        let segs1 = segs[1];
        assert(segs1.len() >= 1 && !is_digit(segs1[0]));
        assert(rest.len() >= 1 && rest[0] == segs1[0]) by {
            if fields.drop_first().len() == 0 {
                assert(rest == segs.drop_first()[0]);
            } else {
                assert(rest == segs.drop_first()[0] + dec_of(fields.drop_first()[0])
                    + spec_record(segs.drop_first().drop_first(), fields.drop_first().drop_first()));
                assert(rest[0] == segs1[0]);
            }
        }
        assert(k < s.len() && s[k] == rest[0]) by {
            assert(s.subrange(k, s.len() as int)[0] == s[k]);
        }
        assert(s.subrange(p, k) == d);
        assert forall|j: int| p <= j < k implies s[j] == d[j - p] && is_digit(s[j]) by {
            assert(s.subrange(p, k)[j - p] == s[j]);
            assert(d[j - p] == s[j]);
            assert(is_digit(d[j - p]));
        }
        lemma_digits_end_at(s, p, k);
        lemma_num_val_dec(f0);
        assert(spec_num(s, p) == Some((f0, k)));

        assert(segs_wf(segs.drop_first())) by {
            assert(forall|i: int|
                1 <= i < segs.drop_first().len() ==> segs.drop_first()[i] == segs[i + 1]);
        }
        assert(fields_wf(fields.drop_first()));
        lemma_record_round_trip(s, k, segs.drop_first(), fields.drop_first());
        assert(seq![f0] + fields.drop_first() =~= fields);
    }
}

/// The character sequences of a segment list.
pub open spec fn seg_views(segs: Seq<String>) -> Seq<Seq<char>> {
    segs.map_values(|x: String| x@)
}

/// The mathematical values of a field list.
pub open spec fn field_ints(fields: Seq<u64>) -> Seq<int> {
    fields.map_values(|x: u64| x as int)
}

/// Write the record text of the given fields between the given segments.
fn encode_record(segs: &Vec<String>, fields: &Vec<u64>) -> (out: String)
    requires
        segs@.len() == fields@.len() + 1,
    ensures
        out@ == spec_record(seg_views(segs@), field_ints(fields@)),
{
    let ghost sv = seg_views(segs@);
    let ghost fv = field_ints(fields@);
    let nf = fields.len();
    let mut out = String::new();
    let mut i: usize = 0;
    proof {
        assert(sv.skip(0) =~= sv);
        assert(fv.skip(0) =~= fv);
    }
    while i < nf
        invariant
            i <= nf,
            nf == fields@.len(),
            segs@.len() == nf + 1,
            sv == seg_views(segs@),
            fv == field_ints(fields@),
            spec_record(sv, fv) == out@ + spec_record(sv.skip(i as int), fv.skip(i as int)),
        decreases nf - i,
    {
        let ghost old_out = out@;
        out.append(segs[i].as_str());
        let enc = encode_u64(fields[i]);
        out.append(enc.as_str());
        proof {
            assert(sv.skip(i as int).drop_first() =~= sv.skip(i as int + 1));
            assert(fv.skip(i as int).drop_first() =~= fv.skip(i as int + 1));
            assert(sv.skip(i as int)[0] == sv[i as int]);
            assert(fv.skip(i as int)[0] == fv[i as int]);
            assert(spec_record(sv.skip(i as int), fv.skip(i as int)) == sv[i as int] + dec_of(
                fv[i as int],
            ) + spec_record(sv.skip(i as int + 1), fv.skip(i as int + 1)));
            assert(old_out + spec_record(sv.skip(i as int), fv.skip(i as int)) =~= out@
                + spec_record(sv.skip(i as int + 1), fv.skip(i as int + 1)));
        }
        i = i + 1;
    }
    out.append(segs[nf].as_str());
    proof {
        assert(fv.skip(nf as int) =~= Seq::<int>::empty());
        assert(spec_record(sv.skip(nf as int), fv.skip(nf as int)) == sv.skip(nf as int)[0]);
        assert(sv.skip(nf as int)[0] == sv[nf as int]);
    }
    out
}

/// Consume the fixed text `lit` at `pos`, or nothing if the input
/// differs there.
fn expect_lit(s: &str, pos: usize, lit: &str) -> (r: Option<usize>)
    requires
        pos <= s@.len(),
    ensures
        (match r {
            Option::Some(p) => spec_expect(s@, pos as int, lit@) == Some(p as int) && pos <= p
                <= s@.len(),
            Option::None => spec_expect(s@, pos as int, lit@) is None,
        }),
{
    let n = s.unicode_len();
    let l = lit.unicode_len();
    if l > n - pos {
        return None;
    }
    let mut i: usize = 0;
    while i < l
        invariant
            i <= l,
            pos + l <= n,
            n == s@.len(),
            l == lit@.len(),
            forall|k: int| 0 <= k < i ==> lit@[k] == s@[pos + k],
        decreases l - i,
    {
        if s.get_char(pos + i) != lit.get_char(i) {
            proof {
                assert(s@.subrange(pos as int, pos as int + l as int)[i as int] == s@[pos + i]);
            }
            return None;
        }
        i = i + 1;
    }
    proof {
        assert(s@.subrange(pos as int, pos as int + l as int) =~= lit@);
    }
    Some(pos + l)
}

/// A parsed tail prefixed with already-parsed field values.
pub open spec fn compose(prefix: Seq<int>, r: Option<(Seq<int>, int)>) -> Option<
    (Seq<int>, int),
> {
    match r {
        Option::Some(ve) => Some((prefix + ve.0, ve.1)),
        Option::None => None,
    }
}

proof fn lemma_compose_empty(r: Option<(Seq<int>, int)>)
    ensures
        compose(Seq::empty(), r) == r,
{
    match r {
        Option::Some(ve) => {
            assert(Seq::<int>::empty() + ve.0 =~= ve.0);
        },
        Option::None => {},
    }
}

proof fn lemma_compose_assoc(a: Seq<int>, b: Seq<int>, r: Option<(Seq<int>, int)>)
    ensures
        compose(a, compose(b, r)) == compose(a + b, r),
{
    match r {
        Option::Some(ve) => {
            assert(a + (b + ve.0) =~= (a + b) + ve.0);
        },
        Option::None => {},
    }
}

/// Parse the numbers between the given segments, requiring the record to
/// cover the whole input.
fn parse_record(s: &str, segs: &Vec<String>) -> (r: Option<Vec<u64>>)
    requires
        segs@.len() >= 1,
    ensures
        (match r {
            Option::Some(fs) => fs@.len() + 1 == segs@.len() && spec_parse_record(
                s@,
                0,
                seg_views(segs@),
                fs@.len() as int,
            ) == Some((field_ints(fs@), s@.len() as int)),
            Option::None => (match spec_parse_record(
                s@,
                0,
                seg_views(segs@),
                segs@.len() - 1,
            ) {
                Option::Some(ve) => ve.1 != s@.len(),
                Option::None => true,
            }),
        }),
{
    let ghost sv = seg_views(segs@);
    let nf = segs.len() - 1;
    let mut fields: Vec<u64> = Vec::new();
    let mut pos: usize = 0;
    let mut i: usize = 0;
    proof {
        assert(sv.skip(0) =~= sv);
        assert(field_ints(fields@) =~= Seq::<int>::empty());
        lemma_compose_empty(spec_parse_record(s@, 0, sv, nf as int));
    }
    while i < nf
        invariant
            i <= nf,
            nf + 1 == segs@.len(),
            sv == seg_views(segs@),
            fields@.len() == i,
            pos <= s@.len(),
            spec_parse_record(s@, 0, sv, nf as int) == compose(
                field_ints(fields@),
                spec_parse_record(s@, pos as int, sv.skip(i as int), (nf - i) as int),
            ),
        decreases nf - i,
    {
        proof {
            assert(sv.skip(i as int)[0] == sv[i as int]);
            assert(sv[i as int] == segs@[i as int]@);
            assert(sv.skip(i as int).drop_first() =~= sv.skip(i as int + 1));
        }
        let ghost sub = spec_parse_record(s@, pos as int, sv.skip(i as int), (nf - i) as int);
        let p = match expect_lit(s, pos, segs[i].as_str()) {
            Some(p) => p,
            None => {
                proof {
                    assert(sub is None);
                }
                return None;
            },
        };
        let (v, q) = match parse_num_at(s, p) {
            Some(vq) => vq,
            None => {
                proof {
                    assert(spec_num(s@, p as int) is None);
                    assert(sub is None);
                }
                return None;
            },
        };
        proof {
            assert(spec_num(s@, p as int) == Some((v as int, q as int)));
        }
        let ghost old_fields = fields@;
        let ghost sub2 = spec_parse_record(
            s@,
            q as int,
            sv.skip(i as int + 1),
            (nf - i - 1) as int,
        );
        fields.push(v);
        proof {
            assert(field_ints(fields@) =~= field_ints(old_fields) + seq![v as int]);
            assert(sub == compose(seq![v as int], sub2));
            lemma_compose_assoc(field_ints(old_fields), seq![v as int], sub2);
            assert(spec_parse_record(s@, 0, sv, nf as int) == compose(
                field_ints(fields@),
                sub2,
            ));
        }
        pos = q;
        i = i + 1;
    }
    proof {
        assert(sv.skip(nf as int)[0] == sv[nf as int]);
        assert(sv[nf as int] == segs@[nf as int]@);
    }
    let ghost sub = spec_parse_record(s@, pos as int, sv.skip(nf as int), 0);
    let p = match expect_lit(s, pos, segs[nf].as_str()) {
        Some(p) => p,
        None => {
            proof {
                assert(sub is None);
            }
            return None;
        },
    };
    proof {
        assert(sub == Some((Seq::<int>::empty(), p as int)));
        assert(field_ints(fields@) + Seq::<int>::empty() =~= field_ints(fields@));
        assert(spec_parse_record(s@, 0, sv, nf as int) == Some(
            (field_ints(fields@), p as int),
        ));
    }
    let n = s.unicode_len();
    if p != n {
        return None;
    }
    Some(fields)
}

/// The fixed segments of the JSON export: one flat object, the fields in
/// declaration order.
pub open spec fn json_segs() -> Seq<Seq<char>> {
    seq![
        "{\"total_requests\":"@,
        ",\"successful_requests\":"@,
        ",\"failed_requests\":"@,
        ",\"success_rate_bp\":"@,
        ",\"total_duration_ns\":"@,
        ",\"avg_response_time_ns\":"@,
        ",\"min_response_time_ns\":"@,
        ",\"max_response_time_ns\":"@,
        ",\"p50_ns\":"@,
        ",\"p75_ns\":"@,
        ",\"p90_ns\":"@,
        ",\"p95_ns\":"@,
        ",\"p99_ns\":"@,
        ",\"qps_milli\":"@,
        "}"@,
    ]
}

/// The fixed segments of the CSV export: a header line, then the values
/// comma-separated on one line.
pub open spec fn csv_segs() -> Seq<Seq<char>> {
    seq![
        "total_requests,successful_requests,failed_requests,success_rate_bp,total_duration_ns,avg_response_time_ns,min_response_time_ns,max_response_time_ns,p50_ns,p75_ns,p90_ns,p95_ns,p99_ns,qps_milli\n"@,
        ","@,
        ","@,
        ","@,
        ","@,
        ","@,
        ","@,
        ","@,
        ","@,
        ","@,
        ","@,
        ","@,
        ","@,
        ","@,
        "\n"@,
    ]
}

/// The report's fourteen numbers, in export order.
pub open spec fn report_fields(r: BenchmarkReport) -> Seq<int> {
    seq![
        r.total_requests as int,
        r.successful_requests as int,
        r.failed_requests as int,
        r.success_rate_bp as int,
        r.total_duration_ns as int,
        r.avg_response_time_ns as int,
        r.min_response_time_ns as int,
        r.max_response_time_ns as int,
        r.p50_ns as int,
        r.p75_ns as int,
        r.p90_ns as int,
        r.p95_ns as int,
        r.p99_ns as int,
        r.qps_milli as int,
    ]
}

/// The report of fourteen in-range numbers, in export order.
pub open spec fn report_of_fields(vs: Seq<int>) -> BenchmarkReport {
    BenchmarkReport {
        total_requests: vs[0] as u64,
        successful_requests: vs[1] as u64,
        failed_requests: vs[2] as u64,
        success_rate_bp: vs[3] as u64,
        total_duration_ns: vs[4] as u64,
        avg_response_time_ns: vs[5] as u64,
        min_response_time_ns: vs[6] as u64,
        max_response_time_ns: vs[7] as u64,
        p50_ns: vs[8] as u64,
        p75_ns: vs[9] as u64,
        p90_ns: vs[10] as u64,
        p95_ns: vs[11] as u64,
        p99_ns: vs[12] as u64,
        qps_milli: vs[13] as u64,
    }
}

/// The JSON export text of a report.
pub open spec fn spec_json(r: BenchmarkReport) -> Seq<char> {
    spec_record(json_segs(), report_fields(r))
}

/// The CSV export text of a report.
pub open spec fn spec_csv(r: BenchmarkReport) -> Seq<char> {
    spec_record(csv_segs(), report_fields(r))
}

/// What parsing a JSON export yields: the report whose canonical record
/// the whole input is, if it is one.
pub open spec fn spec_json_parse(s: Seq<char>) -> Option<BenchmarkReport> {
    match spec_parse_record(s, 0, json_segs(), 14) {
        Option::Some(ve) => if ve.1 == s.len() && ve.0.len() == 14 && fields_wf(ve.0) {
            Some(report_of_fields(ve.0))
        } else {
            None
        },
        Option::None => None,
    }
}

/// What parsing a CSV export yields.
pub open spec fn spec_csv_parse(s: Seq<char>) -> Option<BenchmarkReport> {
    match spec_parse_record(s, 0, csv_segs(), 14) {
        Option::Some(ve) => if ve.1 == s.len() && ve.0.len() == 14 && fields_wf(ve.0) {
            Some(report_of_fields(ve.0))
        } else {
            None
        },
        Option::None => None,
    }
}

fn json_segments() -> (v: Vec<String>)
    ensures
        seg_views(v@) == json_segs(),
        v@.len() == 15,
{
    let mut v: Vec<String> = Vec::new();
    v.push("{\"total_requests\":".to_owned());
    v.push(",\"successful_requests\":".to_owned());
    v.push(",\"failed_requests\":".to_owned());
    v.push(",\"success_rate_bp\":".to_owned());
    v.push(",\"total_duration_ns\":".to_owned());
    v.push(",\"avg_response_time_ns\":".to_owned());
    v.push(",\"min_response_time_ns\":".to_owned());
    v.push(",\"max_response_time_ns\":".to_owned());
    v.push(",\"p50_ns\":".to_owned());
    v.push(",\"p75_ns\":".to_owned());
    v.push(",\"p90_ns\":".to_owned());
    v.push(",\"p95_ns\":".to_owned());
    v.push(",\"p99_ns\":".to_owned());
    v.push(",\"qps_milli\":".to_owned());
    v.push("}".to_owned());
    proof {
        assert(seg_views(v@) =~= json_segs());
    }
    v
}

fn csv_segments() -> (v: Vec<String>)
    ensures
        seg_views(v@) == csv_segs(),
        v@.len() == 15,
{
    let mut v: Vec<String> = Vec::new();
    v.push(
        "total_requests,successful_requests,failed_requests,success_rate_bp,total_duration_ns,avg_response_time_ns,min_response_time_ns,max_response_time_ns,p50_ns,p75_ns,p90_ns,p95_ns,p99_ns,qps_milli\n".to_owned(),
    );
    let mut i: usize = 0;
    while i < 13
        invariant
            i <= 13,
            v@.len() == i + 1,
            v@[0]@ == csv_segs()[0],
            forall|k: int| 1 <= k <= i ==> #[trigger] v@[k]@ == ","@,
        decreases 13 - i,
    {
        v.push(",".to_owned());
        i = i + 1;
    }
    v.push("\n".to_owned());
    proof {
        assert(seg_views(v@) =~= csv_segs());
    }
    v
}

fn report_field_values(r: &BenchmarkReport) -> (v: Vec<u64>)
    ensures
        field_ints(v@) == report_fields(*r),
        v@.len() == 14,
{
    let mut v: Vec<u64> = Vec::new();
    v.push(r.total_requests);
    v.push(r.successful_requests);
    v.push(r.failed_requests);
    v.push(r.success_rate_bp);
    v.push(r.total_duration_ns);
    v.push(r.avg_response_time_ns);
    v.push(r.min_response_time_ns);
    v.push(r.max_response_time_ns);
    v.push(r.p50_ns);
    v.push(r.p75_ns);
    v.push(r.p90_ns);
    v.push(r.p95_ns);
    v.push(r.p99_ns);
    v.push(r.qps_milli);
    proof {
        assert(field_ints(v@) =~= report_fields(*r));
    }
    v
}

/// Write a report as its JSON export text.
pub fn report_to_json(r: &BenchmarkReport) -> (s: String)
    ensures
        s@ == spec_json(*r),
{
    let segs = json_segments();
    let fields = report_field_values(r);
    encode_record(&segs, &fields)
}

/// Write a report as its CSV export text.
pub fn report_to_csv(r: &BenchmarkReport) -> (s: String)
    ensures
        s@ == spec_csv(*r),
{
    let segs = csv_segments();
    let fields = report_field_values(r);
    encode_record(&segs, &fields)
}

fn report_of_parsed(fs: &Vec<u64>) -> (r: BenchmarkReport)
    requires
        fs@.len() == 14,
    ensures
        r == report_of_fields(field_ints(fs@)),
{
    BenchmarkReport {
        total_requests: fs[0],
        successful_requests: fs[1],
        failed_requests: fs[2],
        success_rate_bp: fs[3],
        total_duration_ns: fs[4],
        avg_response_time_ns: fs[5],
        min_response_time_ns: fs[6],
        max_response_time_ns: fs[7],
        p50_ns: fs[8],
        p75_ns: fs[9],
        p90_ns: fs[10],
        p95_ns: fs[11],
        p99_ns: fs[12],
        qps_milli: fs[13],
    }
}

/// Read a report back from its JSON export text: the input must have
/// exactly the export's shape, one number after each field name.
pub fn report_from_json(s: &str) -> (r: Option<BenchmarkReport>)
    ensures
        r == spec_json_parse(s@),
{
    let segs = json_segments();
    match parse_record(s, &segs) {
        Some(fs) => {
            proof {
                assert(fields_wf(field_ints(fs@)));
            }
            Some(report_of_parsed(&fs))
        },
        None => None,
    }
}

/// Read a report back from its CSV export text: the input must have
/// exactly the export's shape, the header line then one value per column.
pub fn report_from_csv(s: &str) -> (r: Option<BenchmarkReport>)
    ensures
        r == spec_csv_parse(s@),
{
    let segs = csv_segments();
    match parse_record(s, &segs) {
        Some(fs) => {
            proof {
                assert(fields_wf(field_ints(fs@)));
            }
            Some(report_of_parsed(&fs))
        },
        None => None,
    }
}

proof fn lemma_json_segs_wf()
    ensures
        segs_wf(json_segs()),
{
    reveal_strlit(",\"successful_requests\":");
    reveal_strlit(",\"failed_requests\":");
    reveal_strlit(",\"success_rate_bp\":");
    reveal_strlit(",\"total_duration_ns\":");
    reveal_strlit(",\"avg_response_time_ns\":");
    reveal_strlit(",\"min_response_time_ns\":");
    reveal_strlit(",\"max_response_time_ns\":");
    reveal_strlit(",\"p50_ns\":");
    reveal_strlit(",\"p75_ns\":");
    reveal_strlit(",\"p90_ns\":");
    reveal_strlit(",\"p95_ns\":");
    reveal_strlit(",\"p99_ns\":");
    reveal_strlit(",\"qps_milli\":");
    reveal_strlit("}");
}

proof fn lemma_csv_segs_wf()
    ensures
        segs_wf(csv_segs()),
{
    reveal_strlit(",");
    reveal_strlit("\n");
}

/// The JSON round trip: the export text of any report parses back to
/// exactly that report, field for field.
pub proof fn lemma_json_round_trip(r: BenchmarkReport)
    ensures
        spec_json_parse(spec_json(r)) == Some(r),
{
    let s = spec_json(r);
    lemma_json_segs_wf();
    assert(fields_wf(report_fields(r)));
    assert(s.subrange(0, s.len() as int) =~= s);
    lemma_record_round_trip(s, 0, json_segs(), report_fields(r));
    assert(report_of_fields(report_fields(r)) == r);
}

/// The CSV round trip: the export text of any report parses back to
/// exactly that report, field for field.
pub proof fn lemma_csv_round_trip(r: BenchmarkReport)
    ensures
        spec_csv_parse(spec_csv(r)) == Some(r),
{
    let s = spec_csv(r);
    lemma_csv_segs_wf();
    assert(fields_wf(report_fields(r)));
    assert(s.subrange(0, s.len() as int) =~= s);
    lemma_record_round_trip(s, 0, csv_segs(), report_fields(r));
    assert(report_of_fields(report_fields(r)) == r);
}

} // verus!
