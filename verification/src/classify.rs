//! The metric line classifier: recognises the four diagnostic line grammars
//! and extracts typed metric records from them.
//!
//! A record's name fields are the raw captured tokens; normalization is left
//! to correlation time. A line that matches no grammar, or matches one but
//! carries a numeric field that does not parse, yields no record.

use vstd::prelude::*;

use crate::text::char_pos;
use crate::text::digit_run;
use crate::text::digits_val;
use crate::text::find_char;
use crate::text::find_pat;
use crate::text::find_substr;
use crate::text::has_prefix_at;
use crate::text::digit_end;
use crate::text::is_digit_char;
use crate::text::is_prefix;
use crate::text::lemma_digit_run;
use crate::text::lemma_find_pat;
use crate::text::matches_at;
use crate::text::parse_u64_digits;
use crate::text::token_end;
use crate::text::token_run;

verus! {

// ---------------------------------------------------------------------------
// Records
// ---------------------------------------------------------------------------

/// One extracted metric. Name fields hold the raw, pre-normalization tokens
/// captured from the log line.
#[derive(Debug, Clone, PartialEq, Eq)]
pub enum MetricRecord {
    Throughput { element: String, bits_per_second: u64 },
    FrameRate { element: String, frames_per_second: u64 },
    ProcessingTime { element: String, nanoseconds: u64 },
    InterElementLatency { from: String, to: String, nanoseconds: u64 },
}

/// The mathematical shape of a metric record.
pub ghost enum RecordModel {
    Throughput { element: Seq<char>, bits_per_second: u64 },
    FrameRate { element: Seq<char>, frames_per_second: u64 },
    ProcessingTime { element: Seq<char>, nanoseconds: u64 },
    InterElementLatency { from: Seq<char>, to: Seq<char>, nanoseconds: u64 },
}

impl View for MetricRecord {
    type V = RecordModel;

    open spec fn view(&self) -> RecordModel {
        match self {
            MetricRecord::Throughput { element, bits_per_second } => RecordModel::Throughput {
                element: element@,
                bits_per_second: *bits_per_second,
            },
            MetricRecord::FrameRate { element, frames_per_second } => RecordModel::FrameRate {
                element: element@,
                frames_per_second: *frames_per_second,
            },
            MetricRecord::ProcessingTime { element, nanoseconds } => RecordModel::ProcessingTime {
                element: element@,
                nanoseconds: *nanoseconds,
            },
            MetricRecord::InterElementLatency { from, to, nanoseconds } => RecordModel::InterElementLatency {
                from: from@,
                to: to@,
                nanoseconds: *nanoseconds,
            },
        }
    }
}

impl MetricRecord {
    /// An identical record; the copy and the original share no storage.
    pub fn duplicate(&self) -> (r: MetricRecord)
        ensures
            r@ == self@,
    {
        match self {
            MetricRecord::Throughput { element, bits_per_second } => MetricRecord::Throughput {
                element: element.clone(),
                bits_per_second: *bits_per_second,
            },
            MetricRecord::FrameRate { element, frames_per_second } => MetricRecord::FrameRate {
                element: element.clone(),
                frames_per_second: *frames_per_second,
            },
            MetricRecord::ProcessingTime { element, nanoseconds } => MetricRecord::ProcessingTime {
                element: element.clone(),
                nanoseconds: *nanoseconds,
            },
            MetricRecord::InterElementLatency { from, to, nanoseconds } => MetricRecord::InterElementLatency {
                from: from.clone(),
                to: to.clone(),
                nanoseconds: *nanoseconds,
            },
        }
    }
}

// ---------------------------------------------------------------------------
// Durations
// ---------------------------------------------------------------------------

/// A non-empty, all-digit sequence.
pub open spec fn is_digits(s: Seq<char>) -> bool {
    s.len() > 0 && forall|j: int| 0 <= j < s.len() ==> is_digit_char(s[j])
}

/// The nanosecond count an `H:MM:SS.fraction` duration string denotes: the
/// fixed decomposition `hours * 3_600_000_000_000 + minutes * 60_000_000_000
/// + seconds * 1_000_000_000 + fraction`, where the fractional field is read
/// as a plain nanosecond count. `None` on anything but two `:`-separated
/// all-digit fields followed by an all-digit seconds field with at most one
/// `.`-separated all-digit fraction.
pub open spec fn duration_ns(s: Seq<char>) -> Option<int> {
    let p1 = char_pos(s, ':') as int;
    if p1 >= s.len() {
        None
    } else {
        let h = s.take(p1);
        let rest1 = s.skip(p1 + 1);
        let p2 = char_pos(rest1, ':') as int;
        if p2 >= rest1.len() {
            None
        } else {
            let m = rest1.take(p2);
            let rest2 = rest1.skip(p2 + 1);
            if char_pos(rest2, ':') < rest2.len() {
                None
            } else {
                let pd = char_pos(rest2, '.') as int;
                let sec = if pd < rest2.len() {
                    rest2.take(pd)
                } else {
                    rest2
                };
                let frac_val = if pd < rest2.len() {
                    if is_digits(rest2.skip(pd + 1)) {
                        Some(digits_val(rest2.skip(pd + 1)))
                    } else {
                        None
                    }
                } else {
                    Some(0int)
                };
                if is_digits(h) && is_digits(m) && is_digits(sec) && frac_val is Some {
                    Some(
                        digits_val(h) * 3_600_000_000_000 + digits_val(m) * 60_000_000_000
                            + digits_val(sec) * 1_000_000_000 + frac_val.unwrap(),
                    )
                } else {
                    None
                }
            }
        }
    }
}

/// Decomposes an `H:MM:SS.fraction` duration string into nanoseconds.
/// `None` exactly when the string is malformed or the total does not fit in
/// a `u64`; a malformed duration never yields a zero-filled value.
#[verifier::rlimit(100)]
pub fn parse_duration_to_ns(time_str: &str) -> (r: Option<u64>)
    ensures
        match duration_ns(time_str@) {
            Some(w) => if w <= u64::MAX {
                r == Some(w as u64)
            } else {
                r is None
            },
            None => r is None,
        },
{
    let n = time_str.unicode_len();
    proof {
        assert(time_str@.skip(0) =~= time_str@);
    }
    let p1 = find_char(time_str, 0, ':');
    if p1 == n {
        return None;
    }
    let p2 = find_char(time_str, p1 + 1, ':');
    let ghost h = time_str@.take(p1 as int);
    let ghost rest1 = time_str@.skip(p1 + 1);
    if p2 == n {
        return None;
    }
    let ghost m = rest1.take((p2 - p1 - 1) as int);
    let ghost rest2 = time_str@.skip(p2 + 1);
    proof {
        // the spec's own seconds remainder is the same sequence
        assert(rest1.skip((p2 - p1 - 1) + 1) =~= rest2);
    }
    let p3 = find_char(time_str, p2 + 1, ':');
    if p3 < n {
        proof {
            assert(char_pos(rest2, ':') < rest2.len());
        }
        return None;
    }
    let pd = find_char(time_str, p2 + 1, '.');
    let sec_hi = if pd < n {
        pd
    } else {
        n
    };
    let ghost sec = (if pd < n {
        rest2.take((pd - p2 - 1) as int)
    } else {
        rest2
    });
    let ghost fr = time_str@.skip(pd + 1);
    proof {
        if pd < n {
            assert(rest2.skip((pd - p2 - 1) + 1) =~= fr);
        }
        assert(h =~= time_str@.subrange(0, p1 as int));
        assert(m =~= time_str@.subrange(p1 + 1, p2 as int));
        assert(sec =~= time_str@.subrange(p2 + 1, sec_hi as int));
        assert(fr =~= time_str@.subrange(pd + 1, n as int));
    }
    // every field must be a non-empty digit run
    let d0 = digit_end(time_str, 0);
    proof {
        lemma_digit_run(time_str@);
    }
    if p1 == 0 || d0 < p1 {
        proof {
            if is_digits(h) {
                assert(h[d0 as int] == time_str@[d0 as int]);
                assert(is_digit_char(time_str@[d0 as int]));
            }
        }
        return None;
    }
    let dm = digit_end(time_str, p1 + 1);
    proof {
        lemma_digit_run(time_str@.skip(p1 + 1));
    }
    if p2 == p1 + 1 || dm < p2 {
        proof {
            if is_digits(m) {
                assert(m[dm - p1 - 1] == time_str@[dm as int]);
                assert(time_str@.skip(p1 + 1)[dm - p1 - 1] == time_str@[dm as int]);
            }
        }
        return None;
    }
    let ds = digit_end(time_str, p2 + 1);
    proof {
        lemma_digit_run(rest2);
    }
    if sec_hi == p2 + 1 || ds < sec_hi {
        proof {
            if is_digits(sec) {
                assert(sec[ds - p2 - 1] == time_str@[ds as int]);
                assert(rest2[ds - p2 - 1] == time_str@[ds as int]);
            }
        }
        return None;
    }
    if pd < n {
        let df = digit_end(time_str, pd + 1);
        proof {
            lemma_digit_run(fr);
        }
        if pd + 1 == n || df < n {
            proof {
                if is_digits(fr) {
                    assert(fr[df - pd - 1] == time_str@[df as int]);
                    assert(time_str@.skip(pd + 1)[df - pd - 1] == time_str@[df as int]);
                }
            }
            return None;
        }
    }
    proof {
        assert forall|j: int| 0 <= j < h.len() implies is_digit_char(#[trigger] h[j]) by {
            assert(h[j] == time_str@[j]);
        }
        assert forall|j: int| 0 <= j < m.len() implies is_digit_char(#[trigger] m[j]) by {
            assert(m[j] == time_str@[p1 + 1 + j]);
        }
        assert forall|j: int| 0 <= j < sec.len() implies is_digit_char(#[trigger] sec[j]) by {
            assert(sec[j] == time_str@[p2 + 1 + j]);
        }
        if pd < n {
            assert forall|j: int| 0 <= j < fr.len() implies is_digit_char(#[trigger] fr[j]) by {
                assert(fr[j] == time_str@[pd + 1 + j]);
            }
            assert(is_digits(fr));
        }
        assert(is_digits(h));
        assert(is_digits(m));
        assert(is_digits(sec));
    }
    let ghost hval = digits_val(h);
    let ghost mval = digits_val(m);
    let ghost sval = digits_val(sec);
    let ghost fval: int = if pd < n {
        digits_val(fr)
    } else {
        0
    };
    let ghost w = hval * 3_600_000_000_000 + mval * 60_000_000_000 + sval * 1_000_000_000 + fval;
    proof {
        assert(duration_ns(time_str@) is Some);
        assert(duration_ns(time_str@).unwrap() == w);
        crate::text::lemma_digits_val_nonneg(h);
        crate::text::lemma_digits_val_nonneg(m);
        crate::text::lemma_digits_val_nonneg(sec);
        if pd < n {
            crate::text::lemma_digits_val_nonneg(fr);
        }
        assert(hval * 3_600_000_000_000 >= hval && hval * 3_600_000_000_000 >= 0)
            by (nonlinear_arith)
            requires
                hval >= 0,
        ;
        assert(mval * 60_000_000_000 >= mval && mval * 60_000_000_000 >= 0) by (nonlinear_arith)
            requires
                mval >= 0,
        ;
        assert(sval * 1_000_000_000 >= sval && sval * 1_000_000_000 >= 0) by (nonlinear_arith)
            requires
                sval >= 0,
        ;
        assert(fval >= 0);
    }
    proof {
        assert forall|j: int| p1 + 1 <= j < p2 implies is_digit_char(time_str@[j]) by {
            assert(m[j - p1 - 1] == time_str@[j]);
        }
        assert forall|j: int| p2 + 1 <= j < sec_hi implies is_digit_char(time_str@[j]) by {
            assert(sec[j - p2 - 1] == time_str@[j]);
        }
        if pd < n {
            assert forall|j: int| pd + 1 <= j < n implies is_digit_char(time_str@[j]) by {
                assert(fr[j - pd - 1] == time_str@[j]);
            }
        }
    }
    let hv = match parse_u64_digits(time_str, 0, p1) {
        Some(v) => v,
        None => {
            return None;
        },
    };
    let mv = match parse_u64_digits(time_str, p1 + 1, p2) {
        Some(v) => v,
        None => {
            return None;
        },
    };
    let sv = match parse_u64_digits(time_str, p2 + 1, sec_hi) {
        Some(v) => v,
        None => {
            return None;
        },
    };
    let mut frac: u64 = 0;
    if pd < n {
        frac = match parse_u64_digits(time_str, pd + 1, n) {
            Some(v) => v,
            None => {
                return None;
            },
        };
    }
    let hours_ns = match hv.checked_mul(3_600_000_000_000) {
        Some(v) => v,
        None => {
            return None;
        },
    };
    let minutes_ns = match mv.checked_mul(60_000_000_000) {
        Some(v) => v,
        None => {
            return None;
        },
    };
    let seconds_ns = match sv.checked_mul(1_000_000_000) {
        Some(v) => v,
        None => {
            return None;
        },
    };
    let t1 = match hours_ns.checked_add(minutes_ns) {
        Some(v) => v,
        None => {
            return None;
        },
    };
    let t2 = match t1.checked_add(seconds_ns) {
        Some(v) => v,
        None => {
            return None;
        },
    };
    let total = match t2.checked_add(frac) {
        Some(v) => v,
        None => {
            return None;
        },
    };
    Some(total)
}

// ---------------------------------------------------------------------------
// The four line grammars
// ---------------------------------------------------------------------------
//
// A grammar matches at the first occurrence of its leading marker: the
// marker, a non-empty field token, a fixed glue string, and a closing
// capture. A numeric capture that does not fit a `u64` counts as a
// non-match.

/// Marker, token, glue: yields the raw token and the index just past the
/// glue.
pub open spec fn field_spec(line: Seq<char>, marker: Seq<char>, glue: Seq<char>) -> Option<
    (Seq<char>, int),
> {
    let f = find_pat(line, marker);
    if f < 0 {
        None
    } else {
        let ts = f + marker.len();
        let tl = token_run(line.skip(ts)) as int;
        if tl <= 0 {
            None
        } else {
            let te = ts + tl;
            if is_prefix(glue, line.skip(te)) {
                Some((line.subrange(ts, te), te + glue.len()))
            } else {
                None
            }
        }
    }
}

/// Marker, token, glue, unsigned decimal, `;`.
pub open spec fn parse_pad_u64(line: Seq<char>, marker: Seq<char>, glue: Seq<char>) -> Option<
    (Seq<char>, int),
> {
    match field_spec(line, marker, glue) {
        Some((tok, ds)) => {
            let dl = digit_run(line.skip(ds)) as int;
            if dl <= 0 {
                None
            } else if ds + dl < line.len() && line[ds + dl] == ';' {
                let v = digits_val(line.subrange(ds, ds + dl));
                if v <= u64::MAX {
                    Some((tok, v))
                } else {
                    None
                }
            } else {
                None
            }
        },
        None => None,
    }
}

/// Marker, token, glue, second token, `;`.
pub open spec fn parse_tok_tok(line: Seq<char>, marker: Seq<char>, glue: Seq<char>) -> Option<
    (Seq<char>, Seq<char>),
> {
    match field_spec(line, marker, glue) {
        Some((tok, ts2)) => {
            let t2 = token_run(line.skip(ts2)) as int;
            if t2 <= 0 {
                None
            } else if ts2 + t2 < line.len() && line[ts2 + t2] == ';' {
                Some((tok, line.subrange(ts2, ts2 + t2)))
            } else {
                None
            }
        },
        None => None,
    }
}

/// The processing-time grammar: an element token and a duration whose
/// decomposition fits a `u64`.
pub open spec fn parse_proctime(line: Seq<char>) -> Option<(Seq<char>, int)> {
    match parse_tok_tok(line, "element=(string)"@, ", time=(string)"@) {
        Some((tok, dur)) => match duration_ns(dur) {
            Some(w) => if w <= u64::MAX {
                Some((tok, w))
            } else {
                None
            },
            None => None,
        },
        None => None,
    }
}

/// The inter-element latency grammar: a source pad token, a target pad
/// token, and a plain nanosecond count — deliberately not an `H:MM:SS`
/// decomposition.
pub open spec fn parse_interlatency(line: Seq<char>) -> Option<(Seq<char>, Seq<char>, int)> {
    match field_spec(line, "from_pad=(string)"@, ", to_pad=(string)"@) {
        Some((from_tok, ts2)) => {
            let t2 = token_run(line.skip(ts2)) as int;
            if t2 <= 0 {
                None
            } else {
                let te2 = ts2 + t2;
                if is_prefix(", time=(string)"@, line.skip(te2)) {
                    let ds = te2 + ", time=(string)"@.len();
                    let dl = digit_run(line.skip(ds)) as int;
                    if dl <= 0 {
                        None
                    } else if ds + dl < line.len() && line[ds + dl] == ';' {
                        let v = digits_val(line.subrange(ds, ds + dl));
                        if v <= u64::MAX {
                            Some((from_tok, line.subrange(ts2, te2), v))
                        } else {
                            None
                        }
                    } else {
                        None
                    }
                } else {
                    None
                }
            }
        },
        None => None,
    }
}

/// The classifier: the four grammars tried in fixed priority order —
/// throughput, frame rate, processing time, inter-element latency — and the
/// first match wins.
pub open spec fn classify_spec(line: Seq<char>) -> Option<RecordModel> {
    match parse_pad_u64(line, "pad=(string)"@, ", bitrate=(guint64)"@) {
        Some((tok, v)) => Some(
            RecordModel::Throughput { element: tok, bits_per_second: v as u64 },
        ),
        None => match parse_pad_u64(line, "pad=(string)"@, ", fps=(uint)"@) {
            Some((tok, v)) => Some(
                RecordModel::FrameRate { element: tok, frames_per_second: v as u64 },
            ),
            None => match parse_proctime(line) {
                Some((tok, w)) => Some(
                    RecordModel::ProcessingTime { element: tok, nanoseconds: w as u64 },
                ),
                None => match parse_interlatency(line) {
                    Some((f, t, v)) => Some(
                        RecordModel::InterElementLatency {
                            from: f,
                            to: t,
                            nanoseconds: v as u64,
                        },
                    ),
                    None => None,
                },
            },
        },
    }
}

/// Finds marker, token and glue in `line`; the token as a `String` and the
/// index just past the glue.
fn match_field(line: &str, marker: &str, glue: &str) -> (r: Option<(String, usize)>)
    ensures
        match field_spec(line@, marker@, glue@) {
            Some(p) => r matches Some(q) && q.0@ == p.0 && q.1 as int == p.1 && q.1 <= line@.len(),
            None => r is None,
        },
{
    let n = line.unicode_len();
    let f = match find_substr(line, marker) {
        Some(f) => f,
        None => {
            return None;
        },
    };
    proof {
        lemma_find_pat(line@, marker@);
        assert(matches_at(line@, marker@, f as int));
    }
    let ts = f + marker.unicode_len();
    let te = token_end(line, ts);
    if te == ts {
        return None;
    }
    if !has_prefix_at(line, te, glue) {
        return None;
    }
    proof {
        assert(line@.skip(te as int).len() == n - te);
    }
    let ds = te + glue.unicode_len();
    let tok = line.substring_char(ts, te);
    Some((tok.to_owned(), ds))
}

/// Reads the `<digits>;` closing capture at `ds`; `None` when it is absent
/// or does not fit a `u64`.
fn match_u64_close(line: &str, ds: usize) -> (r: Option<u64>)
    requires
        ds <= line@.len(),
    ensures
        ({
            let dl = digit_run(line@.skip(ds as int)) as int;
            match r {
                Some(v) => dl > 0 && ds + dl < line@.len() && line@[ds + dl] == ';' && v as int
                    == digits_val(line@.subrange(ds as int, ds + dl)) && v <= u64::MAX,
                None => dl <= 0 || !(ds + dl < line@.len() && line@[ds + dl] == ';')
                    || digits_val(line@.subrange(ds as int, ds + dl)) > u64::MAX,
            }
        }),
{
    let n = line.unicode_len();
    let de = digit_end(line, ds);
    if de == ds {
        return None;
    }
    if de >= n {
        return None;
    }
    if line.get_char(de) != ';' {
        return None;
    }
    proof {
        lemma_digit_run(line@.skip(ds as int));
        assert forall|j: int| ds <= j < de implies is_digit_char(line@[j]) by {
            assert(line@.skip(ds as int)[j - ds] == line@[j]);
        }
    }
    parse_u64_digits(line, ds, de)
}

/// Matches one `marker token glue digits ;` grammar and returns the raw
/// token and the number.
fn match_pad_u64(line: &str, marker: &str, glue: &str) -> (r: Option<(String, u64)>)
    ensures
        match parse_pad_u64(line@, marker@, glue@) {
            Some(p) => r matches Some(q) && q.0@ == p.0 && q.1 as int == p.1,
            None => r is None,
        },
{
    let (tok, ds) = match match_field(line, marker, glue) {
        Some(q) => q,
        None => {
            return None;
        },
    };
    match match_u64_close(line, ds) {
        Some(v) => Some((tok, v)),
        None => None,
    }
}

/// Matches one `marker token glue token ;` grammar and returns both raw
/// tokens.
fn match_tok_tok(line: &str, marker: &str, glue: &str) -> (r: Option<(String, String)>)
    ensures
        match parse_tok_tok(line@, marker@, glue@) {
            Some(p) => r matches Some(q) && q.0@ == p.0 && q.1@ == p.1,
            None => r is None,
        },
{
    let (tok, ts2) = match match_field(line, marker, glue) {
        Some(q) => q,
        None => {
            return None;
        },
    };
    let n = line.unicode_len();
    let te2 = token_end(line, ts2);
    if te2 == ts2 {
        return None;
    }
    if te2 >= n {
        return None;
    }
    if line.get_char(te2) != ';' {
        return None;
    }
    let second = line.substring_char(ts2, te2);
    Some((tok, second.to_owned()))
}

/// Matches the inter-element latency grammar.
fn match_interlatency(line: &str) -> (r: Option<(String, String, u64)>)
    ensures
        match parse_interlatency(line@) {
            Some(p) => r matches Some(q) && q.0@ == p.0 && q.1@ == p.1 && q.2 as int == p.2,
            None => r is None,
        },
{
    let n = line.unicode_len();
    let (from_tok, ts2) = match match_field(line, "from_pad=(string)", ", to_pad=(string)") {
        Some(q) => q,
        None => {
            return None;
        },
    };
    let te2 = token_end(line, ts2);
    if te2 == ts2 {
        return None;
    }
    if !has_prefix_at(line, te2, ", time=(string)") {
        return None;
    }
    proof {
        assert(line@.skip(te2 as int).len() == n - te2);
    }
    let ds = te2 + ", time=(string)".unicode_len();
    let to_tok = line.substring_char(ts2, te2);
    match match_u64_close(line, ds) {
        Some(v) => Some((from_tok, to_tok.to_owned(), v)),
        None => None,
    }
}

/// Classifies one diagnostic line: tries the four grammars in fixed
/// priority order and returns the first match as a record, or nothing for
/// the overwhelming share of lines that carry no recognised metric. The
/// classifier never fails on malformed input; a grammar whose numeric field
/// does not parse is treated as a non-match.
pub fn classify_line(line: &str) -> (r: Option<MetricRecord>)
    ensures
        match classify_spec(line@) {
            Some(m) => r matches Some(rec) && rec@ == m,
            None => r is None,
        },
{
    if let Some((el, v)) = match_pad_u64(line, "pad=(string)", ", bitrate=(guint64)") {
        return Some(MetricRecord::Throughput { element: el, bits_per_second: v });
    }
    if let Some((el, v)) = match_pad_u64(line, "pad=(string)", ", fps=(uint)") {
        return Some(MetricRecord::FrameRate { element: el, frames_per_second: v });
    }
    if let Some((el, t)) = match_tok_tok(line, "element=(string)", ", time=(string)") {
        if let Some(ns) = parse_duration_to_ns(t.as_str()) {
            return Some(MetricRecord::ProcessingTime { element: el, nanoseconds: ns });
        }
    }
    if let Some((f, t, v)) = match_interlatency(line) {
        return Some(MetricRecord::InterElementLatency { from: f, to: t, nanoseconds: v });
    }
    None
}

} // verus!
