use vstd::prelude::*;

use crate::errors::TraceLookupError;
use crate::text::{spec_uint_string, uint_to_string, views_of};
use crate::timefmt::MAX_EPOCH_SECONDS;

verus! {

/// The fields this system reads out of one trace file, still as the raw
/// text the file carried them in.
#[derive(Debug, Clone, PartialEq, Eq)]
pub struct RawTraceFields {
    pub job_id: String,
    pub start_time: String,
    pub end_time: String,
}

/// The job identifier, start time and end time that a trace file's text
/// denotes, when the text parses as a trace record carrying all three;
/// fixed by the text alone.
pub uninterp spec fn trace_fields_of(text: Seq<char>) -> Option<(Seq<char>, Seq<char>, Seq<char>)>;

/// Relies on serde_json::from_str and the Value accessors get, as_str
/// and as_number: parsing a JSON text and reading the job-id field and
/// the two nested time fields is a function of the text alone.
#[verifier::external_body]
fn extract_trace_fields(text: &str) -> (r: Option<RawTraceFields>)
    ensures
        match r {
            Some(f) => trace_fields_of(text@) == Some((f.job_id@, f.start_time@, f.end_time@)),
            None => trace_fields_of(text@) is None,
        },
{
    let v: serde_json::Value = match serde_json::from_str(text) {
        Ok(v) => v,
        Err(_) => return None,
    };
    let job_id = v.get("userT")?.get("job_id")?.as_str()?.to_string();
    let start_time = v.get("userDT")?.get("start_time")?.as_number()?.to_string();
    let end_time = v.get("userDT")?.get("end_time")?.as_number()?.to_string();
    Some(RawTraceFields { job_id, start_time, end_time })
}

/// A decimal digit.
pub open spec fn is_digit_char(c: char) -> bool {
    48 <= (c as int) && (c as int) <= 57
}

/// Every character is a decimal digit.
pub open spec fn all_digits(s: Seq<char>) -> bool {
    forall|j: int| 0 <= j < s.len() ==> is_digit_char(s[j])
}

/// The number a digit sequence denotes.
pub open spec fn digits_value(s: Seq<char>) -> int
    decreases s.len(),
{
    if s.len() == 0 {
        0
    } else {
        digits_value(s.drop_last()) * 10 + (s.last() as int - 48)
    }
}

/// Index of the first `.`, or the length when there is none.
pub open spec fn spec_dot_pos(s: Seq<char>) -> int
    decreases s.len(),
{
    if s.len() == 0 {
        0
    } else if s[0] == '.' {
        0
    } else {
        1 + spec_dot_pos(s.drop_first())
    }
}

/// `spec_dot_pos` is exactly the position that has no `.` before it and
/// a `.` (or the end) at it.
pub proof fn lemma_dot_pos_at(s: Seq<char>, k: int)
    requires
        0 <= k <= s.len(),
        forall|j: int| 0 <= j < k ==> s[j] != '.',
        k < s.len() ==> s[k] == '.',
    ensures
        spec_dot_pos(s) == k,
    decreases s.len(),
{
    if s.len() == 0 {
    } else if k == 0 {
    } else {
        assert(s[0] != '.');
        lemma_dot_pos_at(s.drop_first(), k - 1);
    }
}

/// A digit sequence denotes a non-negative number.
pub proof fn lemma_digits_value_nonneg(s: Seq<char>)
    requires
        all_digits(s),
    ensures
        digits_value(s) >= 0,
    decreases s.len(),
{
    if s.len() > 0 {
        assert(all_digits(s.drop_last()));
        lemma_digits_value_nonneg(s.drop_last());
    }
}

/// Extending a digit sequence never shrinks the number it denotes.
pub proof fn lemma_digits_prefix_le(s: Seq<char>, i: int)
    requires
        all_digits(s),
        0 <= i <= s.len(),
    ensures
        digits_value(s.take(i)) <= digits_value(s),
    decreases s.len() - i,
{
    if i < s.len() {
        lemma_digits_prefix_le(s, i + 1);
        assert(s.take(i + 1).drop_last() =~= s.take(i));
        assert(all_digits(s.take(i)));
        lemma_digits_value_nonneg(s.take(i));
    } else {
        assert(s.take(i) =~= s);
    }
}

/// The epoch second count a decimal text denotes: the digits before an
/// optional fraction, read as an integer within the formatter's range.
/// Text of any other shape, a negative count, or one at or past the
/// range's end denotes nothing.
pub open spec fn spec_parse_epoch(s: Seq<char>) -> Option<int> {
    let k = spec_dot_pos(s);
    let ip = s.take(k);
    if k > 0 && all_digits(ip) && (k == s.len() || all_digits(s.skip(k + 1))) && digits_value(ip)
        < MAX_EPOCH_SECONDS {
        Some(digits_value(ip))
    } else {
        None
    }
}

/// Read a decimal epoch second count, truncating any fraction, and
/// rejecting text that `spec_parse_epoch` gives no meaning.
pub fn parse_epoch_seconds(s: &str) -> (r: Option<i64>)
    ensures
        match r {
            Some(v) => spec_parse_epoch(s@) == Some(v as int) && 0 <= v < MAX_EPOCH_SECONDS,
            None => spec_parse_epoch(s@) is None,
        },
{
    let len = s.unicode_len();
    let mut k: usize = 0;
    while k < len && s.get_char(k) != '.'
        invariant
            k <= len,
            len == s@.len(),
            forall|j: int| 0 <= j < k ==> s@[j] != '.',
        decreases len - k,
    {
        k = k + 1;
    }
    proof {
        lemma_dot_pos_at(s@, k as int);
    }
    if k == 0 {
        return None;
    }
    let ghost ip = s@.take(k as int);
    let mut acc: u64 = 0;
    let mut i: usize = 0;
    while i < k
        invariant
            i <= k <= len,
            len == s@.len(),
            ip == s@.take(k as int),
            spec_dot_pos(s@) == k,
            k > 0,
            all_digits(s@.take(i as int)),
            acc as int == digits_value(s@.take(i as int)),
            acc < MAX_EPOCH_SECONDS,
        decreases k - i,
    {
        let c = s.get_char(i);
        let u = c as u32;
        if u < 48 || u > 57 {
            proof {
                assert(!is_digit_char(ip[i as int]));
                assert(!all_digits(ip));
            }
            return None;
        }
        let d = (u - 48) as u64;
        let next = acc * 10 + d;
        proof {
            assert(s@.take(i + 1 as int).drop_last() =~= s@.take(i as int));
            assert(s@.take(i + 1 as int).last() == s@[i as int]);
        }
        if next >= MAX_EPOCH_SECONDS {
            proof {
                if all_digits(ip) {
                    lemma_digits_prefix_le(ip, i + 1 as int);
                    assert(ip.take(i + 1 as int) =~= s@.take(i + 1 as int));
                    assert(digits_value(ip) >= next);
                }
            }
            return None;
        }
        acc = next;
        i = i + 1;
    }
    proof {
        assert(s@.take(i as int) == ip);
    }
    if k < len {
        let mut j: usize = k + 1;
        while j < len
            invariant
                k + 1 <= j <= len,
                len == s@.len(),
                ip == s@.take(k as int),
                spec_dot_pos(s@) == k,
                k > 0,
                all_digits(ip),
                acc as int == digits_value(ip),
                acc < MAX_EPOCH_SECONDS,
                forall|t: int| k + 1 <= t < j ==> is_digit_char(s@[t]),
            decreases len - j,
        {
            let c = s.get_char(j);
            let u = c as u32;
            if u < 48 || u > 57 {
                proof {
                    assert(!is_digit_char(s@.skip(k + 1 as int)[j - (k + 1) as int]));
                    assert(!all_digits(s@.skip(k + 1 as int)));
                }
                return None;
            }
            j = j + 1;
        }
        proof {
            assert forall|t: int| 0 <= t < s@.skip(k + 1 as int).len() implies #[trigger]
            is_digit_char(s@.skip(k + 1 as int)[t]) by {
                assert(s@.skip(k + 1 as int)[t] == s@[t + k + 1]);
            }
            assert(all_digits(s@.skip(k + 1 as int)));
        }
    }
    Some(acc as i64)
}

/// A trace record, reduced to what correlation needs: whole epoch
/// seconds for the measured execution window.
#[derive(Debug, Clone, Copy, PartialEq, Eq)]
pub struct ExecutionTrace {
    pub job_id: u32,
    pub start_time: i64,
    pub end_time: i64,
}

/// Search the trace texts in order for the target job: the first text
/// whose record names the job (compared as strings) yields its window; a
/// text that does not parse as a usable record stops the search with a
/// read failure; running out of texts means no trace exists.
pub open spec fn spec_find_trace(files: Seq<Seq<char>>, jid: Seq<char>) -> Result<
    (int, int),
    TraceLookupError,
>
    decreases files.len(),
{
    if files.len() == 0 {
        Err(TraceLookupError::NotFound)
    } else {
        match trace_fields_of(files[0]) {
            None => Err(TraceLookupError::ReadError),
            Some(f) => if f.0 == jid {
                match (spec_parse_epoch(f.1), spec_parse_epoch(f.2)) {
                    (Some(st), Some(en)) => Ok((st, en)),
                    _ => Err(TraceLookupError::ReadError),
                }
            } else {
                spec_find_trace(files.drop_first(), jid)
            },
        }
    }
}

/// The trace collection directory of the given user.
pub fn xalt_trace_dir(user: &str) -> (r: String)
    ensures
        r@ == "/home/"@ + user@ + "/.xalt.d"@,
{
    let mut out = "/home/".to_owned();
    out.append(user);
    out.append("/.xalt.d");
    out
}

/// Find the execution trace for the job among the listed trace-file
/// texts.  `listing` is `None` when the trace directory (or a file in
/// it) could not be read at all, which is a read failure; otherwise the
/// texts are searched in the order given, first match wins.
pub fn get_xalt_trace(job_id: u32, listing: Option<&Vec<String>>) -> (r: Result<
    ExecutionTrace,
    TraceLookupError,
>)
    ensures
        match listing {
            None => r == Err::<ExecutionTrace, TraceLookupError>(TraceLookupError::ReadError),
            Some(fs) => {
                let outcome = spec_find_trace(views_of(fs@), spec_uint_string(job_id as int));
                match r {
                    Ok(tr) => {
                        &&& outcome is Ok
                        &&& tr.job_id == job_id
                        &&& tr.start_time as int == outcome.unwrap().0
                        &&& tr.end_time as int == outcome.unwrap().1
                        &&& 0 <= tr.start_time < MAX_EPOCH_SECONDS
                        &&& 0 <= tr.end_time < MAX_EPOCH_SECONDS
                    },
                    Err(e) => outcome == Err::<(int, int), TraceLookupError>(e),
                }
            },
        },
{
    let files = match listing {
        None => {
            return Err(TraceLookupError::ReadError);
        },
        Some(fs) => fs,
    };
    let ghost all = views_of(files@);
    let ghost jid = spec_uint_string(job_id as int);
    let target = uint_to_string(job_id as u64);
    let mut i: usize = 0;
    proof {
        assert(all.skip(0) =~= all);
    }
    while i < files.len()
        invariant
            listing == Some(files),
            i <= files.len(),
            all == views_of(files@),
            all.len() == files@.len(),
            forall|j: int| 0 <= j < files@.len() ==> all[j] == files@[j]@,
            jid == spec_uint_string(job_id as int),
            target@ == jid,
            spec_find_trace(all, jid) == spec_find_trace(all.skip(i as int), jid),
        decreases files.len() - i,
    {
        let text = &files[i];
        match extract_trace_fields(text.as_str()) {
            None => {
                return Err(TraceLookupError::ReadError);
            },
            Some(f) => {
                if f.job_id.eq(&target) {
                    let start = parse_epoch_seconds(f.start_time.as_str());
                    let end = parse_epoch_seconds(f.end_time.as_str());
                    match (start, end) {
                        (Some(st), Some(en)) => {
                            return Ok(ExecutionTrace { job_id, start_time: st, end_time: en });
                        },
                        _ => {
                            return Err(TraceLookupError::ReadError);
                        },
                    }
                }
            },
        }
        proof {
            assert(all.skip(i as int).drop_first() =~= all.skip(i + 1 as int));
        }
        i = i + 1;
    }
    proof {
        assert(all.skip(files@.len() as int) =~= Seq::<Seq<char>>::empty());
    }
    Err(TraceLookupError::NotFound)
}

} // verus!
