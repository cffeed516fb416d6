//! Event timestamps: RFC 3339 UTC text, normalized to millisecond precision
//! with a `Z` suffix (`YYYY-MM-DDTHH:MM:SS.mmmZ`).
use vstd::prelude::*;
use vstd::utf8::{encode_utf8, encode_scalar};
use time::format_description::well_known::Rfc3339;
use time::OffsetDateTime;
use crate::config::opt_string_view;
use crate::text::{
    find_char, first_index_of, first_match_index, lemma_first_index_absent,
    lemma_first_index_found, lemma_first_match_absent, lemma_first_match_found, push_char,
};

verus! {

/// A character that starts the offset part of an RFC 3339 timestamp.
pub open spec fn is_offset_start(c: char) -> bool {
    c == 'Z' || c == '+'
}

/// The predicate "starts the offset part".
pub open spec fn offset_start() -> spec_fn(char) -> bool {
    |c: char| is_offset_start(c)
}

/// The position of the first `Z` or `+` in `s`, or -1 when there is none.
pub open spec fn first_offset_index(s: Seq<char>) -> int {
    first_match_index(s, offset_start())
}

/// The number of bytes of the UTF-8 encoding of `s`.
pub open spec fn utf8_len(s: Seq<char>) -> int {
    encode_utf8(s).len() as int
}

/// `n` copies of `0`.
pub open spec fn zeros(n: nat) -> Seq<char> {
    Seq::new(n, |i: int| '0')
}

/// How many `0` characters are appended to a fraction so that its UTF-8
/// encoding is at least three bytes long.
pub open spec fn padding_needed(frac: Seq<char>) -> nat {
    if utf8_len(frac) < 3 {
        (3 - utf8_len(frac)) as nat
    } else {
        0
    }
}

/// Keeps at most the first three characters of a fraction and pads it with
/// `0` until its encoding has three bytes.
pub open spec fn millis_of(frac: Seq<char>) -> Seq<char> {
    let kept = if frac.len() < 3 {
        frac
    } else {
        frac.subrange(0, 3)
    };
    kept + zeros(padding_needed(kept))
}

/// A timestamp normalized to milliseconds with a `Z` suffix: the text up to
/// the first `Z` or `+`, its fraction cut or padded to three digits (`.000`
/// when there is none), then `Z`. Text without `Z` or `+` is kept as it is.
pub open spec fn normalize_ts_spec(s: Seq<char>) -> Seq<char> {
    let z = first_offset_index(s);
    if z < 0 {
        s
    } else {
        let dt = s.subrange(0, z);
        let d = first_index_of(dt, '.');
        if d < 0 {
            dt + seq!['.', '0', '0', '0', 'Z']
        } else {
            dt.subrange(0, d) + seq!['.'] + millis_of(dt.subrange(d + 1, dt.len() as int)) + seq![
                'Z',
            ]
        }
    }
}

proof fn lemma_encode_utf8_concat(a: Seq<char>, b: Seq<char>)
    ensures
        encode_utf8(a + b) == encode_utf8(a) + encode_utf8(b),
    decreases a.len(),
{
    if a.len() == 0 {
        assert(a + b =~= b);
        assert(encode_utf8(a) =~= Seq::<u8>::empty());
        assert(encode_utf8(a) + encode_utf8(b) =~= encode_utf8(b));
    } else {
        lemma_encode_utf8_concat(a.drop_first(), b);
        assert((a + b).drop_first() =~= a.drop_first() + b);
        assert(encode_utf8(a + b) == encode_scalar((a + b)[0] as u32) + encode_utf8(
            (a + b).drop_first(),
        ));
        assert(encode_utf8(a + b) =~= encode_utf8(a) + encode_utf8(b));
    }
}

proof fn lemma_utf8_len_bound(s: Seq<char>)
    ensures
        0 <= utf8_len(s) <= 4 * s.len(),
    decreases s.len(),
{
    if s.len() > 0 {
        lemma_utf8_len_bound(s.drop_first());
        assert(encode_scalar(s[0] as u32).len() <= 4);
    }
}

proof fn lemma_utf8_len_push_zero(s: Seq<char>)
    ensures
        utf8_len(s.push('0')) == utf8_len(s) + 1,
{
    lemma_encode_utf8_concat(s, seq!['0']);
    assert(s.push('0') =~= s + seq!['0']);
    assert(seq!['0'].drop_first() =~= Seq::<char>::empty());
    assert(encode_utf8(seq!['0']) == encode_scalar('0' as u32) + encode_utf8(
        Seq::<char>::empty(),
    ));
}

/// Appends `frac` cut to three characters and padded with `0` until its
/// UTF-8 encoding has three bytes.
fn push_millis(out: &mut String, frac: &str)
    ensures
        final(out)@ == old(out)@ + millis_of(frac@),
{
    let n = frac.unicode_len();
    let take: usize = if n < 3 {
        n
    } else {
        3
    };
    let ghost kept = if frac@.len() < 3 {
        frac@
    } else {
        frac@.subrange(0, 3)
    };
    let mut buf = String::new();
    let mut i: usize = 0;
    while i < take
        invariant
            n == frac@.len(),
            take <= n,
            take == kept.len(),
            kept =~= frac@.subrange(0, take as int),
            i <= take,
            buf@ =~= frac@.subrange(0, i as int),
        decreases take - i,
    {
        push_char(&mut buf, frac.get_char(i));
        i = i + 1;
    }
    let ghost k: nat = 0;
    proof {
        lemma_utf8_len_bound(kept);
    }
    while buf.as_str().len() < 3
        invariant
            buf@ =~= kept + zeros(k),
            utf8_len(buf@) == utf8_len(kept) + k,
            utf8_len(kept) + k <= 3 || k == 0,
            0 <= utf8_len(kept) <= 12,
        decreases 3 - utf8_len(buf@),
    {
        proof {
            lemma_utf8_len_push_zero(buf@);
        }
        push_char(&mut buf, '0');
        proof {
            k = k + 1;
        }
    }
    assert(k == padding_needed(kept));
    out.append(buf.as_str());
}

/// Normalizes an RFC 3339 timestamp to millisecond precision with a `Z`
/// suffix: the fraction is cut to three digits or padded with `0`, a missing
/// fraction becomes `.000`, and an offset is replaced by `Z`.
pub fn normalize_ts(rfc3339: &str) -> (r: String)
    ensures
        r@ == normalize_ts_spec(rfc3339@),
{
    let n = rfc3339.unicode_len();
    let mut z: usize = 0;
    while z < n && !(rfc3339.get_char(z) == 'Z' || rfc3339.get_char(z) == '+')
        invariant
            n == rfc3339@.len(),
            z <= n,
            forall|j: int| 0 <= j < z ==> !is_offset_start(rfc3339@[j]),
        decreases n - z,
    {
        z = z + 1;
    }
    if z == n {
        proof {
            lemma_first_match_absent(rfc3339@, offset_start());
        }
        return String::from_str(rfc3339);
    }
    proof {
        lemma_first_match_found(rfc3339@, offset_start(), z as int);
    }
    let date_time = rfc3339.substring_char(0, z);
    let d = find_char(date_time, '.');
    let mut out = String::new();
    if d == z {
        out.append(date_time);
        push_char(&mut out, '.');
        push_char(&mut out, '0');
        push_char(&mut out, '0');
        push_char(&mut out, '0');
    } else {
        out.append(date_time.substring_char(0, d));
        push_char(&mut out, '.');
        push_millis(&mut out, date_time.substring_char(d + 1, z));
    }
    push_char(&mut out, 'Z');
    out
}

/// An ASCII decimal digit.
pub open spec fn is_digit(c: char) -> bool {
    '0' <= c && c <= '9'
}

/// `s` starts with a date and time of day in the form
/// `YYYY-MM-DDTHH:MM:SS`, every field made of decimal digits.
pub open spec fn has_date_time_prefix(s: Seq<char>) -> bool {
    &&& s.len() >= 19
    &&& forall|i: int|
        0 <= i < 19 && i != 4 && i != 7 && i != 10 && i != 13 && i != 16 ==> is_digit(
            #[trigger] s[i],
        )
    &&& s[4] == '-'
    &&& s[7] == '-'
    &&& s[10] == 'T'
    &&& s[13] == ':'
    &&& s[16] == ':'
}

/// The shape of an RFC 3339 timestamp in UTC as the `time` crate writes
/// it: `YYYY-MM-DDTHH:MM:SS`, then an optional `.` with one to nine digits,
/// then `Z`.
pub open spec fn is_rfc3339_utc(s: Seq<char>) -> bool {
    &&& has_date_time_prefix(s)
    &&& s.len() >= 20
    &&& s.last() == 'Z'
    &&& (s.len() == 20 || (s[19] == '.' && 22 <= s.len() <= 30 && forall|i: int|
        20 <= i < s.len() - 1 ==> is_digit(#[trigger] s[i])))
}

/// The shape the event schema asks of a timestamp:
/// `YYYY-MM-DDTHH:MM:SS.mmmZ`, 24 characters.
pub open spec fn is_millis_utc(s: Seq<char>) -> bool {
    &&& s.len() == 24
    &&& has_date_time_prefix(s)
    &&& s[19] == '.'
    &&& is_digit(s[20]) && is_digit(s[21]) && is_digit(s[22])
    &&& s[23] == 'Z'
}

/// Reads the system clock (`std::time::SystemTime::now`) and measures it
/// from the Unix epoch with `SystemTime::duration_since`: `Ok` with the
/// nanoseconds after the epoch, `Err` with the nanoseconds before it. Which
/// instant is read is left unsaid.
#[verifier::external_body]
fn nanos_since_unix_epoch() -> (r: Result<u128, u128>) {
    match std::time::SystemTime::now().duration_since(std::time::UNIX_EPOCH) {
        Ok(d) => Ok(d.as_nanos()),
        Err(e) => Err(e.duration().as_nanos()),
    }
}

/// What formatting the instant `nanos` nanoseconds after the Unix epoch (in
/// UTC) with the `time` crate's `Rfc3339` format gives, `None` when the
/// instant cannot be represented or formatted.
pub uninterp spec fn rfc3339_text_of_unix_nanos(nanos: i128) -> Option<Seq<char>>;

/// The Unix timestamp in nanoseconds of 0000-01-01T00:00:00Z.
pub open spec fn year_zero_nanos() -> int {
    -62_167_219_200_000_000_000
}

/// The Unix timestamp in nanoseconds of 9999-12-31T23:59:59.999999999Z.
pub open spec fn year_9999_end_nanos() -> int {
    253_402_300_799_999_999_999
}

/// Calls `time::OffsetDateTime::from_unix_timestamp_nanos`, which gives a
/// UTC date-time or an error outside the supported range, and formats the
/// date-time with `OffsetDateTime::format` and the `Rfc3339` well-known
/// format; either error becomes `None`. The two calls stand together because
/// what the contract states needs the offset to be UTC, which only the first
/// call guarantees. The contract claims what the `time` source shows: the
/// result depends on `nanos` alone; every instant from year 0 through year
/// 9999 is formatted; and a formatted result is a four-digit year, two-digit
/// month, day, hour, minute and second, a fraction of one to nine digits only
/// when the nanoseconds are not zero, and `Z`. The calendar conversion itself
/// is named, not stated.
#[verifier::external_body]
fn format_unix_nanos(nanos: i128) -> (r: Option<String>)
    ensures
        opt_string_view(r) == rfc3339_text_of_unix_nanos(nanos),
        year_zero_nanos() <= nanos <= year_9999_end_nanos() ==> r is Some,
        r matches Some(s) ==> is_rfc3339_utc(s@),
{
    match OffsetDateTime::from_unix_timestamp_nanos(nanos) {
        Ok(t) => t.format(&Rfc3339).ok(),
        Err(_) => None,
    }
}

/// A clock reading (nanoseconds after the Unix epoch, or before it) as a
/// signed count, when it fits in an `i128`.
pub open spec fn signed_nanos(reading: Result<u128, u128>) -> Option<i128> {
    match reading {
        Ok(n) => if n <= i128::MAX {
            Some(n as i128)
        } else {
            None
        },
        Err(n) => if n <= i128::MAX {
            Some((-(n as int)) as i128)
        } else {
            None
        },
    }
}

/// The Unix epoch as RFC 3339 text.
pub open spec fn epoch_text() -> Seq<char> {
    "1970-01-01T00:00:00Z"@
}

/// The RFC 3339 text for a clock reading: the formatted instant, or the
/// epoch when the instant cannot be formatted.
pub open spec fn clock_text(reading: Result<u128, u128>) -> Seq<char> {
    match signed_nanos(reading) {
        Some(n) => match rfc3339_text_of_unix_nanos(n) {
            Some(t) => t,
            None => epoch_text(),
        },
        None => epoch_text(),
    }
}

/// The RFC 3339 UTC text of a clock reading given as nanoseconds after
/// (`Ok`) or before (`Err`) the Unix epoch; the Unix epoch
/// (`1970-01-01T00:00:00Z`) when the instant cannot be formatted.
pub fn rfc3339_from_clock(reading: Result<u128, u128>) -> (r: String)
    ensures
        r@ == clock_text(reading),
        is_rfc3339_utc(r@),
{
    let nanos: Option<i128> = match reading {
        Ok(n) => if n <= 170141183460469231731687303715884105727u128 {
            Some(n as i128)
        } else {
            None
        },
        Err(n) => if n <= 170141183460469231731687303715884105727u128 {
            Some(-(n as i128))
        } else {
            None
        },
    };
    let formatted = match nanos {
        Some(n) => format_unix_nanos(n),
        None => None,
    };
    match formatted {
        Some(s) => s,
        None => {
            let s = String::from_str("1970-01-01T00:00:00Z");
            proof {
                reveal_strlit("1970-01-01T00:00:00Z");
            }
            s
        },
    }
}

/// The current time as RFC 3339 UTC text, or the Unix epoch
/// (`1970-01-01T00:00:00Z`) when it cannot be formatted.
pub fn current_rfc3339() -> (r: String)
    ensures
        exists|reading: Result<u128, u128>| r@ == clock_text(reading),
        is_rfc3339_utc(r@),
{
    let reading = nanos_since_unix_epoch();
    let r = rfc3339_from_clock(reading);
    assert(r@ == clock_text(reading));
    r
}

/// Any RFC 3339 UTC timestamp of the shape the `time` crate writes is
/// normalized to exactly `YYYY-MM-DDTHH:MM:SS.mmmZ`, keeping its date and
/// time of day.
/// The fraction digits of an RFC 3339 UTC timestamp: those between the
/// `.` after the seconds and the final `Z` (none when there is no `.`).
pub open spec fn fraction_of(s: Seq<char>) -> Seq<char> {
    if s.len() > 20 {
        s.subrange(20, s.len() - 1)
    } else {
        Seq::empty()
    }
}

/// The millisecond digits of the normalized text are the first three
/// fraction digits, padded with `0` when there are fewer.
pub proof fn lemma_normalized_timestamp_shape(s: Seq<char>)
    requires
        is_rfc3339_utc(s),
    ensures
        is_millis_utc(normalize_ts_spec(s)),
        normalize_ts_spec(s).subrange(0, 19) == s.subrange(0, 19),
        normalize_ts_spec(s).subrange(20, 23) == (fraction_of(s) + seq!['0', '0', '0']).subrange(
            0,
            3,
        ),
{
    let z = s.len() - 1;
    assert forall|j: int| 0 <= j < z implies !is_offset_start(s[j]) by {
        if j < 19 {
            if j != 4 && j != 7 && j != 10 && j != 13 && j != 16 {
                assert(is_digit(s[j]));
            }
        } else if j > 19 {
            assert(is_digit(s[j]));
        }
    }
    lemma_first_match_found(s, offset_start(), z);
    let dt = s.subrange(0, z);
    let r = normalize_ts_spec(s);
    if s.len() == 20 {
        assert forall|j: int| 0 <= j < dt.len() implies dt[j] != '.' by {
            if j != 4 && j != 7 && j != 10 && j != 13 && j != 16 {
                assert(is_digit(s[j]));
            }
        }
        lemma_first_index_absent(dt, '.');
        assert(r =~= dt + seq!['.', '0', '0', '0', 'Z']);
        assert(r[20] == '0' && r[21] == '0' && r[22] == '0');
        assert forall|i: int|
            0 <= i < 19 && i != 4 && i != 7 && i != 10 && i != 13 && i != 16 implies is_digit(
            #[trigger] r[i],
        ) by {
            assert(r[i] == s[i]);
        }
        assert(r.subrange(0, 19) =~= s.subrange(0, 19));
        assert(r.subrange(20, 23) =~= (fraction_of(s) + seq!['0', '0', '0']).subrange(0, 3));
    } else {
        assert forall|j: int| 0 <= j < 19 implies dt[j] != '.' by {
            if j != 4 && j != 7 && j != 10 && j != 13 && j != 16 {
                assert(is_digit(s[j]));
            }
        }
        lemma_first_index_found(dt, '.', 19);
        let frac = dt.subrange(20, dt.len() as int);
        assert(frac.len() >= 1);
        let kept = if frac.len() < 3 {
            frac
        } else {
            frac.subrange(0, 3)
        };
        assert forall|i: int| 0 <= i < kept.len() implies is_digit(#[trigger] kept[i]) by {
            assert(kept[i] == s[20 + i]);
        }
        vstd::utf8::is_ascii_chars_encode_utf8(kept);
        assert(utf8_len(kept) == kept.len());
        let m = millis_of(frac);
        assert(m =~= kept + zeros(padding_needed(kept)));
        assert(m.len() == 3);
        assert(r =~= dt.subrange(0, 19) + seq!['.'] + m + seq!['Z']);
        assert forall|i: int| 0 <= i < 3 implies is_digit(#[trigger] m[i]) by {
            if i < kept.len() {
                assert(m[i] == kept[i]);
            } else {
                assert(m[i] == '0');
            }
        }
        assert(r[20] == m[0] && r[21] == m[1] && r[22] == m[2]);
        assert forall|i: int|
            0 <= i < 19 && i != 4 && i != 7 && i != 10 && i != 13 && i != 16 implies is_digit(
            #[trigger] r[i],
        ) by {
            assert(r[i] == s[i]);
        }
        assert(r.subrange(0, 19) =~= s.subrange(0, 19));
        let padded = fraction_of(s) + seq!['0', '0', '0'];
        assert(frac =~= fraction_of(s));
        assert forall|i: int| 0 <= i < 3 implies #[trigger] m[i] == padded[i] by {
            if i < kept.len() {
                assert(m[i] == kept[i]);
                assert(kept[i] == frac[i]);
            } else {
                assert(m[i] == zeros(padding_needed(kept))[i - kept.len()]);
            }
        }
        assert(r.subrange(20, 23) =~= padded.subrange(0, 3));
    }
}

} // verus!
