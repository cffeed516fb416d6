//! Trace correlation: the W3C trace and span identifiers an event carries
//! when it is recorded inside a traced span.
use vstd::prelude::*;
use crate::text::push_char;

verus! {

/// The lowercase hexadecimal digit for `d` (below 16).
pub open spec fn hex_digit(d: nat) -> char {
    if d < 10 {
        ((48 + d) as u8) as char
    } else {
        ((87 + d) as u8) as char
    }
}

/// The `width` lowest hexadecimal digits of `n`, least significant first.
pub open spec fn hex_digits_low_first(n: nat, width: nat) -> Seq<char>
    decreases width,
{
    if width == 0 {
        seq![]
    } else {
        seq![hex_digit(n % 16)] + hex_digits_low_first(n / 16, (width - 1) as nat)
    }
}

/// `n` written in lowercase hexadecimal, zero-padded to `width` digits
/// (the `{:0width$x}` format for a value that fits).
pub open spec fn hex_fixed(n: nat, width: nat) -> Seq<char> {
    hex_digits_low_first(n, width).reverse()
}

fn hex_digit_char(d: u128) -> (c: char)
    requires
        d < 16,
    ensures
        c == hex_digit(d as nat),
{
    let b = d as u8;
    if b < 10 {
        (48 + b) as char
    } else {
        (87 + b) as char
    }
}

/// Writes `n` in lowercase hexadecimal, zero-padded to `width` digits.
fn hex_fixed_string(n: u128, width: usize) -> (r: String)
    ensures
        r@ == hex_fixed(n as nat, width as nat),
{
    let mut digits: Vec<char> = Vec::new();
    let mut m: u128 = n;
    let mut i: usize = 0;
    while i < width
        invariant
            i <= width,
            digits@.len() == i,
            digits@ + hex_digits_low_first(m as nat, (width - i) as nat) == hex_digits_low_first(
                n as nat,
                width as nat,
            ),
        decreases width - i,
    {
        let ghost rest = hex_digits_low_first((m / 16) as nat, (width - i - 1) as nat);
        assert(hex_digits_low_first(m as nat, (width - i) as nat) == seq![hex_digit((m % 16) as nat)]
            + rest);
        digits.push(hex_digit_char(m % 16));
        assert(digits@ + rest =~= hex_digits_low_first(n as nat, width as nat));
        m = m / 16;
        i = i + 1;
    }
    assert(digits@ =~= hex_digits_low_first(n as nat, width as nat));
    let mut out = String::new();
    let mut j: usize = width;
    while j > 0
        invariant
            j <= width,
            digits@.len() == width,
            out@ =~= digits@.subrange(j as int, width as int).reverse(),
        decreases j,
    {
        j = j - 1;
        push_char(&mut out, digits[j]);
    }
    assert(digits@.subrange(0, width as int) =~= digits@);
    out
}

/// The own trace context of a traced span, as `tracing-opentelemetry`
/// assigns it: its span id, and the trace id of its parent context when that
/// has an active span, else the trace id the span was given as a trace root.
/// A missing identifier is the invalid one, zero.
pub open spec fn span_own_context(
    parent_active: bool,
    parent_trace_id: u128,
    root_trace_id: Option<u128>,
    span_id: Option<u64>,
) -> (u128, u64) {
    let t = if parent_active {
        parent_trace_id
    } else {
        match root_trace_id {
            Some(t) => t,
            None => 0,
        }
    };
    let s = match span_id {
        Some(s) => s,
        None => 0,
    };
    (t, s)
}

/// The own trace context of a traced span, from what its tracing data
/// records: whether its parent context has an active span and that span's
/// trace id, the trace id assigned to it as a trace root, and its span id.
pub fn own_trace_context(
    parent_active: bool,
    parent_trace_id: u128,
    root_trace_id: Option<u128>,
    span_id: Option<u64>,
) -> (r: (u128, u64))
    ensures
        r == span_own_context(parent_active, parent_trace_id, root_trace_id, span_id),
{
    let t = if parent_active {
        parent_trace_id
    } else {
        match root_trace_id {
            Some(t) => t,
            None => 0,
        }
    };
    let s = match span_id {
        Some(s) => s,
        None => 0,
    };
    (t, s)
}

/// A span whose parent context has an active span belongs to its parent's
/// trace, whatever trace id it was given as a root; otherwise it carries the
/// trace id it was given as a root (zero when none). Its span id is the one
/// recorded for it (zero when none).
pub proof fn lemma_own_context_trace_id(
    parent_active: bool,
    parent_trace_id: u128,
    root_trace_id: Option<u128>,
    span_id: Option<u64>,
)
    ensures
        parent_active ==> span_own_context(parent_active, parent_trace_id, root_trace_id, span_id).0
            == parent_trace_id,
        !parent_active ==> span_own_context(parent_active, parent_trace_id, root_trace_id, span_id).0
            == root_trace_id.unwrap_or(0),
        span_own_context(parent_active, parent_trace_id, root_trace_id, span_id).1
            == span_id.unwrap_or(0),
{
}

/// A trace context is valid when neither its trace nor its span identifier
/// is zero (what `SpanContext::is_valid` tests).
pub open spec fn ids_valid(ids: (u128, u64)) -> bool {
    ids.0 != 0 && ids.1 != 0
}

/// The trace context of the active span: the innermost of the traced
/// spans (listed root first), when that context is valid.
pub open spec fn active_context(contexts: Seq<(u128, u64)>) -> Option<(u128, u64)> {
    if contexts.len() > 0 && ids_valid(contexts.last()) {
        Some(contexts.last())
    } else {
        None
    }
}

/// The identifiers an event carries, given the own trace context of each
/// traced span it lies in, root first: those of the innermost span (the
/// active one), as 32 and 16 lowercase hexadecimal digits; none when the
/// event lies in no traced span or the active span's context is invalid.
pub fn extract_trace_ids(contexts: &Vec<(u128, u64)>) -> (r: Option<(String, String)>)
    ensures
        match r {
            None => active_context(contexts@) is None,
            Some((t, s)) => active_context(contexts@) matches Some(ids) && t@ == hex_fixed(
                ids.0 as nat,
                32,
            ) && s@ == hex_fixed(ids.1 as nat, 16),
        },
{
    let n = contexts.len();
    if n == 0 {
        return None;
    }
    let (trace_id, span_id) = contexts[n - 1];
    if trace_id != 0 && span_id != 0 {
        Some((hex_fixed_string(trace_id, 32), hex_fixed_string(span_id as u128, 16)))
    } else {
        None
    }
}

/// A lowercase hexadecimal digit.
pub open spec fn is_lower_hex_digit(c: char) -> bool {
    ('0' <= c && c <= '9') || ('a' <= c && c <= 'f')
}

proof fn lemma_hex_low_first_shape(n: nat, width: nat)
    ensures
        hex_digits_low_first(n, width).len() == width,
        forall|i: int|
            0 <= i < width ==> is_lower_hex_digit(#[trigger] hex_digits_low_first(n, width)[i]),
    decreases width,
{
    if width > 0 {
        lemma_hex_low_first_shape(n / 16, (width - 1) as nat);
        let d = n % 16;
        assert(is_lower_hex_digit(hex_digit(d)));
        let s = hex_digits_low_first(n, width);
        assert forall|i: int| 0 <= i < width implies is_lower_hex_digit(#[trigger] s[i]) by {
            if i > 0 {
                assert(s[i] == hex_digits_low_first(n / 16, (width - 1) as nat)[i - 1]);
            }
        }
    }
}

/// Identifiers are written with exactly the requested number of lowercase
/// hexadecimal digits: 32 for a trace, 16 for a span.
pub proof fn lemma_hex_fixed_shape(n: nat, width: nat)
    ensures
        hex_fixed(n, width).len() == width,
        forall|i: int| 0 <= i < width ==> is_lower_hex_digit(#[trigger] hex_fixed(n, width)[i]),
{
    lemma_hex_low_first_shape(n, width);
    let s = hex_digits_low_first(n, width);
    assert forall|i: int| 0 <= i < width implies is_lower_hex_digit(#[trigger] hex_fixed(n, width)[i]) by {
        assert(hex_fixed(n, width)[i] == s[width - 1 - i]);
    }
}

/// The value of a lowercase hexadecimal digit: `0`-`9` are 0-9, `a`-`f`
/// are 10-15.
pub open spec fn hex_digit_value(c: char) -> int {
    if '0' <= c && c <= '9' {
        (c as int) - ('0' as int)
    } else {
        (c as int) - ('a' as int) + 10
    }
}

/// The number a hexadecimal text denotes, most significant digit first.
pub open spec fn hex_value(s: Seq<char>) -> int
    decreases s.len(),
{
    if s.len() == 0 {
        0
    } else {
        hex_value(s.drop_last()) * 16 + hex_digit_value(s.last())
    }
}

/// Sixteen to the power `w`.
pub open spec fn pow16(w: nat) -> nat
    decreases w,
{
    if w == 0 {
        1
    } else {
        16 * pow16((w - 1) as nat)
    }
}

/// Each digit character has the value of the nibble it is written for.
pub proof fn lemma_hex_digit_value(d: nat)
    requires
        d < 16,
    ensures
        hex_digit_value(hex_digit(d)) == d,
{
}

proof fn lemma_quotient_bound(n: nat, p: nat)
    requires
        n < 16 * p,
    ensures
        n / 16 < p,
        n == (n / 16) * 16 + n % 16,
{
    assert(n / 16 < p) by (nonlinear_arith)
        requires
            n < 16 * p,
    ;
}

/// Reading the written digits back in base 16 gives the number again, for
/// every number that fits in the width.
pub proof fn lemma_hex_fixed_denotes(n: nat, width: nat)
    requires
        n < pow16(width),
    ensures
        hex_value(hex_fixed(n, width)) == n,
    decreases width,
{
    if width == 0 {
        assert(hex_fixed(n, width) =~= Seq::<char>::empty());
    } else {
        let w1 = (width - 1) as nat;
        lemma_quotient_bound(n, pow16(w1));
        lemma_hex_fixed_denotes(n / 16, w1);
        let d = hex_digit(n % 16);
        let low = hex_digits_low_first(n / 16, w1);
        assert(hex_digits_low_first(n, width) == seq![d] + low);
        assert((seq![d] + low).reverse() =~= low.reverse().push(d));
        assert(hex_fixed(n, width).drop_last() =~= hex_fixed(n / 16, w1));
        assert(hex_fixed(n, width).last() == d);
        lemma_hex_digit_value(n % 16);
    }
}

/// The trace and span identifiers written for an event denote the trace
/// and span ids of the context: every `u128` fits 32 hexadecimal digits and
/// every `u64` fits 16.
pub proof fn lemma_trace_ids_denote(trace_id: u128, span_id: u64)
    ensures
        hex_value(hex_fixed(trace_id as nat, 32)) == trace_id,
        hex_value(hex_fixed(span_id as nat, 16)) == span_id,
        hex_fixed(trace_id as nat, 32).len() == 32,
        hex_fixed(span_id as nat, 16).len() == 16,
{
    reveal_with_fuel(pow16, 33);
    assert(pow16(16) == 0x1_0000_0000_0000_0000nat);
    assert(pow16(32) == 0x1_0000_0000_0000_0000_0000_0000_0000_0000nat);
    lemma_hex_fixed_denotes(trace_id as nat, 32);
    lemma_hex_fixed_denotes(span_id as nat, 16);
    lemma_hex_fixed_shape(trace_id as nat, 32);
    lemma_hex_fixed_shape(span_id as nat, 16);
}

} // verus!
