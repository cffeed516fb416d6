//! Character-level helpers shared by the configuration and event modules:
//! whitespace trimming, lowercasing and searching in character sequences.
use vstd::prelude::*;

verus! {

/// The Unicode `White_Space` property, which is what `char::is_whitespace`
/// tests: U+0009..U+000D, U+0020, U+0085, U+00A0, U+1680, U+2000..U+200A,
/// U+2028, U+2029, U+202F, U+205F and U+3000.
pub open spec fn is_white_space(c: char) -> bool {
    let u = c as u32;
    ||| 0x09 <= u <= 0x0d
    ||| u == 0x20
    ||| u == 0x85
    ||| u == 0xa0
    ||| u == 0x1680
    ||| 0x2000 <= u <= 0x200a
    ||| u == 0x2028
    ||| u == 0x2029
    ||| u == 0x202f
    ||| u == 0x205f
    ||| u == 0x3000
}

/// `s` without its leading white space.
pub open spec fn trim_start_spec(s: Seq<char>) -> Seq<char>
    decreases s.len(),
{
    if s.len() > 0 && is_white_space(s[0]) {
        trim_start_spec(s.drop_first())
    } else {
        s
    }
}

/// `s` without its trailing white space.
pub open spec fn trim_end_spec(s: Seq<char>) -> Seq<char>
    decreases s.len(),
{
    if s.len() > 0 && is_white_space(s.last()) {
        trim_end_spec(s.drop_last())
    } else {
        s
    }
}

/// `s` without its leading and trailing white space.
pub open spec fn trim_spec(s: Seq<char>) -> Seq<char> {
    trim_end_spec(trim_start_spec(s))
}

/// Whether `c` has the Unicode `White_Space` property.
pub(crate) fn is_white_space_char(c: char) -> (r: bool)
    ensures
        r == is_white_space(c),
{
    let u = c as u32;
    (0x09 <= u && u <= 0x0d) || u == 0x20 || u == 0x85 || u == 0xa0 || u == 0x1680 || (0x2000
        <= u && u <= 0x200a) || u == 0x2028 || u == 0x2029 || u == 0x202f || u == 0x205f || u
        == 0x3000
}

/// The slice without leading and trailing characters that have the Unicode
/// `White_Space` property (what `str::trim` gives).
pub(crate) fn trim_str<'a>(s: &'a str) -> (r: &'a str)
    ensures
        r@ == trim_spec(s@),
{
    let n = s.unicode_len();
    let mut start: usize = 0;
    assert(s@.subrange(0, n as int) =~= s@);
    while start < n && is_white_space_char(s.get_char(start))
        invariant
            n == s@.len(),
            start <= n,
            trim_start_spec(s@) == trim_start_spec(s@.subrange(start as int, n as int)),
        decreases n - start,
    {
        assert(s@.subrange(start as int, n as int).drop_first() =~= s@.subrange(
            start + 1,
            n as int,
        ));
        start = start + 1;
    }
    assert(trim_start_spec(s@) == s@.subrange(start as int, n as int));
    let mut end: usize = n;
    while end > start && is_white_space_char(s.get_char(end - 1))
        invariant
            n == s@.len(),
            start <= end <= n,
            trim_spec(s@) == trim_end_spec(s@.subrange(start as int, end as int)),
        decreases end,
    {
        assert(s@.subrange(start as int, end as int).drop_last() =~= s@.subrange(
            start as int,
            end - 1,
        ));
        end = end - 1;
    }
    assert(trim_spec(s@) == s@.subrange(start as int, end as int));
    s.substring_char(start, end)
}

/// What `str::to_lowercase` returns for a string: its lowercase equivalent
/// under the Unicode `Lowercase` mapping (tables too long to state here).
pub uninterp spec fn lowercase_of(s: Seq<char>) -> Seq<char>;

/// The lowercase form of an ASCII character.
pub open spec fn ascii_lower_char(c: char) -> char {
    if 'A' <= c && c <= 'Z' {
        ((c as u32) + 32) as char
    } else {
        c
    }
}

/// The character-by-character ASCII lowercase form of `s`.
pub open spec fn ascii_lowercase(s: Seq<char>) -> Seq<char> {
    Seq::new(s.len(), |i: int| ascii_lower_char(s[i]))
}

/// Every character of `s` is ASCII.
pub open spec fn all_ascii(s: Seq<char>) -> bool {
    forall|i: int| 0 <= i < s.len() ==> (s[i] as u32) < 128
}

/// ASCII lowercasing keeps white space and non-white space apart.
proof fn lemma_lower_char_white_space(c: char)
    requires
        (c as u32) < 128,
    ensures
        is_white_space(ascii_lower_char(c)) == is_white_space(c),
        (ascii_lower_char(c) as u32) < 128,
{
}

/// Trimming commutes with ASCII lowercasing, and keeps text ASCII.
pub proof fn lemma_trim_ascii_lowercase(s: Seq<char>)
    requires
        all_ascii(s),
    ensures
        all_ascii(trim_spec(s)),
        trim_spec(ascii_lowercase(s)) == ascii_lowercase(trim_spec(s)),
{
    lemma_trim_start_ascii_lowercase(s);
    lemma_trim_end_ascii_lowercase(trim_start_spec(s));
}

proof fn lemma_trim_start_ascii_lowercase(s: Seq<char>)
    requires
        all_ascii(s),
    ensures
        all_ascii(trim_start_spec(s)),
        trim_start_spec(ascii_lowercase(s)) == ascii_lowercase(trim_start_spec(s)),
    decreases s.len(),
{
    let l = ascii_lowercase(s);
    if s.len() > 0 {
        lemma_lower_char_white_space(s[0]);
        assert(l[0] == ascii_lower_char(s[0]));
        if is_white_space(s[0]) {
            let t = s.drop_first();
            assert(all_ascii(t)) by {
                assert forall|i: int| 0 <= i < t.len() implies (t[i] as u32) < 128 by {
                    assert(t[i] == s[i + 1]);
                }
            }
            assert(l.drop_first() =~= ascii_lowercase(t));
            lemma_trim_start_ascii_lowercase(t);
        }
    } else {
        assert(l =~= s);
    }
}

proof fn lemma_trim_end_ascii_lowercase(s: Seq<char>)
    requires
        all_ascii(s),
    ensures
        all_ascii(trim_end_spec(s)),
        trim_end_spec(ascii_lowercase(s)) == ascii_lowercase(trim_end_spec(s)),
    decreases s.len(),
{
    let l = ascii_lowercase(s);
    if s.len() > 0 {
        lemma_lower_char_white_space(s.last());
        assert(l.last() == ascii_lower_char(s.last()));
        if is_white_space(s.last()) {
            let t = s.drop_last();
            assert(all_ascii(t)) by {
                assert forall|i: int| 0 <= i < t.len() implies (t[i] as u32) < 128 by {
                    assert(t[i] == s[i]);
                }
            }
            assert(l.drop_last() =~= ascii_lowercase(t));
            lemma_trim_end_ascii_lowercase(t);
        }
    } else {
        assert(l =~= s);
    }
}

/// Calls `str::to_lowercase`. The result is named by `lowercase_of`; on
/// ASCII input the Unicode lowercase mapping is the ASCII one (A-Z to a-z,
/// everything else unchanged), and the contract states that too. What it
/// does to other characters is left unsaid.
#[verifier::external_body]
pub(crate) fn to_lowercase(s: &str) -> (r: String)
    ensures
        r@ == lowercase_of(s@),
        all_ascii(s@) ==> r@ == ascii_lowercase(s@),
{
    s.to_lowercase()
}

/// Calls `String::push`, which appends one character.
#[verifier::external_body]
pub(crate) fn push_char(s: &mut String, c: char)
    ensures
        final(s)@ == old(s)@.push(c),
{
    s.push(c)
}

/// `i` is the position of the first character of `s` that satisfies `p`.
pub open spec fn is_first_match(s: Seq<char>, p: spec_fn(char) -> bool, i: int) -> bool {
    &&& 0 <= i < s.len()
    &&& p(s[i])
    &&& forall|j: int| 0 <= j < i ==> !p(s[j])
}

/// The position of the first character of `s` that satisfies `p`, or -1
/// when none does.
pub open spec fn first_match_index(s: Seq<char>, p: spec_fn(char) -> bool) -> int {
    if exists|i: int| is_first_match(s, p, i) {
        choose|i: int| is_first_match(s, p, i)
    } else {
        -1
    }
}

/// The first position that satisfies `p` is the one found by a
/// left-to-right scan.
pub proof fn lemma_first_match_found(s: Seq<char>, p: spec_fn(char) -> bool, k: int)
    requires
        is_first_match(s, p, k),
    ensures
        first_match_index(s, p) == k,
{
    let i = choose|i: int| is_first_match(s, p, i);
    assert(is_first_match(s, p, i));
    if i < k {
        assert(!p(s[i]));
    } else if i > k {
        assert(!p(s[k]));
    }
}

/// A sequence where no character satisfies `p` has no first match.
pub proof fn lemma_first_match_absent(s: Seq<char>, p: spec_fn(char) -> bool)
    requires
        forall|j: int| 0 <= j < s.len() ==> !p(s[j]),
    ensures
        first_match_index(s, p) == -1,
{
    if exists|i: int| is_first_match(s, p, i) {
        let i = choose|i: int| is_first_match(s, p, i);
        assert(p(s[i]));
    }
}

/// The predicate "is the character `c`".
pub open spec fn equals_char(c: char) -> spec_fn(char) -> bool {
    |x: char| x == c
}

/// The position of the first `c` in `s`, or -1 when `s` holds no `c`.
pub open spec fn first_index_of(s: Seq<char>, c: char) -> int {
    first_match_index(s, equals_char(c))
}

/// The first position of `c` is the one found by a left-to-right scan.
pub proof fn lemma_first_index_found(s: Seq<char>, c: char, k: int)
    requires
        0 <= k < s.len(),
        s[k] == c,
        forall|j: int| 0 <= j < k ==> s[j] != c,
    ensures
        first_index_of(s, c) == k,
{
    lemma_first_match_found(s, equals_char(c), k);
}

/// A sequence without `c` has no first position of `c`.
pub proof fn lemma_first_index_absent(s: Seq<char>, c: char)
    requires
        forall|j: int| 0 <= j < s.len() ==> s[j] != c,
    ensures
        first_index_of(s, c) == -1,
{
    lemma_first_match_absent(s, equals_char(c));
}

/// Scans `s` for the first `c`, returning its position or the length of `s`.
pub fn find_char(s: &str, c: char) -> (r: usize)
    ensures
        r <= s@.len(),
        r < s@.len() ==> first_index_of(s@, c) == r,
        r == s@.len() ==> first_index_of(s@, c) == -1,
{
    let n = s.unicode_len();
    let mut i: usize = 0;
    while i < n
        invariant
            n == s@.len(),
            i <= n,
            forall|j: int| 0 <= j < i ==> s@[j] != c,
        decreases n - i,
    {
        if s.get_char(i) == c {
            proof {
                lemma_first_index_found(s@, c, i as int);
            }
            return i;
        }
        i = i + 1;
    }
    proof {
        lemma_first_index_absent(s@, c);
    }
    n
}

/// Compares two string slices character by character.
pub fn str_eq(a: &str, b: &str) -> (r: bool)
    ensures
        r == (a@ == b@),
{
    let n = a.unicode_len();
    if n != b.unicode_len() {
        return false;
    }
    let mut i: usize = 0;
    while i < n
        invariant
            n == a@.len(),
            n == b@.len(),
            i <= n,
            forall|j: int| 0 <= j < i ==> a@[j] == b@[j],
        decreases n - i,
    {
        if a.get_char(i) != b.get_char(i) {
            return false;
        }
        i = i + 1;
    }
    assert(a@ =~= b@);
    true
}

} // verus!
