//! Verified building blocks for line-oriented text processing: whitespace
//! trimming, splitting on a separator character, substring search, prefix
//! tests, lexicographic comparison, and signed-integer parsing.
//!
//! Each executable function is specified against a spec-level model over
//! `Seq<char>`, so the higher-level parsers can state their contracts in
//! terms of those models.

use vstd::prelude::*;
use vstd::string::StrSliceExecFns;

verus! {

// ---------------------------------------------------------------------------
// Whitespace
// ---------------------------------------------------------------------------

/// The Unicode `White_Space` code points, the set that `str::trim` removes.
pub open spec fn is_ws_char(c: char) -> bool {
    let u = c as u32;
    ||| u == 0x20
    ||| (0x09 <= u && u <= 0x0D)
    ||| u == 0x85
    ||| u == 0xA0
    ||| u == 0x1680
    ||| (0x2000 <= u && u <= 0x200A)
    ||| u == 0x2028
    ||| u == 0x2029
    ||| u == 0x202F
    ||| u == 0x205F
    ||| u == 0x3000
}

fn is_ws(c: char) -> (b: bool)
    ensures
        b == is_ws_char(c),
{
    let u = c as u32;
    u == 0x20 || (0x09 <= u && u <= 0x0D) || u == 0x85 || u == 0xA0 || u == 0x1680 || (0x2000 <= u
        && u <= 0x200A) || u == 0x2028 || u == 0x2029 || u == 0x202F || u == 0x205F || u == 0x3000
}

/// The characters remaining after removing leading whitespace.
pub open spec fn trim_start_spec(s: Seq<char>) -> Seq<char>
    decreases s.len(),
{
    if s.len() > 0 && is_ws_char(s[0]) {
        trim_start_spec(s.drop_first())
    } else {
        s
    }
}

/// The characters remaining after removing trailing whitespace.
pub open spec fn trim_end_spec(s: Seq<char>) -> Seq<char>
    decreases s.len(),
{
    if s.len() > 0 && is_ws_char(s[s.len() - 1]) {
        trim_end_spec(s.drop_last())
    } else {
        s
    }
}

/// The characters remaining after removing leading and trailing whitespace,
/// the model of `str::trim`.
pub open spec fn trim_spec(s: Seq<char>) -> Seq<char> {
    trim_end_spec(trim_start_spec(s))
}

proof fn lemma_trim_start_is(s: Seq<char>, k: int)
    requires
        0 <= k <= s.len(),
        forall|j: int| 0 <= j < k ==> is_ws_char(s[j]),
        k < s.len() ==> !is_ws_char(s[k]),
    ensures
        trim_start_spec(s) == s.subrange(k, s.len() as int),
    decreases k,
{
    if k == 0 {
        assert(s.subrange(0, s.len() as int) =~= s);
    } else {
        let t = s.drop_first();
        assert(is_ws_char(s[0]));
        lemma_trim_start_is(t, k - 1);
        assert(t.subrange(k - 1, t.len() as int) =~= s.subrange(k, s.len() as int));
    }
}

proof fn lemma_trim_end_is(s: Seq<char>, k: int)
    requires
        0 <= k <= s.len(),
        forall|j: int| k <= j < s.len() ==> is_ws_char(s[j]),
        k > 0 ==> !is_ws_char(s[k - 1]),
    ensures
        trim_end_spec(s) == s.subrange(0, k),
    decreases s.len() - k,
{
    if k == s.len() {
        if s.len() > 0 && is_ws_char(s[s.len() - 1]) {
            assert(false);
        }
        assert(s.subrange(0, k) =~= s);
    } else {
        let t = s.drop_last();
        assert(is_ws_char(s[s.len() - 1]));
        lemma_trim_end_is(t, k);
        assert(t.subrange(0, k) =~= s.subrange(0, k));
    }
}

/// Removes leading and trailing whitespace, as `str::trim` does.
pub fn trim_str<'a>(s: &'a str) -> (r: &'a str)
    ensures
        r@ == trim_spec(s@),
{
    let n = s.unicode_len();
    let mut start: usize = 0;
    while start < n && is_ws(s.get_char(start))
        invariant
            n == s@.len(),
            start <= n,
            forall|j: int| 0 <= j < start ==> is_ws_char(s@[j]),
        decreases n - start,
    {
        start = start + 1;
    }
    let mut end: usize = n;
    while end > start && is_ws(s.get_char(end - 1))
        invariant
            n == s@.len(),
            start <= end <= n,
            forall|j: int| end <= j < n ==> is_ws_char(s@[j]),
        decreases end,
    {
        end = end - 1;
    }
    let r = s.substring_char(start, end);
    proof {
        lemma_trim_start_is(s@, start as int);
        let t = s@.subrange(start as int, n as int);
        lemma_trim_end_is(t, end - start);
        assert(t.subrange(0, end - start) =~= s@.subrange(start as int, end as int));
    }
    r
}

// ---------------------------------------------------------------------------
// Finding and splitting on a separator character
// ---------------------------------------------------------------------------

/// The index of the first occurrence of `c` in `s`, or `s.len()` if absent.
pub open spec fn find_char(s: Seq<char>, c: char) -> nat
    decreases s.len(),
{
    if s.len() == 0 {
        0
    } else if s[0] == c {
        0
    } else {
        1 + find_char(s.drop_first(), c)
    }
}

proof fn lemma_find_char_at(s: Seq<char>, c: char, k: int)
    requires
        0 <= k <= s.len(),
        forall|j: int| 0 <= j < k ==> s[j] != c,
        k < s.len() ==> s[k] == c,
    ensures
        find_char(s, c) == k,
    decreases k,
{
    if k == 0 {
    } else {
        lemma_find_char_at(s.drop_first(), c, k - 1);
    }
}

/// Splitting on a separator character: every maximal separator-free segment,
/// in order, including empty segments.
pub open spec fn split_char(s: Seq<char>, sep: char) -> Seq<Seq<char>>
    decreases s.len(),
{
    let i = find_char(s, sep);
    if i < s.len() {
        seq![s.subrange(0, i as int)] + split_char(
            s.subrange(i as int + 1, s.len() as int),
            sep,
        )
    } else {
        seq![s]
    }
}

/// Splitting on a separator character into at most `limit` segments; the
/// last segment keeps any remaining separators, as `str::splitn` does.
pub open spec fn splitn_char(s: Seq<char>, sep: char, limit: nat) -> Seq<Seq<char>>
    decreases limit,
{
    if limit <= 1 {
        seq![s]
    } else {
        let i = find_char(s, sep);
        if i < s.len() {
            seq![s.subrange(0, i as int)] + splitn_char(
                s.subrange(i as int + 1, s.len() as int),
                sep,
                (limit - 1) as nat,
            )
        } else {
            seq![s]
        }
    }
}

/// Where `find_char` points: at the first occurrence of `c`, or past the
/// end when `c` does not occur.
pub proof fn lemma_find_char_props(s: Seq<char>, c: char)
    ensures
        find_char(s, c) <= s.len(),
        find_char(s, c) < s.len() ==> s[find_char(s, c) as int] == c,
        forall|j: int| 0 <= j < find_char(s, c) ==> s[j] != c,
    decreases s.len(),
{
    if s.len() > 0 && s[0] != c {
        lemma_find_char_props(s.drop_first(), c);
        assert forall|j: int| 0 <= j < find_char(s, c) implies s[j] != c by {
            if j > 0 {
                assert(s.drop_first()[j - 1] == s[j]);
            }
        }
    }
}

/// Rejoining split pieces with the separator.
pub open spec fn join_char(parts: Seq<Seq<char>>, sep: char) -> Seq<char>
    decreases parts.len(),
{
    if parts.len() == 0 {
        Seq::empty()
    } else if parts.len() == 1 {
        parts[0]
    } else {
        parts[0] + seq![sep] + join_char(parts.drop_first(), sep)
    }
}

/// Splitting into at most `limit` pieces loses nothing: rejoining the
/// pieces with the separator restores the input exactly. In particular
/// the last piece keeps every separator beyond the limit.
pub proof fn lemma_splitn_join(s: Seq<char>, sep: char, limit: nat)
    requires
        limit >= 1,
    ensures
        join_char(splitn_char(s, sep, limit), sep) == s,
    decreases limit,
{
    lemma_find_char_props(s, sep);
    let i = find_char(s, sep);
    if limit <= 1 || i >= s.len() {
    } else {
        lemma_splitn_join(s.subrange(i as int + 1, s.len() as int), sep, (limit - 1) as nat);
        let parts = splitn_char(s, sep, limit);
        assert(parts.drop_first() =~= splitn_char(
            s.subrange(i as int + 1, s.len() as int),
            sep,
            (limit - 1) as nat,
        ));
        assert(parts.len() >= 2) by {
            assert(splitn_char(s.subrange(i as int + 1, s.len() as int), sep, (limit - 1) as nat)
                .len() >= 1);
        }
        assert(join_char(parts, sep) =~= s.subrange(0, i as int) + seq![sep] + s.subrange(
            i as int + 1,
            s.len() as int,
        ));
        assert(s.subrange(0, i as int) + seq![sep] + s.subrange(i as int + 1, s.len() as int)
            =~= s);
    }
}

/// Splitting with a limit reaches the limit exactly when unlimited
/// splitting yields at least that many fields.
pub proof fn lemma_splitn_reaches_limit(s: Seq<char>, sep: char, limit: nat)
    requires
        limit >= 1,
    ensures
        splitn_char(s, sep, limit).len() == limit <==> split_char(s, sep).len() >= limit,
        splitn_char(s, sep, limit).len() <= limit,
    decreases limit,
{
    lemma_find_char_props(s, sep);
    let i = find_char(s, sep);
    if limit <= 1 {
        assert(split_char(s, sep).len() >= 1);
    } else if i >= s.len() {
        assert(split_char(s, sep).len() == 1);
    } else {
        lemma_splitn_reaches_limit(s.subrange(i as int + 1, s.len() as int), sep, (limit - 1) as nat);
    }
}

/// The views of a vector of strings.
pub open spec fn string_views(v: Seq<String>) -> Seq<Seq<char>> {
    v.map_values(|p: String| p@)
}

/// Splits `s` on `sep`, as `str::split` with a character pattern does.
pub fn split_str(s: &str, sep: char) -> (parts: Vec<String>)
    ensures
        string_views(parts@) == split_char(s@, sep),
{
    let n = s.unicode_len();
    let mut parts: Vec<String> = Vec::new();
    let mut seg_start: usize = 0;
    let mut i: usize = 0;
    proof {
        assert(s@.subrange(0, n as int) =~= s@);
        assert(string_views(parts@) + split_char(s@, sep) =~= split_char(s@, sep));
    }
    while i < n
        invariant
            n == s@.len(),
            seg_start <= i <= n,
            forall|j: int| seg_start <= j < i ==> s@[j] != sep,
            string_views(parts@) + split_char(s@.subrange(seg_start as int, n as int), sep)
                =~= split_char(s@, sep),
        decreases n - i,
    {
        let c = s.get_char(i);
        if c == sep {
            let ghost rem = s@.subrange(seg_start as int, n as int);
            let piece = s.substring_char(seg_start, i);
            let owned = piece.to_owned();
            proof {
                lemma_find_char_at(rem, sep, i - seg_start);
                assert(rem.subrange(0, i - seg_start) =~= s@.subrange(seg_start as int, i as int));
                assert(rem.subrange(i - seg_start + 1, rem.len() as int) =~= s@.subrange(
                    i as int + 1,
                    n as int,
                ));
                assert(string_views(parts@.push(owned)) =~= string_views(parts@) + seq![owned@]);
            }
            parts.push(owned);
            seg_start = i + 1;
        }
        i = i + 1;
    }
    let ghost rem = s@.subrange(seg_start as int, n as int);
    let piece = s.substring_char(seg_start, n);
    let owned = piece.to_owned();
    proof {
        lemma_find_char_at(rem, sep, rem.len() as int);
        assert(string_views(parts@.push(owned)) =~= string_views(parts@) + seq![owned@]);
    }
    parts.push(owned);
    parts
}

/// Splits `s` on `sep` into at most `limit` pieces, as `str::splitn` does.
pub fn splitn_str(s: &str, sep: char, limit: usize) -> (parts: Vec<String>)
    requires
        limit >= 1,
    ensures
        string_views(parts@) == splitn_char(s@, sep, limit as nat),
{
    let n = s.unicode_len();
    let mut parts: Vec<String> = Vec::new();
    let mut seg_start: usize = 0;
    let mut i: usize = 0;
    proof {
        assert(s@.subrange(0, n as int) =~= s@);
        assert(string_views(parts@) + splitn_char(s@, sep, limit as nat) =~= splitn_char(
            s@,
            sep,
            limit as nat,
        ));
    }
    while i < n && parts.len() < limit - 1
        invariant
            n == s@.len(),
            seg_start <= i <= n,
            parts@.len() < limit,
            forall|j: int| seg_start <= j < i ==> s@[j] != sep,
            string_views(parts@) + splitn_char(
                s@.subrange(seg_start as int, n as int),
                sep,
                (limit - parts@.len()) as nat,
            ) =~= splitn_char(s@, sep, limit as nat),
        decreases n - i,
    {
        let c = s.get_char(i);
        if c == sep {
            let ghost rem = s@.subrange(seg_start as int, n as int);
            let piece = s.substring_char(seg_start, i);
            let owned = piece.to_owned();
            proof {
                lemma_find_char_at(rem, sep, i - seg_start);
                assert(rem.subrange(0, i - seg_start) =~= s@.subrange(seg_start as int, i as int));
                assert(rem.subrange(i - seg_start + 1, rem.len() as int) =~= s@.subrange(
                    i as int + 1,
                    n as int,
                ));
                assert(string_views(parts@.push(owned)) =~= string_views(parts@) + seq![owned@]);
            }
            parts.push(owned);
            seg_start = i + 1;
        }
        i = i + 1;
    }
    let ghost rem = s@.subrange(seg_start as int, n as int);
    let piece = s.substring_char(seg_start, n);
    let owned = piece.to_owned();
    proof {
        if i == n {
            lemma_find_char_at(rem, sep, rem.len() as int);
        }
        assert(string_views(parts@.push(owned)) =~= string_views(parts@) + seq![owned@]);
    }
    parts.push(owned);
    parts
}

// ---------------------------------------------------------------------------
// Substring search and prefix test
// ---------------------------------------------------------------------------

/// `needle` occurs as a contiguous subsequence of `hay`.
pub open spec fn contains_seq(hay: Seq<char>, needle: Seq<char>) -> bool {
    exists|k: int|
        0 <= k && k + needle.len() <= hay.len() && #[trigger] hay.subrange(k, k + needle.len())
            == needle
}

/// `s` begins with `prefix`.
pub open spec fn starts_with_spec(s: Seq<char>, prefix: Seq<char>) -> bool {
    prefix.len() <= s.len() && s.subrange(0, prefix.len() as int) == prefix
}

/// Whether `needle` matches `hay` at offset `k`.
fn matches_at(hay: &str, needle: &str, k: usize, hay_len: usize, needle_len: usize) -> (r: bool)
    requires
        hay_len == hay@.len(),
        needle_len == needle@.len(),
        k + needle_len <= hay_len,
    ensures
        r == (hay@.subrange(k as int, k as int + needle@.len()) == needle@),
{
    let mut j: usize = 0;
    while j < needle_len
        invariant
            hay_len == hay@.len(),
            needle_len == needle@.len(),
            k + needle_len <= hay_len,
            j <= needle_len,
            forall|t: int| 0 <= t < j ==> hay@[k + t] == needle@[t],
        decreases needle_len - j,
    {
        if hay.get_char(k + j) != needle.get_char(j) {
            proof {
                let sub = hay@.subrange(k as int, k as int + needle@.len());
                assert(sub[j as int] != needle@[j as int]);
            }
            return false;
        }
        j = j + 1;
    }
    proof {
        assert(hay@.subrange(k as int, k as int + needle@.len()) =~= needle@);
    }
    true
}

/// Substring search, as `str::contains` with a string pattern does.
pub fn contains_substr(hay: &str, needle: &str) -> (r: bool)
    ensures
        r == contains_seq(hay@, needle@),
{
    let hn = hay.unicode_len();
    let nn = needle.unicode_len();
    if nn > hn {
        return false;
    }
    if nn == 0 {
        proof {
            assert(contains_seq(hay@, needle@)) by {
                assert(hay@.subrange(0, 0 + needle@.len() as int) =~= needle@);
            }
        }
        return true;
    }
    let mut k: usize = 0;
    while k <= hn - nn
        invariant
            hn == hay@.len(),
            nn == needle@.len(),
            1 <= nn <= hn,
            k <= hn - nn + 1,
            forall|t: int|
                0 <= t < k ==> #[trigger] hay@.subrange(t, t + needle@.len()) != needle@,
        decreases hn - nn - k + 1,
    {
        if matches_at(hay, needle, k, hn, nn) {
            return true;
        }
        k = k + 1;
    }
    false
}

/// Prefix test, as `str::starts_with` with a string pattern does.
pub fn starts_with_str(s: &str, prefix: &str) -> (r: bool)
    ensures
        r == starts_with_spec(s@, prefix@),
{
    let sn = s.unicode_len();
    let pn = prefix.unicode_len();
    if pn > sn {
        return false;
    }
    matches_at(s, prefix, 0, sn, pn)
}

// ---------------------------------------------------------------------------
// Lexicographic comparison by code point
// ---------------------------------------------------------------------------

/// Lexicographic "less than or equal" on character sequences, comparing
/// code points. On UTF-8 text this order agrees with the byte-wise order
/// that `String::cmp` uses.
pub open spec fn lex_le(a: Seq<char>, b: Seq<char>) -> bool
    decreases a.len(),
{
    if a.len() == 0 {
        true
    } else if b.len() == 0 {
        false
    } else if (a[0] as u32) < (b[0] as u32) {
        true
    } else if (a[0] as u32) > (b[0] as u32) {
        false
    } else {
        lex_le(a.drop_first(), b.drop_first())
    }
}

/// The comparison is total: of any two sequences, one is `lex_le` the other.
pub proof fn lemma_lex_le_total(a: Seq<char>, b: Seq<char>)
    ensures
        lex_le(a, b) || lex_le(b, a),
    decreases a.len(),
{
    if a.len() > 0 && b.len() > 0 && a[0] as u32 == b[0] as u32 {
        lemma_lex_le_total(a.drop_first(), b.drop_first());
    }
}

/// The comparison is transitive.
pub proof fn lemma_lex_le_trans(a: Seq<char>, b: Seq<char>, c: Seq<char>)
    requires
        lex_le(a, b),
        lex_le(b, c),
    ensures
        lex_le(a, c),
    decreases a.len(),
{
    if a.len() > 0 && b.len() > 0 && c.len() > 0 && a[0] as u32 == b[0] as u32 && b[0] as u32
        == c[0] as u32 {
        lemma_lex_le_trans(a.drop_first(), b.drop_first(), c.drop_first());
    }
}

/// The comparison is antisymmetric: sequences ordered both ways are equal.
pub proof fn lemma_lex_le_antisym(a: Seq<char>, b: Seq<char>)
    requires
        lex_le(a, b),
        lex_le(b, a),
    ensures
        a == b,
    decreases a.len(),
{
    if a.len() == 0 {
        assert(b.len() == 0);
        assert(a =~= b);
    } else {
        assert(b.len() > 0);
        assert((a[0] as u32) == (b[0] as u32));
        vstd::utf8::char_u32_cast(a[0], a[0] as u32);
        vstd::utf8::char_u32_cast(b[0], b[0] as u32);
        assert(a[0] == b[0]);
        lemma_lex_le_antisym(a.drop_first(), b.drop_first());
        assert(a.len() == b.len());
        assert forall|i: int| 0 <= i < a.len() implies a[i] == b[i] by {
            if i > 0 {
                assert(a[i] == a.drop_first()[i - 1]);
                assert(b[i] == b.drop_first()[i - 1]);
            }
        }
        assert(a =~= b);
    }
}

proof fn lemma_lex_le_skip(a: Seq<char>, b: Seq<char>, k: int)
    requires
        0 <= k <= a.len(),
        k <= b.len(),
        forall|j: int| 0 <= j < k ==> (a[j] as u32) == (b[j] as u32),
    ensures
        lex_le(a, b) == lex_le(a.skip(k), b.skip(k)),
    decreases k,
{
    if k > 0 {
        assert((a[0] as u32) == (b[0] as u32));
        lemma_lex_le_skip(a.drop_first(), b.drop_first(), k - 1);
        assert(a.drop_first().skip(k - 1) =~= a.skip(k));
        assert(b.drop_first().skip(k - 1) =~= b.skip(k));
    } else {
        assert(a.skip(0) =~= a);
        assert(b.skip(0) =~= b);
    }
}

/// Decides `lex_le` on two strings.
pub fn lex_le_str(a: &str, b: &str) -> (r: bool)
    ensures
        r == lex_le(a@, b@),
{
    let an = a.unicode_len();
    let bn = b.unicode_len();
    let mut i: usize = 0;
    while i < an && i < bn
        invariant
            an == a@.len(),
            bn == b@.len(),
            i <= an,
            i <= bn,
            forall|j: int| 0 <= j < i ==> (a@[j] as u32) == (b@[j] as u32),
        decreases an - i,
    {
        let ca = a.get_char(i) as u32;
        let cb = b.get_char(i) as u32;
        if ca < cb {
            proof {
                lemma_lex_le_skip(a@, b@, i as int);
            }
            return true;
        }
        if ca > cb {
            proof {
                lemma_lex_le_skip(a@, b@, i as int);
            }
            return false;
        }
        i = i + 1;
    }
    proof {
        lemma_lex_le_skip(a@, b@, i as int);
        assert(a@.skip(i as int).len() == an - i);
        assert(b@.skip(i as int).len() == bn - i);
    }
    an <= bn
}

// ---------------------------------------------------------------------------
// Signed 32-bit integer parsing
// ---------------------------------------------------------------------------

/// An ASCII decimal digit.
pub open spec fn is_digit_char(c: char) -> bool {
    0x30 <= c as u32 && c as u32 <= 0x39
}

/// The numeric value of an ASCII decimal digit.
pub open spec fn digit_val(c: char) -> int {
    c as u32 - 0x30
}

/// Every character is an ASCII decimal digit.
pub open spec fn all_digits(s: Seq<char>) -> bool {
    forall|i: int| 0 <= i < s.len() ==> is_digit_char(s[i])
}

/// The value of a sequence of decimal digits, most significant first.
pub open spec fn digits_val(s: Seq<char>) -> int
    decreases s.len(),
{
    if s.len() == 0 {
        0
    } else {
        digits_val(s.drop_last()) * 10 + digit_val(s.last())
    }
}

/// The model of `str::parse::<i32>`: an optional sign, then one or more
/// decimal digits and nothing else, with the value in `i32` range.
pub open spec fn parse_i32_spec(s: Seq<char>) -> Option<i32> {
    let neg = s.len() > 0 && s[0] == '-';
    let digits = if s.len() > 0 && (s[0] == '+' || s[0] == '-') {
        s.drop_first()
    } else {
        s
    };
    if digits.len() == 0 || !all_digits(digits) {
        None
    } else {
        let v = if neg {
            -digits_val(digits)
        } else {
            digits_val(digits)
        };
        if -0x8000_0000 <= v && v <= 0x7FFF_FFFF {
            Some(v as i32)
        } else {
            None
        }
    }
}

proof fn lemma_digits_val_nonneg(s: Seq<char>)
    requires
        all_digits(s),
    ensures
        digits_val(s) >= 0,
    decreases s.len(),
{
    if s.len() > 0 {
        lemma_digits_val_nonneg(s.drop_last());
    }
}

proof fn lemma_digits_val_prefix_le(s: Seq<char>, k: int)
    requires
        all_digits(s),
        0 <= k <= s.len(),
    ensures
        digits_val(s.take(k)) <= digits_val(s),
    decreases s.len() - k,
{
    if k < s.len() {
        lemma_digits_val_prefix_le(s, k + 1);
        let t = s.take(k + 1);
        assert(t.drop_last() =~= s.take(k));
        assert(all_digits(t.drop_last()));
        lemma_digits_val_nonneg(t.drop_last());
        assert(digits_val(t) == digits_val(s.take(k)) * 10 + digit_val(t.last()));
    } else {
        assert(s.take(k) =~= s);
    }
}

/// Parses a signed 32-bit integer, as `str::parse::<i32>` does.
pub fn parse_i32(s: &str) -> (r: Option<i32>)
    ensures
        r == parse_i32_spec(s@),
{
    let n = s.unicode_len();
    let mut start: usize = 0;
    let mut neg = false;
    if n > 0 {
        let c0 = s.get_char(0);
        if c0 == '+' {
            start = 1;
        } else if c0 == '-' {
            neg = true;
            start = 1;
        }
    }
    let ghost digits = if start == 1 {
        s@.drop_first()
    } else {
        s@
    };
    proof {
        assert(s@.subrange(start as int, n as int) =~= digits);
    }
    if start == n {
        return None;
    }
    let mut mag: u64 = 0;
    let mut j: usize = start;
    while j < n
        invariant
            n == s@.len(),
            start <= j <= n,
            start < n,
            neg == (s@.len() > 0 && s@[0] == '-'),
            start == if s@.len() > 0 && (s@[0] == '+' || s@[0] == '-') {
                1int
            } else {
                0int
            },
            digits =~= s@.subrange(start as int, n as int),
            all_digits(s@.subrange(start as int, j as int)),
            mag == digits_val(s@.subrange(start as int, j as int)),
            mag < 0x1_0000_0000u64 * 10,
        decreases n - j,
    {
        let c = s.get_char(j);
        let u = c as u32;
        if u < 0x30 || u > 0x39 {
            proof {
                assert(digits[j - start] == s@[j as int]);
                assert(!is_digit_char(digits[j - start]));
            }
            return None;
        }
        if mag >= 0x1_0000_0000u64 {
            proof {
                if all_digits(digits) {
                    lemma_digits_val_prefix_le(digits, j - start);
                    assert(digits.take(j - start) =~= s@.subrange(start as int, j as int));
                    assert(digits_val(digits) >= mag);
                    assert(digits_val(digits) > 0x8000_0000);
                    assert(digits == (if s@.len() > 0 && (s@[0] == '+' || s@[0] == '-') {
                        s@.drop_first()
                    } else {
                        s@
                    }));
                    assert(digits.len() > 0);
                    assert(parse_i32_spec(s@) is None);
                } else {
                    assert(parse_i32_spec(s@) is None);
                }
            }
            return None;
        }
        mag = mag * 10 + ((u - 0x30) as u64);
        proof {
            let prev = s@.subrange(start as int, j as int);
            let cur = s@.subrange(start as int, j as int + 1);
            assert(cur.drop_last() =~= prev);
            assert(cur.last() == s@[j as int]);
        }
        j = j + 1;
    }
    proof {
        assert(s@.subrange(start as int, n as int) =~= digits);
        assert(all_digits(digits));
        assert(mag == digits_val(digits));
    }
    if neg {
        if mag <= 0x8000_0000u64 {
            if mag == 0x8000_0000u64 {
                Some(i32::MIN)
            } else {
                Some(-(mag as i32))
            }
        } else {
            None
        }
    } else {
        if mag <= 0x7FFF_FFFFu64 {
            Some(mag as i32)
        } else {
            None
        }
    }
}

} // verus!
