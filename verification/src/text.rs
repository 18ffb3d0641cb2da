//! Character-level string operations the API layer relies on (trimming,
//! ASCII case folding, prefix tests), each proved against a spec over the
//! string's `Seq<char>` view.

use vstd::prelude::*;

verus! {

/// The Unicode `White_Space` property, the definition of whitespace that
/// `str::trim` documents.
pub open spec fn is_unicode_whitespace(c: char) -> bool {
    let u = c as u32;
    ||| (0x09 <= u && u <= 0x0D)
    ||| u == 0x20
    ||| u == 0x85
    ||| u == 0xA0
    ||| u == 0x1680
    ||| (0x2000 <= u && u <= 0x200A)
    ||| u == 0x2028
    ||| u == 0x2029
    ||| u == 0x202F
    ||| u == 0x205F
    ||| u == 0x3000
}

/// Index of the first non-whitespace character (or `s.len()`).
pub open spec fn trim_start_index(s: Seq<char>) -> int
    decreases s.len(),
{
    if s.len() == 0 {
        0
    } else if is_unicode_whitespace(s[0]) {
        1 + trim_start_index(s.drop_first())
    } else {
        0
    }
}

/// Index one past the last non-whitespace character (or 0).
pub open spec fn trim_end_index(s: Seq<char>) -> int
    decreases s.len(),
{
    if s.len() == 0 {
        0
    } else if is_unicode_whitespace(s.last()) {
        trim_end_index(s.drop_last())
    } else {
        s.len() as int
    }
}

/// `s` without leading and trailing whitespace.
pub open spec fn trim_spec(s: Seq<char>) -> Seq<char> {
    let b = trim_start_index(s);
    let e = trim_end_index(s);
    if b < e {
        s.subrange(b, e)
    } else {
        Seq::empty()
    }
}

/// `s` without its trailing `c` characters.
pub open spec fn trim_end_char_spec(s: Seq<char>, c: char) -> Seq<char>
    decreases s.len(),
{
    if s.len() > 0 && s.last() == c {
        trim_end_char_spec(s.drop_last(), c)
    } else {
        s
    }
}

/// ASCII lowercase of one character (non-ASCII characters unchanged).
pub open spec fn ascii_lower_char(c: char) -> char {
    if 'A' <= c && c <= 'Z' {
        ((c as u32) + 32) as char
    } else {
        c
    }
}

/// ASCII lowercase of a string.
pub open spec fn ascii_lower_spec(s: Seq<char>) -> Seq<char> {
    s.map_values(|c: char| ascii_lower_char(c))
}

/// ASCII case-insensitive equality.
pub open spec fn eq_ignore_ascii_case_spec(a: Seq<char>, b: Seq<char>) -> bool {
    ascii_lower_spec(a) == ascii_lower_spec(b)
}

/// `p` is a prefix of `s`.
pub open spec fn starts_with_spec(s: Seq<char>, p: Seq<char>) -> bool {
    p.len() <= s.len() && s.subrange(0, p.len() as int) == p
}

/// Appends one character to a `String`.
#[verifier::external_body]
pub(crate) fn push_char(s: &mut String, c: char)
    ensures
        final(s)@ == old(s)@.push(c),
{
    s.push(c);
}

/// The characters of `s`, in order.
pub fn chars_of(s: &str) -> (v: Vec<char>)
    ensures
        v@ == s@,
{
    let n = s.unicode_len();
    let mut v: Vec<char> = Vec::new();
    let mut i: usize = 0;
    while i < n
        invariant
            n == s@.len(),
            i <= n,
            v@ == s@.subrange(0, i as int),
        decreases n - i,
    {
        let c = s.get_char(i);
        v.push(c);
        i = i + 1;
    }
    v
}

/// A `String` holding exactly the characters of `cs`.
pub fn string_from_chars(cs: &[char]) -> (s: String)
    ensures
        s@ == cs@,
{
    let mut s = String::new();
    let mut i: usize = 0;
    while i < cs.len()
        invariant
            i <= cs@.len(),
            s@ == cs@.subrange(0, i as int),
        decreases cs@.len() - i,
    {
        push_char(&mut s, cs[i]);
        i = i + 1;
    }
    s
}

/// Copies a string (the result equals the input).
pub fn copy_str(s: &str) -> (r: String)
    ensures
        r@ == s@,
{
    String::from_str(s)
}

/// Character-wise equality of two strings.
pub fn str_eq(a: &str, b: &str) -> (r: bool)
    ensures
        r == (a@ == b@),
{
    let x = chars_of(a);
    let y = chars_of(b);
    if x.len() != y.len() {
        return false;
    }
    let mut i: usize = 0;
    while i < x.len()
        invariant
            x@ == a@,
            y@ == b@,
            x@.len() == y@.len(),
            i <= x@.len(),
            forall|k: int| 0 <= k < i ==> x@[k] == y@[k],
        decreases x@.len() - i,
    {
        if x[i] != y[i] {
            return false;
        }
        i = i + 1;
    }
    assert(x@ =~= y@);
    true
}

/// Whether `c` has the Unicode `White_Space` property.
pub fn is_whitespace(c: char) -> (r: bool)
    ensures
        r == is_unicode_whitespace(c),
{
    let u = c as u32;
    (0x09 <= u && u <= 0x0D) || u == 0x20 || u == 0x85 || u == 0xA0 || u == 0x1680 || (0x2000
        <= u && u <= 0x200A) || u == 0x2028 || u == 0x2029 || u == 0x202F || u == 0x205F || u
        == 0x3000
}

proof fn lemma_trim_start_bounds(s: Seq<char>)
    ensures
        0 <= trim_start_index(s) <= s.len(),
        forall|k: int| 0 <= k < trim_start_index(s) ==> is_unicode_whitespace(#[trigger] s[k]),
        trim_start_index(s) < s.len() ==> !is_unicode_whitespace(s[trim_start_index(s)]),
    decreases s.len(),
{
    if s.len() > 0 && is_unicode_whitespace(s[0]) {
        lemma_trim_start_bounds(s.drop_first());
        assert forall|k: int| 0 <= k < trim_start_index(s) implies is_unicode_whitespace(
            #[trigger] s[k],
        ) by {
            if k > 0 {
                assert(s[k] == s.drop_first()[k - 1]);
            }
        }
    }
}

proof fn lemma_trim_end_bounds(s: Seq<char>)
    ensures
        0 <= trim_end_index(s) <= s.len(),
        forall|k: int| trim_end_index(s) <= k < s.len() ==> is_unicode_whitespace(#[trigger] s[k]),
        trim_end_index(s) > 0 ==> !is_unicode_whitespace(s[trim_end_index(s) - 1]),
    decreases s.len(),
{
    if s.len() > 0 && is_unicode_whitespace(s.last()) {
        lemma_trim_end_bounds(s.drop_last());
        assert forall|k: int| trim_end_index(s) <= k < s.len() implies is_unicode_whitespace(
            #[trigger] s[k],
        ) by {
            if k < s.len() - 1 {
                assert(s[k] == s.drop_last()[k]);
            }
        }
    }
}

/// Characterises the start index as the first non-whitespace position.
proof fn lemma_trim_start_unique(s: Seq<char>, b: int)
    requires
        0 <= b <= s.len(),
        forall|k: int| 0 <= k < b ==> is_unicode_whitespace(#[trigger] s[k]),
        b < s.len() ==> !is_unicode_whitespace(s[b]),
    ensures
        trim_start_index(s) == b,
    decreases s.len(),
{
    if s.len() > 0 && b > 0 {
        assert(is_unicode_whitespace(s[0]));
        assert forall|k: int| 0 <= k < b - 1 implies is_unicode_whitespace(
            #[trigger] s.drop_first()[k],
        ) by {
            assert(s.drop_first()[k] == s[k + 1]);
        }
        if b < s.len() {
            assert(s.drop_first()[b - 1] == s[b]);
        }
        lemma_trim_start_unique(s.drop_first(), b - 1);
    } else if s.len() > 0 {
        assert(!is_unicode_whitespace(s[0]));
    }
}

/// Characterises the end index as one past the last non-whitespace position.
proof fn lemma_trim_end_unique(s: Seq<char>, e: int)
    requires
        0 <= e <= s.len(),
        forall|k: int| e <= k < s.len() ==> is_unicode_whitespace(#[trigger] s[k]),
        e > 0 ==> !is_unicode_whitespace(s[e - 1]),
    ensures
        trim_end_index(s) == e,
    decreases s.len(),
{
    if s.len() > 0 && e < s.len() {
        assert(is_unicode_whitespace(s[s.len() - 1]));
        assert forall|k: int| e <= k < s.len() - 1 implies is_unicode_whitespace(
            #[trigger] s.drop_last()[k],
        ) by {
            assert(s.drop_last()[k] == s[k]);
        }
        if e > 0 {
            assert(s.drop_last()[e - 1] == s[e - 1]);
        }
        lemma_trim_end_unique(s.drop_last(), e);
    } else if s.len() > 0 {
        assert(!is_unicode_whitespace(s.last()));
    }
}

/// `s` without leading and trailing Unicode whitespace (`str::trim`).
pub fn trim(s: &str) -> (r: String)
    ensures
        r@ == trim_spec(s@),
{
    let cs = chars_of(s);
    let n = cs.len();
    let mut b: usize = 0;
    while b < n && is_whitespace(cs[b])
        invariant
            cs@ == s@,
            n == cs@.len(),
            b <= n,
            forall|k: int| 0 <= k < b ==> is_unicode_whitespace(#[trigger] cs@[k]),
        decreases n - b,
    {
        b = b + 1;
    }
    let mut e: usize = n;
    while e > b && is_whitespace(cs[e - 1])
        invariant
            cs@ == s@,
            n == cs@.len(),
            b <= e <= n,
            forall|k: int| e <= k < n ==> is_unicode_whitespace(#[trigger] cs@[k]),
        decreases e,
    {
        e = e - 1;
    }
    proof {
        lemma_trim_start_unique(s@, b as int);
        lemma_trim_end_bounds(s@);
        if e > b {
            lemma_trim_end_unique(s@, e as int);
        } else {
            // every character from `b` on is whitespace, so nothing remains
            assert forall|k: int| b <= k < n implies is_unicode_whitespace(#[trigger] s@[k]) by {
                assert(s@[k] == cs@[k]);
            }
            if trim_end_index(s@) > b {
                let t = trim_end_index(s@) - 1;
                assert(is_unicode_whitespace(s@[t]));
            }
        }
    }
    let mut out: Vec<char> = Vec::new();
    let mut i: usize = b;
    while i < e
        invariant
            cs@ == s@,
            b <= i <= e <= n,
            n == cs@.len(),
            out@ == cs@.subrange(b as int, i as int),
        decreases e - i,
    {
        out.push(cs[i]);
        i = i + 1;
    }
    string_from_chars(out.as_slice())
}

/// `s` without its trailing `c` characters (`str::trim_end_matches(c)`).
pub fn trim_end_char(s: &str, c: char) -> (r: String)
    ensures
        r@ == trim_end_char_spec(s@, c),
{
    let cs = chars_of(s);
    let mut e: usize = cs.len();
    assert(s@.subrange(0, e as int) =~= s@);
    while e > 0 && cs[e - 1] == c
        invariant
            cs@ == s@,
            e <= cs@.len(),
            trim_end_char_spec(s@, c) == trim_end_char_spec(s@.subrange(0, e as int), c),
        decreases e,
    {
        proof {
            let t = s@.subrange(0, e as int);
            assert(t.drop_last() =~= s@.subrange(0, e - 1));
        }
        e = e - 1;
    }
    proof {
        let t = s@.subrange(0, e as int);
        assert(trim_end_char_spec(t, c) == t);
    }
    let mut out: Vec<char> = Vec::new();
    let mut i: usize = 0;
    while i < e
        invariant
            cs@ == s@,
            i <= e <= cs@.len(),
            out@ == cs@.subrange(0, i as int),
        decreases e - i,
    {
        out.push(cs[i]);
        i = i + 1;
    }
    string_from_chars(out.as_slice())
}

/// `s.trim().trim_end_matches('/')`: the normalisation every URL field goes
/// through before it is stored or compared.
pub fn trim_url(s: &str) -> (r: String)
    ensures
        r@ == trim_end_char_spec(trim_spec(s@), '/'),
{
    let t = trim(s);
    trim_end_char(t.as_str(), '/')
}

/// ASCII lowercase of `s` (`str::to_ascii_lowercase`).
pub fn to_ascii_lower(s: &str) -> (r: String)
    ensures
        r@ == ascii_lower_spec(s@),
{
    let cs = chars_of(s);
    let mut out: Vec<char> = Vec::new();
    let mut i: usize = 0;
    while i < cs.len()
        invariant
            cs@ == s@,
            i <= cs@.len(),
            out@ == ascii_lower_spec(cs@.subrange(0, i as int)),
        decreases cs@.len() - i,
    {
        let c = cs[i];
        let l = if 'A' <= c && c <= 'Z' {
            let u = (c as u32) + 32;
            proof {
                assert(u == (c as u32) + 32);
            }
            char_from_ascii(u)
        } else {
            c
        };
        out.push(l);
        proof {
            assert(cs@.subrange(0, i + 1) =~= cs@.subrange(0, i as int).push(c));
            assert(ascii_lower_spec(cs@.subrange(0, i + 1)) =~= ascii_lower_spec(
                cs@.subrange(0, i as int),
            ).push(ascii_lower_char(c)));
        }
        i = i + 1;
    }
    proof {
        assert(cs@.subrange(0, cs@.len() as int) =~= cs@);
    }
    string_from_chars(out.as_slice())
}

/// The character with ASCII code `u` (`u < 128`).
fn char_from_ascii(u: u32) -> (c: char)
    requires
        u < 128,
    ensures
        c == u as char,
        c as u32 == u,
{
    let b = u as u8;
    b as char
}

/// ASCII case-insensitive equality (`str::eq_ignore_ascii_case`).
pub fn eq_ignore_ascii_case(a: &str, b: &str) -> (r: bool)
    ensures
        r == eq_ignore_ascii_case_spec(a@, b@),
{
    let x = to_ascii_lower(a);
    let y = to_ascii_lower(b);
    str_eq(x.as_str(), y.as_str())
}

/// Whether `s` starts with `p` (`str::starts_with`).
pub fn starts_with(s: &str, p: &str) -> (r: bool)
    ensures
        r == starts_with_spec(s@, p@),
{
    let x = chars_of(s);
    let y = chars_of(p);
    if y.len() > x.len() {
        return false;
    }
    let mut i: usize = 0;
    while i < y.len()
        invariant
            x@ == s@,
            y@ == p@,
            y@.len() <= x@.len(),
            i <= y@.len(),
            forall|k: int| 0 <= k < i ==> x@[k] == y@[k],
        decreases y@.len() - i,
    {
        if x[i] != y[i] {
            return false;
        }
        i = i + 1;
    }
    assert(s@.subrange(0, p@.len() as int) =~= p@);
    true
}

/// The ASCII digit for `d` (0..=9).
pub open spec fn digit_char(d: nat) -> char {
    (48 + d) as char
}

/// The decimal spelling of `n`, without sign or leading zeros.
pub open spec fn decimal_spec(n: nat) -> Seq<char>
    decreases n,
{
    if n < 10 {
        seq![digit_char(n)]
    } else {
        decimal_spec(n / 10).push(digit_char(n % 10))
    }
}

/// The decimal spelling of `n` (`usize::to_string`).
pub fn usize_to_decimal(n: usize) -> (r: String)
    ensures
        r@ == decimal_spec(n as nat),
    decreases n,
{
    if n < 10 {
        let mut s = String::new();
        let c: char = char_of_digit(n);
        push_char(&mut s, c);
        assert(s@ =~= seq![digit_char(n as nat)]);
        s
    } else {
        let mut s = usize_to_decimal(n / 10);
        push_char(&mut s, char_of_digit(n % 10));
        s
    }
}

fn char_of_digit(d: usize) -> (c: char)
    requires
        d < 10,
    ensures
        c == digit_char(d as nat),
{
    if d == 0 { '0' } else if d == 1 { '1' } else if d == 2 { '2' } else if d == 3 { '3' } else if d == 4 {
        '4'
    } else if d == 5 { '5' } else if d == 6 { '6' } else if d == 7 { '7' } else if d == 8 { '8' } else {
        '9'
    }
}

pub open spec fn is_digit(c: char) -> bool {
    '0' <= c && c <= '9'
}

/// The value of a run of decimal digits.
pub open spec fn digits_value(ds: Seq<char>) -> nat
    decreases ds.len(),
{
    if ds.len() == 0 {
        0
    } else {
        digits_value(ds.drop_last()) * 10 + ((ds.last() as nat) - 48) as nat
    }
}

/// What follows an optional leading `+`.
pub open spec fn unsigned_body(s: Seq<char>) -> Seq<char> {
    if s.len() > 0 && s[0] == '+' {
        s.subrange(1, s.len() as int)
    } else {
        s
    }
}

/// Whether `body` is one or more ASCII digits.
pub open spec fn all_digits(body: Seq<char>) -> bool {
    body.len() > 0 && forall|i: int| 0 <= i < body.len() ==> is_digit(#[trigger] body[i])
}

/// `usize::from_str`: an optional `+`, then one or more ASCII digits whose
/// value fits in `usize`.
pub open spec fn parse_usize_spec(s: Seq<char>) -> Option<usize> {
    if !all_digits(unsigned_body(s)) {
        None
    } else if digits_value(unsigned_body(s)) > usize::MAX {
        None
    } else {
        Some(digits_value(unsigned_body(s)) as usize)
    }
}

proof fn lemma_digits_value_grows(ds: Seq<char>, k: int)
    requires
        0 <= k <= ds.len(),
        forall|i: int| 0 <= i < ds.len() ==> is_digit(#[trigger] ds[i]),
    ensures
        digits_value(ds.subrange(0, k)) <= digits_value(ds),
    decreases ds.len() - k,
{
    if k < ds.len() {
        let p = ds.subrange(0, k + 1);
        assert(p.drop_last() =~= ds.subrange(0, k));
        lemma_digits_value_grows(ds, k + 1);
    } else {
        assert(ds.subrange(0, k) =~= ds);
    }
}

/// Parse a `usize` the way `str::parse::<usize>` does.
pub fn parse_usize(s: &str) -> (r: Option<usize>)
    ensures
        r == parse_usize_spec(s@),
{
    let cs = chars_of(s);
    let start: usize = if cs.len() > 0 && cs[0] == '+' {
        1
    } else {
        0
    };
    let ghost body = unsigned_body(s@);
    assert(body =~= cs@.subrange(start as int, cs@.len() as int));
    if start >= cs.len() {
        return None;
    }
    let mut i: usize = start;
    while i < cs.len()
        invariant
            start <= i <= cs@.len(),
            cs@ == s@,
            body == cs@.subrange(start as int, cs@.len() as int),
            body == unsigned_body(s@),
            forall|k: int| start <= k < i ==> is_digit(#[trigger] cs@[k]),
        decreases cs@.len() - i,
    {
        if !('0' <= cs[i] && cs[i] <= '9') {
            assert(body[i - start] == cs@[i as int]);
            assert(!is_digit(body[i - start]));
            assert(0 <= i - start < body.len());
            return None;
        }
        i = i + 1;
    }
    assert forall|k: int| 0 <= k < body.len() implies is_digit(#[trigger] body[k]) by {
        assert(body[k] == cs@[k + start]);
    }
    let mut acc: usize = 0;
    let mut j: usize = start;
    while j < cs.len()
        invariant
            start <= j <= cs@.len(),
            cs@ == s@,
            body == cs@.subrange(start as int, cs@.len() as int),
            body == unsigned_body(s@),
            forall|k: int| 0 <= k < body.len() ==> is_digit(#[trigger] body[k]),
            acc == digits_value(body.subrange(0, j - start)),
        decreases cs@.len() - j,
    {
        assert(body[j - start] == cs@[j as int]);
        assert(is_digit(body[j - start]));
        let d = (cs[j] as u32 - 48) as usize;
        proof {
            let p = body.subrange(0, j - start + 1);
            assert(p.drop_last() =~= body.subrange(0, j - start));
            assert(p.last() == cs@[j as int]);
        }
        if acc > (usize::MAX - d) / 10 {
            proof {
                lemma_digits_value_grows(body, j - start + 1);
                assert(digits_value(body.subrange(0, j - start + 1)) == acc * 10 + d);
                assert(acc * 10 + d > usize::MAX) by (nonlinear_arith)
                    requires
                        acc > (usize::MAX - d) / 10,
                        d < 10,
                ;
                assert(digits_value(body) > usize::MAX);
            }
            return None;
        }
        proof {
            assert(acc * 10 + d <= usize::MAX) by (nonlinear_arith)
                requires
                    acc <= (usize::MAX - d) / 10,
                    d < 10,
            ;
        }
        acc = acc * 10 + d;
        j = j + 1;
    }
    assert(body.subrange(0, body.len() as int) =~= body);
    Some(acc)
}

/// `str::rsplit_once` on a character: the text before and after the last
/// occurrence of `c`.
pub open spec fn rsplit_once_spec(s: Seq<char>, c: char) -> Option<(Seq<char>, Seq<char>)> {
    if exists|i: int| 0 <= i < s.len() && s[i] == c {
        let i = choose|i: int|
            0 <= i < s.len() && s[i] == c && forall|j: int| i < j < s.len() ==> s[j] != c;
        Some((s.subrange(0, i), s.subrange(i + 1, s.len() as int)))
    } else {
        None
    }
}

fn split_around(cs: &Vec<char>, k: usize) -> (r: (String, String))
    requires
        k < cs@.len(),
    ensures
        r.0@ == cs@.subrange(0, k as int),
        r.1@ == cs@.subrange(k + 1, cs@.len() as int),
{
    let n = cs.len();
    let mut left = String::new();
    let mut right = String::new();
    let mut a: usize = 0;
    while a < k
        invariant
            a <= k,
            k < cs@.len(),
            n == cs@.len(),
            left@ == cs@.subrange(0, a as int),
        decreases k - a,
    {
        push_char(&mut left, cs[a]);
        a = a + 1;
    }
    let mut b: usize = k + 1;
    while b < cs.len()
        invariant
            k + 1 <= b <= cs@.len(),
            right@ == cs@.subrange(k + 1, b as int),
        decreases cs@.len() - b,
    {
        push_char(&mut right, cs[b]);
        b = b + 1;
    }
    (left, right)
}

pub proof fn lemma_last_occurrence(s: Seq<char>, c: char, k: int)
    requires
        0 <= k < s.len(),
        s[k] == c,
        forall|j: int| k < j < s.len() ==> s[j] != c,
    ensures
        rsplit_once_spec(s, c) == Some((s.subrange(0, k), s.subrange(k + 1, s.len() as int))),
{
    let w = choose|w: int| 0 <= w < s.len() && s[w] == c && forall|j: int| w < j < s.len() ==> s[j] != c;
    assert(0 <= w < s.len() && s[w] == c && forall|j: int| w < j < s.len() ==> s[j] != c);
    if w < k {
        assert(s[k] != c);
    }
    if w > k {
        assert(s[w] != c);
    }
}

/// Split `s` at the last occurrence of `c`.
pub fn rsplit_once(s: &str, c: char) -> (r: Option<(String, String)>)
    ensures
        match r {
            Some(p) => rsplit_once_spec(s@, c) == Some((p.0@, p.1@)),
            None => rsplit_once_spec(s@, c).is_none(),
        },
{
    let cs = chars_of(s);
    let mut i: usize = cs.len();
    while i > 0
        invariant
            i <= cs@.len(),
            cs@ == s@,
            forall|j: int| i <= j < cs@.len() ==> cs@[j] != c,
        decreases i,
    {
        if cs[i - 1] == c {
            let k = i - 1;
            let parts = split_around(&cs, k);
            proof {
                lemma_last_occurrence(s@, c, k as int);
            }
            return Some(parts);
        }
        i = i - 1;
    }
    None
}

/// The characters of `s` from index `n` on.
pub fn suffix_from(s: &str, n: usize) -> (r: String)
    requires
        n <= s@.len(),
    ensures
        r@ == s@.subrange(n as int, s@.len() as int),
{
    let cs = chars_of(s);
    let mut out = String::new();
    let mut i: usize = n;
    while i < cs.len()
        invariant
            n <= i <= cs@.len(),
            cs@ == s@,
            out@ == cs@.subrange(n as int, i as int),
        decreases cs@.len() - i,
    {
        push_char(&mut out, cs[i]);
        i = i + 1;
    }
    out
}

/// The decimal spelling of `n` is a non-empty run of digits whose value is
/// `n`, and it does not start with `+`.
pub proof fn lemma_decimal_digits(n: nat)
    ensures
        decimal_spec(n).len() > 0,
        forall|i: int| 0 <= i < decimal_spec(n).len() ==> is_digit(#[trigger] decimal_spec(n)[i]),
        digits_value(decimal_spec(n)) == n,
    decreases n,
{
    if n < 10 {
        assert(decimal_spec(n) =~= seq![digit_char(n)]);
        assert(decimal_spec(n).drop_last() =~= Seq::<char>::empty());
        assert((digit_char(n) as nat) == 48 + n);
        assert(decimal_spec(n).last() == digit_char(n));
        assert(digits_value(decimal_spec(n)) == digits_value(decimal_spec(n).drop_last()) * 10 + n);
    } else {
        lemma_decimal_digits(n / 10);
        let d = decimal_spec(n);
        assert(d.drop_last() =~= decimal_spec(n / 10));
        assert((digit_char(n % 10) as nat) == 48 + n % 10);
        assert(d.last() == digit_char(n % 10));
        assert(digits_value(d) == digits_value(decimal_spec(n / 10)) * 10 + n % 10);
        assert((n / 10) * 10 + n % 10 == n) by (nonlinear_arith);
        assert forall|i: int| 0 <= i < d.len() implies is_digit(#[trigger] d[i]) by {
            if i < d.len() - 1 {
                assert(d[i] == decimal_spec(n / 10)[i]);
            }
        }
    }
}

/// Parsing the decimal spelling of a `usize` gives it back.
pub proof fn law_parse_decimal_round_trip(n: usize)
    ensures
        parse_usize_spec(decimal_spec(n as nat)) == Some(n),
{
    lemma_decimal_digits(n as nat);
    let d = decimal_spec(n as nat);
    assert(is_digit(d[0]));
    assert(unsigned_body(d) == d);
}

/// Lexicographic order on character sequences, by code point: the order
/// `str`'s `Ord` gives (UTF-8 keeps the order of code points).
pub open spec fn lex_le(a: Seq<char>, b: Seq<char>) -> bool
    decreases a.len(),
{
    if a.len() == 0 {
        true
    } else if b.len() == 0 {
        false
    } else if a[0] != b[0] {
        (a[0] as int) < (b[0] as int)
    } else {
        lex_le(a.drop_first(), b.drop_first())
    }
}

/// `lex_le` as a relation.
pub open spec fn lex_order() -> spec_fn(Seq<char>, Seq<char>) -> bool {
    |a: Seq<char>, b: Seq<char>| lex_le(a, b)
}

proof fn lemma_lex_refl(a: Seq<char>)
    ensures
        lex_le(a, a),
    decreases a.len(),
{
    if a.len() > 0 {
        lemma_lex_refl(a.drop_first());
    }
}

proof fn lemma_lex_antisym(a: Seq<char>, b: Seq<char>)
    requires
        lex_le(a, b),
        lex_le(b, a),
    ensures
        a == b,
    decreases a.len(),
{
    if a.len() > 0 {
        lemma_lex_antisym(a.drop_first(), b.drop_first());
        assert(a =~= seq![a[0]] + a.drop_first());
        assert(b =~= seq![b[0]] + b.drop_first());
    } else {
        assert(b.len() == 0);
        assert(a =~= b);
    }
}

proof fn lemma_lex_trans(a: Seq<char>, b: Seq<char>, c: Seq<char>)
    requires
        lex_le(a, b),
        lex_le(b, c),
    ensures
        lex_le(a, c),
    decreases a.len(),
{
    if a.len() > 0 && b.len() > 0 && c.len() > 0 && a[0] == b[0] && b[0] == c[0] {
        lemma_lex_trans(a.drop_first(), b.drop_first(), c.drop_first());
    }
}

proof fn lemma_lex_total(a: Seq<char>, b: Seq<char>)
    ensures
        lex_le(a, b) || lex_le(b, a),
    decreases a.len(),
{
    if a.len() > 0 && b.len() > 0 && a[0] == b[0] {
        lemma_lex_total(a.drop_first(), b.drop_first());
    }
}

/// `lex_le` is a total order.
pub proof fn lemma_lex_total_ordering()
    ensures
        vstd::relations::total_ordering(lex_order()),
{
    let r = lex_order();
    assert forall|x: Seq<char>| #[trigger] r(x, x) by {
        lemma_lex_refl(x);
    }
    assert forall|x: Seq<char>, y: Seq<char>| #[trigger] r(x, y) && #[trigger] r(y, x) implies x == y by {
        lemma_lex_antisym(x, y);
    }
    assert forall|x: Seq<char>, y: Seq<char>, z: Seq<char>| #[trigger] r(x, y) && #[trigger] r(y, z) implies r(x, z) by {
        lemma_lex_trans(x, y, z);
    }
    assert forall|x: Seq<char>, y: Seq<char>| #[trigger] r(x, y) || #[trigger] r(y, x) by {
        lemma_lex_total(x, y);
    }
}

/// Whether `a` sorts before or equal to `b` (`a <= b` on `str`).
pub fn str_le(a: &str, b: &str) -> (r: bool)
    ensures
        r == lex_le(a@, b@),
{
    let ca = chars_of(a);
    let cb = chars_of(b);
    let mut i: usize = 0;
    assert(a@.skip(0) =~= a@);
    assert(b@.skip(0) =~= b@);
    while i < ca.len() && i < cb.len() && ca[i] == cb[i]
        invariant
            i <= ca@.len(),
            i <= cb@.len(),
            ca@ == a@,
            cb@ == b@,
            lex_le(a@, b@) == lex_le(a@.skip(i as int), b@.skip(i as int)),
        decreases ca@.len() - i,
    {
        proof {
            assert(a@.skip(i as int).drop_first() =~= a@.skip(i + 1));
            assert(b@.skip(i as int).drop_first() =~= b@.skip(i + 1));
        }
        i = i + 1;
    }
    if i == ca.len() {
        true
    } else if i == cb.len() {
        false
    } else {
        let x = ca[i];
        let y = cb[i];
        proof {
            assert(a@.skip(i as int)[0] == x);
            assert(b@.skip(i as int)[0] == y);
        }
        x < y
    }
}

} // verus!
