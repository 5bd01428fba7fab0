//! Character-level text helpers: equality, lexicographic order, trimming and
//! decimal integer parsing, each stated over the `Seq<char>` view of a string.

use vstd::prelude::*;

use crate::collections::OrderedKey;

verus! {

broadcast use vstd::seq_lib::group_seq_properties;

/// The characters of `s`, in order.
pub fn chars_of(s: &str) -> (v: Vec<char>)
    ensures
        v@ == s@,
{
    let n = s.unicode_len();
    let mut v: Vec<char> = Vec::new();
    let mut i: usize = 0;
    while i < n
        invariant
            n == s@.len(),
            i <= n,
            v@ == s@.subrange(0, i as int),
        decreases n - i,
    {
        v.push(s.get_char(i));
        i = i + 1;
    }
    v
}

/// A string holding exactly the given characters.
pub fn string_of_chars(chars: &[char]) -> (s: String)
    ensures
        s@ == chars@,
{
    let mut s = String::new();
    let mut i: usize = 0;
    while i < chars.len()
        invariant
            i <= chars@.len(),
            s@ == chars@.subrange(0, i as int),
        decreases chars@.len() - i,
    {
        let c = chars[i];
        push_char(&mut s, c);
        i = i + 1;
    }
    s
}

/// Appends one character to `s` (`String::push`).
#[verifier::external_body]
fn push_char(s: &mut String, c: char)
    ensures
        final(s)@ == old(s)@.push(c),
{
    s.push(c);
}

/// What `{:?}` writes for a string: std's `Debug` for `str`, the text in
/// double quotes with its special characters escaped.
pub uninterp spec fn str_debug(s: Seq<char>) -> Seq<char>;

/// `<str as Debug>::fmt`, through `format!("{:?}", ..)`. Stated: the result
/// is `str_debug` of the text, a function of the text alone; the escaping
/// rules themselves are left unstated.
#[verifier::external_body]
pub(crate) fn debug_str(s: &str) -> (r: String)
    ensures
        r@ == str_debug(s@),
{
    format!("{:?}", s)
}

/// A new string with the same characters (`str::to_string`).
pub fn owned(s: &str) -> (r: String)
    ensures
        r@ == s@,
{
    String::from_str(s)
}

/// Whether two strings hold the same characters.
pub fn str_eq(a: &str, b: &str) -> (r: bool)
    ensures
        r == (a@ == b@),
{
    let sa = String::from_str(a);
    let sb = String::from_str(b);
    sa == sb
}

/// Lexicographic order on character sequences by code point; this is the
/// order `String`'s `Ord` gives, since UTF-8 preserves code-point order.
pub open spec fn seq_lt(a: Seq<char>, b: Seq<char>) -> bool
    decreases a.len(),
{
    if a.len() == 0 {
        b.len() > 0
    } else if b.len() == 0 {
        false
    } else if a[0] == b[0] {
        seq_lt(a.drop_first(), b.drop_first())
    } else {
        a[0] < b[0]
    }
}

pub proof fn lemma_seq_lt_irreflexive(a: Seq<char>)
    ensures
        !seq_lt(a, a),
    decreases a.len(),
{
    if a.len() > 0 {
        lemma_seq_lt_irreflexive(a.drop_first());
    }
}

pub proof fn lemma_seq_lt_transitive(a: Seq<char>, b: Seq<char>, c: Seq<char>)
    requires
        seq_lt(a, b),
        seq_lt(b, c),
    ensures
        seq_lt(a, c),
    decreases a.len(),
{
    if a.len() > 0 && b.len() > 0 && c.len() > 0 {
        if a[0] == b[0] && b[0] == c[0] {
            lemma_seq_lt_transitive(a.drop_first(), b.drop_first(), c.drop_first());
        }
    }
}

pub proof fn lemma_seq_lt_total(a: Seq<char>, b: Seq<char>)
    ensures
        a == b || seq_lt(a, b) || seq_lt(b, a),
    decreases a.len(),
{
    if a.len() > 0 && b.len() > 0 {
        if a[0] == b[0] {
            lemma_seq_lt_total(a.drop_first(), b.drop_first());
            if a.drop_first() == b.drop_first() {
                assert(a =~= seq![a[0]] + a.drop_first());
                assert(b =~= seq![b[0]] + b.drop_first());
            }
        }
    } else if a.len() == 0 && b.len() == 0 {
        assert(a =~= b);
    }
}

proof fn lemma_seq_lt_skip(a: Seq<char>, b: Seq<char>, i: int)
    requires
        0 <= i < a.len(),
        i < b.len(),
        a.subrange(0, i + 1) == b.subrange(0, i + 1),
    ensures
        seq_lt(a.skip(i), b.skip(i)) == seq_lt(a.skip(i + 1), b.skip(i + 1)),
{
    assert(a.skip(i)[0] == a[i]);
    assert(b.skip(i)[0] == b[i]);
    assert(a.subrange(0, i + 1)[i] == a[i]);
    assert(b.subrange(0, i + 1)[i] == b[i]);
    assert(a.skip(i).drop_first() =~= a.skip(i + 1));
    assert(b.skip(i).drop_first() =~= b.skip(i + 1));
}

/// Three-way comparison of two strings in lexicographic code-point order:
/// negative, zero or positive as `a` sorts before, equal to, or after `b`.
pub fn compare_str(a: &str, b: &str) -> (r: i8)
    ensures
        (r == 0) == (a@ == b@),
        (r < 0) == seq_lt(a@, b@),
        (r > 0) == seq_lt(b@, a@),
{
    let ca = chars_of(a);
    let cb = chars_of(b);
    let r = compare_chars(&ca, &cb);
    r
}

/// Three-way lexicographic comparison of two character slices.
pub fn compare_chars(a: &Vec<char>, b: &Vec<char>) -> (r: i8)
    ensures
        (r == 0) == (a@ == b@),
        (r < 0) == seq_lt(a@, b@),
        (r > 0) == seq_lt(b@, a@),
{
    proof {
        lemma_seq_lt_irreflexive(a@);
        lemma_seq_lt_total(a@, b@);
        if seq_lt(a@, b@) && seq_lt(b@, a@) {
            lemma_seq_lt_transitive(a@, b@, a@);
        }
    }
    let mut i: usize = 0;
    while i < a.len() && i < b.len()
        invariant
            i <= a@.len(),
            i <= b@.len(),
            a@.subrange(0, i as int) == b@.subrange(0, i as int),
            seq_lt(a@, b@) == seq_lt(a@.skip(i as int), b@.skip(i as int)),
            seq_lt(b@, a@) == seq_lt(b@.skip(i as int), a@.skip(i as int)),
        decreases a@.len() - i,
    {
        let ca = a[i];
        let cb = b[i];
        if ca != cb {
            proof {
                assert(a@.skip(i as int)[0] == ca);
                assert(b@.skip(i as int)[0] == cb);
                assert(a@ != b@);
            }
            if ca < cb {
                return -1;
            } else {
                return 1;
            }
        }
        proof {
            assert(a@.subrange(0, i + 1) =~= a@.subrange(0, i as int).push(ca));
            assert(b@.subrange(0, i + 1) =~= b@.subrange(0, i as int).push(cb));
            lemma_seq_lt_skip(a@, b@, i as int);
            lemma_seq_lt_skip(b@, a@, i as int);
        }
        i = i + 1;
    }
    if a.len() == b.len() {
        proof {
            assert(a@ =~= a@.subrange(0, i as int));
            assert(b@ =~= b@.subrange(0, i as int));
        }
        0
    } else if a.len() < b.len() {
        proof {
            assert(a@.skip(i as int).len() == 0);
            assert(a@ != b@);
        }
        -1
    } else {
        proof {
            assert(b@.skip(i as int).len() == 0);
            assert(a@ != b@);
        }
        1
    }
}

/// The characters that `char::is_whitespace` accepts (Unicode `White_Space`).
pub open spec fn is_white_space(c: char) -> bool {
    let u = c as u32;
    ||| 0x9 <= u <= 0xD
    ||| u == 0x20
    ||| u == 0x85
    ||| u == 0xA0
    ||| u == 0x1680
    ||| 0x2000 <= u <= 0x200A
    ||| u == 0x2028
    ||| u == 0x2029
    ||| u == 0x202F
    ||| u == 0x205F
    ||| u == 0x3000
}

/// Whether `c` is Unicode white space.
pub fn char_is_white_space(c: char) -> (r: bool)
    ensures
        r == is_white_space(c),
{
    let u = c as u32;
    (0x9 <= u && u <= 0xD) || u == 0x20 || u == 0x85 || u == 0xA0 || u == 0x1680 || (0x2000
        <= u && u <= 0x200A) || u == 0x2028 || u == 0x2029 || u == 0x202F || u == 0x205F || u
        == 0x3000
}

/// `s` without its leading white space.
pub open spec fn trim_start_seq(s: Seq<char>) -> Seq<char>
    decreases s.len(),
{
    if s.len() > 0 && is_white_space(s[0]) {
        trim_start_seq(s.drop_first())
    } else {
        s
    }
}

/// `s` without its trailing white space.
pub open spec fn trim_end_seq(s: Seq<char>) -> Seq<char>
    decreases s.len(),
{
    if s.len() > 0 && is_white_space(s.last()) {
        trim_end_seq(s.drop_last())
    } else {
        s
    }
}

/// `s` without leading and trailing white space (`str::trim`).
pub open spec fn trim_seq(s: Seq<char>) -> Seq<char> {
    trim_end_seq(trim_start_seq(s))
}

proof fn lemma_trim_start_skip(s: Seq<char>, i: int)
    requires
        0 <= i <= s.len(),
        forall|j: int| 0 <= j < i ==> is_white_space(#[trigger] s[j]),
    ensures
        trim_start_seq(s) == trim_start_seq(s.skip(i)),
    decreases i,
{
    if i > 0 {
        assert(s.drop_first().skip(i - 1) =~= s.skip(i));
        assert forall|j: int| 0 <= j < i - 1 implies is_white_space(
            #[trigger] s.drop_first()[j],
        ) by {
            assert(s.drop_first()[j] == s[j + 1]);
        }
        lemma_trim_start_skip(s.drop_first(), i - 1);
    } else {
        assert(s.skip(0) =~= s);
    }
}

proof fn lemma_trim_end_take(s: Seq<char>, i: int)
    requires
        0 <= i <= s.len(),
        forall|j: int| i <= j < s.len() ==> is_white_space(#[trigger] s[j]),
    ensures
        trim_end_seq(s) == trim_end_seq(s.take(i)),
    decreases s.len() - i,
{
    if i < s.len() {
        assert(s.drop_last().take(i) =~= s.take(i));
        assert forall|j: int| i <= j < s.len() - 1 implies is_white_space(
            #[trigger] s.drop_last()[j],
        ) by {
            assert(s.drop_last()[j] == s[j]);
        }
        assert(is_white_space(s[s.len() - 1]));
        lemma_trim_end_take(s.drop_last(), i);
    } else {
        assert(s.take(i) =~= s);
    }
}

/// The characters of `chars` without leading and trailing white space.
pub fn trim_chars(chars: &Vec<char>) -> (r: Vec<char>)
    ensures
        r@ == trim_seq(chars@),
{
    let n = chars.len();
    let mut lo: usize = 0;
    while lo < n && char_is_white_space(chars[lo])
        invariant
            n == chars@.len(),
            lo <= n,
            forall|j: int| 0 <= j < lo ==> is_white_space(#[trigger] chars@[j]),
        decreases n - lo,
    {
        lo = lo + 1;
    }
    proof {
        lemma_trim_start_skip(chars@, lo as int);
        let t = chars@.skip(lo as int);
        if t.len() > 0 {
            assert(t[0] == chars@[lo as int]);
        }
    }
    let ghost rest = chars@.skip(lo as int);
    let mut hi: usize = n;
    while hi > lo && char_is_white_space(chars[hi - 1])
        invariant
            n == chars@.len(),
            lo <= hi <= n,
            rest == chars@.skip(lo as int),
            forall|j: int| hi <= j < n ==> is_white_space(#[trigger] chars@[j]),
        decreases hi - lo,
    {
        hi = hi - 1;
    }
    proof {
        assert forall|j: int| hi - lo <= j < rest.len() implies is_white_space(
            #[trigger] rest[j],
        ) by {
            assert(rest[j] == chars@[j + lo]);
        }
        lemma_trim_end_take(rest, hi - lo);
        let u = rest.take(hi - lo);
        if u.len() > 0 {
            assert(u.last() == chars@[hi - 1]);
        }
    }
    let mut r: Vec<char> = Vec::new();
    let mut k: usize = lo;
    while k < hi
        invariant
            n == chars@.len(),
            lo <= k <= hi <= n,
            r@ == chars@.subrange(lo as int, k as int),
        decreases hi - k,
    {
        r.push(chars[k]);
        k = k + 1;
    }
    proof {
        assert(r@ =~= rest.take(hi - lo));
    }
    r
}

/// `s` without its leading copies of `c`.
pub open spec fn strip_start_seq(s: Seq<char>, c: char) -> Seq<char>
    decreases s.len(),
{
    if s.len() > 0 && s[0] == c {
        strip_start_seq(s.drop_first(), c)
    } else {
        s
    }
}

/// `s` without its trailing copies of `c`.
pub open spec fn strip_end_seq(s: Seq<char>, c: char) -> Seq<char>
    decreases s.len(),
{
    if s.len() > 0 && s.last() == c {
        strip_end_seq(s.drop_last(), c)
    } else {
        s
    }
}

/// `s` without leading and trailing copies of `c` (`str::trim_matches` with
/// a character).
pub open spec fn strip_seq(s: Seq<char>, c: char) -> Seq<char> {
    strip_end_seq(strip_start_seq(s, c), c)
}

proof fn lemma_strip_start_skip(s: Seq<char>, c: char, i: int)
    requires
        0 <= i <= s.len(),
        forall|j: int| 0 <= j < i ==> #[trigger] s[j] == c,
    ensures
        strip_start_seq(s, c) == strip_start_seq(s.skip(i), c),
    decreases i,
{
    if i > 0 {
        assert(s.drop_first().skip(i - 1) =~= s.skip(i));
        assert forall|j: int| 0 <= j < i - 1 implies #[trigger] s.drop_first()[j] == c by {
            assert(s.drop_first()[j] == s[j + 1]);
        }
        lemma_strip_start_skip(s.drop_first(), c, i - 1);
    } else {
        assert(s.skip(0) =~= s);
    }
}

proof fn lemma_strip_end_take(s: Seq<char>, c: char, i: int)
    requires
        0 <= i <= s.len(),
        forall|j: int| i <= j < s.len() ==> #[trigger] s[j] == c,
    ensures
        strip_end_seq(s, c) == strip_end_seq(s.take(i), c),
    decreases s.len() - i,
{
    if i < s.len() {
        assert(s.drop_last().take(i) =~= s.take(i));
        assert forall|j: int| i <= j < s.len() - 1 implies #[trigger] s.drop_last()[j] == c by {
            assert(s.drop_last()[j] == s[j]);
        }
        assert(s[s.len() - 1] == c);
        lemma_strip_end_take(s.drop_last(), c, i);
    } else {
        assert(s.take(i) =~= s);
    }
}

/// The characters of `chars` without leading and trailing copies of `c`.
pub fn strip_chars(chars: &Vec<char>, c: char) -> (r: Vec<char>)
    ensures
        r@ == strip_seq(chars@, c),
{
    let n = chars.len();
    let mut lo: usize = 0;
    while lo < n && chars[lo] == c
        invariant
            n == chars@.len(),
            lo <= n,
            forall|j: int| 0 <= j < lo ==> #[trigger] chars@[j] == c,
        decreases n - lo,
    {
        lo = lo + 1;
    }
    proof {
        lemma_strip_start_skip(chars@, c, lo as int);
        let t = chars@.skip(lo as int);
        if t.len() > 0 {
            assert(t[0] == chars@[lo as int]);
        }
    }
    let ghost rest = chars@.skip(lo as int);
    let mut hi: usize = n;
    while hi > lo && chars[hi - 1] == c
        invariant
            n == chars@.len(),
            lo <= hi <= n,
            rest == chars@.skip(lo as int),
            forall|j: int| hi <= j < n ==> #[trigger] chars@[j] == c,
        decreases hi - lo,
    {
        hi = hi - 1;
    }
    proof {
        assert forall|j: int| hi - lo <= j < rest.len() implies #[trigger] rest[j] == c by {
            assert(rest[j] == chars@[j + lo]);
        }
        lemma_strip_end_take(rest, c, hi - lo);
        let u = rest.take(hi - lo);
        if u.len() > 0 {
            assert(u.last() == chars@[hi - 1]);
        }
    }
    let mut r: Vec<char> = Vec::new();
    let mut k: usize = lo;
    while k < hi
        invariant
            n == chars@.len(),
            lo <= k <= hi <= n,
            r@ == chars@.subrange(lo as int, k as int),
        decreases hi - k,
    {
        r.push(chars[k]);
        k = k + 1;
    }
    proof {
        assert(r@ =~= rest.take(hi - lo));
    }
    r
}

/// Whether `c` is one of `0`..=`9`.
pub open spec fn is_digit(c: char) -> bool {
    '0' <= c <= '9'
}

/// The numeric value of a decimal digit.
pub open spec fn digit_value(c: char) -> int {
    (c as u32) - ('0' as u32)
}

/// The value of a string of decimal digits, most significant first.
pub open spec fn digits_value(s: Seq<char>) -> int
    decreases s.len(),
{
    if s.len() == 0 {
        0
    } else {
        digits_value(s.drop_last()) * 10 + digit_value(s.last())
    }
}

/// Every character of `s` is a decimal digit.
pub open spec fn all_digits(s: Seq<char>) -> bool {
    forall|i: int| 0 <= i < s.len() ==> is_digit(#[trigger] s[i])
}

/// What `str::parse::<i64>` accepts: an optional `+` or `-`, then one or
/// more decimal digits, with a value inside the `i64` range.
pub open spec fn spec_parse_i64(s: Seq<char>) -> Option<i64> {
    if s.len() > 0 && (s[0] == '-' || s[0] == '+') {
        let body = s.drop_first();
        let v = digits_value(body);
        if body.len() > 0 && all_digits(body) {
            if s[0] == '-' {
                if -v >= i64::MIN {
                    Some((-v) as i64)
                } else {
                    None
                }
            } else if v <= i64::MAX {
                Some(v as i64)
            } else {
                None
            }
        } else {
            None
        }
    } else if s.len() > 0 && all_digits(s) && digits_value(s) <= i64::MAX {
        Some(digits_value(s) as i64)
    } else {
        None
    }
}

proof fn lemma_digits_value_nonneg(s: Seq<char>)
    requires
        all_digits(s),
    ensures
        digits_value(s) >= 0,
    decreases s.len(),
{
    if s.len() > 0 {
        assert(all_digits(s.drop_last())) by {
            assert forall|i: int| 0 <= i < s.drop_last().len() implies is_digit(
                #[trigger] s.drop_last()[i],
            ) by {
                assert(s.drop_last()[i] == s[i]);
            }
        }
        lemma_digits_value_nonneg(s.drop_last());
        assert(is_digit(s[s.len() - 1]));
    }
}

proof fn lemma_digits_value_monotone(s: Seq<char>, i: int)
    requires
        all_digits(s),
        0 <= i <= s.len(),
    ensures
        digits_value(s.take(i)) <= digits_value(s),
    decreases s.len() - i,
{
    if i < s.len() {
        assert(s.drop_last().take(i) =~= s.take(i));
        assert(all_digits(s.drop_last())) by {
            assert forall|k: int| 0 <= k < s.drop_last().len() implies is_digit(
                #[trigger] s.drop_last()[k],
            ) by {
                assert(s.drop_last()[k] == s[k]);
            }
        }
        lemma_digits_value_monotone(s.drop_last(), i);
        lemma_digits_value_nonneg(s.drop_last());
        assert(is_digit(s[s.len() - 1]));
    } else {
        assert(s.take(i) =~= s);
    }
}

/// Parses the digit characters `s[start..]` as a non-negative decimal value,
/// giving up (with `None`) once the value exceeds `limit`.
fn parse_digits(s: &Vec<char>, start: usize, limit: u64) -> (r: Option<u64>)
    requires
        start <= s@.len(),
        limit >= 9,
    ensures
        ({
            let body = s@.skip(start as int);
            match r {
                Some(v) => body.len() > 0 && all_digits(body) && v == digits_value(body) && v
                    <= limit,
                None => body.len() == 0 || !all_digits(body) || digits_value(body) > limit,
            }
        }),
{
    let ghost body = s@.skip(start as int);
    if start == s.len() {
        return None;
    }
    let mut acc: u64 = 0;
    let mut i: usize = start;
    while i < s.len()
        invariant
            start <= i <= s@.len(),
            body == s@.skip(start as int),
            all_digits(body.take(i - start)),
            acc == digits_value(body.take(i - start)),
            acc <= limit,
            limit >= 9,
        decreases s@.len() - i,
    {
        let c = s[i];
        proof {
            assert(body[i - start] == c);
        }
        if !('0' <= c && c <= '9') {
            proof {
                assert(!is_digit(body[i - start]));
            }
            return None;
        }
        let d = (c as u32 - '0' as u32) as u64;
        proof {
            let p = body.take(i - start + 1);
            assert(p.drop_last() =~= body.take(i - start));
            assert(p.last() == c);
            assert(all_digits(p)) by {
                assert forall|k: int| 0 <= k < p.len() implies is_digit(#[trigger] p[k]) by {
                    if k < p.len() - 1 {
                        assert(p[k] == body.take(i - start)[k]);
                    }
                }
            }
        }
        if acc > (limit - d) / 10 {
            proof {
                let p = body.take(i - start + 1);
                assert(digits_value(p) == acc * 10 + d);
                assert(acc * 10 + d > limit) by (nonlinear_arith)
                    requires
                        acc > (limit - d) / 10,
                        d <= 9,
                        d <= limit || true,
                ;
                if all_digits(body) {
                    lemma_digits_value_monotone(body, i - start + 1);
                }
            }
            return None;
        }
        proof {
            assert(acc * 10 + d <= limit) by (nonlinear_arith)
                requires
                    acc <= (limit - d) / 10,
                    d <= limit,
            ;
        }
        acc = acc * 10 + d;
        i = i + 1;
    }
    proof {
        assert(body.take(i - start) =~= body);
    }
    Some(acc)
}

/// Parses a decimal `i64` the way `str::parse::<i64>` does.
pub fn parse_i64(s: &Vec<char>) -> (r: Option<i64>)
    ensures
        r == spec_parse_i64(s@),
{
    if s.len() == 0 {
        return None;
    }
    if s[0] == '-' || s[0] == '+' {
        let negative = s[0] == '-';
        proof {
            assert(s@.skip(1) =~= s@.drop_first());
        }
        let limit: u64 = if negative {
            9223372036854775808u64
        } else {
            9223372036854775807u64
        };
        match parse_digits(s, 1, limit) {
            Some(v) => {
                if negative {
                    if v == 9223372036854775808u64 {
                        Some(i64::MIN)
                    } else {
                        Some(-(v as i64))
                    }
                } else {
                    Some(v as i64)
                }
            },
            None => None,
        }
    } else {
        proof {
            assert(s@.skip(0) =~= s@);
        }
        match parse_digits(s, 0, 9223372036854775807u64) {
            Some(v) => Some(v as i64),
            None => None,
        }
    }
}

/// The index of the first occurrence of `c` in `s`.
pub open spec fn first_index_of(s: Seq<char>, c: char) -> Option<int> {
    if exists|i: int| 0 <= i < s.len() && s[i] == c {
        Some(choose|i: int| 0 <= i < s.len() && s[i] == c && forall|j: int| 0 <= j < i ==> s[j] != c)
    } else {
        None
    }
}

/// Finds the first occurrence of `c` in `s`.
pub fn find_char(s: &Vec<char>, c: char) -> (r: Option<usize>)
    ensures
        r matches Some(i) ==> i < s@.len() && s@[i as int] == c && forall|j: int|
            0 <= j < i ==> s@[j] != c,
        r is None ==> forall|j: int| 0 <= j < s@.len() ==> s@[j] != c,
{
    let mut i: usize = 0;
    while i < s.len()
        invariant
            i <= s@.len(),
            forall|j: int| 0 <= j < i ==> s@[j] != c,
        decreases s@.len() - i,
    {
        if s[i] == c {
            return Some(i);
        }
        i = i + 1;
    }
    None
}

/// The characters `s[from..to]`.
pub fn slice_chars(s: &Vec<char>, from: usize, to: usize) -> (r: Vec<char>)
    requires
        from <= to <= s@.len(),
    ensures
        r@ == s@.subrange(from as int, to as int),
{
    let mut r: Vec<char> = Vec::new();
    let mut k: usize = from;
    while k < to
        invariant
            from <= k <= to <= s@.len(),
            r@ == s@.subrange(from as int, k as int),
        decreases to - k,
    {
        r.push(s[k]);
        k = k + 1;
    }
    r
}

/// Appends the characters of `s` to `buf`.
pub fn append_str(buf: &mut Vec<char>, s: &str)
    ensures
        final(buf)@ == old(buf)@ + s@,
{
    let n = s.unicode_len();
    let ghost start = buf@;
    let mut i: usize = 0;
    while i < n
        invariant
            n == s@.len(),
            i <= n,
            buf@ == start + s@.subrange(0, i as int),
        decreases n - i,
    {
        buf.push(s.get_char(i));
        i = i + 1;
    }
    proof {
        assert(s@.subrange(0, n as int) =~= s@);
    }
}

/// The decimal digits of `n`, most significant first, without leading zeros
/// (`0` for zero).
pub open spec fn decimal_digits(n: nat) -> Seq<char>
    decreases n,
{
    if n < 10 {
        seq![digit_char(n)]
    } else {
        decimal_digits(n / 10).push(digit_char(n % 10))
    }
}

/// The digit character of `d < 10`.
pub open spec fn digit_char(d: nat) -> char {
    (d + 48) as char
}

/// How `i64`'s `Display` writes a value: a `-` before negative numbers, then
/// its decimal digits.
pub open spec fn decimal(v: int) -> Seq<char> {
    if v < 0 {
        seq!['-'] + decimal_digits((-v) as nat)
    } else {
        decimal_digits(v as nat)
    }
}

fn digit_of(d: u64) -> (r: char)
    requires
        d < 10,
    ensures
        r == digit_char(d as nat),
{
    let c: u8 = 48u8 + (d as u8);
    c as char
}

/// Appends the decimal digits of `n`.
fn append_digits(buf: &mut Vec<char>, n: u64)
    ensures
        final(buf)@ == old(buf)@ + decimal_digits(n as nat),
    decreases n,
{
    if n < 10 {
        buf.push(digit_of(n));
        proof {
            assert(decimal_digits(n as nat) =~= seq![digit_char(n as nat)]);
        }
    } else {
        let ghost before = buf@;
        append_digits(buf, n / 10);
        buf.push(digit_of(n % 10));
        proof {
            assert(buf@ =~= before + decimal_digits(n as nat));
        }
    }
}

/// Appends `v` written in decimal, as `Display` writes it.
pub fn append_decimal(buf: &mut Vec<char>, v: i64)
    ensures
        final(buf)@ == old(buf)@ + decimal(v as int),
{
    let ghost before = buf@;
    if v < 0 {
        buf.push('-');
        let m: u64 = if v == i64::MIN {
            9223372036854775808u64
        } else {
            (-v) as u64
        };
        append_digits(buf, m);
        proof {
            assert(buf@ =~= before + decimal(v as int));
        }
    } else {
        append_digits(buf, v as u64);
    }
}

/// The decimal digits of `n` are digits, at least one, worth `n`.
pub proof fn lemma_decimal_digits(n: nat)
    ensures
        decimal_digits(n).len() > 0,
        all_digits(decimal_digits(n)),
        digits_value(decimal_digits(n)) == n,
    decreases n,
{
    if n >= 10 {
        lemma_decimal_digits(n / 10);
        let s = decimal_digits(n / 10);
        let t = s.push(digit_char(n % 10));
        assert(t.drop_last() =~= s);
        assert forall|i: int| 0 <= i < t.len() implies is_digit(#[trigger] t[i]) by {
            if i < s.len() {
                assert(t[i] == s[i]);
            }
        }
        assert(digit_value(digit_char(n % 10)) == n % 10);
        assert(t.last() == digit_char(n % 10));
        assert(digits_value(t) == digits_value(s) * 10 + digit_value(t.last()));
        assert((n / 10) * 10 + n % 10 == n) by (nonlinear_arith);
        assert(decimal_digits(n) == t);
        assert(digits_value(decimal_digits(n)) == n);
    } else {
        assert(digit_value(digit_char(n)) == n);
        assert(decimal_digits(n).drop_last() =~= Seq::<char>::empty());
        assert(digits_value(decimal_digits(n)) == digits_value(Seq::<char>::empty()) * 10 + digit_value(digit_char(n)));
        assert(digits_value(decimal_digits(n)) == n);
    }
}

/// Every character of a decimal number is a digit or a leading `-`; it is
/// never white space or `/`.
pub proof fn lemma_decimal_chars(v: int)
    ensures
        decimal(v).len() > 0,
        forall|i: int|
            0 <= i < decimal(v).len() ==> (is_digit(#[trigger] decimal(v)[i]) || (i == 0 && decimal(v)[i] == '-')),
        is_digit(decimal(v).last()),
{
    if v < 0 {
        lemma_decimal_digits((-v) as nat);
        let d = decimal_digits((-v) as nat);
        assert forall|i: int| 0 <= i < decimal(v).len() implies (is_digit(#[trigger] decimal(v)[i]) || (i == 0
            && decimal(v)[i] == '-')) by {
            if i > 0 {
                assert(decimal(v)[i] == d[i - 1]);
            }
        }
        assert(decimal(v).last() == d.last());
    } else {
        lemma_decimal_digits(v as nat);
    }
}

/// Parsing what `i64`'s `Display` writes gives the value back.
pub proof fn lemma_parse_decimal(v: int)
    requires
        i64::MIN <= v <= i64::MAX,
    ensures
        spec_parse_i64(decimal(v)) == Some(v as i64),
{
    if v < 0 {
        lemma_decimal_digits((-v) as nat);
        let d = decimal_digits((-v) as nat);
        assert(decimal(v).drop_first() =~= d);
        assert(d[0] != '-' && d[0] != '+') by {
            assert(is_digit(d[0]));
        }
    } else {
        lemma_decimal_digits(v as nat);
        let d = decimal_digits(v as nat);
        assert(is_digit(d[0]));
    }
}

/// Trimming leaves a string alone whose ends are not white space.
pub proof fn lemma_trim_unchanged(s: Seq<char>)
    requires
        s.len() > 0,
        !is_white_space(s[0]),
        !is_white_space(s.last()),
    ensures
        trim_seq(s) == s,
{
}

/// A string key ordered by its characters, as `String` orders.
#[derive(Debug, PartialEq, Eq, PartialOrd, Ord, Hash)]
pub struct Name(pub String);

impl View for Name {
    type V = Seq<char>;

    open spec fn view(&self) -> Seq<char> {
        self.0@
    }
}

impl Clone for Name {
    fn clone(&self) -> (r: Self)
        ensures
            r == *self,
    {
        Name(self.0.clone())
    }
}

impl Name {
    pub fn new(value: &str) -> (r: Self)
        ensures
            r@ == value@,
    {
        Name(owned(value))
    }
}

impl OrderedKey for Name {
    open spec fn key_lt(a: Seq<char>, b: Seq<char>) -> bool {
        seq_lt(a, b)
    }

    proof fn lemma_key_lt_irreflexive(a: Seq<char>) {
        lemma_seq_lt_irreflexive(a);
    }

    proof fn lemma_key_lt_transitive(a: Seq<char>, b: Seq<char>, c: Seq<char>) {
        lemma_seq_lt_transitive(a, b, c);
    }

    proof fn lemma_key_lt_total(a: Seq<char>, b: Seq<char>) {
        lemma_seq_lt_total(a, b);
    }

    fn compare_key(&self, other: &Self) -> (r: i8) {
        compare_str(self.0.as_str(), other.0.as_str())
    }

    fn clone_key(&self) -> (r: Self) {
        self.clone()
    }
}

/// The strings are in character order (equal strings may repeat).
pub open spec fn sorted_by_chars(s: Seq<String>) -> bool {
    forall|i: int, j: int| 0 <= i < j < s.len() ==> !seq_lt(#[trigger] s[j]@, #[trigger] s[i]@)
}

/// The strings of `v` sorted by their characters, as `sort` on strings does.
pub fn sort_strings(v: &Vec<String>) -> (r: Vec<String>)
    ensures
        sorted_by_chars(r@),
        r@.to_multiset() == v@.to_multiset(),
{
    broadcast use vstd::seq_lib::group_to_multiset_ensures;

    let mut out: Vec<String> = Vec::new();
    let mut i: usize = 0;
    while i < v.len()
        invariant
            i <= v@.len(),
            sorted_by_chars(out@),
            out@.to_multiset() == v@.take(i as int).to_multiset(),
        decreases v@.len() - i,
    {
        let x = v[i].clone();
        let mut p: usize = 0;
        let mut stop = false;
        while p < out.len() && !stop
            invariant
                p <= out@.len(),
                sorted_by_chars(out@),
                forall|k: int| 0 <= k < p ==> !seq_lt(x@, #[trigger] out@[k]@),
                stop ==> p < out@.len() && seq_lt(x@, out@[p as int]@),
            decreases out@.len() - p, if stop { 0int } else { 1int },
        {
            if compare_str(x.as_str(), out[p].as_str()) < 0 {
                stop = true;
            } else {
                p = p + 1;
            }
        }
        let ghost before = out@;
        proof {
            assert forall|k: int| p <= k < before.len() implies seq_lt(x@, #[trigger] before[k]@) by {
                if k > p {
                    lemma_seq_lt_total(before[p as int]@, before[k]@);
                    if seq_lt(before[p as int]@, before[k]@) {
                        lemma_seq_lt_transitive(x@, before[p as int]@, before[k]@);
                    }
                }
            }
        }
        out.insert(p, x);
        proof {
            assert(out@ == before.insert(p as int, v@[i as int]));
            assert forall|a: int, b: int| 0 <= a < b < out@.len() implies !seq_lt(#[trigger] out@[b]@, #[trigger] out@[a]@) by {
                if a == p as int {
                    assert(out@[b] == before[b - 1]);
                    lemma_seq_lt_irreflexive(x@);
                    if seq_lt(before[b - 1]@, x@) {
                        lemma_seq_lt_transitive(x@, before[b - 1]@, x@);
                    }
                } else if b == p as int {
                    assert(out@[a] == before[a]);
                } else {
                    let aa = if a < p { a } else { a - 1 };
                    let bb = if b < p { b } else { b - 1 };
                    assert(out@[a] == before[aa]);
                    assert(out@[b] == before[bb]);
                }
            }
            vstd::seq_lib::to_multiset_insert(before, p as int, v@[i as int]);
            assert(v@.take(i + 1) =~= v@.take(i as int).push(v@[i as int]));
        }
        i = i + 1;
    }
    proof {
        assert(v@.take(v@.len() as int) =~= v@);
    }
    out
}

/// The names strictly increase in character order.
pub open spec fn strictly_sorted(names: Seq<Seq<char>>) -> bool {
    forall|i: int, j: int| 0 <= i < j < names.len() ==> seq_lt(#[trigger] names[i], #[trigger] names[j])
}

/// Two strictly increasing lists of names with the same elements are equal.
pub proof fn lemma_strictly_sorted_unique(a: Seq<Seq<char>>, b: Seq<Seq<char>>)
    requires
        strictly_sorted(a),
        strictly_sorted(b),
        a.to_set() == b.to_set(),
    ensures
        a == b,
    decreases a.len(),
{
    if a.len() == 0 {
        if b.len() > 0 {
            assert(b.to_set().contains(b[0]));
        }
        assert(a =~= b);
    } else {
        assert(a.to_set().contains(a[0]));
        assert(b.len() > 0);
        assert(b.to_set().contains(b[0]));
        let j = choose|j: int| 0 <= j < b.len() && b[j] == a[0];
        let i = choose|i: int| 0 <= i < a.len() && a[i] == b[0];
        if j > 0 {
            lemma_seq_lt_irreflexive(a[0]);
            if i > 0 {
                assert(seq_lt(a[0], a[i]));
                assert(seq_lt(b[0], b[j]));
                lemma_seq_lt_transitive(a[0], a[i], a[0]);
            } else {
                assert(seq_lt(b[0], b[j]));
            }
        }
        assert(a[0] == b[0]);
        let ta = a.drop_first();
        let tb = b.drop_first();
        assert(strictly_sorted(ta));
        assert(strictly_sorted(tb));
        assert(ta.to_set() =~= tb.to_set()) by {
            assert forall|x: Seq<char>| #[trigger] ta.to_set().contains(x) implies tb.to_set().contains(x) by {
                let k = choose|k: int| 0 <= k < ta.len() && ta[k] == x;
                assert(a[k + 1] == x);
                assert(seq_lt(a[0], a[k + 1]));
                lemma_seq_lt_irreflexive(x);
                assert(b.to_set().contains(x));
                let m = choose|m: int| 0 <= m < b.len() && b[m] == x;
                assert(m != 0);
                assert(tb[m - 1] == x);
            }
            assert forall|x: Seq<char>| #[trigger] tb.to_set().contains(x) implies ta.to_set().contains(x) by {
                let k = choose|k: int| 0 <= k < tb.len() && tb[k] == x;
                assert(b[k + 1] == x);
                assert(seq_lt(b[0], b[k + 1]));
                lemma_seq_lt_irreflexive(x);
                assert(a.to_set().contains(x));
                let m = choose|m: int| 0 <= m < a.len() && a[m] == x;
                assert(m != 0);
                assert(ta[m - 1] == x);
            }
        }
        lemma_strictly_sorted_unique(ta, tb);
        assert(a =~= b) by {
            assert forall|k: int| 0 <= k < a.len() implies a[k] == b[k] by {
                if k > 0 {
                    assert(a[k] == ta[k - 1]);
                    assert(b[k] == tb[k - 1]);
                }
            }
        }
    }
}

/// `x` placed into the list `s` before its first element that sorts after
/// `x`, so that equal texts keep their order.
pub open spec fn insert_text(s: Seq<Seq<char>>, x: Seq<char>) -> Seq<Seq<char>>
    decreases s.len(),
{
    if s.len() == 0 {
        seq![x]
    } else if seq_lt(x, s[0]) {
        seq![x] + s
    } else {
        seq![s[0]] + insert_text(s.drop_first(), x)
    }
}

/// The texts of `s` in character order, equal texts in their order in `s`
/// (insertion sort).
pub open spec fn sort_texts(s: Seq<Seq<char>>) -> Seq<Seq<char>>
    decreases s.len(),
{
    if s.len() == 0 {
        s
    } else {
        insert_text(sort_texts(s.drop_last()), s.last())
    }
}

/// The texts of `s` joined by `", "`.
pub open spec fn join_texts(s: Seq<Seq<char>>) -> Seq<char>
    decreases s.len(),
{
    if s.len() == 0 {
        seq![]
    } else if s.len() == 1 {
        s[0]
    } else {
        join_texts(s.drop_last()) + ", "@ + s.last()
    }
}

/// The views of a list of strings.
pub open spec fn texts(v: Seq<String>) -> Seq<Seq<char>> {
    v.map_values(|s: String| s@)
}

proof fn lemma_insert_text_at(s: Seq<Seq<char>>, x: Seq<char>, p: int)
    requires
        0 <= p <= s.len(),
        forall|j: int| 0 <= j < p ==> !seq_lt(x, #[trigger] s[j]),
        p == s.len() || seq_lt(x, s[p]),
    ensures
        insert_text(s, x) == s.take(p) + seq![x] + s.skip(p),
    decreases p,
{
    if p == 0 {
        if s.len() == 0 {
            assert(s.take(0) + seq![x] + s.skip(0) =~= seq![x]);
        } else {
            assert(s.take(0) + seq![x] + s.skip(0) =~= seq![x] + s);
        }
    } else {
        let t = s.drop_first();
        assert forall|j: int| 0 <= j < p - 1 implies !seq_lt(x, #[trigger] t[j]) by {
            assert(t[j] == s[j + 1]);
        }
        if p < s.len() {
            assert(t[p - 1] == s[p]);
        }
        lemma_insert_text_at(t, x, p - 1);
        assert(!seq_lt(x, s[0]));
        assert(seq![s[0]] + (t.take(p - 1) + seq![x] + t.skip(p - 1)) =~= s.take(p) + seq![x] + s.skip(p));
    }
}

/// The strings of `v` in character order, equal strings in their order in
/// `v`.
pub fn sort_texts_of(v: &Vec<String>) -> (r: Vec<String>)
    ensures
        texts(r@) == sort_texts(texts(v@)),
{
    let mut out: Vec<String> = Vec::new();
    let mut i: usize = 0;
    while i < v.len()
        invariant
            i <= v@.len(),
            texts(out@) == sort_texts(texts(v@.take(i as int))),
        decreases v@.len() - i,
    {
        let x = &v[i];
        let mut p: usize = 0;
        while p < out.len() && compare_str(x.as_str(), out[p].as_str()) >= 0
            invariant
                p <= out@.len(),
                forall|j: int| 0 <= j < p ==> !seq_lt(x@, #[trigger] texts(out@)[j]),
            decreases out@.len() - p,
        {
            p = p + 1;
        }
        let ghost before = texts(out@);
        proof {
            lemma_insert_text_at(before, x@, p as int);
            assert(texts(v@.take(i + 1)).drop_last() =~= texts(v@.take(i as int)));
            assert(texts(v@.take(i + 1)).last() == x@);
        }
        out.insert(p, x.clone());
        proof {
            assert(texts(out@) =~= before.take(p as int) + seq![x@] + before.skip(p as int));
        }
        i = i + 1;
    }
    proof {
        assert(v@.take(v@.len() as int) =~= v@);
    }
    out
}

/// Appends the strings of `v` joined by `", "`.
pub fn append_joined(buf: &mut Vec<char>, v: &Vec<String>)
    ensures
        final(buf)@ == old(buf)@ + join_texts(texts(v@)),
{
    let ghost start = buf@;
    let mut t: usize = 0;
    while t < v.len()
        invariant
            t <= v@.len(),
            buf@ == start + join_texts(texts(v@.take(t as int))),
        decreases v@.len() - t,
    {
        let ghost m = texts(v@.take(t + 1));
        proof {
            assert(m.drop_last() =~= texts(v@.take(t as int)));
        }
        if t > 0 {
            append_str(buf, ", ");
        }
        append_str(buf, v[t].as_str());
        proof {
            if t == 0 {
                assert(texts(v@.take(0)) =~= Seq::<Seq<char>>::empty());
            }
            assert(buf@ =~= start + join_texts(m));
        }
        t = t + 1;
    }
    proof {
        assert(v@.take(v@.len() as int) =~= v@);
    }
}

} // verus!
