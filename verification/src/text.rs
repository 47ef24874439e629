//! Character-level text operations: substring search, the byte-wise
//! ordering that the task store uses for timestamps, and decimal numerals.

use vstd::prelude::*;
use vstd::string::StrSliceExecFns;

verus! {

/// `needle` occurs in `hay` starting at character index `i`.
pub open spec fn occurs_at(hay: Seq<char>, needle: Seq<char>, i: int) -> bool {
    &&& 0 <= i
    &&& i + needle.len() <= hay.len()
    &&& hay.subrange(i, i + needle.len()) == needle
}

/// `needle` is a substring of `hay` (the empty text is a substring of every text).
pub open spec fn contains_text(hay: Seq<char>, needle: Seq<char>) -> bool {
    exists|i: int| occurs_at(hay, needle, i)
}

/// Lexicographic order on character sequences: `a` is at least `b`.
/// On UTF-8 text this is the same order as comparing the encoded bytes,
/// which is how the task store compares text values.
pub open spec fn text_at_least(a: Seq<char>, b: Seq<char>) -> bool
    decreases a.len(),
{
    if b.len() == 0 {
        true
    } else if a.len() == 0 {
        false
    } else if a[0] != b[0] {
        (a[0] as u32) > (b[0] as u32)
    } else {
        text_at_least(a.drop_first(), b.drop_first())
    }
}

/// Every text is at least itself.
pub proof fn lemma_text_at_least_reflexive(a: Seq<char>)
    ensures
        text_at_least(a, a),
    decreases a.len(),
{
    if a.len() > 0 {
        lemma_text_at_least_reflexive(a.drop_first());
    }
}

/// A common prefix does not change the order.
pub proof fn lemma_text_at_least_prefix(p: Seq<char>, x: Seq<char>, y: Seq<char>)
    ensures
        text_at_least(p + x, p + y) == text_at_least(x, y),
    decreases p.len(),
{
    if p.len() == 0 {
        assert(p + x =~= x);
        assert(p + y =~= y);
    } else {
        assert((p + x).drop_first() =~= p.drop_first() + x);
        assert((p + y).drop_first() =~= p.drop_first() + y);
        lemma_text_at_least_prefix(p.drop_first(), x, y);
    }
}

/// The text order is transitive.
pub proof fn lemma_text_at_least_transitive(a: Seq<char>, b: Seq<char>, c: Seq<char>)
    requires
        text_at_least(a, b),
        text_at_least(b, c),
    ensures
        text_at_least(a, c),
    decreases a.len(),
{
    if c.len() > 0 && b.len() > 0 && a.len() > 0 && a[0] == b[0] && b[0] == c[0] {
        lemma_text_at_least_transitive(a.drop_first(), b.drop_first(), c.drop_first());
    }
}

proof fn lemma_char_code(c: char)
    ensures
        (c as u32) as int == c as int,
{
}

/// The text order is total and antisymmetric: of two texts one is at least the
/// other, and texts that are each at least the other are equal.
pub proof fn law_text_order_total(a: Seq<char>, b: Seq<char>)
    ensures
        text_at_least(a, b) || text_at_least(b, a),
        text_at_least(a, b) && text_at_least(b, a) ==> a == b,
    decreases a.len(),
{
    if a.len() > 0 && b.len() > 0 && a[0] == b[0] {
        law_text_order_total(a.drop_first(), b.drop_first());
        if text_at_least(a, b) && text_at_least(b, a) {
            assert(a =~= b) by {
                assert forall|i: int| 0 <= i < a.len() implies a[i] == b[i] by {
                    if i > 0 {
                        assert(a[i] == a.drop_first()[i - 1]);
                        assert(b[i] == b.drop_first()[i - 1]);
                    }
                }
            }
        }
    } else if a.len() == 0 && b.len() == 0 {
        assert(a =~= b);
    } else if a.len() > 0 && b.len() > 0 {
        assert((a[0] as int) != (b[0] as int));
        lemma_char_code(a[0]);
        lemma_char_code(b[0]);
    }
}

/// A text that extends another is at least it: a timestamp with more digits
/// is not before the boundary it starts with.
pub proof fn law_text_extension_at_least(a: Seq<char>, x: Seq<char>)
    ensures
        text_at_least(a + x, a),
{
    lemma_text_at_least_prefix(a, x, Seq::<char>::empty());
    assert(a + Seq::<char>::empty() =~= a);
}

/// Texts that differ first at position `i` are ordered by their characters there.
pub proof fn law_text_first_difference(a: Seq<char>, b: Seq<char>, i: int)
    requires
        0 <= i < a.len(),
        i < b.len(),
        a.take(i) == b.take(i),
        a[i] != b[i],
    ensures
        text_at_least(a, b) == ((a[i] as u32) > (b[i] as u32)),
    decreases i,
{
    if i > 0 {
        assert(a[0] == a.take(i)[0]);
        assert(b[0] == b.take(i)[0]);
        assert(a.drop_first().take(i - 1) =~= a.take(i).drop_first());
        assert(b.drop_first().take(i - 1) =~= b.take(i).drop_first());
        law_text_first_difference(a.drop_first(), b.drop_first(), i - 1);
    }
}

/// A text contains every piece of itself, and the empty text; it contains no
/// text longer than itself.
pub proof fn law_contains(p: Seq<char>, needle: Seq<char>, q: Seq<char>, hay: Seq<char>)
    ensures
        contains_text(p + needle + q, needle),
        contains_text(hay, Seq::<char>::empty()),
        needle.len() > hay.len() ==> !contains_text(hay, needle),
{
    let whole = p + needle + q;
    assert(whole.subrange(p.len() as int, (p.len() + needle.len()) as int) =~= needle);
    assert(occurs_at(whole, needle, p.len() as int));
    assert(hay.subrange(0, 0) =~= Seq::<char>::empty());
    assert(occurs_at(hay, Seq::<char>::empty(), 0));
}

/// The characters of a string, in order.
pub fn chars_of(s: &str) -> (v: Vec<char>)
    ensures
        v@ == s@,
{
    let n = s.unicode_len();
    let mut v: Vec<char> = Vec::new();
    for i in 0..n
        invariant
            n == s@.len(),
            v@ == s@.take(i as int),
    {
        let c = s.get_char(i);
        v.push(c);
        assert(s@.take(i + 1) == s@.take(i as int).push(c));
    }
    assert(s@.take(n as int) == s@);
    v
}

/// Whether `needle` occurs in `hay` at position `i` (both given as characters).
fn occurs_at_exec(hay: &Vec<char>, needle: &Vec<char>, i: usize) -> (b: bool)
    requires
        i + needle.len() <= hay.len(),
    ensures
        b == occurs_at(hay@, needle@, i as int),
{
    let n = needle.len();
    let mut k: usize = 0;
    while k < n
        invariant
            n == needle@.len(),
            i + n <= hay@.len(),
            i + n <= hay.len(),
            k <= n,
            forall|j: int| 0 <= j < k ==> hay@[i + j] == needle@[j],
        decreases n - k,
    {
        if hay[i + k] != needle[k] {
            assert(hay@.subrange(i as int, i + n)[k as int] != needle@[k as int]);
            return false;
        }
        k = k + 1;
    }
    assert(hay@.subrange(i as int, i + n) =~= needle@);
    true
}

/// Substring search on character vectors.
pub fn contains_chars(hay: &Vec<char>, needle: &Vec<char>) -> (b: bool)
    ensures
        b == contains_text(hay@, needle@),
{
    if needle.len() > hay.len() {
        return false;
    }
    let last = hay.len() - needle.len();
    let mut i: usize = 0;
    loop
        invariant_except_break
            i <= last,
            forall|j: int| 0 <= j < i ==> !occurs_at(hay@, needle@, j),
        invariant
            last + needle@.len() == hay@.len(),
        ensures
            forall|j: int| 0 <= j <= last ==> !occurs_at(hay@, needle@, j),
        decreases last - i,
    {
        if occurs_at_exec(hay, needle, i) {
            return true;
        }
        if i == last {
            break;
        }
        i = i + 1;
    }
    assert forall|j: int| !occurs_at(hay@, needle@, j) by {
        if 0 <= j && j + needle@.len() <= hay@.len() {
            assert(j <= last);
        }
    }
    false
}

/// Whether the text `hay` contains the text `needle`.
pub fn text_contains(hay: &str, needle: &str) -> (b: bool)
    ensures
        b == contains_text(hay@, needle@),
{
    let h = chars_of(hay);
    let n = chars_of(needle);
    contains_chars(&h, &n)
}

proof fn lemma_skip_step<A>(s: Seq<A>, i: int)
    requires
        0 <= i < s.len(),
    ensures
        s.skip(i).drop_first() == s.skip(i + 1),
        s.skip(i)[0] == s[i],
{
    assert(s.skip(i).drop_first() =~= s.skip(i + 1));
}

/// Lexicographic comparison of two texts: `a >= b`.
pub fn text_at_least_exec(a: &str, b: &str) -> (r: bool)
    ensures
        r == text_at_least(a@, b@),
{
    let av = chars_of(a);
    let bv = chars_of(b);
    let mut i: usize = 0;
    proof {
        assert(a@.skip(0) =~= a@);
        assert(b@.skip(0) =~= b@);
    }
    loop
        invariant
            av@ == a@,
            bv@ == b@,
            i <= av@.len(),
            i <= bv@.len(),
            text_at_least(a@, b@) == text_at_least(a@.skip(i as int), b@.skip(i as int)),
        decreases av@.len() - i,
    {
        if i == bv.len() {
            return true;
        }
        if i == av.len() {
            return false;
        }
        let ca = av[i];
        let cb = bv[i];
        proof {
            lemma_skip_step(a@, i as int);
            lemma_skip_step(b@, i as int);
        }
        if ca != cb {
            return (ca as u32) > (cb as u32);
        }
        i = i + 1;
    }
}

/// The value of a numeral made only of ASCII digits.
pub open spec fn digits_value(s: Seq<char>) -> int
    decreases s.len(),
{
    if s.len() == 0 {
        0
    } else {
        digits_value(s.drop_last()) * 10 + (s.last() as int - '0' as int)
    }
}

pub open spec fn is_ascii_digit(c: char) -> bool {
    '0' <= c <= '9'
}

pub open spec fn all_ascii_digits(s: Seq<char>) -> bool {
    forall|i: int| 0 <= i < s.len() ==> is_ascii_digit(#[trigger] s[i])
}

/// What the standard library's `str::parse` gives for an integer type whose
/// range is `min..=max` (`signed` tells whether a leading `-` is a sign):
/// an optional sign, then one or more ASCII digits, with a value in range.
pub open spec fn std_int_parse(s: Seq<char>, signed: bool, min: int, max: int) -> Option<int> {
    if s.len() == 0 {
        None
    } else {
        let negative = signed && s[0] == '-';
        let body = if s[0] == '+' || negative {
            s.drop_first()
        } else {
            s
        };
        if body.len() == 0 || !all_ascii_digits(body) {
            None
        } else {
            let v = if negative {
                -digits_value(body)
            } else {
                digits_value(body)
            };
            if min <= v <= max {
                Some(v)
            } else {
                None
            }
        }
    }
}

/// `str::parse::<i64>` as a function on texts.
pub open spec fn std_parse_i64(s: Seq<char>) -> Option<i64> {
    match std_int_parse(s, true, i64::MIN as int, i64::MAX as int) {
        Some(v) => Some(v as i64),
        None => None,
    }
}

/// `str::parse::<u32>` as a function on texts.
pub open spec fn std_parse_u32(s: Seq<char>) -> Option<u32> {
    match std_int_parse(s, false, 0, u32::MAX as int) {
        Some(v) => Some(v as u32),
        None => None,
    }
}

proof fn lemma_digits_value_nonneg(s: Seq<char>)
    requires
        all_ascii_digits(s),
    ensures
        digits_value(s) >= 0,
    decreases s.len(),
{
    if s.len() > 0 {
        assert(all_ascii_digits(s.drop_last())) by {
            assert forall|i: int| 0 <= i < s.drop_last().len() implies is_ascii_digit(
                #[trigger] s.drop_last()[i],
            ) by {
                assert(s.drop_last()[i] == s[i]);
            }
        }
        lemma_digits_value_nonneg(s.drop_last());
        assert(is_ascii_digit(s[s.len() - 1]));
    }
}

/// A prefix of a numeral never has a larger value than the numeral.
proof fn lemma_digits_value_prefix(s: Seq<char>, k: int)
    requires
        all_ascii_digits(s),
        0 <= k <= s.len(),
    ensures
        digits_value(s.take(k)) <= digits_value(s),
    decreases s.len(),
{
    if k < s.len() {
        let t = s.drop_last();
        assert(all_ascii_digits(t)) by {
            assert forall|i: int| 0 <= i < t.len() implies is_ascii_digit(#[trigger] t[i]) by {
                assert(t[i] == s[i]);
            }
        }
        lemma_digits_value_prefix(t, k);
        assert(t.take(k) =~= s.take(k));
        lemma_digits_value_nonneg(t);
        assert(is_ascii_digit(s[s.len() - 1]));
    } else {
        assert(s.take(k) =~= s);
    }
}

/// The integer value of a text as the standard library's integer parser reads
/// it, for an integer type with range `min..=max`; `None` where it reports an
/// error (empty text, a lone sign, a character that is not an ASCII digit,
/// or a value out of range).
pub fn parse_int_text(s: &str, signed: bool, min: i128, max: i128) -> (r: Option<i128>)
    requires
        i64::MIN <= min <= 0,
        0 <= max <= u64::MAX,
    ensures
        r == (match std_int_parse(s@, signed, min as int, max as int) {
            Some(v) => Some(v as i128),
            None => None,
        }),
{
    let cs = chars_of(s);
    let n = cs.len();
    if n == 0 {
        return None;
    }
    let negative = signed && cs[0] == '-';
    let start: usize = if cs[0] == '+' || negative {
        1
    } else {
        0
    };
    let ghost body = if s@[0] == '+' || negative {
        s@.drop_first()
    } else {
        s@
    };
    assert(body =~= s@.skip(start as int));
    if start == n {
        return None;
    }
    // The magnitude that the value may not exceed.
    let limit: i128 = if negative {
        -min
    } else {
        max
    };
    let mut acc: i128 = 0;
    let mut i: usize = start;
    while i < n
        invariant
            cs@ == s@,
            n == s@.len(),
            start <= i <= n,
            body == s@.skip(start as int),
            n > 0,
            negative == (signed && s@[0] == '-'),
            body == (if s@[0] == '+' || negative {
                s@.drop_first()
            } else {
                s@
            }),
            limit == (if negative {
                -min as int
            } else {
                max as int
            }),
            i64::MIN <= min <= 0,
            0 <= max <= u64::MAX,
            0 <= limit <= u64::MAX,
            all_ascii_digits(s@.subrange(start as int, i as int)),
            acc == digits_value(s@.subrange(start as int, i as int)),
            0 <= acc <= limit,
        decreases n - i,
    {
        let c = cs[i];
        let ghost prefix = s@.subrange(start as int, i as int);
        let ghost next = s@.subrange(start as int, i + 1);
        assert(next.drop_last() =~= prefix);
        assert(next.last() == c);
        if !('0' <= c && c <= '9') {
            proof {
                assert(body[i - start] == c);
                assert(!is_ascii_digit(body[i - start]));
                assert(!all_ascii_digits(body));
                assert(body.len() != 0);
                assert(std_int_parse(s@, signed, min as int, max as int).is_none());
            }
            return None;
        }
        let d: i128 = (c as u32 - '0' as u32) as i128;
        acc = acc * 10 + d;
        assert(all_ascii_digits(next)) by {
            assert forall|j: int| 0 <= j < next.len() implies is_ascii_digit(#[trigger] next[j]) by {
                if j < prefix.len() {
                    assert(next[j] == prefix[j]);
                }
            }
        }
        if acc > limit {
            proof {
                if all_ascii_digits(body) {
                    assert(next =~= body.take(i + 1 - start));
                    lemma_digits_value_prefix(body, i + 1 - start);
                    assert(digits_value(body) > limit);
                }
                assert(std_int_parse(s@, signed, min as int, max as int).is_none());
            }
            return None;
        }
        i = i + 1;
    }
    assert(s@.subrange(start as int, n as int) =~= body);
    if negative {
        Some(-acc)
    } else {
        Some(acc)
    }
}

/// `str::parse::<i64>`, verified against its description.
pub fn parse_i64_text(s: &str) -> (r: Option<i64>)
    ensures
        r == std_parse_i64(s@),
{
    match parse_int_text(s, true, i64::MIN as i128, i64::MAX as i128) {
        Some(v) => Some(v as i64),
        None => None,
    }
}

/// `str::parse::<u32>`, verified against its description.
pub fn parse_u32_text(s: &str) -> (r: Option<u32>)
    ensures
        r == std_parse_u32(s@),
{
    match parse_int_text(s, false, 0, u32::MAX as i128) {
        Some(v) => Some(v as u32),
        None => None,
    }
}

pub open spec fn digit_char(v: int) -> char {
    (('0' as int) + v) as char
}

/// The decimal numeral of `n`, without leading zeros.
pub open spec fn decimal(n: nat) -> Seq<char>
    decreases n,
{
    if n < 10 {
        seq![digit_char(n as int)]
    } else {
        decimal(n / 10).push(digit_char((n % 10) as int))
    }
}

/// The character of a decimal digit.
fn digit_text(d: u64) -> (s: &'static str)
    requires
        d < 10,
    ensures
        s@ == seq![digit_char(d as int)],
{
    if d == 0 {
        proof { reveal_strlit("0"); }
        "0"
    } else if d == 1 {
        proof { reveal_strlit("1"); }
        "1"
    } else if d == 2 {
        proof { reveal_strlit("2"); }
        "2"
    } else if d == 3 {
        proof { reveal_strlit("3"); }
        "3"
    } else if d == 4 {
        proof { reveal_strlit("4"); }
        "4"
    } else if d == 5 {
        proof { reveal_strlit("5"); }
        "5"
    } else if d == 6 {
        proof { reveal_strlit("6"); }
        "6"
    } else if d == 7 {
        proof { reveal_strlit("7"); }
        "7"
    } else if d == 8 {
        proof { reveal_strlit("8"); }
        "8"
    } else {
        proof { reveal_strlit("9"); }
        "9"
    }
}

/// Appends the decimal numeral of `n` to `s`.
pub fn append_decimal(s: &mut String, n: u64)
    ensures
        final(s)@ == old(s)@ + decimal(n as nat),
    decreases n,
{
    if n >= 10 {
        append_decimal(s, n / 10);
    }
    s.append(digit_text(n % 10));
    proof {
        if n >= 10 {
            assert(decimal(n as nat) == decimal((n / 10) as nat).push(digit_char((n % 10) as int)));
        }
    }
    assert(s@ =~= old(s)@ + decimal(n as nat));
}

/// A numeral of ASCII digits, with no sign, reads as its value where that
/// value is in range, and as nothing otherwise; a leading `+` changes nothing,
/// and for a signed type a leading `-` negates.
pub proof fn law_parse_numerals(s: Seq<char>, signed: bool, min: int, max: int)
    requires
        s.len() > 0,
        all_ascii_digits(s),
    ensures
        std_int_parse(s, signed, min, max) == (if min <= digits_value(s) <= max {
            Some(digits_value(s))
        } else {
            None
        }),
        std_int_parse(seq!['+'] + s, signed, min, max) == std_int_parse(s, signed, min, max),
        signed ==> std_int_parse(seq!['-'] + s, signed, min, max) == (if min <= -digits_value(s)
            <= max {
            Some(-digits_value(s))
        } else {
            None
        }),
        !signed ==> std_int_parse(seq!['-'] + s, signed, min, max) is None,
{
    assert(is_ascii_digit(s[0]));
    assert((seq!['+'] + s).drop_first() =~= s);
    assert((seq!['-'] + s).drop_first() =~= s);
    if !signed {
        assert(!is_ascii_digit((seq!['-'] + s)[0]));
    }
}

/// A text with a character that is not an ASCII digit, other than a leading
/// sign, reads as nothing, and so does the empty text.
pub proof fn law_parse_rejects(s: Seq<char>, i: int, signed: bool, min: int, max: int)
    requires
        0 <= i < s.len(),
        !is_ascii_digit(s[i]),
        i > 0 || (s[0] != '+' && s[0] != '-'),
    ensures
        std_int_parse(s, signed, min, max) is None,
        std_int_parse(Seq::<char>::empty(), signed, min, max) is None,
{
    if s[0] == '+' || (signed && s[0] == '-') {
        assert(s.drop_first()[i - 1] == s[i]);
    }
}

/// The decimal numeral of a number is made of ASCII digits and reads back as
/// that number.
pub proof fn law_decimal_reads_back(n: nat)
    ensures
        all_ascii_digits(decimal(n)),
        digits_value(decimal(n)) == n,
        decimal(n).len() > 0,
    decreases n,
{
    if n < 10 {
        let s = decimal(n);
        assert(s.drop_last() =~= Seq::<char>::empty());
        assert(digits_value(s.drop_last()) == 0);
        assert((digit_char(n as int) as int) - ('0' as int) == n);
    } else {
        law_decimal_reads_back(n / 10);
        let s = decimal(n);
        let p = decimal(n / 10);
        assert(s.drop_last() =~= p);
        assert(n == (n / 10) * 10 + n % 10 && 0 <= n % 10 < 10) by (nonlinear_arith);
        assert(s.last() == digit_char((n % 10) as int));
        assert((digit_char((n % 10) as int) as int) - ('0' as int) == n % 10);
        assert forall|i: int| 0 <= i < s.len() implies is_ascii_digit(#[trigger] s[i]) by {
            if i < p.len() {
                assert(s[i] == p[i]);
            }
        }
    }
}

/// Numerals that the library writes read back under `str::parse::<i64>`.
pub proof fn law_decimal_parses_back(n: nat)
    requires
        n <= i64::MAX,
    ensures
        std_parse_i64(decimal(n)) == Some(n as i64),
{
    law_decimal_reads_back(n);
    law_parse_numerals(decimal(n), true, i64::MIN as int, i64::MAX as int);
}

} // verus!
