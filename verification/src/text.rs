use vstd::prelude::*;

verus! {

/// Unicode `White_Space` property, the set of characters that
/// `char::is_whitespace` (and so `str::trim`) treats as whitespace.
pub open spec fn is_white_space(c: char) -> bool {
    let u = c as u32;
    ||| (0x09 <= u && u <= 0x0d)
    ||| u == 0x20
    ||| u == 0x85
    ||| u == 0xa0
    ||| u == 0x1680
    ||| (0x2000 <= u && u <= 0x200a)
    ||| u == 0x2028
    ||| u == 0x2029
    ||| u == 0x202f
    ||| u == 0x205f
    ||| u == 0x3000
}

/// Whitespace test on a character.
pub fn char_is_white_space(c: char) -> (b: bool)
    ensures
        b == is_white_space(c),
{
    let u = c as u32;
    (0x09 <= u && u <= 0x0d) || u == 0x20 || u == 0x85 || u == 0xa0 || u == 0x1680 || (0x2000
        <= u && u <= 0x200a) || u == 0x2028 || u == 0x2029 || u == 0x202f || u == 0x205f || u
        == 0x3000
}

/// `s` with leading whitespace removed.
pub open spec fn trim_start(s: Seq<char>) -> Seq<char>
    decreases s.len(),
{
    if s.len() > 0 && is_white_space(s[0]) {
        trim_start(s.drop_first())
    } else {
        s
    }
}

/// `s` with trailing whitespace removed.
pub open spec fn trim_end(s: Seq<char>) -> Seq<char>
    decreases s.len(),
{
    if s.len() > 0 && is_white_space(s.last()) {
        trim_end(s.drop_last())
    } else {
        s
    }
}

/// `s` with whitespace removed from both ends, as `str::trim` does.
pub open spec fn trim(s: Seq<char>) -> Seq<char> {
    trim_end(trim_start(s))
}

pub(crate) proof fn lemma_trim_start_fixed(s: Seq<char>)
    requires
        s.len() > 0,
        !is_white_space(s[0]),
    ensures
        trim_start(s) == s,
{
}

pub(crate) proof fn lemma_trim_end_fixed(s: Seq<char>)
    requires
        s.len() > 0,
        !is_white_space(s.last()),
    ensures
        trim_end(s) == s,
{
}

pub(crate) proof fn lemma_trim_start_nonempty(s: Seq<char>)
    ensures
        trim_start(s).len() > 0 ==> !is_white_space(trim_start(s)[0]),
        trim_start(s).len() <= s.len(),
        trim_start(s) == s.skip(s.len() - trim_start(s).len()),
    decreases s.len(),
{
    if s.len() > 0 && is_white_space(s[0]) {
        lemma_trim_start_nonempty(s.drop_first());
        assert(s.drop_first().skip(s.drop_first().len() - trim_start(s.drop_first()).len()) =~= s.skip(s.len() - trim_start(s).len()));
    } else {
        assert(s.skip(0) =~= s);
    }
}

pub(crate) proof fn lemma_trim_end_shape(s: Seq<char>)
    ensures
        trim_end(s).len() > 0 ==> !is_white_space(trim_end(s).last()),
        trim_end(s).len() <= s.len(),
        trim_end(s) == s.take(trim_end(s).len() as int),
    decreases s.len(),
{
    if s.len() > 0 && is_white_space(s.last()) {
        lemma_trim_end_shape(s.drop_last());
        assert(s.drop_last().take(trim_end(s.drop_last()).len() as int) =~= s.take(trim_end(s).len() as int));
    } else {
        assert(s.take(s.len() as int) =~= s);
    }
}

/// A trimmed text has no whitespace at either end.
pub(crate) proof fn lemma_trim_ends(s: Seq<char>)
    ensures
        trim(s).len() > 0 ==> !is_white_space(trim(s)[0]) && !is_white_space(trim(s).last()),
{
    let a = trim_start(s);
    lemma_trim_start_nonempty(s);
    lemma_trim_end_shape(a);
    if trim(s).len() > 0 {
        assert(trim(s)[0] == a[0]);
    }
}

pub(crate) proof fn lemma_trim_idempotent_when_clean(s: Seq<char>)
    requires
        s.len() > 0,
        !is_white_space(s[0]),
        !is_white_space(s.last()),
    ensures
        trim(s) == s,
{
    lemma_trim_start_fixed(s);
    lemma_trim_end_fixed(s);
}

/// Trimming a trimmed text changes nothing.
pub(crate) proof fn lemma_trim_idempotent(s: Seq<char>)
    ensures
        trim(trim(s)) == trim(s),
{
    lemma_trim_ends(s);
    if trim(s).len() > 0 {
        lemma_trim_idempotent_when_clean(trim(s));
    }
}

proof fn lemma_trim_start_step(s: Seq<char>, i: int)
    requires
        0 <= i < s.len(),
        is_white_space(s[i]),
    ensures
        trim_start(s.subrange(i, s.len() as int)) == trim_start(s.subrange(i + 1, s.len() as int)),
{
    assert(s.subrange(i, s.len() as int).drop_first() =~= s.subrange(i + 1, s.len() as int));
}

proof fn lemma_trim_end_step(s: Seq<char>, j: int)
    requires
        0 < j <= s.len(),
        is_white_space(s[j - 1]),
    ensures
        trim_end(s.subrange(0, j)) == trim_end(s.subrange(0, j - 1)),
{
    assert(s.subrange(0, j).drop_last() =~= s.subrange(0, j - 1));
}

/// The trimmed form of `s` is the piece between its first and past its last
/// non-whitespace character; `(start, end)` are those two positions.
pub fn trim_bounds(s: &Vec<char>) -> (r: (usize, usize))
    ensures
        r.0 <= r.1 <= s.len(),
        trim(s@) == s@.subrange(r.0 as int, r.1 as int),
        r.0 == r.1 <==> (forall|k: int| 0 <= k < s.len() ==> is_white_space(#[trigger] s@[k])),
{
    let n = s.len();
    let mut i: usize = 0;
    assert(s@.subrange(0, n as int) =~= s@);
    while i < n && char_is_white_space(s[i])
        invariant
            i <= n,
            n == s.len(),
            trim_start(s@) == trim_start(s@.subrange(i as int, n as int)),
            forall|k: int| 0 <= k < i ==> is_white_space(#[trigger] s@[k]),
        decreases n - i,
    {
        proof {
            lemma_trim_start_step(s@, i as int);
        }
        i = i + 1;
    }
    let ghost front = s@.subrange(i as int, n as int);
    assert(trim_start(front) == front);
    let mut j: usize = n;
    while j > i && char_is_white_space(s[j - 1])
        invariant
            i <= j <= n,
            n == s.len(),
            front == s@.subrange(i as int, n as int),
            trim_end(front) == trim_end(s@.subrange(i as int, j as int)),
            forall|k: int| j <= k < n ==> is_white_space(#[trigger] s@[k]),
        decreases j - i,
    {
        proof {
            let t = s@.subrange(i as int, j as int);
            lemma_trim_end_step(t, (j - i) as int);
            assert(t.subrange(0, (j - i) as int) =~= t);
            assert(t.subrange(0, (j - i - 1) as int) =~= s@.subrange(i as int, j - 1));
        }
        j = j - 1;
    }
    proof {
        let t = s@.subrange(i as int, j as int);
        if j > i {
            assert(t.last() == s@[j - 1]);
        }
        assert(trim_end(t) == t);
        if i == j {
            assert forall|k: int| 0 <= k < s.len() implies is_white_space(#[trigger] s@[k]) by {
                if k < i {
                } else {
                }
            }
        } else {
            assert(!is_white_space(s@[i as int]));
        }
    }
    (i, j)
}

/// The characters of a string slice.
pub(crate) fn chars_of(s: &str) -> (v: Vec<char>)
    ensures
        v@ == s@,
{
    broadcast use vstd::string::axiom_spec_iter;

    let mut v: Vec<char> = Vec::new();
    for c in it: s.chars()
        invariant
            it.seq() == s@,
            v@ == it.seq().take(it.index() as int),
    {
        v.push(c);
    }
    v
}

/// A string made of the given characters.
#[verifier::external_body]
pub(crate) fn string_from_chars(v: &[char]) -> (s: String)
    ensures
        s@ == v@,
{
    v.iter().collect()
}

/// Copies `s[from..to]` into a new vector.
pub fn slice_chars(s: &Vec<char>, from: usize, to: usize) -> (r: Vec<char>)
    requires
        from <= to <= s.len(),
    ensures
        r@ == s@.subrange(from as int, to as int),
{
    let mut r: Vec<char> = Vec::new();
    let mut k = from;
    while k < to
        invariant
            from <= k <= to,
            to <= s.len(),
            r@ == s@.subrange(from as int, k as int),
        decreases to - k,
    {
        r.push(s[k]);
        assert(r@ =~= s@.subrange(from as int, k + 1));
        k = k + 1;
    }
    r
}

/// `str::trim` on a string slice, giving an owned string.
pub fn trim_str(s: &str) -> (r: String)
    ensures
        r@ == trim(s@),
{
    let v = chars_of(s);
    let (a, b) = trim_bounds(&v);
    let t = slice_chars(&v, a, b);
    string_from_chars(t.as_slice())
}

/// ASCII lower-casing of one character (`char::to_ascii_lowercase`).
pub open spec fn ascii_lower(c: char) -> char {
    if 'A' <= c && c <= 'Z' {
        ((c as u32) + 32) as char
    } else {
        c
    }
}

/// `char::to_ascii_lowercase`.
pub fn char_ascii_lower(c: char) -> (r: char)
    ensures
        r == ascii_lower(c),
{
    if 'A' <= c && c <= 'Z' {
        let b = c as u8;
        assert(b as u32 == c as u32);
        ((b + 32) as char)
    } else {
        c
    }
}

/// `p` is a prefix of `s` when both are compared ASCII-case-insensitively.
pub open spec fn starts_with_ci(s: Seq<char>, p: Seq<char>) -> bool {
    &&& p.len() <= s.len()
    &&& forall|i: int| 0 <= i < p.len() ==> ascii_lower(#[trigger] s[i]) == ascii_lower(p[i])
}

/// Prefix test ignoring ASCII case.
pub fn starts_with_ignore_ascii_case(s: &Vec<char>, p: &Vec<char>) -> (b: bool)
    ensures
        b == starts_with_ci(s@, p@),
{
    if p.len() > s.len() {
        return false;
    }
    let mut i: usize = 0;
    while i < p.len()
        invariant
            i <= p.len() <= s.len(),
            forall|k: int| 0 <= k < i ==> ascii_lower(#[trigger] s@[k]) == ascii_lower(p@[k]),
        decreases p.len() - i,
    {
        if char_ascii_lower(s[i]) != char_ascii_lower(p[i]) {
            return false;
        }
        i = i + 1;
    }
    true
}

/// `k` occurs in `s` at position `i`, ASCII-case-insensitively.
pub open spec fn occurs_ci_at(s: Seq<char>, k: Seq<char>, i: int) -> bool {
    &&& 0 <= i
    &&& i + k.len() <= s.len()
    &&& forall|j: int| 0 <= j < k.len() ==> ascii_lower(#[trigger] s[i + j]) == ascii_lower(k[j])
}

/// `k` occurs somewhere in `s`, ASCII-case-insensitively (the meaning of
/// SQL `LIKE '%k%'` with every wildcard of `k` escaped).
pub open spec fn contains_ci(s: Seq<char>, k: Seq<char>) -> bool {
    exists|i: int| occurs_ci_at(s, k, i)
}

/// Substring test ignoring ASCII case.
pub fn contains_ignore_ascii_case(s: &Vec<char>, k: &Vec<char>) -> (b: bool)
    ensures
        b == contains_ci(s@, k@),
{
    if k.len() > s.len() {
        assert forall|i: int| !occurs_ci_at(s@, k@, i) by {}
        return false;
    }
    let last = s.len() - k.len();
    let mut i: usize = 0;
    while i <= last
        invariant
            last == s.len() - k.len(),
            k.len() <= s.len(),
            i <= last + 1,
            forall|p: int| 0 <= p < i ==> !occurs_ci_at(s@, k@, p),
        decreases last + 1 - i,
    {
        let mut j: usize = 0;
        let mut ok = true;
        while j < k.len()
            invariant
                i <= last,
                last == s.len() - k.len(),
                j <= k.len(),
                ok ==> forall|q: int| 0 <= q < j ==> ascii_lower(#[trigger] s@[i + q]) == ascii_lower(k@[q]),
                !ok ==> !occurs_ci_at(s@, k@, i as int),
            decreases k.len() - j,
        {
            if ok && char_ascii_lower(s[i + j]) != char_ascii_lower(k[j]) {
                ok = false;
            }
            j = j + 1;
        }
        if ok {
            assert(occurs_ci_at(s@, k@, i as int));
            return true;
        }
        i = i + 1;
    }
    assert forall|p: int| !occurs_ci_at(s@, k@, p) by {
        if 0 <= p && p + k.len() <= s.len() {
            assert(p < i);
        }
    }
    false
}

/// The decimal digit character for `d < 10`.
pub open spec fn digit_char(d: int) -> char {
    (d + 48) as char
}

/// Decimal notation of a natural number, without leading zeros.
pub open spec fn decimal(n: nat) -> Seq<char>
    decreases n,
{
    if n < 10 {
        seq![digit_char(n as int)]
    } else {
        decimal(n / 10).push(digit_char((n % 10) as int))
    }
}

/// Decimal notation of `n` (what `n.to_string()` gives for an unsigned integer).
pub fn decimal_chars(n: u64) -> (r: Vec<char>)
    ensures
        r@ == decimal(n as nat),
    decreases n,
{
    let d = (n % 10) as u8;
    let c = (d + 48) as char;
    assert(c == digit_char((n % 10) as int));
    if n < 10 {
        let mut r: Vec<char> = Vec::new();
        r.push(c);
        assert(r@ =~= seq![c]);
        r
    } else {
        let mut r = decimal_chars(n / 10);
        r.push(c);
        r
    }
}

/// Decimal notation of a signed integer, with a leading `-` when negative.
pub open spec fn signed_decimal(v: int) -> Seq<char> {
    if v < 0 {
        seq!['-'] + decimal((-v) as nat)
    } else {
        decimal(v as nat)
    }
}

/// Decimal notation of `v` (what `v.to_string()` gives for an `i64`).
pub fn signed_decimal_chars(v: i64) -> (r: Vec<char>)
    ensures
        r@ == signed_decimal(v as int),
{
    if v < 0 {
        let m: u64 = if v == i64::MIN {
            0x8000_0000_0000_0000u64
        } else {
            (-v) as u64
        };
        let digits = decimal_chars(m);
        let mut r: Vec<char> = Vec::new();
        r.push('-');
        let mut k: usize = 0;
        while k < digits.len()
            invariant
                k <= digits.len(),
                r@ == seq!['-'] + digits@.subrange(0, k as int),
            decreases digits.len() - k,
        {
            r.push(digits[k]);
            assert(digits@.subrange(0, k + 1) =~= digits@.subrange(0, k as int).push(digits@[k as int]));
            assert(r@ =~= seq!['-'] + digits@.subrange(0, k + 1));
            k = k + 1;
        }
        assert(digits@.subrange(0, digits.len() as int) =~= digits@);
        r
    } else {
        decimal_chars(v as u64)
    }
}

/// An ASCII decimal digit.
pub open spec fn is_digit(c: char) -> bool {
    '0' <= c && c <= '9'
}

/// The value of a run of decimal digits.
pub open spec fn digits_value(s: Seq<char>) -> int
    decreases s.len(),
{
    if s.len() == 0 {
        0
    } else {
        digits_value(s.drop_last()) * 10 + (s.last() as int - 48)
    }
}

/// Every character of `s` is a decimal digit.
pub open spec fn all_digits(s: Seq<char>) -> bool {
    forall|i: int| 0 <= i < s.len() ==> is_digit(#[trigger] s[i])
}

/// The integer that `s` spells: an optional `+` or `-` followed by at least
/// one decimal digit and nothing else (the syntax of `str::parse` for the
/// signed integer types; range is checked separately).
pub open spec fn integer_syntax(s: Seq<char>) -> Option<int> {
    if s.len() > 0 && (s[0] == '+' || s[0] == '-') {
        let body = s.drop_first();
        if body.len() > 0 && all_digits(body) {
            if s[0] == '-' {
                Some(-digits_value(body))
            } else {
                Some(digits_value(body))
            }
        } else {
            None
        }
    } else if s.len() > 0 && all_digits(s) {
        Some(digits_value(s))
    } else {
        None
    }
}

/// `s.parse::<i64>()`: the value when `s` spells an integer within `i64`.
pub open spec fn parsed_i64(s: Seq<char>) -> Option<i64> {
    match integer_syntax(s) {
        Some(v) => if i64::MIN <= v <= i64::MAX {
            Some(v as i64)
        } else {
            None
        },
        None => None,
    }
}

/// `s.parse::<i32>()`: the value when `s` spells an integer within `i32`.
pub open spec fn parsed_i32(s: Seq<char>) -> Option<i32> {
    match integer_syntax(s) {
        Some(v) => if i32::MIN <= v <= i32::MAX {
            Some(v as i32)
        } else {
            None
        },
        None => None,
    }
}

proof fn lemma_digits_value_nonneg(s: Seq<char>)
    requires
        all_digits(s),
    ensures
        digits_value(s) >= 0,
    decreases s.len(),
{
    if s.len() > 0 {
        assert(all_digits(s.drop_last()));
        lemma_digits_value_nonneg(s.drop_last());
    }
}

proof fn lemma_digits_value_monotone(s: Seq<char>, i: int, j: int)
    requires
        all_digits(s),
        0 <= i <= j <= s.len(),
    ensures
        digits_value(s.take(i)) <= digits_value(s.take(j)),
    decreases j - i,
{
    if i < j {
        lemma_digits_value_monotone(s, i, j - 1);
        let t = s.take(j);
        assert(t.drop_last() =~= s.take(j - 1));
        assert(all_digits(s.take(j - 1)));
        lemma_digits_value_nonneg(s.take(j - 1));
        assert(is_digit(s[j - 1]));
    }
}

/// Parses `s[start..]` as a run of digits whose value is at most `limit`.
fn parse_digits_bounded(s: &Vec<char>, start: usize, limit: u64) -> (r: Option<u64>)
    requires
        start < s.len(),
        9 <= limit <= 0x8000_0000_0000_0000u64,
    ensures
        ({
            let body = s@.subrange(start as int, s.len() as int);
            match r {
                Some(v) => all_digits(body) && v == digits_value(body) && v <= limit,
                None => !all_digits(body) || digits_value(body) > limit,
            }
        }),
{
    let ghost body = s@.subrange(start as int, s.len() as int);
    let mut acc: u64 = 0;
    let mut k: usize = start;
    assert(body.take(0) =~= Seq::<char>::empty());
    while k < s.len()
        invariant
            start <= k <= s.len(),
            body == s@.subrange(start as int, s.len() as int),
            9 <= limit <= 0x8000_0000_0000_0000u64,
            all_digits(body.take(k - start)),
            acc == digits_value(body.take(k - start)),
            acc <= limit,
        decreases s.len() - k,
    {
        let c = s[k];
        proof {
            assert(body[k - start] == c);
        }
        if !('0' <= c && c <= '9') {
            proof {
                assert(!is_digit(body[k - start]));
            }
            return None;
        }
        let d = (c as u32 - 48) as u64;
        proof {
            let t = body.take(k - start + 1);
            assert(t.drop_last() =~= body.take(k - start));
            assert(t.last() == c);
            assert(all_digits(t));
        }
        if acc > (limit - d) / 10 {
            proof {
                let t = body.take(k - start + 1);
                assert(digits_value(t) == acc * 10 + d);
                assert(acc * 10 + d > limit) by (nonlinear_arith)
                    requires
                        acc > (limit - d) / 10,
                        d <= 9,
                {
                }
                if all_digits(body) {
                    lemma_digits_value_monotone(body, k - start + 1, body.len() as int);
                    assert(body.take(body.len() as int) =~= body);
                }
            }
            return None;
        }
        proof {
            assert(acc * 10 + d <= limit) by (nonlinear_arith)
                requires
                    acc <= (limit - d) / 10,
                    d <= 9,
            {
            }
        }
        acc = acc * 10 + d;
        k = k + 1;
    }
    proof {
        assert(body.take(body.len() as int) =~= body);
    }
    Some(acc)
}

/// `s.parse::<i64>()` on a character sequence.
pub fn parse_i64(s: &Vec<char>) -> (r: Option<i64>)
    ensures
        r == parsed_i64(s@),
{
    if s.len() == 0 {
        return None;
    }
    let c0 = s[0];
    if c0 == '+' || c0 == '-' {
        if s.len() == 1 {
            assert(s@.drop_first().len() == 0);
            return None;
        }
        assert(s@.drop_first() =~= s@.subrange(1, s.len() as int));
        let limit: u64 = if c0 == '-' {
            0x8000_0000_0000_0000u64
        } else {
            0x7fff_ffff_ffff_ffffu64
        };
        match parse_digits_bounded(s, 1, limit) {
            Some(v) => {
                if c0 == '-' {
                    if v == 0x8000_0000_0000_0000u64 {
                        Some(i64::MIN)
                    } else {
                        Some(-(v as i64))
                    }
                } else {
                    Some(v as i64)
                }
            },
            None => None,
        }
    } else {
        assert(s@.subrange(0, s.len() as int) =~= s@);
        match parse_digits_bounded(s, 0, 0x7fff_ffff_ffff_ffffu64) {
            Some(v) => Some(v as i64),
            None => {
                proof {
                    if all_digits(s@) {
                        assert(!(s@[0] == '+' || s@[0] == '-'));
                    }
                }
                None
            },
        }
    }
}

/// `s.parse::<i32>()` on a character sequence.
pub fn parse_i32(s: &Vec<char>) -> (r: Option<i32>)
    ensures
        r == parsed_i32(s@),
{
    match parse_i64(s) {
        Some(v) => {
            if v < -2147483648 || v > 2147483647 {
                None
            } else {
                Some(v as i32)
            }
        },
        None => {
            proof {
                if let Some(v) = integer_syntax(s@) {
                    assert(!(i64::MIN <= v <= i64::MAX));
                }
            }
            None
        },
    }
}

} // verus!
