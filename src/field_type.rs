use vstd::prelude::*;
use vstd::string::*;

use crate::text::chars_of;

verus! {

/// The storage type of a column.
///
/// `Float` and `Double` name the two widths of floating-point column; the
/// store keeps every value as text, so no floating-point value is held here.
/// `Incorrect` is the sentinel of a value whose type could not be told.
#[derive(Clone, Copy, Debug, PartialEq, Eq, Structural)]
pub enum FieldType {
    Int,
    Float,
    Double,
    Varchar(usize),
    Text,
    Blob,
    Incorrect,
}

// ---------------------------------------------------------------------------
// Decimal texts
// ---------------------------------------------------------------------------

pub open spec fn is_digit(c: char) -> bool {
    '0' <= c && c <= '9'
}

pub open spec fn all_digits(s: Seq<char>) -> bool {
    forall|i: int| 0 <= i < s.len() ==> is_digit(#[trigger] s[i])
}

pub open spec fn digit_value(c: char) -> nat {
    ((c as u32) - ('0' as u32)) as nat
}

/// The number that a run of decimal digits writes.
pub open spec fn digits_value(s: Seq<char>) -> nat
    decreases s.len(),
{
    if s.len() == 0 {
        0
    } else {
        digits_value(s.drop_last()) * 10 + digit_value(s.last())
    }
}

/// The value of an optional `+` followed by one or more digits.
pub open spec fn unsigned_value(s: Seq<char>) -> Option<nat> {
    let d = if s.len() > 0 && s[0] == '+' {
        s.drop_first()
    } else {
        s
    };
    if d.len() > 0 && all_digits(d) {
        Some(digits_value(d))
    } else {
        None
    }
}

/// The value of an optional `+` or `-` followed by one or more digits.
pub open spec fn signed_value(s: Seq<char>) -> Option<int> {
    if s.len() > 0 && s[0] == '-' {
        let d = s.drop_first();
        if d.len() > 0 && all_digits(d) {
            Some(-(digits_value(d) as int))
        } else {
            None
        }
    } else {
        match unsigned_value(s) {
            Some(v) => Some(v as int),
            None => None,
        }
    }
}

/// The texts that `str::parse::<i32>` accepts: a signed decimal in range.
pub open spec fn is_int_text(s: Seq<char>) -> bool {
    match signed_value(s) {
        Some(v) => i32::MIN <= v <= i32::MAX,
        None => false,
    }
}

/// What `str::parse::<usize>` gives: an unsigned decimal in range.
pub open spec fn usize_value(s: Seq<char>) -> Option<usize> {
    match unsigned_value(s) {
        Some(v) => if v <= usize::MAX {
            Some(v as usize)
        } else {
            None
        },
        None => None,
    }
}

// ---------------------------------------------------------------------------
// Floating-point texts
// ---------------------------------------------------------------------------

/// The length of the run of digits that starts `s`.
pub open spec fn leading_digits(s: Seq<char>) -> nat
    decreases s.len(),
{
    if s.len() > 0 && is_digit(s[0]) {
        1 + leading_digits(s.drop_first())
    } else {
        0
    }
}

/// `Exp ::= 'e' Sign? Digit+`, with `e` in either case.
pub open spec fn is_exponent(e: Seq<char>) -> bool {
    &&& e.len() > 0
    &&& (e[0] == 'e' || e[0] == 'E')
    &&& {
        let r = e.drop_first();
        let d = if r.len() > 0 && (r[0] == '+' || r[0] == '-') {
            r.drop_first()
        } else {
            r
        };
        d.len() > 0 && all_digits(d)
    }
}

/// `Number ::= ( Digit+ | Digit+ '.' Digit* | Digit* '.' Digit+ ) Exp?`,
/// read greedily: the integer digits, an optional point with its digits, at
/// least one digit in all, then nothing or an exponent.
pub open spec fn is_decimal_number(b: Seq<char>) -> bool {
    let i = leading_digits(b);
    let after = b.skip(i as int);
    let has_point = after.len() > 0 && after[0] == '.';
    let f = if has_point {
        leading_digits(after.drop_first())
    } else {
        0nat
    };
    let rest = if has_point {
        after.drop_first().skip(f as int)
    } else {
        after
    };
    i + f >= 1 && (rest.len() == 0 || is_exponent(rest))
}

/// `s` spells the word whose lower-case and upper-case letters are given.
pub open spec fn equal_ignoring_case(s: Seq<char>, lower: Seq<char>, upper: Seq<char>) -> bool {
    &&& s.len() == lower.len()
    &&& forall|i: int| 0 <= i < s.len() ==> s[i] == lower[i] || s[i] == upper[i]
}

pub open spec fn is_special_float(b: Seq<char>) -> bool {
    ||| equal_ignoring_case(b, seq!['i', 'n', 'f'], seq!['I', 'N', 'F'])
    ||| equal_ignoring_case(
        b,
        seq!['i', 'n', 'f', 'i', 'n', 'i', 't', 'y'],
        seq!['I', 'N', 'F', 'I', 'N', 'I', 'T', 'Y'],
    )
    ||| equal_ignoring_case(b, seq!['n', 'a', 'n'], seq!['N', 'A', 'N'])
}

/// The texts that `str::parse::<f32>` accepts, which are also those that
/// `str::parse::<f64>` accepts (a value out of range becomes an infinity, not
/// an error): `Sign? ( 'inf' | 'infinity' | 'nan' | Number )`.
pub open spec fn is_float_text(s: Seq<char>) -> bool {
    let b = if s.len() > 0 && (s[0] == '+' || s[0] == '-') {
        s.drop_first()
    } else {
        s
    };
    is_special_float(b) || is_decimal_number(b)
}

/// The type read off a stored value. The order of the tests is integer,
/// single-width float, double-width float, then text. Both float widths accept
/// the same texts, so a value is never read as `Double`; and every text is a
/// `Text`, so a value is never `Incorrect`.
pub open spec fn inferred_type(v: Seq<char>) -> FieldType {
    if is_int_text(v) {
        FieldType::Int
    } else if is_float_text(v) {
        FieldType::Float
    } else {
        FieldType::Text
    }
}

// ---------------------------------------------------------------------------
// Type names
// ---------------------------------------------------------------------------

/// `s` with every leading copy of `p` removed.
pub open spec fn strip_prefix_repeated(s: Seq<char>, p: Seq<char>) -> Seq<char>
    decreases s.len(),
{
    if p.len() > 0 && s.len() >= p.len() && s.take(p.len() as int) == p {
        strip_prefix_repeated(s.skip(p.len() as int), p)
    } else {
        s
    }
}

/// `s` with every leading `c` removed.
pub open spec fn trim_start_char(s: Seq<char>, c: char) -> Seq<char>
    decreases s.len(),
{
    if s.len() > 0 && s[0] == c {
        trim_start_char(s.drop_first(), c)
    } else {
        s
    }
}

/// `s` with every trailing `c` removed.
pub open spec fn trim_end_char(s: Seq<char>, c: char) -> Seq<char>
    decreases s.len(),
{
    if s.len() > 0 && s.last() == c {
        trim_end_char(s.drop_last(), c)
    } else {
        s
    }
}

pub open spec fn varchar_word() -> Seq<char> {
    seq!['v', 'a', 'r', 'c', 'h', 'a', 'r']
}

/// The type that a lower-case type name denotes: `int`, `float`, `double`,
/// `text`, `blob`, or `varchar` followed by the maximum length, written
/// `varchar(N)`.
pub open spec fn type_of_name(t: Seq<char>) -> Option<FieldType> {
    if t == seq!['i', 'n', 't'] {
        Some(FieldType::Int)
    } else if t == seq!['f', 'l', 'o', 'a', 't'] {
        Some(FieldType::Float)
    } else if t == seq!['d', 'o', 'u', 'b', 'l', 'e'] {
        Some(FieldType::Double)
    } else if t.len() >= 7 && t.take(7) == varchar_word() {
        match usize_value(
            trim_end_char(trim_start_char(strip_prefix_repeated(t, varchar_word()), '('), ')'),
        ) {
            Some(n) => Some(FieldType::Varchar(n)),
            None => None,
        }
    } else if t == seq!['t', 'e', 'x', 't'] {
        Some(FieldType::Text)
    } else if t == seq!['b', 'l', 'o', 'b'] {
        Some(FieldType::Blob)
    } else {
        None
    }
}

/// What `str::to_lowercase` returns for a text.
pub uninterp spec fn lower_of(s: Seq<char>) -> Seq<char>;

/// Relies on `str::to_lowercase`: the lower-case mapping of the text, which
/// depends on its characters alone.
#[verifier::external_body]
fn lowercase(s: &str) -> (r: String)
    ensures
        r@ == lower_of(s@),
{
    s.to_lowercase()
}

// ---------------------------------------------------------------------------
// Lemmas on the specifications above
// ---------------------------------------------------------------------------

proof fn lemma_digits_value_prefix(s: Seq<char>, k: int)
    requires
        0 <= k <= s.len(),
    ensures
        digits_value(s.take(k)) <= digits_value(s),
    decreases s.len() - k,
{
    if k < s.len() {
        lemma_digits_value_prefix(s, k + 1);
        assert(s.take(k + 1).drop_last() =~= s.take(k));
    } else {
        assert(s.take(k) =~= s);
    }
}

proof fn lemma_leading_digits(s: Seq<char>, c: int)
    requires
        0 <= c <= s.len(),
        all_digits(s.take(c)),
        c == s.len() || !is_digit(s[c]),
    ensures
        leading_digits(s) == c,
    decreases c,
{
    if c > 0 {
        assert(is_digit(s.take(c)[0]));
        let t = s.drop_first();
        assert forall|i: int| 0 <= i < c - 1 implies is_digit(#[trigger] t.take(c - 1)[i]) by {
            assert(t.take(c - 1)[i] == s.take(c)[i + 1]);
        }
        lemma_leading_digits(t, c - 1);
    }
}

// ---------------------------------------------------------------------------
// Executable recognisers
// ---------------------------------------------------------------------------

fn char_is_digit(c: char) -> (r: bool)
    ensures
        r == is_digit(c),
{
    '0' <= c && c <= '9'
}

/// Whether `cs[a..b]` holds digits only.
fn digits_only(cs: &Vec<char>, a: usize, b: usize) -> (r: bool)
    requires
        a <= b <= cs@.len(),
    ensures
        r == all_digits(cs@.subrange(a as int, b as int)),
{
    let mut i = a;
    while i < b
        invariant
            a <= i <= b <= cs@.len(),
            all_digits(cs@.subrange(a as int, i as int)),
        decreases b - i,
    {
        if !char_is_digit(cs[i]) {
            assert(cs@.subrange(a as int, b as int)[i - a] == cs@[i as int]);
            return false;
        }
        i += 1;
        assert forall|j: int| 0 <= j < i - a implies is_digit(
            #[trigger] cs@.subrange(a as int, i as int)[j],
        ) by {
            if j < i - 1 - a {
                assert(cs@.subrange(a as int, i as int)[j] == cs@.subrange(
                    a as int,
                    i - 1,
                )[j]);
            }
        }
    }
    true
}

/// The value of the digits `cs[a..b]` when there is at least one, all are
/// digits, and the value is at most `limit`.
fn digits_up_to(cs: &Vec<char>, a: usize, b: usize, limit: u64) -> (r: Option<u64>)
    requires
        a <= b <= cs@.len(),
    ensures
        ({
            let d = cs@.subrange(a as int, b as int);
            r == if d.len() > 0 && all_digits(d) && digits_value(d) <= limit {
                Some(digits_value(d) as u64)
            } else {
                None
            }
        }),
{
    let ghost d = cs@.subrange(a as int, b as int);
    if a == b {
        return None;
    }
    if !digits_only(cs, a, b) {
        return None;
    }
    let mut value: u64 = 0;
    let mut i = a;
    while i < b
        invariant
            a <= i <= b <= cs@.len(),
            d == cs@.subrange(a as int, b as int),
            all_digits(d),
            value as nat == digits_value(d.take(i - a)),
            value <= limit,
        decreases b - i,
    {
        assert(is_digit(d[i - a]));
        let c = cs[i];
        assert(c == d[i - a]);
        let digit = (c as u32 - '0' as u32) as u64;
        assert(d.take(i - a + 1).drop_last() =~= d.take(i - a));
        assert(d.take(i - a + 1).last() == c);
        if digit > limit || value > (limit - digit) / 10 {
            assert(value * 10 + digit > limit) by (nonlinear_arith)
                requires
                    digit > limit || value > (limit - digit) / 10,
            ;
            proof {
                lemma_digits_value_prefix(d, i - a + 1);
            }
            return None;
        }
        assert(value * 10 + digit <= limit) by (nonlinear_arith)
            requires
                value <= (limit - digit) / 10,
                digit <= 9,
        ;
        value = value * 10 + digit;
        i += 1;
    }
    assert(d.take(b - a) =~= d);
    Some(value)
}

/// Whether the text is a signed decimal within the range of `i32`.
pub fn is_int_value(cs: &Vec<char>) -> (r: bool)
    ensures
        r == is_int_text(cs@),
{
    let n = cs.len();
    if n > 0 && cs[0] == '-' {
        assert(cs@.drop_first() =~= cs@.subrange(1, n as int));
        digits_up_to(cs, 1, n, 2147483648).is_some()
    } else if n > 0 && cs[0] == '+' {
        assert(cs@.drop_first() =~= cs@.subrange(1, n as int));
        digits_up_to(cs, 1, n, 2147483647).is_some()
    } else {
        assert(cs@ =~= cs@.subrange(0, n as int));
        digits_up_to(cs, 0, n, 2147483647).is_some()
    }
}

/// The end of the run of digits that starts at `from`.
fn skip_digits(cs: &Vec<char>, from: usize) -> (k: usize)
    requires
        from <= cs@.len(),
    ensures
        from <= k <= cs@.len(),
        k - from == leading_digits(cs@.skip(from as int)),
{
    let mut k = from;
    while k < cs.len() && char_is_digit(cs[k])
        invariant
            from <= k <= cs@.len(),
            all_digits(cs@.skip(from as int).take(k - from)),
        decreases cs@.len() - k,
    {
        k += 1;
        assert forall|j: int| 0 <= j < k - from implies is_digit(
            #[trigger] cs@.skip(from as int).take(k - from)[j],
        ) by {
            if j < k - 1 - from {
                assert(cs@.skip(from as int).take(k - from)[j] == cs@.skip(from as int).take(
                    k - 1 - from,
                )[j]);
            }
        }
    }
    proof {
        lemma_leading_digits(cs@.skip(from as int), k - from);
    }
    k
}

/// Whether `cs[from..]` spells the word, letter by letter in either case.
fn word_at(cs: &Vec<char>, from: usize, lower: &str, upper: &str) -> (r: bool)
    requires
        from <= cs@.len(),
        lower@.len() == upper@.len(),
    ensures
        r == equal_ignoring_case(cs@.skip(from as int), lower@, upper@),
{
    let n = lower.unicode_len();
    let len = cs.len();
    if len - from != n {
        return false;
    }
    let mut i: usize = 0;
    while i < n
        invariant
            len == cs@.len(),
            n == lower@.len(),
            n == upper@.len(),
            from <= cs@.len(),
            cs@.len() - from == n,
            i <= n,
            forall|j: int|
                0 <= j < i ==> cs@.skip(from as int)[j] == lower@[j] || cs@.skip(from as int)[j]
                    == upper@[j],
        decreases n - i,
    {
        let c = cs[from + i];
        if c != lower.get_char(i) && c != upper.get_char(i) {
            return false;
        }
        i += 1;
    }
    true
}

fn is_special_float_at(cs: &Vec<char>, from: usize) -> (r: bool)
    requires
        from <= cs@.len(),
    ensures
        r == is_special_float(cs@.skip(from as int)),
{
    proof {
        reveal_strlit("inf");
        reveal_strlit("INF");
        reveal_strlit("infinity");
        reveal_strlit("INFINITY");
        reveal_strlit("nan");
        reveal_strlit("NAN");
        assert("inf"@ =~= seq!['i', 'n', 'f']);
        assert("INF"@ =~= seq!['I', 'N', 'F']);
        assert("infinity"@ =~= seq!['i', 'n', 'f', 'i', 'n', 'i', 't', 'y']);
        assert("INFINITY"@ =~= seq!['I', 'N', 'F', 'I', 'N', 'I', 'T', 'Y']);
        assert("nan"@ =~= seq!['n', 'a', 'n']);
        assert("NAN"@ =~= seq!['N', 'A', 'N']);
    }
    word_at(cs, from, "inf", "INF") || word_at(cs, from, "infinity", "INFINITY") || word_at(
        cs,
        from,
        "nan",
        "NAN",
    )
}

fn is_exponent_at(cs: &Vec<char>, from: usize) -> (r: bool)
    requires
        from <= cs@.len(),
    ensures
        r == is_exponent(cs@.skip(from as int)),
{
    let n = cs.len();
    let ghost e = cs@.skip(from as int);
    if from == n || (cs[from] != 'e' && cs[from] != 'E') {
        return false;
    }
    let mut p = from + 1;
    assert(e.drop_first() =~= cs@.skip(p as int));
    if p < n && (cs[p] == '+' || cs[p] == '-') {
        p = p + 1;
        assert(cs@.skip(p - 1).drop_first() =~= cs@.skip(p as int));
    }
    assert(cs@.skip(p as int) =~= cs@.subrange(p as int, n as int));
    p < n && digits_only(cs, p, n)
}

/// Whether `cs[from..]` is a decimal number with an optional exponent.
fn is_decimal_number_at(cs: &Vec<char>, from: usize) -> (r: bool)
    requires
        from <= cs@.len(),
    ensures
        r == is_decimal_number(cs@.skip(from as int)),
{
    let n = cs.len();
    let ghost b = cs@.skip(from as int);
    let i = skip_digits(cs, from);
    let ghost after = b.skip(i - from);
    assert(after =~= cs@.skip(i as int));
    let mut j = i;
    let mut frac: usize = 0;
    if i < n && cs[i] == '.' {
        assert(after.drop_first() =~= cs@.skip(i + 1));
        let k = skip_digits(cs, i + 1);
        frac = k - (i + 1);
        j = k;
        assert(after.drop_first().skip(frac as int) =~= cs@.skip(k as int));
    }
    if (i - from) + frac < 1 {
        return false;
    }
    if j == n {
        return true;
    }
    is_exponent_at(cs, j)
}

/// Whether the text is one that both float widths parse.
pub fn is_float_value(cs: &Vec<char>) -> (r: bool)
    ensures
        r == is_float_text(cs@),
{
    let n = cs.len();
    let start: usize = if n > 0 && (cs[0] == '+' || cs[0] == '-') {
        1
    } else {
        0
    };
    assert(start == 1 ==> cs@.drop_first() =~= cs@.skip(1));
    assert(start == 0 ==> cs@ =~= cs@.skip(0));
    is_special_float_at(cs, start) || is_decimal_number_at(cs, start)
}

impl FieldType {
    /// The type that a type name denotes, ignoring case: `int`, `float`,
    /// `double`, `text`, `blob` or `varchar(N)`.
    pub fn from_str(s: &String) -> (r: Option<FieldType>)
        ensures
            r == type_of_name(lower_of(s@)),
    {
        let lowered = lowercase(s.as_str());
        FieldType::from_lowercase_name(lowered.as_str())
    }

    /// The type that an already lower-cased type name denotes.
    pub fn from_lowercase_name(t: &str) -> (r: Option<FieldType>)
        ensures
            r == type_of_name(t@),
    {
        let cs = chars_of(t);
        let n = cs.len();
        proof {
            reveal_strlit("int");
            reveal_strlit("float");
            reveal_strlit("double");
            reveal_strlit("text");
            reveal_strlit("blob");
            reveal_strlit("varchar");
        }
        if word_at(&cs, 0, "int", "int") {
            assert(cs@.skip(0) =~= cs@);
            assert(t@ =~= seq!['i', 'n', 't']);
            return Some(FieldType::Int);
        }
        assert(cs@.skip(0) =~= cs@);
        assert("int"@ =~= seq!['i', 'n', 't']);
        if word_at(&cs, 0, "float", "float") {
            assert(t@ =~= seq!['f', 'l', 'o', 'a', 't']);
            return Some(FieldType::Float);
        }
        assert("float"@ =~= seq!['f', 'l', 'o', 'a', 't']);
        if word_at(&cs, 0, "double", "double") {
            assert(t@ =~= seq!['d', 'o', 'u', 'b', 'l', 'e']);
            return Some(FieldType::Double);
        }
        assert("double"@ =~= seq!['d', 'o', 'u', 'b', 'l', 'e']);
        assert("varchar"@ =~= varchar_word());
        if FieldType::varchar_at(&cs, 0) {
            assert(t@.take(7) =~= cs@.subrange(0, 7));
            return FieldType::varchar_length(&cs);
        }
        assert(n >= 7 ==> t@.take(7) =~= cs@.subrange(0, 7));
        if word_at(&cs, 0, "text", "text") {
            assert(t@ =~= seq!['t', 'e', 'x', 't']);
            return Some(FieldType::Text);
        }
        assert("text"@ =~= seq!['t', 'e', 'x', 't']);
        if word_at(&cs, 0, "blob", "blob") {
            assert(t@ =~= seq!['b', 'l', 'o', 'b']);
            return Some(FieldType::Blob);
        }
        assert("blob"@ =~= seq!['b', 'l', 'o', 'b']);
        None
    }

    /// Whether `cs[from..from + 7]` is the word `varchar`.
    fn varchar_at(cs: &Vec<char>, from: usize) -> (r: bool)
        requires
            from <= cs@.len(),
        ensures
            r == (from + 7 <= cs@.len() && cs@.subrange(from as int, from + 7) == varchar_word()),
    {
        if cs.len() - from < 7 {
            return false;
        }
        let ghost w = varchar_word();
        let r = cs[from] == 'v' && cs[from + 1] == 'a' && cs[from + 2] == 'r' && cs[from + 3]
            == 'c' && cs[from + 4] == 'h' && cs[from + 5] == 'a' && cs[from + 6] == 'r';
        if r {
            assert(cs@.subrange(from as int, from + 7) =~= w);
        } else {
            assert(cs@.subrange(from as int, from + 7) != w) by {
                if cs@.subrange(from as int, from + 7) == w {
                    assert(cs@.subrange(from as int, from + 7)[0] == cs@[from as int]);
                    assert(cs@.subrange(from as int, from + 7)[1] == cs@[from + 1]);
                    assert(cs@.subrange(from as int, from + 7)[2] == cs@[from + 2]);
                    assert(cs@.subrange(from as int, from + 7)[3] == cs@[from + 3]);
                    assert(cs@.subrange(from as int, from + 7)[4] == cs@[from + 4]);
                    assert(cs@.subrange(from as int, from + 7)[5] == cs@[from + 5]);
                    assert(cs@.subrange(from as int, from + 7)[6] == cs@[from + 6]);
                }
            }
        }
        r
    }

    /// The `Varchar` type that a name starting with `varchar` denotes.
    fn varchar_length(cs: &Vec<char>) -> (r: Option<FieldType>)
        ensures
            r == match usize_value(
                trim_end_char(
                    trim_start_char(strip_prefix_repeated(cs@, varchar_word()), '('),
                    ')',
                ),
            ) {
                Some(n) => Some(FieldType::Varchar(n)),
                None => None,
            },
    {
        let n = cs.len();
        let ghost w = varchar_word();
        let mut a: usize = 0;
        assert(cs@.skip(0) =~= cs@);
        while FieldType::varchar_at(cs, a)
            invariant
                a <= n == cs@.len(),
                strip_prefix_repeated(cs@, w) == strip_prefix_repeated(cs@.skip(a as int), w),
                w == varchar_word(),
            decreases n - a,
        {
            assert(cs@.skip(a as int).take(7) =~= cs@.subrange(a as int, a + 7));
            assert(cs@.skip(a as int).skip(7) =~= cs@.skip(a + 7));
            a = a + 7;
        }
        assert(cs@.skip(a as int).len() < 7 || cs@.skip(a as int).take(7) =~= cs@.subrange(
            a as int,
            a + 7,
        ));
        let ghost stripped = cs@.skip(a as int);
        assert(strip_prefix_repeated(cs@, w) == stripped);
        let a0 = a;
        while a < n && cs[a] == '('
            invariant
                a0 <= a <= n == cs@.len(),
                stripped == cs@.skip(a0 as int),
                trim_start_char(stripped, '(') == trim_start_char(cs@.skip(a as int), '('),
            decreases n - a,
        {
            assert(cs@.skip(a as int).drop_first() =~= cs@.skip(a + 1));
            a = a + 1;
        }
        assert(trim_start_char(stripped, '(') == cs@.skip(a as int));
        let mut b: usize = n;
        assert(cs@.skip(a as int) =~= cs@.subrange(a as int, n as int));
        while b > a && cs[b - 1] == ')'
            invariant
                a <= b <= n == cs@.len(),
                trim_end_char(cs@.skip(a as int), ')') == trim_end_char(
                    cs@.subrange(a as int, b as int),
                    ')',
                ),
            decreases b - a,
        {
            assert(cs@.subrange(a as int, b as int).drop_last() =~= cs@.subrange(
                a as int,
                b - 1,
            ));
            b = b - 1;
        }
        let ghost inner = cs@.subrange(a as int, b as int);
        assert(trim_end_char(inner, ')') == inner);
        let mut p = a;
        if p < b && cs[p] == '+' {
            p = p + 1;
            assert(inner.drop_first() =~= cs@.subrange(p as int, b as int));
        } else {
            assert(inner =~= cs@.subrange(p as int, b as int));
        }
        match digits_up_to(cs, p, b, usize::MAX as u64) {
            Some(v) => Some(FieldType::Varchar(v as usize)),
            None => None,
        }
    }

    /// The type read off a stored value: an `i32` is `Int`, a text that both
    /// float widths parse is `Float`, any other text is `Text`.
    pub fn convert_value_type_from_str(v: &str) -> (r: FieldType)
        ensures
            r == inferred_type(v@),
    {
        let cs = chars_of(v);
        if is_int_value(&cs) {
            FieldType::Int
        } else if is_float_value(&cs) {
            FieldType::Float
        } else {
            FieldType::Text
        }
    }
}

} // verus!
