//! Text helpers shared by the library: character access, decimal
//! formatting and parsing, lexicographic comparison, splitting and blank
//! detection. Each is stated over `Seq<char>`, the view of `str` and `String`.

use vstd::prelude::*;

verus! {

/// Appends one character to a `String` (`String::push`).
/// Trusted: `String::push` appends exactly the given character.
#[verifier::external_body]
pub(crate) fn push_char(s: &mut String, c: char)
    ensures
        final(s)@ == old(s)@.push(c),
{
    s.push(c);
}

/// The characters of a string slice, in order.
pub fn chars_of(s: &str) -> (v: Vec<char>)
    ensures
        v@ == s@,
{
    let mut v: Vec<char> = Vec::new();
    for c in it: s.chars()
        invariant
            v@ == it.seq().take(it.index() as int),
    {
        v.push(c);
    }
    v
}

/// A `String` holding exactly the given characters.
pub fn string_from_chars(cs: &[char]) -> (s: String)
    ensures
        s@ == cs@,
{
    let mut s = String::new();
    let mut i: usize = 0;
    while i < cs.len()
        invariant
            i <= cs@.len(),
            s@ == cs@.take(i as int),
        decreases cs@.len() - i,
    {
        push_char(&mut s, cs[i]);
        assert(cs@.take(i as int).push(cs@[i as int]) =~= cs@.take(i + 1));
        i = i + 1;
    }
    assert(cs@.take(cs@.len() as int) =~= cs@);
    s
}

/// A copy of a string, character for character.
pub fn copy_text(s: &String) -> (r: String)
    ensures
        r@ == s@,
{
    s.clone()
}

// ---------------------------------------------------------------------------
// Decimal formatting
// ---------------------------------------------------------------------------

/// The ASCII digit for a value below ten.
pub open spec fn digit_char(d: nat) -> char {
    if d == 0 { '0' }
    else if d == 1 { '1' }
    else if d == 2 { '2' }
    else if d == 3 { '3' }
    else if d == 4 { '4' }
    else if d == 5 { '5' }
    else if d == 6 { '6' }
    else if d == 7 { '7' }
    else if d == 8 { '8' }
    else { '9' }
}

/// The decimal digits of `n`, most significant first, without leading zeros
/// (zero is written `0`).
pub open spec fn decimal_text(n: nat) -> Seq<char>
    decreases n,
{
    if n < 10 {
        seq![digit_char(n)]
    } else {
        decimal_text(n / 10).push(digit_char(n % 10))
    }
}

/// The decimal text of a signed integer: a `-` before the digits of its
/// magnitude when it is negative.
pub open spec fn signed_decimal_text(n: int) -> Seq<char> {
    if n < 0 {
        seq!['-'] + decimal_text((-n) as nat)
    } else {
        decimal_text(n as nat)
    }
}

fn digit_of(d: u64) -> (c: char)
    requires
        d < 10,
    ensures
        c == digit_char(d as nat),
{
    if d == 0 { '0' }
    else if d == 1 { '1' }
    else if d == 2 { '2' }
    else if d == 3 { '3' }
    else if d == 4 { '4' }
    else if d == 5 { '5' }
    else if d == 6 { '6' }
    else if d == 7 { '7' }
    else if d == 8 { '8' }
    else { '9' }
}

fn push_decimal(s: &mut String, n: u64)
    ensures
        final(s)@ == old(s)@ + decimal_text(n as nat),
    decreases n,
{
    if n >= 10 {
        push_decimal(s, n / 10);
    }
    let c = digit_of(n % 10);
    push_char(s, c);
}

/// Decimal text of an unsigned integer, as `u64::to_string` writes it.
pub fn u64_text(n: u64) -> (r: String)
    ensures
        r@ == decimal_text(n as nat),
{
    let mut s = String::new();
    push_decimal(&mut s, n);
    assert(s@ =~= decimal_text(n as nat));
    s
}

/// Decimal text of a signed integer, as `i64::to_string` writes it.
pub fn i64_text(n: i64) -> (r: String)
    ensures
        r@ == signed_decimal_text(n as int),
{
    let mut s = String::new();
    if n < 0 {
        push_char(&mut s, '-');
        let magnitude: u64 = if n == i64::MIN { 9_223_372_036_854_775_808u64 } else { (-n) as u64 };
        push_decimal(&mut s, magnitude);
    } else {
        push_decimal(&mut s, n as u64);
    }
    assert(s@ =~= signed_decimal_text(n as int));
    s
}

// ---------------------------------------------------------------------------
// Decimal parsing
// ---------------------------------------------------------------------------

/// Why a text is not an integer of the requested type; the kinds that
/// `str::parse` reports for integers.
#[derive(Clone, Copy, Debug, PartialEq, Eq, Structural)]
pub enum IntParseError {
    Empty,
    InvalidDigit,
    PosOverflow,
    NegOverflow,
}

pub open spec fn is_digit(c: char) -> bool {
    '0' <= c && c <= '9'
}

pub open spec fn digit_value(c: char) -> nat {
    (c as int - '0' as int) as nat
}

/// The value of a run of decimal digits.
pub open spec fn digits_value(s: Seq<char>) -> nat
    decreases s.len(),
{
    if s.len() == 0 {
        0
    } else {
        digits_value(s.drop_last()) * 10 + digit_value(s.last())
    }
}

/// Index of the first character of `s` that is not a decimal digit, or its
/// length when there is none.
pub open spec fn first_non_digit(s: Seq<char>) -> nat
    decreases s.len(),
{
    if s.len() == 0 {
        0
    } else if !is_digit(s[0]) {
        0
    } else {
        1 + first_non_digit(s.drop_first())
    }
}

/// What `str::parse::<u64>` gives: an optional `+`, then decimal digits.
/// Reading left to right, the first offending character or the first digit
/// that takes the value past `u64::MAX` decides the error.
pub open spec fn parse_u64_spec(s: Seq<char>) -> Result<u64, IntParseError> {
    if s.len() == 0 {
        Err(IntParseError::Empty)
    } else {
        let body = if s[0] == '+' { s.drop_first() } else { s };
        let k = first_non_digit(body);
        if body.len() == 0 {
            Err(IntParseError::InvalidDigit)
        } else if digits_value(body.take(k as int)) > u64::MAX {
            Err(IntParseError::PosOverflow)
        } else if k < body.len() {
            Err(IntParseError::InvalidDigit)
        } else {
            Ok(digits_value(body) as u64)
        }
    }
}

/// What `str::parse::<i64>` gives: an optional sign, then decimal digits.
pub open spec fn parse_i64_spec(s: Seq<char>) -> Result<i64, IntParseError> {
    if s.len() == 0 {
        Err(IntParseError::Empty)
    } else {
        let negative = s[0] == '-';
        let body = if s[0] == '+' || s[0] == '-' { s.drop_first() } else { s };
        let k = first_non_digit(body);
        if body.len() == 0 {
            Err(IntParseError::InvalidDigit)
        } else if negative && digits_value(body.take(k as int)) > 9_223_372_036_854_775_808 {
            Err(IntParseError::NegOverflow)
        } else if !negative && digits_value(body.take(k as int)) > i64::MAX {
            Err(IntParseError::PosOverflow)
        } else if k < body.len() {
            Err(IntParseError::InvalidDigit)
        } else if negative {
            Ok((0 - digits_value(body)) as i64)
        } else {
            Ok(digits_value(body) as i64)
        }
    }
}

proof fn lemma_first_non_digit_bound(s: Seq<char>)
    ensures
        first_non_digit(s) <= s.len(),
        forall|i: int| 0 <= i < first_non_digit(s) ==> is_digit(#[trigger] s[i]),
        first_non_digit(s) < s.len() ==> !is_digit(s[first_non_digit(s) as int]),
    decreases s.len(),
{
    if s.len() > 0 && is_digit(s[0]) {
        lemma_first_non_digit_bound(s.drop_first());
        assert forall|i: int| 0 <= i < first_non_digit(s) implies is_digit(#[trigger] s[i]) by {
            if i > 0 {
                assert(s[i] == s.drop_first()[i - 1]);
            }
        }
    }
}

proof fn lemma_digits_value_monotone(s: Seq<char>, i: int, j: int)
    requires
        0 <= i <= j <= s.len(),
    ensures
        digits_value(s.take(i)) <= digits_value(s.take(j)),
    decreases j - i,
{
    if i < j {
        lemma_digits_value_monotone(s, i, j - 1);
        assert(s.take(j).drop_last() =~= s.take(j - 1));
    }
}

/// Scans the digits of `body` from `start`, accumulating their value up to
/// `limit`. Returns the index where it stopped and the value of the digits
/// before that index; it stops at the first non-digit or at the first digit
/// that takes the value past `limit`.
fn scan_digits(body: &Vec<char>, limit: u64) -> (r: (usize, u64, bool))
    ensures
        r.0 <= body@.len(),
        // r.2: the value went past the limit at index r.0
        r.2 ==> r.0 < body@.len() && digits_value(body@.take(r.0 as int + 1)) > limit
            && forall|i: int| 0 <= i <= r.0 ==> is_digit(#[trigger] body@[i]),
        !r.2 ==> r.0 == first_non_digit(body@) && r.1 == digits_value(body@.take(r.0 as int))
            && r.1 <= limit,
{
    proof { lemma_first_non_digit_bound(body@); }
    let mut i: usize = 0;
    let mut acc: u64 = 0;
    while i < body.len()
        invariant
            i <= body@.len(),
            acc == digits_value(body@.take(i as int)),
            acc <= limit,
            forall|j: int| 0 <= j < i ==> is_digit(#[trigger] body@[j]),
            first_non_digit(body@) <= body@.len(),
            forall|j: int| 0 <= j < first_non_digit(body@) ==> is_digit(#[trigger] body@[j]),
            first_non_digit(body@) < body@.len() ==> !is_digit(body@[first_non_digit(body@) as int]),
        decreases body@.len() - i,
    {
        let c = body[i];
        if !('0' <= c && c <= '9') {
            proof {
                if first_non_digit(body@) < i {
                    assert(is_digit(body@[first_non_digit(body@) as int]));
                }
                if first_non_digit(body@) > i {
                    assert(is_digit(body@[i as int]));
                }
            }
            return (i, acc, false);
        }
        let d: u64 = (c as u32 - '0' as u32) as u64;
        assert(body@.take(i + 1).drop_last() =~= body@.take(i as int));
        assert(digits_value(body@.take(i + 1)) == acc * 10 + d);
        if d > limit || acc > (limit - d) / 10 {
            proof {
                if d <= limit {
                    assert(acc * 10 + d > limit) by (nonlinear_arith)
                        requires acc > (limit - d) / 10, d <= limit;
                }
            }
            return (i, acc, true);
        }
        assert(acc * 10 + d <= limit) by (nonlinear_arith)
            requires acc <= (limit - d) / 10, d <= 9;
        acc = acc * 10 + d;
        i = i + 1;
    }
    proof {
        if first_non_digit(body@) < body@.len() {
            assert(is_digit(body@[first_non_digit(body@) as int]));
        }
    }
    (i, acc, false)
}

fn drop_sign(cs: &Vec<char>, sign_present: bool) -> (body: Vec<char>)
    requires
        sign_present ==> cs@.len() > 0,
    ensures
        body@ == (if sign_present { cs@.drop_first() } else { cs@ }),
{
    let mut body: Vec<char> = Vec::new();
    let mut i: usize = if sign_present { 1 } else { 0 };
    while i < cs.len()
        invariant
            (if sign_present { 1int } else { 0int }) <= i <= cs@.len(),
            body@ == cs@.subrange(if sign_present { 1int } else { 0int }, i as int),
        decreases cs@.len() - i,
    {
        body.push(cs[i]);
        i = i + 1;
    }
    body
}

proof fn lemma_overflow_prefix(body: Seq<char>, k: int, limit: nat)
    requires
        0 <= k < body.len(),
        digits_value(body.take(k + 1)) > limit,
        forall|i: int| 0 <= i <= k ==> is_digit(#[trigger] body[i]),
    ensures
        digits_value(body.take(first_non_digit(body) as int)) > limit,
{
    lemma_first_non_digit_bound(body);
    if first_non_digit(body) <= k {
        assert(is_digit(body[first_non_digit(body) as int]));
    }
    lemma_digits_value_monotone(body, k + 1, first_non_digit(body) as int);
}

/// Parses an unsigned decimal integer exactly as `str::parse::<u64>` does.
pub fn parse_u64(s: &str) -> (r: Result<u64, IntParseError>)
    ensures
        r == parse_u64_spec(s@),
{
    let cs = chars_of(s);
    if cs.len() == 0 {
        return Err(IntParseError::Empty);
    }
    let body = drop_sign(&cs, cs[0] == '+');
    if body.len() == 0 {
        return Err(IntParseError::InvalidDigit);
    }
    let (k, v, over) = scan_digits(&body, u64::MAX);
    if over {
        proof { lemma_overflow_prefix(body@, k as int, u64::MAX as nat); }
        return Err(IntParseError::PosOverflow);
    }
    if k < body.len() {
        return Err(IntParseError::InvalidDigit);
    }
    assert(body@.take(k as int) =~= body@);
    Ok(v)
}

/// Parses a signed decimal integer exactly as `str::parse::<i64>` does.
pub fn parse_i64(s: &str) -> (r: Result<i64, IntParseError>)
    ensures
        r == parse_i64_spec(s@),
{
    let cs = chars_of(s);
    if cs.len() == 0 {
        return Err(IntParseError::Empty);
    }
    let negative = cs[0] == '-';
    let body = drop_sign(&cs, cs[0] == '+' || cs[0] == '-');
    if body.len() == 0 {
        return Err(IntParseError::InvalidDigit);
    }
    let limit: u64 = if negative { 9_223_372_036_854_775_808u64 } else { 9_223_372_036_854_775_807u64 };
    let (k, v, over) = scan_digits(&body, limit);
    if over {
        proof { lemma_overflow_prefix(body@, k as int, limit as nat); }
        if negative {
            return Err(IntParseError::NegOverflow);
        } else {
            return Err(IntParseError::PosOverflow);
        }
    }
    if k < body.len() {
        return Err(IntParseError::InvalidDigit);
    }
    assert(body@.take(k as int) =~= body@);
    if negative {
        if v == 9_223_372_036_854_775_808u64 {
            Ok(i64::MIN)
        } else {
            Ok(0 - (v as i64))
        }
    } else {
        Ok(v as i64)
    }
}

// ---------------------------------------------------------------------------
// Comparison, splitting, blank detection
// ---------------------------------------------------------------------------

/// Lexicographic order on characters by code point. On `String`s this is the
/// order of `<=`, since UTF-8 keeps code-point order byte for byte.
pub open spec fn text_le(a: Seq<char>, b: Seq<char>) -> bool
    decreases a.len(),
{
    if a.len() == 0 {
        true
    } else if b.len() == 0 {
        false
    } else if a[0] != b[0] {
        a[0] < b[0]
    } else {
        text_le(a.drop_first(), b.drop_first())
    }
}

/// Whether `a <= b` in the lexicographic order of their characters.
pub fn text_less_eq(a: &str, b: &str) -> (r: bool)
    ensures
        r == text_le(a@, b@),
{
    let x = chars_of(a);
    let y = chars_of(b);
    let mut i: usize = 0;
    assert(x@.skip(0) =~= x@);
    assert(y@.skip(0) =~= y@);
    while i < x.len() && i < y.len() && x[i] == y[i]
        invariant
            i <= x@.len(),
            i <= y@.len(),
            text_le(a@, b@) == text_le(x@.skip(i as int), y@.skip(i as int)),
            x@ == a@,
            y@ == b@,
        decreases x@.len() - i,
    {
        assert(x@.skip(i as int).drop_first() =~= x@.skip(i + 1));
        assert(y@.skip(i as int).drop_first() =~= y@.skip(i + 1));
        i = i + 1;
    }
    if i == x.len() {
        true
    } else if i == y.len() {
        false
    } else {
        x[i] < y[i]
    }
}

/// The pieces of `s` between occurrences of `sep`, as `str::split` yields
/// them for a one-character pattern: always at least one piece, empty pieces
/// kept.
pub open spec fn split_text(s: Seq<char>, sep: char) -> Seq<Seq<char>>
    decreases s.len(),
{
    if s.len() == 0 {
        seq![Seq::empty()]
    } else {
        let prev = split_text(s.drop_last(), sep);
        if s.last() == sep {
            prev.push(Seq::empty())
        } else {
            prev.update(prev.len() - 1, prev.last().push(s.last()))
        }
    }
}

proof fn lemma_split_nonempty(s: Seq<char>, sep: char)
    ensures
        split_text(s, sep).len() >= 1,
    decreases s.len(),
{
    if s.len() > 0 {
        lemma_split_nonempty(s.drop_last(), sep);
    }
}

/// Splits `s` at every occurrence of `sep`.
pub fn split_on(s: &str, sep: char) -> (pieces: Vec<String>)
    ensures
        pieces@.len() == split_text(s@, sep).len(),
        forall|i: int| 0 <= i < pieces@.len() ==> #[trigger] pieces@[i]@ == split_text(s@, sep)[i],
{
    let cs = chars_of(s);
    let mut pieces: Vec<String> = Vec::new();
    let mut current: Vec<char> = Vec::new();
    let mut i: usize = 0;
    while i < cs.len()
        invariant
            i <= cs@.len(),
            cs@ == s@,
            pieces@.len() + 1 == split_text(cs@.take(i as int), sep).len(),
            forall|j: int| 0 <= j < pieces@.len() ==> #[trigger] pieces@[j]@ == split_text(cs@.take(i as int), sep)[j],
            current@ == split_text(cs@.take(i as int), sep).last(),
        decreases cs@.len() - i,
    {
        let ghost prev = split_text(cs@.take(i as int), sep);
        proof {
            lemma_split_nonempty(cs@.take(i as int), sep);
            assert(cs@.take(i + 1).drop_last() =~= cs@.take(i as int));
        }
        let c = cs[i];
        if c == sep {
            let piece = string_from_chars(current.as_slice());
            pieces.push(piece);
            current = Vec::new();
        } else {
            current.push(c);
        }
        i = i + 1;
        proof {
            assert(forall|j: int| 0 <= j < pieces@.len() ==> #[trigger] pieces@[j]@ == split_text(cs@.take(i as int), sep)[j]);
        }
    }
    let last = string_from_chars(current.as_slice());
    pieces.push(last);
    assert(cs@.take(cs@.len() as int) =~= cs@);
    pieces
}

/// The characters that `char::is_whitespace` accepts: those with the
/// Unicode `White_Space` property.
pub open spec fn is_white_space(c: char) -> bool {
    let u = c as u32;
    ||| 0x09 <= u <= 0x0D
    ||| u == 0x20
    ||| u == 0x85
    ||| u == 0xA0
    ||| u == 0x1680
    ||| 0x2000 <= u <= 0x200A
    ||| u == 0x2028
    ||| u == 0x2029
    ||| u == 0x202F
    ||| u == 0x205F
    ||| u == 0x3000
}

/// Whether every character is white space, that is whether `s.trim()` is
/// empty.
pub open spec fn is_blank_text(s: Seq<char>) -> bool {
    forall|i: int| 0 <= i < s.len() ==> is_white_space(#[trigger] s[i])
}

fn white_space_char(c: char) -> (r: bool)
    ensures
        r == is_white_space(c),
{
    let u = c as u32;
    (0x09 <= u && u <= 0x0D) || u == 0x20 || u == 0x85 || u == 0xA0 || u == 0x1680
        || (0x2000 <= u && u <= 0x200A) || u == 0x2028 || u == 0x2029 || u == 0x202F
        || u == 0x205F || u == 0x3000
}

/// Whether `s.trim().is_empty()`.
pub fn is_blank(s: &str) -> (r: bool)
    ensures
        r == is_blank_text(s@),
{
    let cs = chars_of(s);
    let mut i: usize = 0;
    while i < cs.len()
        invariant
            i <= cs@.len(),
            cs@ == s@,
            forall|j: int| 0 <= j < i ==> is_white_space(#[trigger] cs@[j]),
        decreases cs@.len() - i,
    {
        if !white_space_char(cs[i]) {
            return false;
        }
        i = i + 1;
    }
    true
}

// ---------------------------------------------------------------------------
// Paths
// ---------------------------------------------------------------------------

/// A single name to join: not empty and without `/`, the separator that
/// every platform knows.
pub open spec fn is_one_name(name: Seq<char>) -> bool {
    &&& name.len() > 0
    &&& forall|i: int| 0 <= i < name.len() ==> #[trigger] name[i] != '/'
}

/// A base with a Windows verbatim prefix (`\\?\`), under which `Path::push`
/// rewrites what is pushed.
pub open spec fn is_verbatim(base: Seq<char>) -> bool {
    base.len() >= 4 && base[0] == '\\' && base[1] == '\\' && base[2] == '?' && base[3] == '\\'
}

/// A base that is a bare drive prefix such as `C:`, which Windows joins
/// without a separator and other platforms treat as a plain name.
pub open spec fn is_bare_drive(base: Seq<char>) -> bool {
    base.len() == 2 && base[1] == ':'
}

/// `joined` is `name` put after `base` as `PathBuf::push` extends a path:
/// directly after an empty base or one that ends in `/`; after one
/// separator, `/` or `\\` whichever the platform uses, after any other base.
/// A base that ends in `\\` (a separator only on some platforms) may also
/// take the name directly, and so may a bare drive-like prefix such as
/// `C:`.
pub open spec fn appended_path(base: Seq<char>, name: Seq<char>, joined: Seq<char>) -> bool {
    if base.len() == 0 || base.last() == '/' {
        joined == base + name
    } else if base.last() == '\\' || is_bare_drive(base) {
        ||| joined == base + name
        ||| joined == base + seq!['/'] + name
        ||| joined == base + seq!['\\'] + name
    } else {
        joined == base + seq!['/'] + name || joined == base + seq!['\\'] + name
    }
}

/// What `Path::join` gives for a single name (no `/`) on a base without a
/// verbatim prefix, on every platform. The name extends the base as
/// `appended_path` says, except where some platform reads the name as
/// rooted or prefixed: a name that starts with `\\` may instead replace
/// all of the base but a beginning of it (its prefix), and a name whose
/// second character is `:` may instead replace the base.
/// Names with `/` and verbatim bases are left open.
pub open spec fn joined_path(base: Seq<char>, name: Seq<char>, joined: Seq<char>) -> bool {
    (is_one_name(name) && !is_verbatim(base)) ==> {
        if name[0] == '\\' {
            appended_path(base, name, joined)
                || exists|k: int| 0 <= k <= base.len() && joined == #[trigger] base.take(k) + name
        } else if name.len() >= 2 && name[1] == ':' {
            appended_path(base, name, joined) || joined == name
        } else {
            appended_path(base, name, joined)
        }
    }
}

/// `Path::new(base).join(name)`, as text.
/// Trusted: for a name without `/` on a base without a verbatim prefix,
/// `Path::join` extends the base as `PathBuf::push` documents: a relative
/// name is added after the platform separator unless the base is empty,
/// already ends in one, or is a bare drive prefix; a rooted name keeps only the base's prefix; a
/// prefixed name replaces the base. `joined_path` allows each platform's
/// choice without saying which platform this is. Names with `/`, and
/// verbatim bases, whose pushes `PathBuf::push` normalises, are left
/// unsaid. Text in, text out, so `to_string_lossy` loses nothing.
#[verifier::external_body]
pub(crate) fn join_path(base: &str, name: &str) -> (r: String)
    ensures
        joined_path(base@, name@, r@),
{
    std::path::Path::new(base).join(name).to_string_lossy().into_owned()
}


// ---------------------------------------------------------------------------
// Laws: decimal text reads back
// ---------------------------------------------------------------------------

proof fn lemma_digit_char(d: nat)
    requires
        d < 10,
    ensures
        is_digit(digit_char(d)),
        digit_value(digit_char(d)) == d,
{
}

proof fn lemma_decimal_text_digits(n: nat)
    ensures
        decimal_text(n).len() >= 1,
        forall|i: int| 0 <= i < decimal_text(n).len() ==> is_digit(#[trigger] decimal_text(n)[i]),
        digits_value(decimal_text(n)) == n,
    decreases n,
{
    lemma_digit_char(n % 10);
    if n >= 10 {
        lemma_decimal_text_digits(n / 10);
        let s = decimal_text(n / 10);
        assert(s.push(digit_char(n % 10)).drop_last() =~= s);
        assert(digits_value(decimal_text(n)) == digits_value(s) * 10 + digit_value(digit_char(n % 10)));
        assert((n / 10) * 10 + n % 10 == n);
        assert forall|i: int| 0 <= i < decimal_text(n).len() implies is_digit(#[trigger] decimal_text(n)[i]) by {
            if i < s.len() {
                assert(decimal_text(n)[i] == s[i]);
            }
        }
    } else {
        lemma_digit_char(n);
        assert(seq![digit_char(n)].drop_last() =~= Seq::<char>::empty());
        assert(digits_value(Seq::<char>::empty()) == 0);
        assert(digits_value(decimal_text(n)) == digits_value(Seq::<char>::empty()) * 10 + digit_value(digit_char(n)));
    }
}

proof fn lemma_all_digits_first_non_digit(s: Seq<char>)
    requires
        forall|i: int| 0 <= i < s.len() ==> is_digit(#[trigger] s[i]),
    ensures
        first_non_digit(s) == s.len(),
    decreases s.len(),
{
    if s.len() > 0 {
        assert forall|i: int| 0 <= i < s.drop_first().len() implies is_digit(#[trigger] s.drop_first()[i]) by {
            assert(s.drop_first()[i] == s[i + 1]);
        }
        lemma_all_digits_first_non_digit(s.drop_first());
        assert(is_digit(s[0]));
    }
}

/// Reading back the decimal text of an unsigned number gives the number:
/// `parse_u64(u64_text(n)) == Ok(n)`.
pub proof fn law_u64_text_round_trip(n: u64)
    ensures
        parse_u64_spec(decimal_text(n as nat)) == Ok::<u64, IntParseError>(n),
{
    let s = decimal_text(n as nat);
    lemma_decimal_text_digits(n as nat);
    lemma_all_digits_first_non_digit(s);
    assert(is_digit(s[0]));
    assert(s.take(s.len() as int) =~= s);
}

/// Reading back the decimal text of a signed number gives the number:
/// `parse_i64(i64_text(n)) == Ok(n)`.
pub proof fn law_i64_text_round_trip(n: i64)
    ensures
        parse_i64_spec(signed_decimal_text(n as int)) == Ok::<i64, IntParseError>(n),
{
    let m: nat = if n < 0 { (-n) as nat } else { n as nat };
    let d = decimal_text(m);
    lemma_decimal_text_digits(m);
    lemma_all_digits_first_non_digit(d);
    assert(is_digit(d[0]));
    assert(d.take(d.len() as int) =~= d);
    if n < 0 {
        let s = signed_decimal_text(n as int);
        assert(s == seq!['-'] + d);
        assert(s.drop_first() =~= d);
        assert(s[0] == '-');
    }
}


// ---------------------------------------------------------------------------
// Laws: splitting joined texts
// ---------------------------------------------------------------------------

/// A text without the separator is a single piece.
pub proof fn lemma_split_without_sep(s: Seq<char>, sep: char)
    requires
        !s.contains(sep),
    ensures
        split_text(s, sep) == seq![s],
    decreases s.len(),
{
    if s.len() > 0 {
        assert(!s.drop_last().contains(sep)) by {
            if s.drop_last().contains(sep) {
                let k = choose|k: int| 0 <= k < s.drop_last().len() && s.drop_last()[k] == sep;
                assert(s[k] == sep);
            }
        }
        lemma_split_without_sep(s.drop_last(), sep);
        assert(s.last() != sep) by {
            if s.last() == sep {
                assert(s[s.len() - 1] == sep);
            }
        }
        assert(s.drop_last().push(s.last()) =~= s);
        assert(seq![s.drop_last()].update(0, s.drop_last().push(s.last())) =~= seq![s]);
    } else {
        assert(s =~= Seq::<char>::empty());
    }
}

/// Splitting two texts joined by the separator gives the pieces of the first
/// followed by the pieces of the second.
pub proof fn lemma_split_join(x: Seq<char>, y: Seq<char>, sep: char)
    ensures
        split_text(x + seq![sep] + y, sep) == split_text(x, sep) + split_text(y, sep),
    decreases y.len(),
{
    let z = x + seq![sep] + y;
    lemma_split_nonempty(x, sep);
    if y.len() == 0 {
        assert(z.drop_last() =~= x);
        assert(z.last() == sep);
        assert(split_text(y, sep) =~= seq![Seq::<char>::empty()]);
        assert(split_text(x, sep).push(Seq::empty()) =~= split_text(x, sep) + seq![Seq::<char>::empty()]);
    } else {
        assert(z.drop_last() =~= x + seq![sep] + y.drop_last());
        assert(z.last() == y.last());
        lemma_split_join(x, y.drop_last(), sep);
        lemma_split_nonempty(y.drop_last(), sep);
        let a = split_text(x, sep);
        let b = split_text(y.drop_last(), sep);
        if y.last() == sep {
            assert((a + b).push(Seq::empty()) =~= a + b.push(Seq::empty()));
        } else {
            assert((a + b).update((a + b).len() - 1, (a + b).last().push(y.last()))
                =~= a + b.update(b.len() - 1, b.last().push(y.last())));
        }
    }
}

} // verus!
