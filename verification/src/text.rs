//! Strings as sequences of characters: decimal numerals, integer parsing,
//! trimming and searching, each with the exact text it produces or accepts.
use vstd::prelude::*;

verus! {

broadcast use vstd::string::group_string_axioms;

/// `String::push` appends the character to the end of the string.
pub assume_specification[ String::push ](s: &mut String, c: char)
    ensures
        final(s)@ == old(s)@.push(c),
;

/// `String::push_str` appends the given slice to the end of the string.
pub assume_specification[ String::push_str ](s: &mut String, tail: &str)
    ensures
        final(s)@ == old(s)@ + tail@,
;

/// What `Debug` writes for a string: the text in double quotes, with escapes.
pub uninterp spec fn debug_text(s: Seq<char>) -> Seq<char>;

/// The `Debug` form of a `str`, as `format!("{:?}")` writes it. Which characters
/// are escaped is left to [`debug_text`].
#[verifier::external_body]
pub(crate) fn debug_quoted(s: &str) -> (r: String)
    ensures
        r@ == debug_text(s@),
{
    format!("{:?}", s)
}

/// The characters of `s`, in order.
pub fn chars_of(s: &str) -> (r: Vec<char>)
    ensures
        r@ == s@,
{
    let mut out: Vec<char> = Vec::new();
    for c in iter: s.chars()
        invariant
            out@ == iter.seq().take(iter.index() as int),
            iter.seq() == s@,
    {
        out.push(c);
        assert(iter.seq().take(iter.index() as int).push(c) =~= iter.seq().take(iter.index() + 1));
    }
    assert(s@.take(s@.len() as int) =~= s@);
    out
}

/// The string that holds the characters `from..to` of `v`.
pub fn string_of(v: &Vec<char>, from: usize, to: usize) -> (r: String)
    requires
        from <= to <= v@.len(),
    ensures
        r@ == v@.subrange(from as int, to as int),
{
    let mut out: String = String::new();
    let mut i: usize = from;
    while i < to
        invariant
            from <= i <= to <= v@.len(),
            out@ == v@.subrange(from as int, i as int),
        decreases to - i,
    {
        out.push(v[i]);
        i = i + 1;
        assert(v@.subrange(from as int, i as int) =~= v@.subrange(from as int, i - 1).push(
            v@[i - 1],
        ));
    }
    out
}

/// The character of a decimal digit.
pub open spec fn digit_char(d: int) -> char {
    (48 + d) as char
}

/// The decimal numeral of `n`, without leading zeros.
pub open spec fn dec(n: nat) -> Seq<char>
    decreases n,
{
    if n < 10 {
        seq![digit_char(n as int)]
    } else {
        dec(n / 10).push(digit_char((n % 10) as int))
    }
}

/// One decimal digit as a character.
pub fn digit_to_char(d: u8) -> (c: char)
    requires
        d < 10,
    ensures
        c == digit_char(d as int),
{
    (48u8 + d) as char
}

/// The decimal numeral of a `u64`.
pub fn u64_to_dec(n: u64) -> (r: String)
    ensures
        r@ == dec(n as nat),
    decreases n,
{
    if n < 10 {
        let mut s: String = String::new();
        s.push(digit_to_char(n as u8));
        assert(s@ =~= dec(n as nat));
        s
    } else {
        let mut s: String = u64_to_dec(n / 10);
        s.push(digit_to_char((n % 10) as u8));
        s
    }
}

/// The decimal numeral of a `u128`.
pub fn u128_to_dec(n: u128) -> (r: String)
    ensures
        r@ == dec(n as nat),
    decreases n,
{
    if n < 10 {
        let mut s: String = String::new();
        s.push(digit_to_char(n as u8));
        assert(s@ =~= dec(n as nat));
        s
    } else {
        let mut s: String = u128_to_dec(n / 10);
        s.push(digit_to_char((n % 10) as u8));
        s
    }
}

/// The numeral of `n` with at least `width` digits, zeros in front.
pub open spec fn dec_padded(n: nat, width: nat) -> Seq<char> {
    let d = dec(n);
    if d.len() >= width {
        d
    } else {
        Seq::new((width - d.len()) as nat, |i: int| '0') + d
    }
}

/// Appends the numeral of `n` with at least `width` digits.
pub fn push_dec_padded(out: &mut String, n: u64, width: usize)
    ensures
        final(out)@ == old(out)@ + dec_padded(n as nat, width as nat),
{
    let d: String = u64_to_dec(n);
    let digits: Vec<char> = chars_of(d.as_str());
    let mut len: usize = digits.len();
    let ghost pad: int = if width > len { width - len } else { 0 };
    let ghost zeros = Seq::new(pad as nat, |i: int| '0');
    let ghost base = out@;
    let ghost mut k: int = 0;
    while len < width
        invariant
            digits@ == dec(n as nat),
            len == digits@.len() + k,
            0 <= k <= pad,
            pad == if width > digits@.len() {
                width - digits@.len()
            } else {
                0
            },
            zeros == Seq::new(pad as nat, |i: int| '0'),
            out@ == base + zeros.take(k),
        decreases width - len,
    {
        out.push('0');
        len = len + 1;
        proof {
            assert(zeros.take(k + 1) =~= zeros.take(k).push('0'));
            assert(base + zeros.take(k).push('0') =~= (base + zeros.take(k)).push('0'));
            k = k + 1;
        }
    }
    assert(zeros.take(k) =~= zeros);
    let ghost before = out@;
    out.push_str(d.as_str());
    assert(out@ =~= base + dec_padded(n as nat, width as nat));
}

/// Appends the numeral of `n`.
pub fn push_dec(out: &mut String, n: u64)
    ensures
        final(out)@ == old(out)@ + dec(n as nat),
{
    let d: String = u64_to_dec(n);
    out.push_str(d.as_str());
}

/// Whether `c` is an ASCII decimal digit.
pub open spec fn is_digit(c: char) -> bool {
    '0' <= c <= '9'
}

/// The value of a sequence of decimal digits, most significant first.
pub open spec fn dec_value(s: Seq<char>) -> nat
    decreases s.len(),
{
    if s.len() == 0 {
        0
    } else {
        dec_value(s.drop_last()) * 10 + (s.last() as nat - 48) as nat
    }
}

/// Whether every character of `s` is a decimal digit.
pub open spec fn all_digits(s: Seq<char>) -> bool {
    forall|i: int| 0 <= i < s.len() ==> is_digit(#[trigger] s[i])
}

/// Why a string is not an unsigned integer of a given range.
#[derive(Clone, Copy, Debug, PartialEq, Eq, Structural)]
pub enum ParseUintError {
    /// The string is empty.
    Empty,
    /// A character that is no digit, or a sign alone.
    InvalidDigit,
    /// The value is above the greatest one of the type.
    PosOverflow,
}

impl ParseUintError {
    /// The sentence that describes the error.
    pub open spec fn text(self) -> Seq<char> {
        match self {
            ParseUintError::Empty => "cannot parse integer from empty string"@,
            ParseUintError::InvalidDigit => "invalid digit found in string"@,
            ParseUintError::PosOverflow => "number too large to fit in target type"@,
        }
    }

    /// The sentence that describes the error.
    pub fn message(&self) -> (r: String)
        ensures
            r@ == self.text(),
    {
        match self {
            ParseUintError::Empty => "cannot parse integer from empty string".to_owned(),
            ParseUintError::InvalidDigit => "invalid digit found in string".to_owned(),
            ParseUintError::PosOverflow => "number too large to fit in target type".to_owned(),
        }
    }
}

/// The digits of a numeral: an optional plus sign in front is dropped.
pub open spec fn numeral_digits(s: Seq<char>) -> Seq<char> {
    if s.len() > 0 && s[0] == '+' {
        s.subrange(1, s.len() as int)
    } else {
        s
    }
}

/// Reads digits from the left: stops with an error at the first character that
/// is no digit, or at the first digit that takes the value above `max`.
pub open spec fn read_digits(d: Seq<char>, max: nat) -> Result<nat, ParseUintError>
    decreases d.len(),
{
    if d.len() == 0 {
        Ok(0)
    } else {
        match read_digits(d.drop_last(), max) {
            Err(e) => Err(e),
            Ok(v) => if !is_digit(d.last()) {
                Err(ParseUintError::InvalidDigit)
            } else if v * 10 + (d.last() as nat - 48) > max {
                Err(ParseUintError::PosOverflow)
            } else {
                Ok((v * 10 + (d.last() as nat - 48)) as nat)
            },
        }
    }
}

/// What the text `s` means as an unsigned integer of at most `max`: an optional
/// plus sign, then at least one digit and digits only.
pub open spec fn parse_uint_spec(s: Seq<char>, max: nat) -> Result<nat, ParseUintError> {
    if s.len() == 0 {
        Err(ParseUintError::Empty)
    } else if numeral_digits(s).len() == 0 {
        Err(ParseUintError::InvalidDigit)
    } else {
        read_digits(numeral_digits(s), max)
    }
}

/// Reading digits succeeds exactly on digits whose value is at most `max`, and
/// gives that value.
pub proof fn lemma_read_digits(d: Seq<char>, max: nat)
    ensures
        read_digits(d, max) is Ok <==> all_digits(d) && dec_value(d) <= max,
        read_digits(d, max) is Ok ==> read_digits(d, max)->Ok_0 == dec_value(d),
    decreases d.len(),
{
    if d.len() > 0 {
        lemma_read_digits(d.drop_last(), max);
        if all_digits(d) {
            assert(all_digits(d.drop_last()));
            assert(is_digit(d[d.len() - 1]));
        }
        if all_digits(d.drop_last()) && is_digit(d.last()) {
            assert forall|i: int| 0 <= i < d.len() implies is_digit(#[trigger] d[i]) by {
                if i < d.len() - 1 {
                    assert(is_digit(d.drop_last()[i]));
                }
            }
        }
    }
}

/// The numeral of `n` consists of digits, at least one, and its value is `n`.
pub proof fn lemma_dec(n: nat)
    ensures
        dec(n).len() > 0,
        all_digits(dec(n)),
        dec_value(dec(n)) == n,
    decreases n,
{
    if n < 10 {
        let s = dec(n);
        assert(s.drop_last() =~= Seq::<char>::empty());
        assert(s.last() == digit_char(n as int));
        assert(dec_value(s) == dec_value(s.drop_last()) * 10 + (s.last() as nat - 48) as nat);
    } else {
        lemma_dec(n / 10);
        let s = dec(n);
        assert(s.drop_last() =~= dec(n / 10));
        assert(s.last() == digit_char((n % 10) as int));
        assert(dec_value(s) == dec_value(s.drop_last()) * 10 + (s.last() as nat - 48) as nat);
        assert forall|i: int| 0 <= i < s.len() implies is_digit(#[trigger] s[i]) by {
            if i < s.len() - 1 {
                assert(s[i] == dec(n / 10)[i]);
            }
        }
    }
}

/// A numeral reads back as the number it was written for.
pub proof fn law_decimal_round_trip(n: nat, max: nat)
    requires
        n <= max,
    ensures
        parse_uint_spec(dec(n), max) == Ok::<nat, ParseUintError>(n),
{
    lemma_dec(n);
    assert(is_digit(dec(n)[0]));
    assert(numeral_digits(dec(n)) == dec(n));
    lemma_read_digits(dec(n), max);
}

/// A failing prefix of the digits decides the error.
proof fn lemma_read_digits_prefix(d: Seq<char>, max: nat, k: int)
    requires
        0 <= k <= d.len(),
        read_digits(d.take(k), max) is Err,
    ensures
        read_digits(d, max) == read_digits(d.take(k), max),
    decreases d.len() - k,
{
    if k == d.len() {
        assert(d.take(k) =~= d);
    } else {
        assert(d.take(k + 1).drop_last() =~= d.take(k));
        assert(read_digits(d.take(k + 1), max) == read_digits(d.take(k), max));
        lemma_read_digits_prefix(d, max, k + 1);
    }
}

/// Parses the characters `from..to` of `v` as an unsigned integer of at most `max`.
pub fn parse_uint(v: &Vec<char>, from: usize, to: usize, max: u64) -> (r: Result<
    u64,
    ParseUintError,
>)
    requires
        from <= to <= v@.len(),
    ensures
        r is Ok <==> parse_uint_spec(v@.subrange(from as int, to as int), max as nat) is Ok,
        r is Ok ==> r->Ok_0 == parse_uint_spec(
            v@.subrange(from as int, to as int),
            max as nat,
        )->Ok_0,
        r is Err ==> r->Err_0 == parse_uint_spec(
            v@.subrange(from as int, to as int),
            max as nat,
        )->Err_0,
{
    let ghost s = v@.subrange(from as int, to as int);
    if from == to {
        return Err(ParseUintError::Empty);
    }
    let mut i: usize = from;
    if v[from] == '+' {
        i = from + 1;
        if i == to {
            assert(s.subrange(1, s.len() as int).len() == 0);
            return Err(ParseUintError::InvalidDigit);
        }
    }
    let ghost start = i as int;
    let ghost d = v@.subrange(start, to as int);
    assert(d =~= numeral_digits(s));
    let mut value: u64 = 0;
    assert(d.take(0) =~= Seq::<char>::empty());
    while i < to
        invariant
            from <= start <= i <= to <= v@.len(),
            d == v@.subrange(start, to as int),
            d == numeral_digits(s),
            s == v@.subrange(from as int, to as int),
            s.len() > 0,
            d.len() > 0,
            value <= max,
            read_digits(d.take(i - start), max as nat) == Ok::<nat, ParseUintError>(value as nat),
        decreases to - i,
    {
        let c: char = v[i];
        let ghost k = i - start;
        assert(d.take(k + 1).drop_last() =~= d.take(k));
        assert(d.take(k + 1).last() == c);
        if !(c >= '0' && c <= '9') {
            proof {
                lemma_read_digits_prefix(d, max as nat, k + 1);
            }
            return Err(ParseUintError::InvalidDigit);
        }
        let digit: u64 = (c as u32 - 48) as u64;
        let next: Option<u64> = match value.checked_mul(10) {
            Some(m) => m.checked_add(digit),
            None => None,
        };
        match next {
            Some(n) if n <= max => {
                value = n;
            },
            _ => {
                proof {
                    lemma_read_digits_prefix(d, max as nat, k + 1);
                }
                return Err(ParseUintError::PosOverflow);
            },
        }
        i = i + 1;
    }
    assert(d.take(d.len() as int) =~= d);
    Ok(value)
}

/// The numeral of an integer of either sign.
pub open spec fn signed_dec(n: int) -> Seq<char> {
    if n < 0 {
        "-"@ + dec((-n) as nat)
    } else {
        dec(n as nat)
    }
}

/// Appends a number in decimal, with a sign where it is negative.
pub fn push_signed(out: &mut String, n: i64)
    ensures
        final(out)@ == old(out)@ + signed_dec(n as int),
{
    let ghost base = out@;
    let wide: i128 = n as i128;
    if wide < 0 {
        out.push_str("-");
        let d: String = u128_to_dec((-wide) as u128);
        out.push_str(d.as_str());
    } else {
        let d: String = u128_to_dec(wide as u128);
        out.push_str(d.as_str());
    }
    assert(out@ =~= base + signed_dec(n as int));
}

/// Whether the characters of `pat` stand in `s` at place `i`.
pub open spec fn occurs_at(s: Seq<char>, pat: Seq<char>, i: int) -> bool {
    &&& 0 <= i
    &&& i + pat.len() <= s.len()
    &&& s.subrange(i, i + pat.len()) == pat
}

/// Whether `pat` stands anywhere in `s`.
pub open spec fn contains_text(s: Seq<char>, pat: Seq<char>) -> bool {
    exists|i: int| occurs_at(s, pat, i)
}

/// Whether `pat` stands in `v` at place `i`.
pub fn matches_at(v: &Vec<char>, pat: &Vec<char>, i: usize) -> (b: bool)
    ensures
        b == occurs_at(v@, pat@, i as int),
{
    if i > v.len() || v.len() - i < pat.len() {
        return false;
    }
    let n: usize = v.len();
    let mut k: usize = 0;
    while k < pat.len()
        invariant
            0 <= k <= pat@.len(),
            n == v@.len(),
            i + pat@.len() <= n,
            forall|j: int| 0 <= j < k ==> v@[i + j] == #[trigger] pat@[j],
        decreases pat@.len() - k,
    {
        if v[i + k] != pat[k] {
            assert(v@.subrange(i as int, i + pat@.len())[k as int] != pat@[k as int]);
            return false;
        }
        k = k + 1;
    }
    assert(v@.subrange(i as int, i + pat@.len()) =~= pat@);
    true
}

/// The first place at or after `from` where `pat` stands in `v`.
pub fn find_from(v: &Vec<char>, pat: &Vec<char>, from: usize) -> (r: Option<usize>)
    ensures
        match r {
            Some(i) => occurs_at(v@, pat@, i as int) && from <= i && (forall|j: int|
                from <= j < i ==> !occurs_at(v@, pat@, j)),
            None => forall|j: int| from <= j ==> !occurs_at(v@, pat@, j),
        },
{
    if pat.len() > v.len() {
        return None;
    }
    let last: usize = v.len() - pat.len();
    let mut i: usize = from;
    while i <= last
        invariant
            last == v@.len() - pat@.len(),
            from <= i,
            forall|j: int| from <= j < i ==> !occurs_at(v@, pat@, j),
        decreases last + 1 - i,
    {
        if matches_at(v, pat, i) {
            return Some(i);
        }
        if i == last {
            return None;
        }
        i = i + 1;
    }
    None
}

/// The first place at or after `from` where `pat` stands in `s`.
pub open spec fn first_occurrence(s: Seq<char>, pat: Seq<char>, from: int) -> Option<int>
    decreases s.len() + 1 - from,
{
    if from < 0 || from > s.len() {
        None
    } else if occurs_at(s, pat, from) {
        Some(from)
    } else {
        first_occurrence(s, pat, from + 1)
    }
}

/// The first occurrence is one, and none stands before it.
pub proof fn lemma_first_occurrence(s: Seq<char>, pat: Seq<char>, from: int)
    requires
        0 <= from,
    ensures
        match first_occurrence(s, pat, from) {
            Some(i) => from <= i && occurs_at(s, pat, i) && forall|j: int|
                from <= j < i ==> !occurs_at(s, pat, j),
            None => forall|j: int| from <= j ==> !occurs_at(s, pat, j),
        },
    decreases s.len() + 1 - from,
{
    if from <= s.len() && !occurs_at(s, pat, from) {
        lemma_first_occurrence(s, pat, from + 1);
    }
}

/// Whether the characters `from..to` of `v` are those of `lit`.
pub fn range_is(v: &Vec<char>, from: usize, to: usize, lit: &str) -> (b: bool)
    requires
        from <= to <= v@.len(),
    ensures
        b == (v@.subrange(from as int, to as int) == lit@),
{
    let p: Vec<char> = chars_of(lit);
    if p.len() != to - from {
        return false;
    }
    matches_at(v, &p, from)
}

/// Whether two texts are the same.
pub fn same_text(a: &str, b: &str) -> (r: bool)
    ensures
        r == (a@ == b@),
{
    let v: Vec<char> = chars_of(a);
    assert(v@.subrange(0, v@.len() as int) =~= a@);
    range_is(&v, 0, v.len(), b)
}

/// Whether `pat` stands anywhere in `s`.
pub fn str_contains(s: &str, pat: &str) -> (b: bool)
    ensures
        b == contains_text(s@, pat@),
{
    let v: Vec<char> = chars_of(s);
    let p: Vec<char> = chars_of(pat);
    match find_from(&v, &p, 0) {
        Some(_) => true,
        None => false,
    }
}

/// The last place of `c` in `s`, where it has one.
pub open spec fn last_index_of(s: Seq<char>, c: char) -> Option<int>
    decreases s.len(),
{
    if s.len() == 0 {
        None
    } else if s.last() == c {
        Some(s.len() - 1)
    } else {
        last_index_of(s.drop_last(), c)
    }
}

/// The first place of `c` in `s`, where it has one.
pub open spec fn first_index_of(s: Seq<char>, c: char) -> Option<int>
    decreases s.len(),
{
    if s.len() == 0 {
        None
    } else if s[0] == c {
        Some(0)
    } else {
        match first_index_of(s.skip(1), c) {
            Some(i) => Some(i + 1),
            None => None,
        }
    }
}

/// The last place is one of `c`, and `c` does not stand after it.
pub proof fn lemma_last_index(s: Seq<char>, c: char)
    ensures
        match last_index_of(s, c) {
            Some(i) => 0 <= i < s.len() && s[i] == c && forall|j: int|
                i < j < s.len() ==> s[j] != c,
            None => forall|j: int| 0 <= j < s.len() ==> s[j] != c,
        },
    decreases s.len(),
{
    if s.len() > 0 && s.last() != c {
        lemma_last_index(s.drop_last(), c);
        assert forall|j: int|
            0 <= j < s.len() && (last_index_of(s, c) matches Some(i) ==> i < j) implies s[j]
            != c by {
            if j < s.len() - 1 {
                assert(s.drop_last()[j] == s[j]);
            }
        }
    }
}

/// The last place of `c` among the characters `from..to` of `v`.
pub fn rfind_char(v: &Vec<char>, from: usize, to: usize, c: char) -> (r: Option<usize>)
    requires
        from <= to <= v@.len(),
    ensures
        match r {
            Some(i) => from <= i < to && last_index_of(v@.subrange(from as int, to as int), c)
                == Some(i - from),
            None => last_index_of(v@.subrange(from as int, to as int), c) is None,
        },
{
    let ghost s = v@.subrange(from as int, to as int);
    let mut i: usize = to;
    assert(s.take(s.len() as int) =~= s);
    while i > from
        invariant
            from <= i <= to <= v@.len(),
            s == v@.subrange(from as int, to as int),
            last_index_of(s, c) == last_index_of(s.take(i - from), c),
        decreases i,
    {
        assert(s.take(i - from).drop_last() =~= s.take(i - from - 1));
        assert(s.take(i - from).last() == v@[i - 1]);
        i = i - 1;
        if v[i] == c {
            return Some(i);
        }
    }
    assert(s.take(0) =~= Seq::empty());
    None
}

/// The first place of `c` among the characters `from..to` of `v`.
pub fn find_char(v: &Vec<char>, from: usize, to: usize, c: char) -> (r: Option<usize>)
    requires
        from <= to <= v@.len(),
    ensures
        match r {
            Some(i) => from <= i < to && first_index_of(v@.subrange(from as int, to as int), c)
                == Some(i - from),
            None => first_index_of(v@.subrange(from as int, to as int), c) is None,
        },
{
    let ghost s = v@.subrange(from as int, to as int);
    let mut i: usize = from;
    assert(s.skip(0) =~= s);
    while i < to
        invariant
            from <= i <= to <= v@.len(),
            s == v@.subrange(from as int, to as int),
            match first_index_of(s.skip(i - from), c) {
                Some(k) => first_index_of(s, c) == Some(k + (i - from)),
                None => first_index_of(s, c) is None,
            },
        decreases to - i,
    {
        assert(s.skip(i - from).skip(1) =~= s.skip(i - from + 1));
        assert(s.skip(i - from)[0] == v@[i as int]);
        if v[i] == c {
            return Some(i);
        }
        i = i + 1;
    }
    assert(s.skip(to - from) =~= Seq::empty());
    None
}

/// Whether `s` starts with `pat`.
pub open spec fn starts_with(s: Seq<char>, pat: Seq<char>) -> bool {
    occurs_at(s, pat, 0)
}

/// The characters that Unicode counts as white space.
pub open spec fn is_space(c: char) -> bool {
    let n = c as u32;
    ||| 9 <= n <= 13
    ||| n == 0x20
    ||| n == 0x85
    ||| n == 0xa0
    ||| n == 0x1680
    ||| 0x2000 <= n <= 0x200a
    ||| n == 0x2028
    ||| n == 0x2029
    ||| n == 0x202f
    ||| n == 0x205f
    ||| n == 0x3000
}

/// Whether Unicode counts `c` as white space.
pub fn char_is_space(c: char) -> (b: bool)
    ensures
        b == is_space(c),
{
    let n: u32 = c as u32;
    (9 <= n && n <= 13) || n == 0x20 || n == 0x85 || n == 0xa0 || n == 0x1680 || (0x2000 <= n && n
        <= 0x200a) || n == 0x2028 || n == 0x2029 || n == 0x202f || n == 0x205f || n == 0x3000
}

/// `s` without the white space at its start.
pub open spec fn trim_start_spec(s: Seq<char>) -> Seq<char>
    decreases s.len(),
{
    if s.len() > 0 && is_space(s[0]) {
        trim_start_spec(s.subrange(1, s.len() as int))
    } else {
        s
    }
}

/// `s` without the white space at its end.
pub open spec fn trim_end_spec(s: Seq<char>) -> Seq<char>
    decreases s.len(),
{
    if s.len() > 0 && is_space(s.last()) {
        trim_end_spec(s.drop_last())
    } else {
        s
    }
}

/// `s` without the white space at its start and its end.
pub open spec fn trim_spec(s: Seq<char>) -> Seq<char> {
    trim_end_spec(trim_start_spec(s))
}

/// The bounds of what is left of the characters `from..to` of `v` without the
/// white space at both ends.
pub fn trim_bounds(v: &Vec<char>, from: usize, to: usize) -> (r: (usize, usize))
    requires
        from <= to <= v@.len(),
    ensures
        from <= r.0 <= r.1 <= to,
        v@.subrange(r.0 as int, r.1 as int) == trim_spec(v@.subrange(from as int, to as int)),
{
    let ghost s = v@.subrange(from as int, to as int);
    let mut a: usize = from;
    while a < to && char_is_space(v[a])
        invariant
            from <= a <= to <= v@.len(),
            trim_start_spec(s) == trim_start_spec(v@.subrange(a as int, to as int)),
        decreases to - a,
    {
        assert(v@.subrange(a as int, to as int).subrange(1, to - a) =~= v@.subrange(
            a + 1,
            to as int,
        ));
        a = a + 1;
    }
    let ghost t = v@.subrange(a as int, to as int);
    assert(trim_start_spec(t) == t);
    let mut b: usize = to;
    while b > a && char_is_space(v[b - 1])
        invariant
            a <= b <= to <= v@.len(),
            trim_end_spec(t) == trim_end_spec(v@.subrange(a as int, b as int)),
        decreases b,
    {
        assert(v@.subrange(a as int, b as int).drop_last() =~= v@.subrange(a as int, b - 1));
        b = b - 1;
    }
    (a, b)
}

/// The last digit of a numeral is the remainder by ten, and the digits before it are the
/// numeral of the quotient; a number below ten is one digit. Numerals of different numbers
/// differ, and none but that of zero starts with a zero.
pub proof fn law_numerals_are_decimal(n: nat, m: nat)
    ensures
        n < 10 ==> dec(n).len() == 1 && dec(n)[0] as int == '0' as int + n,
        n >= 10 ==> dec(n).drop_last() == dec(n / 10) && dec(n).last() as int == '0' as int + n
            % 10,
        dec(n) == dec(m) ==> n == m,
        n > 0 ==> dec(n)[0] != '0',
        forall|i: int| 0 <= i < dec(n).len() ==> '0' <= #[trigger] dec(n)[i] <= '9',
    decreases n,
{
    lemma_dec(n);
    lemma_dec(m);
    if n >= 10 {
        law_numerals_are_decimal(n / 10, m);
        assert(dec(n).drop_last() =~= dec(n / 10));
        lemma_dec(n / 10);
        assert(dec(n)[0] == dec(n / 10)[0]);
    }
    assert forall|i: int| 0 <= i < dec(n).len() implies '0' <= #[trigger] dec(n)[i] <= '9' by {
        assert(is_digit(dec(n)[i]));
    }
}

/// The value of digits is positional: one more digit makes tenfold what was there, and adds
/// itself.
pub proof fn law_digits_are_positional(s: Seq<char>, c: char)
    requires
        '0' <= c <= '9',
    ensures
        dec_value(Seq::empty()) == 0,
        dec_value(s.push(c)) == 10 * dec_value(s) + (c as int - '0' as int),
{
    assert(s.push(c).drop_last() =~= s);
}

/// A padded numeral has the width, unless it needs more, and is the numeral behind zeros.
pub proof fn law_padding_is_zeros_in_front(n: nat, width: nat)
    ensures
        dec_padded(n, width).len() >= width,
        dec_padded(n, width).len() == width || dec_padded(n, width) == dec(n),
        dec_padded(n, width).skip(dec_padded(n, width).len() - dec(n).len()) == dec(n),
        forall|i: int|
            0 <= i < dec_padded(n, width).len() - dec(n).len() ==> #[trigger] dec_padded(
                n,
                width,
            )[i] == '0',
{
    let p = dec_padded(n, width);
    assert(p.skip(p.len() - dec(n).len()) =~= dec(n));
}

/// A text reads as a number exactly where it is digits alone behind an optional plus sign, at
/// least one, whose value is at most the greatest one; it reads as that value. An empty text
/// and too great a value are told apart from every other fault.
pub proof fn law_texts_read_as_numbers(s: Seq<char>, d: Seq<char>, max: nat)
    requires
        s == d && !(s.len() > 0 && s[0] == '+') || s == seq!['+'] + d,
    ensures
        parse_uint_spec(s, max) is Ok <==> d.len() > 0 && (forall|i: int|
            0 <= i < d.len() ==> '0' <= #[trigger] d[i] <= '9') && dec_value(d) <= max,
        parse_uint_spec(s, max) is Ok ==> parse_uint_spec(s, max)->Ok_0 == dec_value(d),
        parse_uint_spec(s, max) == Err::<nat, ParseUintError>(ParseUintError::Empty) <==> s.len()
            == 0,
        s.len() > 0 && d.len() == 0 ==> parse_uint_spec(s, max) == Err::<nat, ParseUintError>(
            ParseUintError::InvalidDigit,
        ),
        d.len() > 0 && (forall|i: int| 0 <= i < d.len() ==> '0' <= #[trigger] d[i] <= '9')
            && dec_value(d) > max ==> parse_uint_spec(s, max) == Err::<nat, ParseUintError>(
            ParseUintError::PosOverflow,
        ),
        (exists|i: int| 0 <= i < d.len() && !('0' <= #[trigger] d[i] <= '9'))
            && dec_value_before_fault(d) <= max ==> parse_uint_spec(s, max) == Err::<
            nat,
            ParseUintError,
        >(ParseUintError::InvalidDigit),
{
    assert(numeral_digits(s) =~= d);
    lemma_read_digits(d, max);
    lemma_read_never_empty(d, max);
    lemma_read_fault(d, max);
    assert(all_digits(d) <==> forall|i: int| 0 <= i < d.len() ==> '0' <= #[trigger] d[i] <= '9') by {
        if forall|i: int| 0 <= i < d.len() ==> '0' <= #[trigger] d[i] <= '9' {
            assert forall|i: int| 0 <= i < d.len() implies is_digit(#[trigger] d[i]) by {}
        }
        if all_digits(d) {
            assert forall|i: int| 0 <= i < d.len() implies '0' <= #[trigger] d[i] <= '9' by {
                assert(is_digit(d[i]));
            }
        }
    }
    if exists|i: int| 0 <= i < d.len() && !('0' <= #[trigger] d[i] <= '9') {
        let i = choose|i: int| 0 <= i < d.len() && !('0' <= #[trigger] d[i] <= '9');
        assert(!is_digit(d[i]));
    }
}

/// The value of the digits before the first character that is none.
pub open spec fn dec_value_before_fault(d: Seq<char>) -> nat
    decreases d.len(),
{
    if d.len() == 0 {
        0
    } else if forall|i: int| 0 <= i < d.len() ==> '0' <= #[trigger] d[i] <= '9' {
        dec_value(d)
    } else {
        dec_value_before_fault(d.drop_last())
    }
}

proof fn lemma_read_never_empty(d: Seq<char>, max: nat)
    ensures
        read_digits(d, max) != Err::<nat, ParseUintError>(ParseUintError::Empty),
        all_digits(d) && dec_value(d) > max ==> read_digits(d, max) == Err::<nat, ParseUintError>(
            ParseUintError::PosOverflow,
        ),
    decreases d.len(),
{
    if d.len() > 0 {
        lemma_read_never_empty(d.drop_last(), max);
        lemma_read_digits(d.drop_last(), max);
        if all_digits(d) {
            assert(is_digit(d[d.len() - 1]));
            assert forall|i: int| 0 <= i < d.drop_last().len() implies is_digit(
                #[trigger] d.drop_last()[i],
            ) by {
                assert(is_digit(d[i]));
            }
        }
    }
}

proof fn lemma_read_fault(d: Seq<char>, max: nat)
    ensures
        !all_digits(d) && dec_value_before_fault(d) <= max ==> read_digits(d, max) == Err::<
            nat,
            ParseUintError,
        >(ParseUintError::InvalidDigit),
    decreases d.len(),
{
    if !all_digits(d) && d.len() > 0 {
        let before = d.drop_last();
        assert(!(forall|i: int| 0 <= i < d.len() ==> '0' <= #[trigger] d[i] <= '9')) by {
            let i = choose|i: int| 0 <= i < d.len() && !is_digit(#[trigger] d[i]);
            assert(!('0' <= d[i] <= '9'));
        }
        lemma_read_fault(before, max);
        lemma_read_digits(before, max);
        if all_digits(before) {
            assert(!is_digit(d.last())) by {
                if is_digit(d.last()) {
                    assert forall|i: int| 0 <= i < d.len() implies is_digit(#[trigger] d[i]) by {
                        if i < before.len() {
                            assert(is_digit(before[i]));
                        }
                    }
                }
            }
            assert(forall|i: int| 0 <= i < before.len() ==> '0' <= #[trigger] before[i] <= '9') by {
                assert forall|i: int| 0 <= i < before.len() implies '0' <= #[trigger] before[i]
                    <= '9' by {
                    assert(is_digit(before[i]));
                }
            }
            assert(dec_value_before_fault(before) == dec_value(before));
        }
    }
}

/// A number that is not negative is its numeral, a negative one that of its magnitude behind
/// a minus sign; numbers that differ have texts that differ.
pub proof fn law_signs_stand_in_front(n: int, m: int)
    ensures
        n >= 0 ==> signed_dec(n) == dec(n as nat),
        n < 0 ==> signed_dec(n) == seq!['-'] + dec((-n) as nat),
        signed_dec(n) == signed_dec(m) ==> n == m,
{
    reveal_strlit("-");
    assert("-"@ =~= seq!['-']);
    let a = if n < 0 {
        (-n) as nat
    } else {
        n as nat
    };
    let b = if m < 0 {
        (-m) as nat
    } else {
        m as nat
    };
    law_numerals_are_decimal(a, b);
    law_numerals_are_decimal(b, a);
    lemma_dec(a);
    lemma_dec(b);
    if signed_dec(n) == signed_dec(m) {
        assert('0' <= dec(a)[0] <= '9');
        assert('0' <= dec(b)[0] <= '9');
        if n < 0 {
            assert(signed_dec(n)[0] == '-');
            assert(signed_dec(n).skip(1) =~= dec(a));
        } else {
            assert(signed_dec(n)[0] == dec(a)[0]);
        }
        if m < 0 {
            assert(signed_dec(m)[0] == '-');
            assert(signed_dec(m).skip(1) =~= dec(b));
        } else {
            assert(signed_dec(m)[0] == dec(b)[0]);
        }
    }
}

/// A text stands at a place exactly where it is what follows the characters before that
/// place; a text that is put between two others stands in the whole, and a whole starts with
/// what is put in front.
pub proof fn law_texts_are_found(before: Seq<char>, pat: Seq<char>, after: Seq<char>)
    ensures
        occurs_at(before + pat + after, pat, before.len() as int),
        contains_text(before + pat + after, pat),
        starts_with(pat + after, pat),
{
    let s = before + pat + after;
    assert(s.subrange(before.len() as int, before.len() as int + pat.len()) =~= pat);
    assert((pat + after).subrange(0, 0int + pat.len()) =~= pat);
    assert(occurs_at(s, pat, before.len() as int));
}

/// What is found stands there: the whole is what comes before it, the text and what comes
/// after it.
pub proof fn law_found_texts_stand_there(s: Seq<char>, pat: Seq<char>, i: int)
    ensures
        occurs_at(s, pat, i) ==> 0 <= i <= i + pat.len() <= s.len() && s == s.take(i) + pat
            + s.skip(i + pat.len()),
        starts_with(s, pat) ==> pat.len() <= s.len() && s == pat + s.skip(pat.len() as int),
        contains_text(s, pat) ==> exists|before: Seq<char>, after: Seq<char>|
            s == #[trigger] (before + pat + after),
{
    if occurs_at(s, pat, i) {
        assert(s =~= s.take(i) + s.subrange(i, i + pat.len()) + s.skip(i + pat.len()));
    }
    if starts_with(s, pat) {
        assert(s =~= s.subrange(0, 0int + pat.len()) + s.skip(pat.len() as int));
    }
    if contains_text(s, pat) {
        let k = choose|k: int| occurs_at(s, pat, k);
        assert(s =~= s.take(k) + s.subrange(k, k + pat.len()) + s.skip(k + pat.len()));
        assert(s == s.take(k) + pat + s.skip(k + pat.len()));
    }
}

/// The first place of a character is one of it, and it does not stand before it; where there
/// is none, it does not stand in the text.
pub proof fn law_first_index(s: Seq<char>, c: char)
    ensures
        match first_index_of(s, c) {
            Some(i) => 0 <= i < s.len() && s[i] == c && forall|j: int|
                0 <= j < i ==> s[j] != c,
            None => forall|j: int| 0 <= j < s.len() ==> s[j] != c,
        },
    decreases s.len(),
{
    if s.len() > 0 && s[0] != c {
        let rest = s.skip(1);
        law_first_index(rest, c);
        assert forall|j: int|
            0 <= j < s.len() && (first_index_of(s, c) matches Some(i) ==> j < i) implies s[j]
            != c by {
            if j > 0 {
                assert(rest[j - 1] == s[j]);
            }
        }
    }
}

/// Blanks, tabs and line ends are white space, and no printable ASCII character is.
pub proof fn law_white_space(c: char)
    ensures
        c == ' ' || c == '\t' || c == '\n' || c == '\r' ==> is_space(c),
        '!' <= c <= '~' ==> !is_space(c),
{
}

/// What is left of a trimmed text is one run of it: everything in front and behind is white
/// space, and its first and last characters are not.
pub proof fn law_trimming_takes_the_ends(s: Seq<char>)
    ensures
        exists|i: int, j: int|
            0 <= i <= j <= s.len() && trim_spec(s) == #[trigger] s.subrange(i, j) && (forall|k: int|
                0 <= k < i || j <= k < s.len() ==> is_space(#[trigger] s[k])),
        trim_spec(s).len() > 0 ==> !is_space(trim_spec(s)[0]) && !is_space(trim_spec(s).last()),
{
    lemma_trim_start(s);
    let t = trim_start_spec(s);
    lemma_trim_end(t);
    let i = s.len() - t.len();
    let j = i + trim_spec(s).len();
    assert(trim_spec(s) =~= s.subrange(i, j));
    assert forall|k: int| 0 <= k < i || j <= k < s.len() implies is_space(#[trigger] s[k]) by {
        if k >= j {
            assert(s[k] == t[k - i]);
        }
    }
}

proof fn lemma_trim_start(s: Seq<char>)
    ensures
        trim_start_spec(s).len() <= s.len(),
        trim_start_spec(s) == s.skip(s.len() - trim_start_spec(s).len()),
        trim_start_spec(s).len() > 0 ==> !is_space(trim_start_spec(s)[0]),
        forall|k: int| 0 <= k < s.len() - trim_start_spec(s).len() ==> is_space(#[trigger] s[k]),
    decreases s.len(),
{
    if s.len() > 0 && is_space(s[0]) {
        let rest = s.subrange(1, s.len() as int);
        lemma_trim_start(rest);
        let t = trim_start_spec(s);
        assert(t =~= s.skip(s.len() - t.len()));
        assert forall|k: int| 0 <= k < s.len() - t.len() implies is_space(#[trigger] s[k]) by {
            if k > 0 {
                assert(rest[k - 1] == s[k]);
            }
        }
    } else {
        assert(s.skip(0) =~= s);
    }
}

proof fn lemma_trim_end(s: Seq<char>)
    ensures
        trim_end_spec(s).len() <= s.len(),
        trim_end_spec(s) == s.take(trim_end_spec(s).len() as int),
        trim_end_spec(s).len() > 0 ==> !is_space(trim_end_spec(s).last()) && trim_end_spec(s)[0]
            == s[0],
        forall|k: int| trim_end_spec(s).len() <= k < s.len() ==> is_space(#[trigger] s[k]),
    decreases s.len(),
{
    if s.len() > 0 && is_space(s.last()) {
        let rest = s.drop_last();
        lemma_trim_end(rest);
        let t = trim_end_spec(s);
        assert(t =~= s.take(t.len() as int));
        assert forall|k: int| t.len() <= k < s.len() implies is_space(#[trigger] s[k]) by {
            if k < rest.len() {
                assert(rest[k] == s[k]);
            }
        }
    } else {
        assert(s.take(s.len() as int) =~= s);
    }
}

/// Each fault of a number has its own sentence.
pub proof fn law_number_faults_are_told_apart(a: ParseUintError, b: ParseUintError)
    ensures
        a.text() == b.text() ==> a == b,
{
    reveal_strlit("cannot parse integer from empty string");
    reveal_strlit("invalid digit found in string");
    reveal_strlit("number too large to fit in target type");
    assert("cannot parse integer from empty string"@[0] == 'c');
    assert("invalid digit found in string"@[0] == 'i');
    assert("number too large to fit in target type"@[0] == 'n');
}

} // verus!
