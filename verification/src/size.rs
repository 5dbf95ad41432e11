//! Byte sizes written by people: `4096`, `64k`, `1M`, `2G`, `1T`.
use vstd::prelude::*;

verus! {

/// Why a text is not a byte size.
#[derive(Clone, Copy, Debug, PartialEq, Eq, Structural)]
pub enum ParseSizeError {
    /// There is no number.
    Empty,
    /// The number holds something other than digits behind an optional plus sign, or no digit.
    InvalidDigit,
    /// The number does not fit in 64 bits.
    PosOverflow,
}

/// The characters with the Unicode property `White_Space`.
pub open spec fn is_whitespace(c: char) -> bool {
    ||| 0x9 <= c as u32 <= 0xd
    ||| c as u32 == 0x20
    ||| c as u32 == 0x85
    ||| c as u32 == 0xa0
    ||| c as u32 == 0x1680
    ||| 0x2000 <= c as u32 <= 0x200a
    ||| c as u32 == 0x2028
    ||| c as u32 == 0x2029
    ||| c as u32 == 0x202f
    ||| c as u32 == 0x205f
    ||| c as u32 == 0x3000
}

/// `s` without the whitespace at its start.
pub open spec fn trim_start(s: Seq<char>) -> Seq<char>
    decreases s.len(),
{
    if s.len() > 0 && is_whitespace(s[0]) {
        trim_start(s.skip(1))
    } else {
        s
    }
}

/// `s` without the whitespace at its end.
pub open spec fn trim_end(s: Seq<char>) -> Seq<char>
    decreases s.len(),
{
    if s.len() > 0 && is_whitespace(s.last()) {
        trim_end(s.drop_last())
    } else {
        s
    }
}

/// `s` without the whitespace at either end.
pub open spec fn trim(s: Seq<char>) -> Seq<char> {
    trim_end(trim_start(s))
}

/// Whether `c` is a decimal digit.
pub open spec fn is_digit(c: char) -> bool {
    '0' <= c <= '9'
}

/// The value of a run of digits that continues a number whose digits so far amount to `acc`.
/// The first character that cannot be taken decides the error.
pub open spec fn digits_value(s: Seq<char>, acc: nat) -> Result<nat, ParseSizeError>
    decreases s.len(),
{
    if s.len() == 0 {
        Ok(acc)
    } else if !is_digit(s[0]) {
        Err(ParseSizeError::InvalidDigit)
    } else {
        let next = acc * 10 + (s[0] as u32 - '0' as u32) as nat;
        if next > u64::MAX {
            Err(ParseSizeError::PosOverflow)
        } else {
            digits_value(s.skip(1), next)
        }
    }
}

/// The value of a decimal number with an optional plus sign.
pub open spec fn decimal_value(s: Seq<char>) -> Result<nat, ParseSizeError> {
    if s.len() == 0 {
        Err(ParseSizeError::Empty)
    } else if s[0] == '+' && s.len() > 1 {
        digits_value(s.skip(1), 0)
    } else {
        digits_value(s, 0)
    }
}

/// The factor that the last character of `s` stands for; 1 if it is no unit.
pub open spec fn unit_of(s: Seq<char>) -> nat {
    if s.len() == 0 {
        1
    } else if s.last() == 'T' {
        0x100_0000_0000
    } else if s.last() == 'G' {
        0x4000_0000
    } else if s.last() == 'M' {
        0x10_0000
    } else if s.last() == 'k' {
        0x400
    } else {
        1
    }
}

/// `s` without the unit that it ends with, if any.
pub open spec fn without_unit(s: Seq<char>) -> Seq<char> {
    if unit_of(s) == 1 {
        s
    } else {
        s.drop_last()
    }
}

/// The number of bytes that a text denotes, as a number of any magnitude.
pub open spec fn byte_size(s: Seq<char>) -> Result<nat, ParseSizeError> {
    match decimal_value(without_unit(trim(s))) {
        Ok(v) => Ok(v * unit_of(trim(s))),
        Err(e) => Err(e),
    }
}

fn whitespace(c: char) -> (r: bool)
    ensures
        r == is_whitespace(c),
{
    let u: u32 = c as u32;
    (0x9 <= u && u <= 0xd) || u == 0x20 || u == 0x85 || u == 0xa0 || u == 0x1680 || (0x2000 <= u
        && u <= 0x200a) || u == 0x2028 || u == 0x2029 || u == 0x202f || u == 0x205f || u == 0x3000
}

fn chars_of(s: &str) -> (v: Vec<char>)
    ensures
        v@ == s@,
{
    let mut v: Vec<char> = Vec::new();
    for c in it: s.chars()
        invariant
            v@ == it.seq().take(it.index()),
            it.seq() == s@,
    {
        v.push(c);
    }
    v
}

proof fn lemma_trim_start_at(s: Seq<char>, k: int)
    requires
        0 <= k <= s.len(),
        forall|i: int| 0 <= i < k ==> is_whitespace(s[i]),
    ensures
        trim_start(s) == trim_start(s.skip(k)),
    decreases k,
{
    if k > 0 {
        assert(s.skip(1).skip(k - 1) =~= s.skip(k));
        lemma_trim_start_at(s.skip(1), k - 1);
    } else {
        assert(s.skip(0) =~= s);
    }
}

proof fn lemma_trim_end_at(s: Seq<char>, k: int)
    requires
        0 <= k <= s.len(),
        forall|i: int| k <= i < s.len() ==> is_whitespace(s[i]),
    ensures
        trim_end(s) == trim_end(s.take(k)),
    decreases s.len() - k,
{
    if k < s.len() {
        assert(s.drop_last().take(k) =~= s.take(k));
        lemma_trim_end_at(s.drop_last(), k);
    } else {
        assert(s.take(k) =~= s);
    }
}

/// Finds the span of `v` that is left when whitespace is taken off both ends.
fn trimmed_span(v: &Vec<char>) -> (r: (usize, usize))
    ensures
        r.0 <= r.1 <= v@.len(),
        v@.subrange(r.0 as int, r.1 as int) == trim(v@),
{
    let mut start: usize = 0;
    while start < v.len() && whitespace(v[start])
        invariant
            start <= v@.len(),
            forall|i: int| 0 <= i < start ==> is_whitespace(v@[i]),
        decreases v@.len() - start,
    {
        start += 1;
    }
    let ghost rest = v@.skip(start as int);
    proof {
        lemma_trim_start_at(v@, start as int);
        assert(trim_start(v@) == rest);
    }
    let mut end: usize = v.len();
    while end > start && whitespace(v[end - 1])
        invariant
            start <= end <= v@.len(),
            forall|i: int| end <= i < v@.len() ==> is_whitespace(v@[i]),
        decreases end,
    {
        end -= 1;
    }
    proof {
        lemma_trim_end_at(rest, end - start);
        assert(rest.take(end - start) =~= v@.subrange(start as int, end as int));
        let t = v@.subrange(start as int, end as int);
        if t.len() > 0 {
            assert(t.last() == v@[end - 1]);
        }
    }
    (start, end)
}

/// Reads the digits `v[from..to]`.
fn parse_digits(v: &Vec<char>, from: usize, to: usize) -> (r: Result<u64, ParseSizeError>)
    requires
        from <= to <= v@.len(),
    ensures
        match r {
            Ok(n) => digits_value(v@.subrange(from as int, to as int), 0) == Ok::<
                nat,
                ParseSizeError,
            >(n as nat),
            Err(e) => digits_value(v@.subrange(from as int, to as int), 0) == Err::<
                nat,
                ParseSizeError,
            >(e),
        },
{
    let mut acc: u64 = 0;
    let mut i: usize = from;
    let ghost all = v@.subrange(from as int, to as int);
    while i < to
        invariant
            from <= i <= to <= v@.len(),
            all == v@.subrange(from as int, to as int),
            digits_value(all, 0) == digits_value(v@.subrange(i as int, to as int), acc as nat),
        decreases to - i,
    {
        let c = v[i];
        let ghost rest = v@.subrange(i as int, to as int);
        assert(rest[0] == c);
        assert(rest.skip(1) =~= v@.subrange(i + 1, to as int));
        if !('0' <= c && c <= '9') {
            return Err(ParseSizeError::InvalidDigit);
        }
        let d: u64 = (c as u32 - '0' as u32) as u64;
        if acc > u64::MAX / 10 {
            return Err(ParseSizeError::PosOverflow);
        }
        let shifted: u64 = acc * 10;
        if shifted > u64::MAX - d {
            return Err(ParseSizeError::PosOverflow);
        }
        acc = shifted + d;
        i += 1;
    }
    assert(v@.subrange(to as int, to as int).len() == 0);
    Ok(acc)
}

/// Reads the decimal number `v[from..to]`.
fn parse_decimal(v: &Vec<char>, from: usize, to: usize) -> (r: Result<u64, ParseSizeError>)
    requires
        from <= to <= v@.len(),
    ensures
        match r {
            Ok(n) => decimal_value(v@.subrange(from as int, to as int)) == Ok::<
                nat,
                ParseSizeError,
            >(n as nat),
            Err(e) => decimal_value(v@.subrange(from as int, to as int)) == Err::<
                nat,
                ParseSizeError,
            >(e),
        },
{
    let ghost all = v@.subrange(from as int, to as int);
    if from == to {
        return Err(ParseSizeError::Empty);
    }
    assert(all[0] == v@[from as int]);
    if v[from] == '+' && to - from > 1 {
        assert(all.skip(1) =~= v@.subrange(from + 1, to as int));
        parse_digits(v, from + 1, to)
    } else {
        parse_digits(v, from, to)
    }
}

/// Parses a byte size: a decimal number, optionally followed by one of the units `k`, `M`, `G`
/// and `T`, which stand for powers of 1024. Whitespace around the whole is ignored.
pub fn parse_byte_size(s: &str) -> (r: Result<u64, ParseSizeError>)
    requires
        byte_size(s@) matches Ok(v) ==> v <= u64::MAX,
    ensures
        match r {
            Ok(v) => byte_size(s@) == Ok::<nat, ParseSizeError>(v as nat),
            Err(e) => byte_size(s@) == Err::<nat, ParseSizeError>(e),
        },
{
    let v = chars_of(s);
    let (from, to) = trimmed_span(&v);
    let ghost t = trim(v@);
    let multiplier: u64 = if from == to {
        1
    } else {
        assert(t.last() == v@[to - 1]);
        match v[to - 1] {
            'T' => 1024 * 1024 * 1024 * 1024,
            'G' => 1024 * 1024 * 1024,
            'M' => 1024 * 1024,
            'k' => 1024,
            _ => 1,
        }
    };
    assert(multiplier == unit_of(t));
    let digits_to: usize = if multiplier == 1 {
        to
    } else {
        to - 1
    };
    assert(v@.subrange(from as int, digits_to as int) =~= without_unit(t));
    match parse_decimal(&v, from, digits_to) {
        Ok(n) => Ok(n * multiplier),
        Err(e) => Err(e),
    }
}

proof fn lemma_trim_start_append(s: Seq<char>, ws: Seq<char>)
    requires
        forall|i: int| 0 <= i < ws.len() ==> is_whitespace(ws[i]),
    ensures
        trim_end(trim_start(s + ws)) == trim_end(trim_start(s)),
    decreases s.len(),
{
    if s.len() == 0 {
        assert(s + ws =~= ws);
        lemma_trim_start_at(ws, ws.len() as int);
        assert(ws.skip(ws.len() as int) =~= s);
    } else if is_whitespace(s[0]) {
        assert((s + ws).skip(1) =~= s.skip(1) + ws);
        lemma_trim_start_append(s.skip(1), ws);
    } else {
        lemma_trim_end_at(s + ws, s.len() as int);
        assert((s + ws).take(s.len() as int) =~= s);
    }
}

/// Whitespace around a byte size does not matter.
pub proof fn law_surrounding_whitespace_is_ignored(
    before: Seq<char>,
    s: Seq<char>,
    after: Seq<char>,
)
    requires
        forall|i: int| 0 <= i < before.len() ==> is_whitespace(before[i]),
        forall|i: int| 0 <= i < after.len() ==> is_whitespace(after[i]),
    ensures
        byte_size(before + s + after) == byte_size(s),
{
    let all = before + s + after;
    lemma_trim_start_at(all, before.len() as int);
    assert(all.skip(before.len() as int) =~= s + after);
    lemma_trim_start_append(s, after);
}

proof fn lemma_digits_all(s: Seq<char>, acc: nat)
    requires
        digits_value(s, acc) is Ok,
    ensures
        forall|i: int| 0 <= i < s.len() ==> is_digit(s[i]),
    decreases s.len(),
{
    if s.len() > 0 {
        let next = acc * 10 + (s[0] as u32 - '0' as u32) as nat;
        lemma_digits_all(s.skip(1), next);
        assert forall|i: int| 0 <= i < s.len() implies is_digit(s[i]) by {
            if i > 0 {
                assert(s[i] == s.skip(1)[i - 1]);
            }
        }
    }
}

proof fn lemma_decimal_ends(s: Seq<char>)
    requires
        decimal_value(s) is Ok,
    ensures
        s.len() > 0,
        s[0] == '+' || is_digit(s[0]),
        is_digit(s.last()),
{
    if s[0] == '+' && s.len() > 1 {
        lemma_digits_all(s.skip(1), 0);
        assert(s.last() == s.skip(1).last());
    } else {
        lemma_digits_all(s, 0);
    }
}

/// A number on its own is that many bytes.
pub proof fn law_plain_number_counts_bytes(s: Seq<char>)
    requires
        decimal_value(s) is Ok,
    ensures
        byte_size(s) == decimal_value(s),
{
    lemma_decimal_ends(s);
}

/// A number with a unit behind it is that many times the unit.
pub proof fn law_unit_multiplies(s: Seq<char>, unit: char)
    requires
        decimal_value(s) is Ok,
        unit == 'k' || unit == 'M' || unit == 'G' || unit == 'T',
    ensures
        byte_size(s.push(unit)) == Ok::<nat, ParseSizeError>(
            decimal_value(s)->Ok_0 * (if unit == 'k' {
                1024nat
            } else if unit == 'M' {
                1024 * 1024
            } else if unit == 'G' {
                1024 * 1024 * 1024
            } else {
                1024 * 1024 * 1024 * 1024
            }),
        ),
{
    lemma_decimal_ends(s);
    let t = s.push(unit);
    assert(t[0] == s[0]);
    assert(t.last() == unit);
    assert(t.drop_last() =~= s);
}

/// The number that digits amount to when they continue a number whose digits so far amount to
/// `acc`, however large it gets.
pub open spec fn digits_number(acc: nat, digits: Seq<char>) -> nat
    decreases digits.len(),
{
    if digits.len() == 0 {
        acc
    } else {
        digits_number(acc, digits.drop_last()) * 10 + (digits.last() as u32 - '0' as u32) as nat
    }
}

/// Whether there are only the digits from `0` to `9`.
pub open spec fn only_digits(s: Seq<char>) -> bool {
    forall|i: int| 0 <= i < s.len() ==> '0' <= #[trigger] s[i] <= '9'
}

proof fn lemma_digits_number_from_the_front(acc: nat, p: Seq<char>)
    requires
        p.len() > 0,
        only_digits(p),
    ensures
        digits_number(acc, p) == digits_number(
            acc * 10 + (p[0] as u32 - '0' as u32) as nat,
            p.skip(1),
        ),
        digits_number(acc, p) >= acc * 10 + (p[0] as u32 - '0' as u32) as nat,
    decreases p.len(),
{
    assert(p.last() == p[p.len() - 1]);
    if p.len() == 1 {
        assert(p.drop_last() =~= Seq::<char>::empty());
        assert(digits_number(acc, p.drop_last()) == acc);
        assert(p.skip(1) =~= Seq::<char>::empty());
    } else {
        let q = p.drop_last();
        assert(only_digits(q)) by {
            assert forall|i: int| 0 <= i < q.len() implies '0' <= #[trigger] q[i] <= '9' by {
                assert(q[i] == p[i]);
            }
        }
        lemma_digits_number_from_the_front(acc, q);
        assert(q.skip(1) =~= p.skip(1).drop_last());
        assert(p.skip(1).last() == p.last());
        assert(q[0] == p[0]);
        let next = acc * 10 + (p[0] as u32 - '0' as u32) as nat;
        assert(digits_number(next, p.skip(1)) == digits_number(next, q.skip(1)) * 10 + (
        p.last() as u32 - '0' as u32) as nat);
    }
}

proof fn lemma_digits_run(p: Seq<char>, t: Seq<char>, acc: nat)
    requires
        only_digits(p),
        acc <= u64::MAX,
    ensures
        digits_number(acc, p) <= u64::MAX ==> digits_value(p + t, acc) == digits_value(
            t,
            digits_number(acc, p),
        ),
        digits_number(acc, p) > u64::MAX ==> digits_value(p + t, acc) == Err::<
            nat,
            ParseSizeError,
        >(ParseSizeError::PosOverflow),
    decreases p.len(),
{
    if p.len() == 0 {
        assert(p + t =~= t);
    } else {
        lemma_digits_number_from_the_front(acc, p);
        let next = acc * 10 + (p[0] as u32 - '0' as u32) as nat;
        let rest = p.skip(1);
        assert((p + t).skip(1) =~= rest + t);
        assert((p + t)[0] == p[0]);
        assert(only_digits(rest)) by {
            assert forall|i: int| 0 <= i < rest.len() implies '0' <= #[trigger] rest[i] <= '9' by {
                assert(rest[i] == p[i + 1]);
            }
        }
        if next <= u64::MAX {
            lemma_digits_run(rest, t, next);
        }
    }
}

/// Digits, with a plus sign or without, are the number that they amount to in base 10, if 64 bits
/// can hold it, and too large if not. They are too large as soon as some at the front are, whatever
/// follows.
pub proof fn law_digits_are_a_decimal_number(p: Seq<char>, t: Seq<char>)
    requires
        only_digits(p),
        p.len() > 0,
    ensures
        digits_number(0, p) <= u64::MAX ==> decimal_value(p) == Ok::<nat, ParseSizeError>(
            digits_number(0, p),
        ) && decimal_value(seq!['+'] + p) == Ok::<nat, ParseSizeError>(digits_number(0, p)),
        digits_number(0, p) > u64::MAX ==> decimal_value(p + t) == Err::<nat, ParseSizeError>(
            ParseSizeError::PosOverflow,
        ) && decimal_value(seq!['+'] + p + t) == Err::<nat, ParseSizeError>(
            ParseSizeError::PosOverflow,
        ),
{
    let none = Seq::<char>::empty();
    lemma_digits_run(p, none, 0);
    lemma_digits_run(p, t, 0);
    assert(p + none =~= p);
    assert((seq!['+'] + p).skip(1) =~= p);
    assert((seq!['+'] + p + t).skip(1) =~= p + t);
    assert((p + t)[0] == p[0]);
}

/// A character other than a digit, behind digits that 64 bits can hold or behind none, makes a
/// number invalid, whatever follows. Only a plus sign with something behind it is no such
/// character at the start. Nothing at all is no number either.
pub proof fn law_other_characters_make_no_number(p: Seq<char>, c: char, t: Seq<char>)
    requires
        only_digits(p),
        digits_number(0, p) <= u64::MAX,
        !('0' <= c <= '9'),
    ensures
        p.len() > 0 || c != '+' || t.len() == 0 ==> decimal_value(p.push(c) + t) == Err::<
            nat,
            ParseSizeError,
        >(ParseSizeError::InvalidDigit),
        decimal_value(seq!['+'] + p.push(c) + t) == Err::<nat, ParseSizeError>(
            ParseSizeError::InvalidDigit,
        ),
        decimal_value(Seq::empty()) == Err::<nat, ParseSizeError>(ParseSizeError::Empty),
{
    let tail = seq![c] + t;
    lemma_digits_run(p, tail, 0);
    assert(p.push(c) + t =~= p + tail);
    assert((seq!['+'] + p.push(c) + t).skip(1) =~= p + tail);
    assert(tail[0] == c);
    if p.len() > 0 {
        assert((p + tail)[0] == p[0]);
    }
}

/// The decimal digits of a number, without leading zeros.
pub open spec fn decimal_digits(n: nat) -> Seq<char>
    decreases n,
{
    if n < 10 {
        seq![(48 + n) as char]
    } else {
        decimal_digits(n / 10).push((48 + n % 10) as char)
    }
}

proof fn lemma_decimal_digits(n: nat)
    ensures
        decimal_digits(n).len() > 0,
        only_digits(decimal_digits(n)),
        digits_number(0, decimal_digits(n)) == n,
    decreases n,
{
    let s = decimal_digits(n);
    if n < 10 {
        assert(s.drop_last() =~= Seq::<char>::empty());
        assert(digits_number(0, s.drop_last()) == 0);
        assert(s.last() as u32 == 48 + n);
    } else {
        lemma_decimal_digits(n / 10);
        assert(s.drop_last() =~= decimal_digits(n / 10));
        assert(s.last() as u32 == 48 + n % 10);
        assert forall|i: int| 0 <= i < s.len() implies '0' <= #[trigger] s[i] <= '9' by {
            if i < s.len() - 1 {
                assert(s[i] == decimal_digits(n / 10)[i]);
            }
        }
    }
}

/// A number of bytes that is written down in decimal is read back as it was, and with a unit
/// behind it as that many of the unit. A number that 64 bits cannot hold is too large.
pub proof fn law_written_number_is_read_back(n: nat)
    ensures
        n <= u64::MAX ==> {
            &&& byte_size(decimal_digits(n)) == Ok::<nat, ParseSizeError>(n)
            &&& byte_size(decimal_digits(n).push('k')) == Ok::<nat, ParseSizeError>(n * 1024)
            &&& byte_size(decimal_digits(n).push('M')) == Ok::<nat, ParseSizeError>(n * 1048576)
            &&& byte_size(decimal_digits(n).push('G')) == Ok::<nat, ParseSizeError>(n * 1073741824)
            &&& byte_size(decimal_digits(n).push('T')) == Ok::<nat, ParseSizeError>(
                n * 1099511627776,
            )
        },
        n > u64::MAX ==> byte_size(decimal_digits(n)) == Err::<nat, ParseSizeError>(
            ParseSizeError::PosOverflow,
        ),
{
    let s = decimal_digits(n);
    lemma_decimal_digits(n);
    law_digits_are_a_decimal_number(s, Seq::empty());
    assert(s + Seq::<char>::empty() =~= s);
    if n <= u64::MAX {
        law_plain_number_counts_bytes(s);
        law_unit_multiplies(s, 'k');
        law_unit_multiplies(s, 'M');
        law_unit_multiplies(s, 'G');
        law_unit_multiplies(s, 'T');
    } else {
        assert('0' <= s[0] <= '9');
        assert('0' <= s.last() <= '9');
    }
}

/// What a text is that neither starts nor ends with whitespace: if it ends with a unit, what is in
/// front of that decides, and a number there is multiplied; if not, the whole decides.
pub proof fn law_unit_stands_at_the_end(s: Seq<char>)
    requires
        s.len() > 0 ==> !is_whitespace(s[0]) && !is_whitespace(s.last()),
    ensures
        ({
            let scale = |v: Result<nat, ParseSizeError>, unit: nat|
                match v {
                    Ok(n) => Ok::<nat, ParseSizeError>(n * unit),
                    Err(e) => Err(e),
                };
            if s.len() > 0 && s.last() == 'T' {
                byte_size(s) == scale(decimal_value(s.drop_last()), 1099511627776)
            } else if s.len() > 0 && s.last() == 'G' {
                byte_size(s) == scale(decimal_value(s.drop_last()), 1073741824)
            } else if s.len() > 0 && s.last() == 'M' {
                byte_size(s) == scale(decimal_value(s.drop_last()), 1048576)
            } else if s.len() > 0 && s.last() == 'k' {
                byte_size(s) == scale(decimal_value(s.drop_last()), 1024)
            } else {
                byte_size(s) == decimal_value(s)
            }
        }),
{
    assert(trim(s) =~= s);
}

/// The characters that count as whitespace are the 25 with that property in Unicode: tab to
/// carriage return, space, next line, no-break space, the Ogham space, the spaces of fixed width,
/// the separators of lines and paragraphs, and three more spaces.
pub proof fn law_whitespace_is_that_of_unicode(c: char)
    ensures
        ({
            let u = c as u32;
            is_whitespace(c) <==> (9 <= u <= 13) || u == 32 || u == 133 || u == 160 || u == 5760 || (
            8192 <= u <= 8202) || u == 8232 || u == 8233 || u == 8239 || u == 8287 || u == 12288
        }),
{
}

} // verus!
