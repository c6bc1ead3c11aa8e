//! Character-level helpers shared by the parsers and printers of the crate:
//! turning a `&str` into its characters, building `String`s, and reading and
//! writing unsigned and signed numbers in decimal or hexadecimal.
use vstd::prelude::*;
use vstd::std_specs::iter::IteratorSpec;

verus! {

broadcast use vstd::string::axiom_spec_iter, vstd::string::next_postcondition;

/// The characters of `s`, in order.
pub fn chars_of(s: &str) -> (v: Vec<char>)
    ensures
        v@ == s@,
{
    let mut v: Vec<char> = Vec::new();
    let mut it = s.chars();
    loop
        invariant_except_break
            s@ == v@ + it.remaining(),
        invariant
            it.obeys_prophetic_iter_laws(),
        ensures
            v@ == s@,
        decreases s@.len() - v@.len(),
    {
        let ghost rem = it.remaining();
        match it.next() {
            Some(c) => {
                v.push(c);
            },
            None => {
                assert(rem.len() == 0);
                assert(s@ =~= v@);
                break ;
            },
        }
    }
    v
}

/// `String::push` appends one character at the end of the string.
#[verifier::external_body]
pub(crate) fn push_char(s: &mut String, c: char)
    ensures
        final(s)@ == old(s)@.push(c),
{
    s.push(c)
}

/// A `String` holding exactly the characters of `cs`.
pub fn string_from_chars(cs: &Vec<char>) -> (s: String)
    ensures
        s@ == cs@,
{
    let mut s = String::new();
    let mut i: usize = 0;
    while i < cs.len()
        invariant
            i <= cs@.len(),
            s@ == cs@.subrange(0, i as int),
        decreases cs@.len() - i,
    {
        push_char(&mut s, cs[i]);
        assert(cs@.subrange(0, i + 1) =~= cs@.subrange(0, i as int).push(cs@[i as int]));
        i = i + 1;
    }
    assert(cs@.subrange(0, cs@.len() as int) =~= cs@);
    s
}

/// Appends the characters of `cs` to `v`.
pub fn extend_chars(v: &mut Vec<char>, cs: &Vec<char>)
    ensures
        final(v)@ == old(v)@ + cs@,
{
    let mut i: usize = 0;
    while i < cs.len()
        invariant
            i <= cs@.len(),
            v@ == old(v)@ + cs@.subrange(0, i as int),
        decreases cs@.len() - i,
    {
        v.push(cs[i]);
        assert(cs@.subrange(0, i + 1) =~= cs@.subrange(0, i as int).push(cs@[i as int]));
        i = i + 1;
    }
    assert(cs@.subrange(0, cs@.len() as int) =~= cs@);
}

/// Whether `a` and `b` hold the same characters.
pub fn chars_eq(a: &Vec<char>, b: &Vec<char>) -> (r: bool)
    ensures
        r == (a@ == b@),
{
    if a.len() != b.len() {
        return false;
    }
    let mut i: usize = 0;
    while i < a.len()
        invariant
            a@.len() == b@.len(),
            i <= a@.len(),
            forall|j: int| 0 <= j < i ==> a@[j] == b@[j],
        decreases a@.len() - i,
    {
        if a[i] != b[i] {
            return false;
        }
        i = i + 1;
    }
    assert(a@ =~= b@);
    true
}

/// Whether the characters `a[start..end]` are exactly the characters of `lit`.
pub fn slice_eq(a: &Vec<char>, start: usize, end: usize, lit: &Vec<char>) -> (r: bool)
    requires
        start <= end <= a@.len(),
    ensures
        r == (a@.subrange(start as int, end as int) == lit@),
{
    if end - start != lit.len() {
        return false;
    }
    let mut i: usize = 0;
    while i < lit.len()
        invariant
            end - start == lit@.len(),
            start <= end <= a@.len(),
            i <= lit@.len(),
            forall|j: int| 0 <= j < i ==> a@[start + j] == lit@[j],
        decreases lit@.len() - i,
    {
        if a[start + i] != lit[i] {
            return false;
        }
        i = i + 1;
    }
    assert(a@.subrange(start as int, end as int) =~= lit@);
    true
}

/// A copy of `a[start..end]`.
pub fn sub_chars(a: &Vec<char>, start: usize, end: usize) -> (r: Vec<char>)
    requires
        start <= end <= a@.len(),
    ensures
        r@ == a@.subrange(start as int, end as int),
{
    let mut r: Vec<char> = Vec::new();
    let mut i = start;
    while i < end
        invariant
            start <= i <= end <= a@.len(),
            r@ == a@.subrange(start as int, i as int),
        decreases end - i,
    {
        r.push(a[i]);
        assert(a@.subrange(start as int, i + 1) =~= a@.subrange(start as int, i as int).push(
            a@[i as int],
        ));
        i = i + 1;
    }
    r
}

/// The position of the first `c` in `a[start..]`, if there is one.
pub fn find_char(a: &Vec<char>, start: usize, c: char) -> (r: Option<usize>)
    requires
        start <= a@.len(),
    ensures
        match r {
            Some(i) => start <= i < a@.len() && a@[i as int] == c && forall|j: int|
                start <= j < i ==> a@[j] != c,
            None => forall|j: int| start <= j < a@.len() ==> a@[j] != c,
        },
{
    let mut i = start;
    while i < a.len()
        invariant
            start <= i <= a@.len(),
            forall|j: int| start <= j < i ==> a@[j] != c,
        decreases a@.len() - i,
    {
        if a[i] == c {
            return Some(i);
        }
        i = i + 1;
    }
    None
}

/// The value of `c` as a digit in base `radix` (10 or 16, either case), if it is one.
pub open spec fn digit_of(c: char, radix: nat) -> Option<nat> {
    if '0' <= c && c <= '9' && (c as int) - ('0' as int) < radix {
        Some(((c as int) - ('0' as int)) as nat)
    } else if radix == 16 && 'a' <= c && c <= 'f' {
        Some(((c as int) - ('a' as int) + 10) as nat)
    } else if radix == 16 && 'A' <= c && c <= 'F' {
        Some(((c as int) - ('A' as int) + 10) as nat)
    } else {
        None
    }
}

/// Every character of `s` is a digit in base `radix`.
pub open spec fn all_digits(s: Seq<char>, radix: nat) -> bool {
    forall|i: int| 0 <= i < s.len() ==> (#[trigger] digit_of(s[i], radix)) is Some
}

/// The number that the digits `s` denote in base `radix`, most significant first.
pub open spec fn digits_value(s: Seq<char>, radix: nat) -> nat
    decreases s.len(),
{
    if s.len() == 0 {
        0
    } else {
        digits_value(s.drop_last(), radix) * radix + match digit_of(s.last(), radix) {
            Some(d) => d,
            None => 0,
        }
    }
}

/// The digits of an unsigned number: an optional leading `+` is dropped.
pub open spec fn unsigned_digits(s: Seq<char>) -> Seq<char> {
    if s.len() > 0 && s[0] == '+' {
        s.drop_first()
    } else {
        s
    }
}

/// How the standard library reads an unsigned integer of at most `max` in base `radix`:
/// an optional `+`, then at least one digit, and a value no greater than `max`.
pub open spec fn parse_unsigned(s: Seq<char>, radix: nat, max: nat) -> Option<nat> {
    let d = unsigned_digits(s);
    if d.len() > 0 && all_digits(d, radix) && digits_value(d, radix) <= max {
        Some(digits_value(d, radix))
    } else {
        None
    }
}

/// How the standard library reads a signed decimal integer in `min..=max`:
/// an optional `+` or `-`, then at least one digit, and a value in range.
pub open spec fn parse_signed(s: Seq<char>, min: int, max: int) -> Option<int> {
    if s.len() > 0 && s[0] == '-' {
        let d = s.drop_first();
        if d.len() > 0 && all_digits(d, 10) && -(digits_value(d, 10) as int) >= min {
            Some(-(digits_value(d, 10) as int))
        } else {
            None
        }
    } else {
        match parse_unsigned(s, 10, max as nat) {
            Some(v) => if max >= 0 {
                Some(v as int)
            } else {
                None
            },
            None => None,
        }
    }
}

proof fn lemma_digits_value_take(s: Seq<char>, radix: nat, i: int)
    requires
        0 <= i < s.len(),
        radix > 0,
    ensures
        digits_value(s.take(i + 1), radix) == digits_value(s.take(i), radix) * radix + match digit_of(
            s[i],
            radix,
        ) {
            Some(d) => d,
            None => 0,
        },
{
    assert(s.take(i + 1).drop_last() =~= s.take(i));
}

proof fn lemma_digits_value_monotone(s: Seq<char>, radix: nat, i: int, j: int)
    requires
        0 <= i <= j <= s.len(),
        radix > 0,
    ensures
        digits_value(s.take(i), radix) <= digits_value(s.take(j), radix),
    decreases j - i,
{
    if i < j {
        lemma_digits_value_monotone(s, radix, i, j - 1);
        lemma_digits_value_take(s, radix, j - 1);
        let v = digits_value(s.take(j - 1), radix);
        assert(v * radix >= v) by (nonlinear_arith)
            requires
                radix > 0,
        ;
    }
}

fn digit_exec(c: char, radix: u32) -> (r: Option<u32>)
    requires
        radix == 10 || radix == 16,
    ensures
        match r {
            Some(d) => digit_of(c, radix as nat) == Some(d as nat) && d < radix,
            None => digit_of(c, radix as nat) is None,
        },
{
    if '0' <= c && c <= '9' && (c as u32) - ('0' as u32) < radix {
        Some((c as u32) - ('0' as u32))
    } else if radix == 16 && 'a' <= c && c <= 'f' {
        Some((c as u32) - ('a' as u32) + 10)
    } else if radix == 16 && 'A' <= c && c <= 'F' {
        Some((c as u32) - ('A' as u32) + 10)
    } else {
        None
    }
}

/// Reads the digits `s[start..end]` in base `radix` as a number of at most `max`.
/// Returns `None` if a character is not a digit, or the number exceeds `max`.
pub fn read_digits(s: &Vec<char>, start: usize, end: usize, radix: u32, max: u128) -> (r: Option<
    u128,
>)
    requires
        start <= end <= s@.len(),
        radix == 10 || radix == 16,
    ensures
        ({
            let d = s@.subrange(start as int, end as int);
            match r {
                Some(v) => all_digits(d, radix as nat) && digits_value(d, radix as nat) == v && v
                    <= max,
                None => !all_digits(d, radix as nat) || digits_value(d, radix as nat) > max,
            }
        }),
{
    let ghost d = s@.subrange(start as int, end as int);
    let mut val: u128 = 0;
    let mut i = start;
    assert(d.take(0) =~= Seq::<char>::empty());
    while i < end
        invariant
            start <= i <= end <= s@.len(),
            d == s@.subrange(start as int, end as int),
            radix == 10 || radix == 16,
            all_digits(d.take(i - start), radix as nat),
            val == digits_value(d.take(i - start), radix as nat),
            val <= max,
        decreases end - i,
    {
        let k: usize = i - start;
        match digit_exec(s[i], radix) {
            None => {
                assert(digit_of(d[k as int], radix as nat) is None);
                return None;
            },
            Some(dig) => {
                proof {
                    lemma_digits_value_take(d, radix as nat, k as int);
                    assert(d[k as int] == s@[i as int]);
                }
                let next = match val.checked_mul(radix as u128) {
                    Some(m) => m.checked_add(dig as u128),
                    None => None,
                };
                match next {
                    Some(n) if n <= max => {
                        proof {
                            assert forall|j: int| 0 <= j < k + 1 implies (#[trigger] digit_of(
                                d.take(k + 1)[j],
                                radix as nat,
                            )) is Some by {
                                if j < k {
                                    assert(d.take(k + 1)[j] == d.take(k as int)[j]);
                                }
                            }
                        }
                        val = n;
                    },
                    _ => {
                        proof {
                            let total = digits_value(d.take(k + 1), radix as nat);
                            assert(total > max) by {
                                if val * (radix as int) > u128::MAX {
                                    assert(val * (radix as int) + dig >= val * (radix as int));
                                }
                            }
                            lemma_digits_value_monotone(d, radix as nat, k + 1, d.len() as int);
                            assert(d.take(d.len() as int) =~= d);
                        }
                        return None;
                    },
                }
            },
        }
        i = i + 1;
    }
    assert(d.take(end - start) =~= d);
    Some(val)
}

/// Reads `s[start..end]` as the standard library reads an unsigned number of at most `max`
/// in base `radix`.
pub fn read_unsigned(s: &Vec<char>, start: usize, end: usize, radix: u32, max: u128) -> (r: Option<
    u128,
>)
    requires
        start <= end <= s@.len(),
        radix == 10 || radix == 16,
    ensures
        match parse_unsigned(s@.subrange(start as int, end as int), radix as nat, max as nat) {
            Some(v) => r == Some(v as u128),
            None => r is None,
        },
{
    let ghost t = s@.subrange(start as int, end as int);
    let mut first = start;
    if start < end && s[start] == '+' {
        first = start + 1;
        assert(unsigned_digits(t) =~= s@.subrange(first as int, end as int));
    } else {
        assert(unsigned_digits(t) =~= s@.subrange(first as int, end as int));
    }
    if first == end {
        return None;
    }
    read_digits(s, first, end, radix, max)
}

/// Reads `s[start..end]` as the standard library reads a signed decimal number in `min..=max`.
pub fn read_signed(s: &Vec<char>, start: usize, end: usize, min: i128, max: i128) -> (r: Option<
    i128,
>)
    requires
        start <= end <= s@.len(),
        min <= 0 <= max,
        min > i128::MIN,
    ensures
        match parse_signed(s@.subrange(start as int, end as int), min as int, max as int) {
            Some(v) => r == Some(v as i128),
            None => r is None,
        },
{
    let ghost t = s@.subrange(start as int, end as int);
    if start < end && s[start] == '-' {
        assert(t.drop_first() =~= s@.subrange(start + 1, end as int));
        if start + 1 == end {
            return None;
        }
        let bound: u128 = (-min) as u128;
        match read_digits(s, start + 1, end, 10, bound) {
            Some(v) => Some(-(v as i128)),
            None => None,
        }
    } else {
        match read_unsigned(s, start, end, 10, max as u128) {
            Some(v) => Some(v as i128),
            None => None,
        }
    }
}

/// The character of a digit below 16, in lower case.
pub open spec fn hex_char(d: nat) -> char {
    if d < 10 {
        (('0' as int) + d) as char
    } else {
        (('a' as int) + d - 10) as char
    }
}

/// The digits of `v` in base `radix` (10 or 16), lower case, without leading zeros
/// (zero itself is written `0`).
pub open spec fn digits_of(v: nat, radix: nat) -> Seq<char>
    decreases v,
{
    if v < radix || radix < 2 {
        seq![hex_char(v)]
    } else {
        proof {
            assert(v / radix < v) by (nonlinear_arith)
                requires
                    radix >= 2,
                    v >= radix,
            ;
        }
        digits_of(v / radix, radix).push(hex_char(v % radix))
    }
}

/// The decimal text of a signed number: a `-` before the digits of a negative one.
pub open spec fn signed_text(v: int) -> Seq<char> {
    if v < 0 {
        seq!['-'] + digits_of((-v) as nat, 10)
    } else {
        digits_of(v as nat, 10)
    }
}

fn hex_char_exec(d: u32) -> (c: char)
    requires
        d < 16,
    ensures
        c == hex_char(d as nat),
{
    if d < 10 {
        ((('0' as u32) + d) as u8) as char
    } else {
        ((('a' as u32) + d - 10) as u8) as char
    }
}

/// Appends the digits of `v` in base `radix` to `out`.
pub fn push_digits(out: &mut Vec<char>, v: u128, radix: u32)
    requires
        radix == 10 || radix == 16,
    ensures
        final(out)@ == old(out)@ + digits_of(v as nat, radix as nat),
    decreases v,
{
    if v < radix as u128 {
        out.push(hex_char_exec(v as u32));
        assert(digits_of(v as nat, radix as nat) =~= seq![hex_char(v as nat)]);
    } else {
        push_digits(out, v / (radix as u128), radix);
        out.push(hex_char_exec((v % (radix as u128)) as u32));
    }
}

/// Appends the decimal text of `v` (with a `-` when negative) to `out`.
pub fn push_signed(out: &mut Vec<char>, v: i128)
    requires
        v > i128::MIN,
    ensures
        final(out)@ == old(out)@ + signed_text(v as int),
{
    if v < 0 {
        out.push('-');
        push_digits(out, (-v) as u128, 10);
        assert(old(out)@.push('-') + digits_of((-v) as nat, 10) =~= old(out)@ + (seq!['-']
            + digits_of((-v) as nat, 10)));
    } else {
        push_digits(out, v as u128, 10);
    }
}

proof fn lemma_hex_char_digit(d: nat, radix: nat)
    requires
        d < radix,
        radix == 10 || radix == 16,
    ensures
        digit_of(hex_char(d), radix) == Some(d),
{
}

/// Written digits read back as the number they were written from.
pub proof fn lemma_digits_roundtrip(v: nat, radix: nat)
    requires
        radix == 10 || radix == 16,
    ensures
        digits_of(v, radix).len() > 0,
        all_digits(digits_of(v, radix), radix),
        digits_value(digits_of(v, radix), radix) == v,
        digits_of(v, radix)[0] != '+' && digits_of(v, radix)[0] != '-',
    decreases v,
{
    if v < radix {
        lemma_hex_char_digit(v, radix);
        let s = digits_of(v, radix);
        assert(s.drop_last() =~= Seq::<char>::empty());
        assert(digits_value(s.drop_last(), radix) == 0);
        assert(s.last() == hex_char(v));
        assert(0 * radix == 0);
    } else {
        lemma_digits_roundtrip(v / radix, radix);
        lemma_hex_char_digit(v % radix, radix);
        let p = digits_of(v / radix, radix);
        let s = p.push(hex_char(v % radix));
        assert(s.drop_last() =~= p);
        assert(s.last() == hex_char(v % radix));
        assert(digits_value(s, radix) == digits_value(p, radix) * radix + v % radix);
        assert forall|i: int| 0 <= i < s.len() implies (#[trigger] digit_of(s[i], radix)) is Some by {
            if i < p.len() {
                assert(s[i] == p[i]);
            }
        }
        assert(v == (v / radix) * radix + v % radix) by (nonlinear_arith)
            requires
                radix > 0,
        ;
    }
}

} // verus!
