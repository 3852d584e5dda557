//! Verified text helpers: decimal formatting and parsing, whitespace
//! trimming and string comparison. These back the input validation of the
//! menu and the textual forms of the simulator state.

use vstd::prelude::*;

verus! {

/// The decimal digit character for `d` in `0..=9`.
pub open spec fn digit_char(d: int) -> char {
    if d == 0 {
        '0'
    } else if d == 1 {
        '1'
    } else if d == 2 {
        '2'
    } else if d == 3 {
        '3'
    } else if d == 4 {
        '4'
    } else if d == 5 {
        '5'
    } else if d == 6 {
        '6'
    } else if d == 7 {
        '7'
    } else if d == 8 {
        '8'
    } else {
        '9'
    }
}

/// The decimal digit string of a nonnegative number, most significant
/// digit first.
pub open spec fn spec_u64_digits(n: int) -> Seq<char>
    recommends
        n >= 0,
    decreases n,
{
    if n < 10 {
        seq![digit_char(n)]
    } else {
        spec_u64_digits(n / 10).push(digit_char(n % 10))
    }
}

/// The decimal text of a signed number: a minus sign before the digits
/// of its magnitude when it is negative.
pub open spec fn spec_i64_text(n: int) -> Seq<char> {
    if n < 0 {
        seq!['-'] + spec_u64_digits(-n)
    } else {
        spec_u64_digits(n)
    }
}

/// The single-character string for one decimal digit.
fn digit_str(d: u64) -> (s: &'static str)
    requires
        d < 10,
    ensures
        s@ =~= seq![digit_char(d as int)],
{
    proof {
        reveal_strlit("0");
        reveal_strlit("1");
        reveal_strlit("2");
        reveal_strlit("3");
        reveal_strlit("4");
        reveal_strlit("5");
        reveal_strlit("6");
        reveal_strlit("7");
        reveal_strlit("8");
        reveal_strlit("9");
    }
    match d {
        0 => "0",
        1 => "1",
        2 => "2",
        3 => "3",
        4 => "4",
        5 => "5",
        6 => "6",
        7 => "7",
        8 => "8",
        _ => "9",
    }
}

/// Format a nonnegative number in decimal.
pub fn u64_to_string(n: u64) -> (s: String)
    ensures
        s@ =~= spec_u64_digits(n as int),
    decreases n,
{
    if n < 10 {
        let mut s = String::new();
        s.append(digit_str(n));
        s
    } else {
        let mut s = u64_to_string(n / 10);
        s.append(digit_str(n % 10));
        proof {
            assert(s@ =~= spec_u64_digits(n as int / 10).push(digit_char(n as int % 10)));
        }
        s
    }
}

/// Format a signed number in decimal.
pub fn i64_to_string(n: i64) -> (s: String)
    ensures
        s@ =~= spec_i64_text(n as int),
{
    if n >= 0 {
        u64_to_string(n as u64)
    } else {
        let wide: i128 = -(n as i128);
        let m: u64 = wide as u64;
        proof {
            reveal_strlit("-");
        }
        let mut s = String::new();
        s.append("-");
        let digits = u64_to_string(m);
        s.append(digits.as_str());
        proof {
            assert(s@ =~= seq!['-'] + spec_u64_digits(-(n as int)));
        }
        s
    }
}

/// Character-wise string equality.
pub fn str_eq(a: &str, b: &str) -> (r: bool)
    ensures
        r <==> a@ == b@,
{
    let n = a.unicode_len();
    if n != b.unicode_len() {
        return false;
    }
    let mut i: usize = 0;
    while i < n
        invariant
            n == a@.len(),
            n == b@.len(),
            0 <= i <= n,
            forall|j: int| 0 <= j < i ==> a@[j] == b@[j],
        decreases n - i,
    {
        if a.get_char(i) != b.get_char(i) {
            return false;
        }
        i += 1;
    }
    proof {
        assert(a@ =~= b@);
    }
    true
}

/// Whether `c` is a decimal digit.
pub open spec fn is_digit(c: char) -> bool {
    '0' <= c && c <= '9'
}

/// Numeric value of a digit character.
pub open spec fn digit_val(c: char) -> int {
    c as int - '0' as int
}

pub open spec fn all_digits(s: Seq<char>) -> bool {
    s.len() > 0 && forall|i: int| 0 <= i < s.len() ==> is_digit(#[trigger] s[i])
}

/// The number a digit string denotes, most significant digit first.
pub open spec fn digits_value(s: Seq<char>) -> int
    decreases s.len(),
{
    if s.len() == 0 {
        0
    } else {
        digits_value(s.drop_last()) * 10 + digit_val(s.last())
    }
}

/// The number that signed decimal text denotes: an optional single `+`
/// or `-` sign followed by at least one digit, as Rust's integer
/// parsing accepts it.
pub open spec fn int_text_value(s: Seq<char>) -> Option<int> {
    if s.len() > 0 && (s[0] == '-' || s[0] == '+') {
        if all_digits(s.drop_first()) {
            if s[0] == '-' {
                Some(-digits_value(s.drop_first()))
            } else {
                Some(digits_value(s.drop_first()))
            }
        } else {
            None
        }
    } else {
        if all_digits(s) {
            Some(digits_value(s))
        } else {
            None
        }
    }
}

/// What `str::parse::<i64>` yields on this text: its value when it is
/// well-formed signed decimal text in range, nothing otherwise.
pub open spec fn spec_parse_i64(s: Seq<char>) -> Option<i64> {
    match int_text_value(s) {
        None => None,
        Some(v) => if i64::MIN <= v <= i64::MAX {
            Some(v as i64)
        } else {
            None
        },
    }
}

/// What `str::parse::<u8>` yields on this text: a `-` sign is not
/// accepted, a single leading `+` is.
pub open spec fn spec_parse_u8(s: Seq<char>) -> Option<u8> {
    if s.len() > 0 && s[0] == '-' {
        None
    } else {
        match int_text_value(s) {
            None => None,
            Some(v) => if 0 <= v <= u8::MAX {
                Some(v as u8)
            } else {
                None
            },
        }
    }
}

proof fn lemma_digits_value_nonneg(s: Seq<char>)
    requires
        forall|i: int| 0 <= i < s.len() ==> is_digit(#[trigger] s[i]),
    ensures
        digits_value(s) >= 0,
    decreases s.len(),
{
    if s.len() > 0 {
        lemma_digits_value_nonneg(s.drop_last());
    }
}

/// With every character a digit, the value of a prefix never exceeds the
/// value of the whole text.
proof fn lemma_digits_prefix_le(s: Seq<char>, i: int)
    requires
        forall|j: int| 0 <= j < s.len() ==> is_digit(#[trigger] s[j]),
        0 <= i <= s.len(),
    ensures
        0 <= digits_value(s.take(i)) <= digits_value(s),
    decreases s.len() - i,
{
    assert(forall|j: int| 0 <= j < s.take(i).len() ==> is_digit(#[trigger] s.take(i)[j]));
    lemma_digits_value_nonneg(s.take(i));
    if i == s.len() {
        assert(s.take(i) =~= s);
    } else {
        lemma_digits_prefix_le(s, i + 1);
        assert(s.take(i + 1).drop_last() =~= s.take(i));
        assert(digits_value(s.take(i + 1)) == digits_value(s.take(i)) * 10 + digit_val(
            s[i],
        ));
        assert(digits_value(s.take(i)) <= digits_value(s.take(i)) * 10) by (nonlinear_arith)
            requires digits_value(s.take(i)) >= 0;
    }
}

/// Parse signed decimal text exactly as `str::parse::<i64>` does.
pub fn parse_i64(s: &str) -> (r: Option<i64>)
    ensures
        r == spec_parse_i64(s@),
{
    let n = s.unicode_len();
    if n == 0 {
        return None;
    }
    let c0 = s.get_char(0);
    let neg = c0 == '-';
    let has_sign = neg || c0 == '+';
    let start: usize = if has_sign {
        1
    } else {
        0
    };
    let ghost ds = if has_sign {
        s@.drop_first()
    } else {
        s@
    };
    proof {
        assert(ds =~= s@.subrange(start as int, n as int));
    }
    if start >= n {
        // a bare sign has no digits
        return None;
    }
    let mut acc: u128 = 0;
    let mut i: usize = start;
    while i < n
        invariant
            n == s@.len(),
            n >= 1,
            neg == (s@[0] == '-'),
            has_sign == (s@[0] == '-' || s@[0] == '+'),
            start == if has_sign { 1int } else { 0int },
            start < n,
            ds == s@.subrange(start as int, n as int),
            ds.len() > 0,
            start <= i <= n,
            acc == digits_value(ds.take(i - start)),
            acc <= 0x8000_0000_0000_0000u128,
            forall|j: int| 0 <= j < i - start ==> is_digit(#[trigger] ds[j]),
        decreases n - i,
    {
        let c = s.get_char(i);
        let u: u32 = c as u32;
        if u < 48 || u > 57 {
            proof {
                assert(ds[i - start] == s@[i as int]);
                assert(!is_digit(ds[i - start]));
                assert(!all_digits(ds));
                if has_sign {
                    assert(ds =~= s@.drop_first());
                } else {
                    assert(ds =~= s@);
                }
            }
            return None;
        }
        let d: u128 = (u - 48) as u128;
        proof {
            assert(ds[i - start] == s@[i as int]);
            assert(is_digit(ds[i - start]));
            assert(d == digit_val(ds[i - start]));
            assert(ds.take(i - start + 1).drop_last() =~= ds.take(i - start));
            assert(ds.take(i - start + 1).last() == ds[i - start]);
        }
        acc = acc * 10 + d;
        i += 1;
        if acc > 0x8000_0000_0000_0000u128 {
            // the magnitude already exceeds every value an i64 can hold,
            // and further digits only grow it
            proof {
                if all_digits(ds) {
                    lemma_digits_prefix_le(ds, i - start);
                    assert(ds.take(ds.len() as int) =~= ds);
                    assert(digits_value(ds) >= acc);
                    if has_sign {
                        assert(ds =~= s@.drop_first());
                        assert(int_text_value(s@) == Some(if neg { -digits_value(ds) } else { digits_value(ds) }));
                    } else {
                        assert(ds =~= s@);
                        assert(int_text_value(s@) == Some(digits_value(ds)));
                    }
                    assert(spec_parse_i64(s@) is None);
                } else {
                    if has_sign {
                        assert(ds =~= s@.drop_first());
                        assert(!all_digits(s@.drop_first()));
                    } else {
                        assert(ds =~= s@);
                    }
                    assert(int_text_value(s@) is None);
                    assert(spec_parse_i64(s@) is None);
                }
            }
            return None;
        }
    }
    proof {
        assert(ds.take((n - start) as int) =~= ds);
        assert(all_digits(ds));
        if has_sign {
            assert(ds =~= s@.drop_first());
        } else {
            assert(ds =~= s@);
        }
    }
    if neg {
        let wide: i128 = -(acc as i128);
        Some(wide as i64)
    } else {
        if acc > 0x7FFF_FFFF_FFFF_FFFFu128 {
            return None;
        }
        Some(acc as i64)
    }
}

/// Parse unsigned decimal text exactly as `str::parse::<u8>` does.
pub fn parse_u8(s: &str) -> (r: Option<u8>)
    ensures
        r == spec_parse_u8(s@),
{
    let n = s.unicode_len();
    if n == 0 {
        return None;
    }
    let c0 = s.get_char(0);
    if c0 == '-' {
        return None;
    }
    let has_sign = c0 == '+';
    let start: usize = if has_sign {
        1
    } else {
        0
    };
    let ghost ds = if has_sign {
        s@.drop_first()
    } else {
        s@
    };
    proof {
        assert(ds =~= s@.subrange(start as int, n as int));
    }
    if start >= n {
        return None;
    }
    let mut acc: u32 = 0;
    let mut i: usize = start;
    while i < n
        invariant
            n == s@.len(),
            n >= 1,
            s@[0] != '-',
            has_sign == (s@[0] == '+'),
            start == if has_sign { 1int } else { 0int },
            start < n,
            ds == s@.subrange(start as int, n as int),
            ds.len() > 0,
            start <= i <= n,
            acc == digits_value(ds.take(i - start)),
            acc <= 255,
            forall|j: int| 0 <= j < i - start ==> is_digit(#[trigger] ds[j]),
        decreases n - i,
    {
        let c = s.get_char(i);
        let u: u32 = c as u32;
        if u < 48 || u > 57 {
            proof {
                assert(ds[i - start] == s@[i as int]);
                assert(!is_digit(ds[i - start]));
                assert(!all_digits(ds));
                if has_sign {
                    assert(ds =~= s@.drop_first());
                } else {
                    assert(ds =~= s@);
                }
            }
            return None;
        }
        let d: u32 = u - 48;
        proof {
            assert(ds[i - start] == s@[i as int]);
            assert(is_digit(ds[i - start]));
            assert(d == digit_val(ds[i - start]));
            assert(ds.take(i - start + 1).drop_last() =~= ds.take(i - start));
            assert(ds.take(i - start + 1).last() == ds[i - start]);
        }
        acc = acc * 10 + d;
        i += 1;
        if acc > 255 {
            proof {
                if all_digits(ds) {
                    lemma_digits_prefix_le(ds, i - start);
                    assert(ds.take(ds.len() as int) =~= ds);
                    assert(digits_value(ds) >= acc);
                    if has_sign {
                        assert(ds =~= s@.drop_first());
                        assert(int_text_value(s@) == Some(digits_value(ds)));
                    } else {
                        assert(ds =~= s@);
                        assert(int_text_value(s@) == Some(digits_value(ds)));
                    }
                    assert(spec_parse_u8(s@) is None);
                } else {
                    if has_sign {
                        assert(ds =~= s@.drop_first());
                        assert(!all_digits(s@.drop_first()));
                    } else {
                        assert(ds =~= s@);
                    }
                    assert(int_text_value(s@) is None);
                    assert(spec_parse_u8(s@) is None);
                }
            }
            return None;
        }
    }
    proof {
        assert(ds.take((n - start) as int) =~= ds);
        assert(all_digits(ds));
        if has_sign {
            assert(ds =~= s@.drop_first());
        } else {
            assert(ds =~= s@);
        }
    }
    Some(acc as u8)
}

/// Whether `c` carries the Unicode white-space property, the notion
/// `str::trim` removes.
pub open spec fn spec_is_space(c: char) -> bool {
    let u = c as int;
    ||| u == 0x09
    ||| u == 0x0A
    ||| u == 0x0B
    ||| u == 0x0C
    ||| u == 0x0D
    ||| u == 0x20
    ||| u == 0x85
    ||| u == 0xA0
    ||| u == 0x1680
    ||| (0x2000 <= u && u <= 0x200A)
    ||| u == 0x2028
    ||| u == 0x2029
    ||| u == 0x202F
    ||| u == 0x205F
    ||| u == 0x3000
}

fn is_space(c: char) -> (b: bool)
    ensures
        b == spec_is_space(c),
{
    let u: u32 = c as u32;
    u == 0x09 || u == 0x0A || u == 0x0B || u == 0x0C || u == 0x0D || u == 0x20 || u == 0x85
        || u == 0xA0 || u == 0x1680 || (0x2000 <= u && u <= 0x200A) || u == 0x2028
        || u == 0x2029 || u == 0x202F || u == 0x205F || u == 0x3000
}

/// The text with leading and trailing white space removed.
pub open spec fn spec_trim(s: Seq<char>) -> Seq<char>
    decreases s.len(),
{
    if s.len() == 0 {
        s
    } else if spec_is_space(s[0]) {
        spec_trim(s.drop_first())
    } else if spec_is_space(s.last()) {
        spec_trim(s.drop_last())
    } else {
        s
    }
}

/// Strip leading and trailing white space, as `str::trim` does.
#[verifier::rlimit(30)]
pub fn trim(s: &str) -> (t: &str)
    ensures
        t@ =~= spec_trim(s@),
{
    let n = s.unicode_len();
    proof {
        assert(s@.subrange(0, n as int) =~= s@);
    }
    let mut a: usize = 0;
    while a < n && is_space(s.get_char(a))
        invariant
            n == s@.len(),
            0 <= a <= n,
            spec_trim(s@) == spec_trim(s@.subrange(a as int, n as int)),
        decreases n - a,
    {
        proof {
            assert(s@.subrange(a as int, n as int).drop_first() =~= s@.subrange(
                a + 1,
                n as int,
            ));
        }
        a += 1;
    }
    let mut b: usize = n;
    while b > a && is_space(s.get_char(b - 1))
        invariant
            n == s@.len(),
            0 <= a <= b <= n,
            a < n ==> !spec_is_space(s@[a as int]),
            spec_trim(s@) == spec_trim(s@.subrange(a as int, b as int)),
        decreases b,
    {
        proof {
            assert(s@.subrange(a as int, b as int).drop_last() =~= s@.subrange(
                a as int,
                b - 1,
            ));
        }
        b -= 1;
    }
    let t = s.substring_char(a, b);
    proof {
        let sub = s@.subrange(a as int, b as int);
        if sub.len() > 0 {
            assert(sub[0] == s@[a as int]);
            assert(sub.last() == s@[b - 1]);
        }
    }
    t
}

/// The pieces of `s` between occurrences of the separator, in order;
/// an empty text has one empty piece, as `str::split` yields it.
pub open spec fn spec_split(s: Seq<char>, sep: char) -> Seq<Seq<char>>
    decreases s.len(),
{
    if s.len() == 0 {
        seq![Seq::<char>::empty()]
    } else if s[0] == sep {
        seq![Seq::<char>::empty()] + spec_split(s.drop_first(), sep)
    } else {
        let rest = spec_split(s.drop_first(), sep);
        seq![seq![s[0]] + rest[0]] + rest.drop_first()
    }
}

proof fn lemma_spec_split_len(s: Seq<char>, sep: char)
    ensures
        spec_split(s, sep).len() >= 1,
    decreases s.len(),
{
    if s.len() > 0 {
        lemma_spec_split_len(s.drop_first(), sep);
    }
}

/// Split `s` at every occurrence of the separator, as `str::split` does.
pub fn split_char(s: &str, sep: char) -> (parts: Vec<String>)
    ensures
        parts@.map_values(|p: String| p@) =~= spec_split(s@, sep),
{
    let n = s.unicode_len();
    let mut parts: Vec<String> = Vec::new();
    let mut start: usize = 0;
    let mut i: usize = 0;
    proof {
        lemma_spec_split_len(s@, sep);
        assert(s@.subrange(0, n as int) =~= s@);
        assert(Seq::<char>::empty() + spec_split(s@, sep)[0] =~= spec_split(s@, sep)[0]);
        assert(parts@.map_values(|p: String| p@) =~= Seq::<Seq<char>>::empty());
        assert(Seq::<Seq<char>>::empty() + seq![spec_split(s@, sep)[0]] + spec_split(
            s@,
            sep,
        ).drop_first() =~= spec_split(s@, sep));
    }
    while i < n
        invariant
            n == s@.len(),
            0 <= start <= i <= n,
            spec_split(s@, sep) =~= parts@.map_values(|p: String| p@) + seq![
                s@.subrange(start as int, i as int) + spec_split(
                    s@.subrange(i as int, n as int),
                    sep,
                )[0],
            ] + spec_split(s@.subrange(i as int, n as int), sep).drop_first(),
        decreases n - i,
    {
        let ghost rem = s@.subrange(i as int, n as int);
        let ghost rem1 = s@.subrange(i + 1, n as int);
        proof {
            lemma_spec_split_len(rem1, sep);
            assert(rem.drop_first() =~= rem1);
            assert(rem[0] == s@[i as int]);
        }
        let c = s.get_char(i);
        if c == sep {
            let piece = s.substring_char(start, i).to_owned();
            let ghost before = parts@.map_values(|p: String| p@);
            parts.push(piece);
            proof {
                assert(parts@.map_values(|p: String| p@) =~= before.push(
                    s@.subrange(start as int, i as int),
                ));
                assert(s@.subrange(start as int, i as int) + Seq::<char>::empty() =~= s@
                    .subrange(start as int, i as int));
                assert(s@.subrange(i + 1, i + 1) =~= Seq::<char>::empty());
            }
            start = i + 1;
        } else {
            proof {
                assert(s@.subrange(start as int, i + 1) =~= s@.subrange(start as int, i as int)
                    + seq![s@[i as int]]);
                assert((s@.subrange(start as int, i as int) + seq![s@[i as int]]) + spec_split(
                    rem1,
                    sep,
                )[0] =~= s@.subrange(start as int, i as int) + (seq![s@[i as int]]
                    + spec_split(rem1, sep)[0]));
            }
        }
        i += 1;
    }
    let piece = s.substring_char(start, n).to_owned();
    let ghost before = parts@.map_values(|p: String| p@);
    parts.push(piece);
    proof {
        assert(s@.subrange(n as int, n as int) =~= Seq::<char>::empty());
        assert(parts@.map_values(|p: String| p@) =~= before.push(
            s@.subrange(start as int, n as int),
        ));
        assert(s@.subrange(start as int, n as int) + Seq::<char>::empty() =~= s@.subrange(
            start as int,
            n as int,
        ));
    }
    parts
}

/// Check one line of menu input: after trimming it must be nonempty and
/// denote a (possibly negative) 64-bit integer. The error text says
/// which of the two demands failed.
pub fn validator(val: &String) -> (r: Result<(), &'static str>)
    ensures
        r is Ok <==> spec_trim(val@).len() > 0 && spec_parse_i64(spec_trim(val@)) is Some,
        spec_trim(val@).len() == 0 ==> (r matches Err(m) && m@ == "Bitte etwas eingeben"@),
        spec_trim(val@).len() > 0 && spec_parse_i64(spec_trim(val@)) is None ==> (r matches Err(
            m,
        ) && m@ == "Bitte eine positive oder negative Ganzzahl eingeben"@),
{
    let new_val = trim(val.as_str());
    if new_val.unicode_len() == 0 {
        return Err("Bitte etwas eingeben");
    }
    match parse_i64(new_val) {
        Some(_) => Ok(()),
        None => Err("Bitte eine positive oder negative Ganzzahl eingeben"),
    }
}

} // verus!
