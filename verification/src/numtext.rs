//! Decimal text for the engine's numeric configuration values: rendering
//! counters into diagnostics and validating user-supplied rate and port
//! figures.

use vstd::prelude::*;

verus! {

/// The character for one decimal digit value.
pub open spec fn digit_char(d: int) -> char {
    if d == 0 {
        '0'
    } else if d == 1 {
        '1'
    } else if d == 2 {
        '2'
    } else if d == 3 {
        '3'
    } else if d == 4 {
        '4'
    } else if d == 5 {
        '5'
    } else if d == 6 {
        '6'
    } else if d == 7 {
        '7'
    } else if d == 8 {
        '8'
    } else {
        '9'
    }
}

/// The decimal rendering of a natural number, most significant digit first,
/// with no leading zeros (a lone zero for 0).
pub open spec fn spec_decimal(n: nat) -> Seq<char>
    decreases n,
{
    if n < 10 {
        seq![digit_char(n as int)]
    } else {
        spec_decimal(n / 10) + seq![digit_char((n % 10) as int)]
    }
}

/// The character for one hexadecimal digit value, lower case.
pub open spec fn hex_char(d: int) -> char {
    if d < 10 {
        digit_char(d)
    } else if d == 10 {
        'a'
    } else if d == 11 {
        'b'
    } else if d == 12 {
        'c'
    } else if d == 13 {
        'd'
    } else if d == 14 {
        'e'
    } else {
        'f'
    }
}

/// The lower-case hexadecimal rendering of a natural number, most
/// significant digit first, with no leading zeros.
pub open spec fn spec_hex(n: nat) -> Seq<char>
    decreases n,
{
    if n < 16 {
        seq![hex_char(n as int)]
    } else {
        spec_hex(n / 16) + seq![hex_char((n % 16) as int)]
    }
}

/// True when the character is a decimal digit.
pub open spec fn is_digit(c: char) -> bool {
    '0' <= c && c <= '9'
}

/// True when the character is a hexadecimal digit, either case.
pub open spec fn is_hex_digit(c: char) -> bool {
    is_digit(c) || ('a' <= c && c <= 'f') || ('A' <= c && c <= 'F')
}

/// The numeric value of a hexadecimal digit character.
pub open spec fn hex_digit_value(c: char) -> int {
    if is_digit(c) {
        c as int - '0' as int
    } else if 'a' <= c && c <= 'f' {
        c as int - 'a' as int + 10
    } else {
        c as int - 'A' as int + 10
    }
}

/// True when the sequence is entirely hexadecimal digits.
pub open spec fn all_hex_digits(s: Seq<char>) -> bool {
    forall|i: int| 0 <= i < s.len() ==> is_hex_digit(#[trigger] s[i])
}

/// The value of a hexadecimal digit sequence.
pub open spec fn hex_value(s: Seq<char>) -> int
    decreases s.len(),
{
    if s.len() == 0 {
        0
    } else {
        hex_value(s.drop_last()) * 16 + hex_digit_value(s.last())
    }
}

/// The numeric value of a decimal digit character.
pub open spec fn digit_value(c: char) -> int {
    c as int - '0' as int
}

/// True when the sequence is entirely decimal digits.
pub open spec fn all_digits(s: Seq<char>) -> bool {
    forall|i: int| 0 <= i < s.len() ==> is_digit(#[trigger] s[i])
}

/// The value of a digit sequence read as a decimal numeral.
pub open spec fn decimal_value(s: Seq<char>) -> int
    decreases s.len(),
{
    if s.len() == 0 {
        0
    } else {
        decimal_value(s.drop_last()) * 10 + digit_value(s.last())
    }
}

/// A digit string accepted as a numeric argument: nonempty, all digits, and
/// within the given bound.
pub open spec fn accepted_decimal(s: Seq<char>, bound: int) -> bool {
    s.len() > 0 && all_digits(s) && decimal_value(s) <= bound
}

/// Exec table of digit characters, tied to `digit_char`.
fn digit_str(d: u64) -> (r: &'static str)
    requires
        d < 10,
    ensures
        r@ =~= seq![digit_char(d as int)],
        r.is_ascii(),
{
    let table = "0123456789";
    proof {
        reveal_strlit("0123456789");
        assert(table@.len() == 10);
    }
    let r = table.substring_ascii(d as usize, d as usize + 1);
    proof {
        assert(r@ =~= seq![digit_char(d as int)]);
    }
    r
}

/// Render a number in decimal.
pub fn u64_to_string(n: u64) -> (r: String)
    ensures
        r@ == spec_decimal(n as nat),
        r@.len() > 0,
        all_digits(r@),
    decreases n,
{
    let d = digit_str(n % 10);
    proof {
        lemma_spec_decimal_digits(n as nat);
    }
    if n < 10 {
        d.to_owned()
    } else {
        let prefix = u64_to_string(n / 10);
        let r = prefix.concat(d);
        proof {
            assert(r@ =~= spec_decimal(n as nat));
        }
        r
    }
}

/// Every character of a decimal rendering is a digit.
pub proof fn lemma_spec_decimal_digits(n: nat)
    ensures
        spec_decimal(n).len() > 0,
        all_digits(spec_decimal(n)),
    decreases n,
{
    if n >= 10 {
        lemma_spec_decimal_digits(n / 10);
    }
}

/// A digit character reads back as its digit.
proof fn lemma_digit_char_value(d: int)
    requires
        0 <= d <= 9,
    ensures
        digit_value(digit_char(d)) == d,
{
    if d == 0 {
        assert(digit_value('0') == 0);
    } else if d == 1 {
        assert(digit_value('1') == 1);
    } else if d == 2 {
        assert(digit_value('2') == 2);
    } else if d == 3 {
        assert(digit_value('3') == 3);
    } else if d == 4 {
        assert(digit_value('4') == 4);
    } else if d == 5 {
        assert(digit_value('5') == 5);
    } else if d == 6 {
        assert(digit_value('6') == 6);
    } else if d == 7 {
        assert(digit_value('7') == 7);
    } else if d == 8 {
        assert(digit_value('8') == 8);
    } else {
        assert(digit_value('9') == 9);
    }
}

/// A decimal rendering reads back as its own value.
pub proof fn lemma_decimal_value_of_rendering(n: nat)
    ensures
        decimal_value(spec_decimal(n)) == n,
    decreases n,
{
    if n < 10 {
        lemma_digit_char_value(n as int);
        assert(decimal_value(Seq::<char>::empty()) == 0);
        assert(spec_decimal(n).drop_last() =~= Seq::<char>::empty());
        assert(spec_decimal(n).last() == digit_char(n as int));
    } else {
        lemma_decimal_value_of_rendering(n / 10);
        lemma_digit_char_value((n % 10) as int);
        assert(spec_decimal(n).drop_last() =~= spec_decimal(n / 10));
        assert(spec_decimal(n).last() == digit_char((n % 10) as int));
    }
}

/// A hexadecimal digit character reads back as its digit, and is one.
proof fn lemma_hex_char_value(d: int)
    requires
        0 <= d <= 15,
    ensures
        is_hex_digit(hex_char(d)),
        hex_digit_value(hex_char(d)) == d,
{
    if d <= 9 {
        lemma_digit_char_value(d);
        assert(is_digit(digit_char(d))) by {
            lemma_spec_decimal_digits(d as nat);
            assert(spec_decimal(d as nat)[0] == digit_char(d));
        }
    } else if d == 10 {
        assert(hex_digit_value('a') == 10);
    } else if d == 11 {
        assert(hex_digit_value('b') == 11);
    } else if d == 12 {
        assert(hex_digit_value('c') == 12);
    } else if d == 13 {
        assert(hex_digit_value('d') == 13);
    } else if d == 14 {
        assert(hex_digit_value('e') == 14);
    } else {
        assert(hex_digit_value('f') == 15);
    }
}

/// Every character of a hexadecimal rendering is a hexadecimal digit.
pub proof fn lemma_spec_hex_digits(n: nat)
    ensures
        spec_hex(n).len() > 0,
        all_hex_digits(spec_hex(n)),
    decreases n,
{
    if n < 16 {
        lemma_hex_char_value(n as int);
    } else {
        lemma_spec_hex_digits(n / 16);
        lemma_hex_char_value((n % 16) as int);
    }
}

/// A hexadecimal rendering reads back as its own value.
pub proof fn lemma_hex_value_of_rendering(n: nat)
    ensures
        hex_value(spec_hex(n)) == n,
    decreases n,
{
    if n < 16 {
        lemma_hex_char_value(n as int);
        assert(hex_value(Seq::<char>::empty()) == 0);
        assert(spec_hex(n).drop_last() =~= Seq::<char>::empty());
        assert(spec_hex(n).last() == hex_char(n as int));
    } else {
        lemma_hex_value_of_rendering(n / 16);
        lemma_hex_char_value((n % 16) as int);
        assert(spec_hex(n).drop_last() =~= spec_hex(n / 16));
        assert(spec_hex(n).last() == hex_char((n % 16) as int));
    }
}

/// A value under a power of sixteen renders in at most that many digits.
pub proof fn lemma_spec_hex_len(n: nat, k: int)
    requires
        1 <= k <= 4,
        n < pow16(k),
    ensures
        spec_hex(n).len() <= k,
    decreases k,
{
    if n >= 16 {
        lemma_spec_hex_len(n / 16, k - 1);
    }
}

/// A value under a power of ten renders in at most that many digits.
pub proof fn lemma_spec_decimal_len(n: nat, k: int)
    requires
        1 <= k <= 3,
        n < pow10(k),
    ensures
        spec_decimal(n).len() <= k,
    decreases k,
{
    if n >= 10 {
        lemma_spec_decimal_len(n / 10, k - 1);
    }
}

/// A decimal rendering never starts with a superfluous zero.
pub proof fn lemma_spec_decimal_no_leading_zero(n: nat)
    ensures
        spec_decimal(n).len() > 1 ==> spec_decimal(n)[0] != '0',
    decreases n,
{
    if n >= 10 {
        lemma_spec_decimal_no_leading_zero(n / 10);
        lemma_spec_decimal_digits(n / 10);
        assert(spec_decimal(n)[0] == spec_decimal(n / 10)[0]);
        if spec_decimal(n / 10).len() == 1 {
            if n / 10 >= 10 {
                lemma_spec_decimal_digits(n / 10 / 10);
                assert(spec_decimal(n / 10).len() >= 2);
            }
            assert(n / 10 < 10);
            assert(spec_decimal(n / 10)[0] == digit_char((n / 10) as int));
        }
    }
}

/// Extending a digit string by one digit cannot shrink its value.
proof fn lemma_decimal_value_extend(s: Seq<char>, i: int)
    requires
        0 <= i < s.len(),
        is_digit(s[i]),
        decimal_value(s.take(i)) >= 0,
    ensures
        decimal_value(s.take(i + 1)) >= decimal_value(s.take(i)),
        decimal_value(s.take(i + 1)) == decimal_value(s.take(i)) * 10 + digit_value(s[i]),
{
    assert(s.take(i + 1).drop_last() =~= s.take(i));
    assert(s.take(i + 1).last() == s[i]);
}

/// The value of an all-digit string bounds the value of each of its
/// prefixes.
proof fn lemma_decimal_prefix_bounded(s: Seq<char>, i: int)
    requires
        0 <= i <= s.len(),
        all_digits(s),
    ensures
        decimal_value(s.take(i)) >= 0,
        decimal_value(s.take(i)) <= decimal_value(s),
    decreases s.len() - i,
{
    lemma_decimal_value_extend_nonneg(s, i);
    if i == s.len() {
        assert(s.take(i) =~= s);
    } else {
        lemma_decimal_prefix_bounded(s, i + 1);
        lemma_decimal_value_extend(s, i);
    }
}

/// Prefixes of an all-digit string have nonnegative values.
proof fn lemma_decimal_value_extend_nonneg(s: Seq<char>, i: int)
    requires
        0 <= i <= s.len(),
        all_digits(s),
    ensures
        decimal_value(s.take(i)) >= 0,
    decreases i,
{
    if i > 0 {
        lemma_decimal_value_extend_nonneg(s, i - 1);
        lemma_decimal_value_extend(s, i - 1);
    }
}

/// Parse a string as a decimal number. Returns the value exactly when the
/// string is a nonempty run of digits whose value fits in a `u64`.
pub fn parse_u64(s: &str) -> (r: Option<u64>)
    ensures
        r is Some <==> accepted_decimal(s@, u64::MAX as int),
        r matches Some(v) ==> v as int == decimal_value(s@),
{
    let n = s.unicode_len();
    if n == 0 {
        return None;
    }
    let mut acc: u64 = 0;
    let mut i: usize = 0;
    while i < n
        invariant
            0 <= i <= n,
            n == s@.len(),
            all_digits(s@.take(i as int)),
            acc as int == decimal_value(s@.take(i as int)),
        decreases n - i,
    {
        let c = s.get_char(i);
        if c < '0' || c > '9' {
            proof {
                assert(!is_digit(s@[i as int]));
            }
            return None;
        }
        let d: u32 = c as u32 - '0' as u32;
        let step = match acc.checked_mul(10) {
            Some(x) => x.checked_add(d as u64),
            None => None,
        };
        match step {
            Some(x) => {
                proof {
                    lemma_decimal_value_extend(s@, i as int);
                }
                acc = x;
            },
            None => {
                proof {
                    lemma_decimal_value_extend(s@, i as int);
                    if accepted_decimal(s@, u64::MAX as int) {
                        lemma_decimal_prefix_bounded(s@, i + 1);
                    }
                }
                return None;
            },
        }
        i = i + 1;
    }
    proof {
        assert(s@.take(n as int) =~= s@);
    }
    Some(acc)
}

/// Parse a string as a decimal number that fits in a `u16`.
pub fn parse_u16(s: &str) -> (r: Option<u16>)
    ensures
        r is Some <==> accepted_decimal(s@, u16::MAX as int),
        r matches Some(v) ==> v as int == decimal_value(s@),
{
    match parse_u64(s) {
        Some(v) => {
            if v <= 0xffff {
                Some(v as u16)
            } else {
                None
            }
        },
        None => {
            proof {
                if accepted_decimal(s@, u16::MAX as int) {
                    assert(accepted_decimal(s@, u64::MAX as int));
                }
            }
            None
        },
    }
}

/// Exec table of hexadecimal digit characters, tied to `hex_char`.
fn hex_digit_str(d: u64) -> (r: &'static str)
    requires
        d < 16,
    ensures
        r@ =~= seq![hex_char(d as int)],
        r.is_ascii(),
{
    let table = "0123456789abcdef";
    proof {
        reveal_strlit("0123456789abcdef");
        assert(table@.len() == 16);
    }
    let r = table.substring_ascii(d as usize, d as usize + 1);
    proof {
        assert(r@ =~= seq![hex_char(d as int)]);
    }
    r
}

/// Render a number in lower-case hexadecimal.
pub fn u64_to_hex_string(n: u64) -> (r: String)
    ensures
        r@ == spec_hex(n as nat),
    decreases n,
{
    let d = hex_digit_str(n % 16);
    if n < 16 {
        d.to_owned()
    } else {
        let prefix = u64_to_hex_string(n / 16);
        let r = prefix.concat(d);
        proof {
            assert(r@ =~= spec_hex(n as nat));
        }
        r
    }
}

/// The decimal rendering of an integer, a minus sign ahead of a negative
/// one.
pub open spec fn spec_decimal_signed(n: int) -> Seq<char> {
    if n < 0 {
        seq!['-'] + spec_decimal((-n) as nat)
    } else {
        spec_decimal(n as nat)
    }
}

/// Render a signed number in decimal.
pub fn i64_to_string(n: i64) -> (r: String)
    ensures
        r@ == spec_decimal_signed(n as int),
{
    if n < 0 {
        let mag: u64 = ((-(n + 1)) as u64) + 1;
        let sign = String::from_str("-");
        let r = sign.concat(u64_to_string(mag).as_str());
        proof {
            reveal_strlit("-");
            assert(r@ =~= spec_decimal_signed(n as int));
        }
        r
    } else {
        u64_to_string(n as u64)
    }
}

/// Extending a hexadecimal digit string by one digit cannot shrink its
/// value.
proof fn lemma_hex_value_extend(s: Seq<char>, i: int)
    requires
        0 <= i < s.len(),
    ensures
        hex_value(s.take(i + 1)) == hex_value(s.take(i)) * 16 + hex_digit_value(s[i]),
{
    assert(s.take(i + 1).drop_last() =~= s.take(i));
    assert(s.take(i + 1).last() == s[i]);
}

/// The value of a short hexadecimal chunk stays under sixteen bits.
pub proof fn lemma_hex_value_bound(s: Seq<char>, i: int)
    requires
        0 <= i <= s.len() <= 4,
        all_hex_digits(s),
    ensures
        0 <= hex_value(s.take(i)),
        hex_value(s.take(i)) < pow16(i),
    decreases i,
{
    if i > 0 {
        lemma_hex_value_bound(s, i - 1);
        lemma_hex_value_extend(s, i - 1);
    }
}

/// Powers of ten for short numerals.
pub open spec fn pow10(i: int) -> int {
    if i <= 0 {
        1
    } else if i == 1 {
        10
    } else if i == 2 {
        100
    } else {
        1000
    }
}

/// The value of a short digit string stays under its length's power of ten.
pub proof fn lemma_decimal_value_bound(s: Seq<char>, i: int)
    requires
        0 <= i <= s.len() <= 3,
        all_digits(s),
    ensures
        0 <= decimal_value(s.take(i)),
        decimal_value(s.take(i)) < pow10(i),
    decreases i,
{
    if i > 0 {
        lemma_decimal_value_bound(s, i - 1);
        lemma_decimal_value_extend(s, i - 1);
    }
}

/// Powers of sixteen for the chunk bound.
pub open spec fn pow16(i: int) -> int {
    if i <= 0 {
        1
    } else if i == 1 {
        16
    } else if i == 2 {
        256
    } else if i == 3 {
        4096
    } else {
        65536
    }
}

/// A hexadecimal chunk accepted as one address group: one to four
/// hexadecimal digits.
pub open spec fn valid_hex_chunk(s: Seq<char>) -> bool {
    1 <= s.len() <= 4 && all_hex_digits(s)
}

/// Parse a string as one hexadecimal group of an address. Returns the value
/// exactly when the string is one to four hexadecimal digits.
pub fn parse_hex16(s: &str) -> (r: Option<u16>)
    ensures
        r is Some <==> valid_hex_chunk(s@),
        r matches Some(v) ==> v as int == hex_value(s@),
{
    let n = s.unicode_len();
    if n == 0 || n > 4 {
        return None;
    }
    let mut acc: u16 = 0;
    let mut i: usize = 0;
    while i < n
        invariant
            0 <= i <= n,
            n == s@.len(),
            1 <= n <= 4,
            all_hex_digits(s@.take(i as int)),
            acc as int == hex_value(s@.take(i as int)),
            (acc as int) < pow16(i as int),
        decreases n - i,
    {
        let c = s.get_char(i);
        let d: u32 = if '0' <= c && c <= '9' {
            c as u32 - '0' as u32
        } else if 'a' <= c && c <= 'f' {
            c as u32 - 'a' as u32 + 10
        } else if 'A' <= c && c <= 'F' {
            c as u32 - 'A' as u32 + 10
        } else {
            proof {
                assert(!is_hex_digit(s@[i as int]));
            }
            return None;
        };
        proof {
            lemma_hex_value_extend(s@, i as int);
            lemma_hex_value_bound(s@.take(i as int + 1), i as int + 1);
            assert(s@.take(i as int + 1).take(i as int + 1) =~= s@.take(i as int + 1));
        }
        acc = acc * 16 + (d as u16);
        i = i + 1;
    }
    proof {
        assert(s@.take(n as int) =~= s@);
    }
    Some(acc)
}

/// Check a rate argument: accepted exactly when it is a nonempty digit
/// string whose value fits in a `u64`; otherwise the diagnostic the run
/// aborts with.
pub fn validate_rate(rate: &str) -> (r: Result<(), String>)
    ensures
        r is Ok <==> accepted_decimal(rate@, u64::MAX as int),
        r matches Err(m) ==> m@ == "Rate must be a number "@ + rate@,
{
    match parse_u64(rate) {
        Some(_) => Ok(()),
        None => {
            let msg = String::from_str("Rate must be a number ");
            Err(msg.concat(rate))
        },
    }
}

/// Check a name-server port argument: accepted exactly when it is a
/// nonempty digit string whose value fits in a `u16`.
pub fn validate_name_server_port(port: &str) -> (r: Result<(), String>)
    ensures
        r is Ok <==> accepted_decimal(port@, u16::MAX as int),
        r matches Err(m) ==> m@ == "Invalid name server port: "@ + port@,
{
    match parse_u16(port) {
        Some(_) => Ok(()),
        None => {
            let msg = String::from_str("Invalid name server port: ");
            Err(msg.concat(port))
        },
    }
}

} // verus!
