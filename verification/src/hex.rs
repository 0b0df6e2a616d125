use vstd::prelude::*;

verus! {

/// Characters with the Unicode `White_Space` property, the ones that
/// `str::trim` removes.
pub open spec fn is_unicode_whitespace(c: char) -> bool {
    let v = c as u32;
    ||| 0x09 <= v <= 0x0D
    ||| v == 0x20
    ||| v == 0x85
    ||| v == 0xA0
    ||| v == 0x1680
    ||| 0x2000 <= v <= 0x200A
    ||| v == 0x2028
    ||| v == 0x2029
    ||| v == 0x202F
    ||| v == 0x205F
    ||| v == 0x3000
}

/// Whether `c` is Unicode white space.
pub fn is_whitespace(c: char) -> (r: bool)
    ensures
        r == is_unicode_whitespace(c),
{
    let v = c as u32;
    (0x09 <= v && v <= 0x0D) || v == 0x20 || v == 0x85 || v == 0xA0 || v == 0x1680 || (0x2000 <= v
        && v <= 0x200A) || v == 0x2028 || v == 0x2029 || v == 0x202F || v == 0x205F || v == 0x3000
}

/// `s` without its leading white space.
pub open spec fn trim_start(s: Seq<char>) -> Seq<char>
    decreases s.len(),
{
    if s.len() > 0 && is_unicode_whitespace(s[0]) {
        trim_start(s.drop_first())
    } else {
        s
    }
}

/// `s` without its trailing white space.
pub open spec fn trim_end(s: Seq<char>) -> Seq<char>
    decreases s.len(),
{
    if s.len() > 0 && is_unicode_whitespace(s.last()) {
        trim_end(s.drop_last())
    } else {
        s
    }
}

/// `s` without leading and trailing white space.
pub open spec fn trim(s: Seq<char>) -> Seq<char> {
    trim_end(trim_start(s))
}

/// `t` without a leading `0x`, or else without a leading `0X`.
pub open spec fn strip_hex_prefix(t: Seq<char>) -> Seq<char> {
    if t.len() >= 2 && t[0] == '0' && (t[1] == 'x' || t[1] == 'X') {
        t.skip(2)
    } else {
        t
    }
}

/// Why a text is not a `u32` in base 16.
#[derive(Debug, Clone, Copy, PartialEq, Eq, Structural)]
pub enum HexError {
    /// There are no digits at all.
    Empty,
    /// A character is not a hexadecimal digit.
    InvalidDigit,
    /// The number does not fit in a `u32`.
    PosOverflow,
}

/// The value of a hexadecimal digit (either case).
pub open spec fn hex_digit_value(c: char) -> Option<int> {
    let v = c as u32;
    if 0x30 <= v <= 0x39 {
        Some(v - 0x30)
    } else if 0x61 <= v <= 0x66 {
        Some(v - 0x61 + 10)
    } else if 0x41 <= v <= 0x46 {
        Some(v - 0x41 + 10)
    } else {
        None
    }
}

/// Reads the digits `d` after the value `acc` read so far, from left to
/// right; the first character that is no digit, or the first digit that
/// takes the value past `u32::MAX`, decides the error.
pub open spec fn parse_hex_digits(d: Seq<char>, acc: int) -> Result<u32, HexError>
    decreases d.len(),
{
    if d.len() == 0 {
        Ok(acc as u32)
    } else {
        match hex_digit_value(d[0]) {
            None => Err(HexError::InvalidDigit),
            Some(v) => if acc * 16 + v > u32::MAX {
                Err(HexError::PosOverflow)
            } else {
                parse_hex_digits(d.drop_first(), acc * 16 + v)
            },
        }
    }
}

/// `u32::from_str_radix(src, 16)`: empty text is `Empty`; a lone sign is an
/// invalid digit; one leading `+` is allowed; then hexadecimal digits.
pub open spec fn spec_from_hex(src: Seq<char>) -> Result<u32, HexError> {
    if src.len() == 0 {
        Err(HexError::Empty)
    } else if (src[0] == '+' || src[0] == '-') && src.len() == 1 {
        Err(HexError::InvalidDigit)
    } else if src[0] == '+' {
        parse_hex_digits(src.drop_first(), 0)
    } else {
        parse_hex_digits(src, 0)
    }
}

/// The value of a command-line hexadecimal argument: surrounding white
/// space and one `0x` or `0X` prefix are dropped before the digits are read.
pub open spec fn spec_parse_hex_u32(s: Seq<char>) -> Result<u32, HexError> {
    spec_from_hex(strip_hex_prefix(trim(s)))
}

/// How an error of `u32::from_str_radix` reads.
pub open spec fn hex_error_text(k: HexError) -> Seq<char> {
    match k {
        HexError::Empty => "cannot parse integer from empty string"@,
        HexError::InvalidDigit => "invalid digit found in string"@,
        HexError::PosOverflow => "number too large to fit in target type"@,
    }
}

/// How an error reads.
pub fn hex_error_message(k: HexError) -> (r: &'static str)
    ensures
        r@ == hex_error_text(k),
{
    match k {
        HexError::Empty => "cannot parse integer from empty string",
        HexError::InvalidDigit => "invalid digit found in string",
        HexError::PosOverflow => "number too large to fit in target type",
    }
}

proof fn lemma_trim_start_step(s: Seq<char>, lo: int)
    requires
        0 <= lo < s.len(),
        is_unicode_whitespace(s[lo]),
    ensures
        trim_start(s.skip(lo)) == trim_start(s.skip(lo + 1)),
{
    assert(s.skip(lo).drop_first() =~= s.skip(lo + 1));
}

proof fn lemma_trim_end_step(s: Seq<char>, lo: int, hi: int)
    requires
        0 <= lo < hi <= s.len(),
        is_unicode_whitespace(s[hi - 1]),
    ensures
        trim_end(s.subrange(lo, hi)) == trim_end(s.subrange(lo, hi - 1)),
{
    assert(s.subrange(lo, hi).drop_last() =~= s.subrange(lo, hi - 1));
}

fn hex_value(c: char) -> (r: Option<u32>)
    ensures
        match hex_digit_value(c) {
            Some(v) => r == Some(v as u32),
            None => r is None,
        },
{
    let v = c as u32;
    if 0x30 <= v && v <= 0x39 {
        Some(v - 0x30)
    } else if 0x61 <= v && v <= 0x66 {
        Some(v - 0x61 + 10)
    } else if 0x41 <= v && v <= 0x46 {
        Some(v - 0x41 + 10)
    } else {
        None
    }
}

/// Reads `chars[from..to]` as hexadecimal digits (see `parse_hex_digits`).
fn parse_digits(chars: &Vec<char>, from: usize, to: usize) -> (r: Result<u32, HexError>)
    requires
        from <= to <= chars@.len(),
    ensures
        r == parse_hex_digits(chars@.subrange(from as int, to as int), 0),
{
    let mut acc: u32 = 0;
    let mut k: usize = from;
    while k < to
        invariant
            from <= k <= to <= chars@.len(),
            parse_hex_digits(chars@.subrange(from as int, to as int), 0) == parse_hex_digits(
                chars@.subrange(k as int, to as int),
                acc as int,
            ),
        decreases to - k,
    {
        let ghost d = chars@.subrange(k as int, to as int);
        assert(d[0] == chars@[k as int]);
        assert(d.drop_first() =~= chars@.subrange(k + 1, to as int));
        match hex_value(chars[k]) {
            None => {
                return Err(HexError::InvalidDigit);
            },
            Some(v) => {
                let next: u64 = acc as u64 * 16 + v as u64;
                if next > 0xFFFF_FFFF {
                    return Err(HexError::PosOverflow);
                }
                acc = next as u32;
            },
        }
        k = k + 1;
    }
    Ok(acc)
}

/// Parses a hexadecimal argument such as `0x2C000000`, `0X2C000000` or
/// `2C000000` (see `spec_parse_hex_u32`). On failure the message reads
/// `Invalid hex value '<s>': <reason>`, with the reason that
/// `u32::from_str_radix` gives.
pub fn parse_hex_u32(s: &str) -> (r: Result<u32, String>)
    ensures
        match spec_parse_hex_u32(s@) {
            Ok(v) => r == Ok::<u32, String>(v),
            Err(k) => r matches Err(msg) && msg@ == "Invalid hex value '"@ + s@ + "': "@
                + hex_error_text(k),
        },
{
    let n = s.unicode_len();
    let mut chars: Vec<char> = Vec::new();
    let mut i: usize = 0;
    while i < n
        invariant
            n == s@.len(),
            i <= n,
            chars@ == s@.take(i as int),
        decreases n - i,
    {
        chars.push(s.get_char(i));
        assert(chars@ =~= s@.take(i + 1));
        i = i + 1;
    }
    assert(chars@ =~= s@);
    // leading white space
    let mut lo: usize = 0;
    assert(chars@.skip(0) =~= chars@);
    while lo < n && is_whitespace(chars[lo])
        invariant
            n == chars@.len(),
            lo <= n,
            trim_start(chars@) == trim_start(chars@.skip(lo as int)),
        decreases n - lo,
    {
        proof {
            lemma_trim_start_step(chars@, lo as int);
        }
        lo = lo + 1;
    }
    assert(trim_start(chars@) =~= chars@.subrange(lo as int, n as int));
    // trailing white space
    let mut hi: usize = n;
    while hi > lo && is_whitespace(chars[hi - 1])
        invariant
            n == chars@.len(),
            lo <= hi <= n,
            trim(chars@) == trim_end(chars@.subrange(lo as int, hi as int)),
        decreases hi - lo,
    {
        proof {
            lemma_trim_end_step(chars@, lo as int, hi as int);
        }
        hi = hi - 1;
    }
    let ghost t = chars@.subrange(lo as int, hi as int);
    assert(trim(chars@) == t);
    // prefix
    let mut a: usize = lo;
    if hi - lo >= 2 && chars[lo] == '0' && (chars[lo + 1] == 'x' || chars[lo + 1] == 'X') {
        a = lo + 2;
        assert(t.skip(2) =~= chars@.subrange(a as int, hi as int));
    } else {
        assert(t =~= chars@.subrange(a as int, hi as int));
    }
    let ghost src = chars@.subrange(a as int, hi as int);
    assert(strip_hex_prefix(t) == src);
    // digits
    let parsed = if a == hi {
        Err(HexError::Empty)
    } else if (chars[a] == '+' || chars[a] == '-') && hi - a == 1 {
        Err(HexError::InvalidDigit)
    } else if chars[a] == '+' {
        assert(src.drop_first() =~= chars@.subrange(a + 1, hi as int));
        parse_digits(&chars, a + 1, hi)
    } else {
        parse_digits(&chars, a, hi)
    };
    match parsed {
        Ok(v) => Ok(v),
        Err(k) => {
            let mut msg = String::from_str("Invalid hex value '");
            msg.append(s);
            msg.append("': ");
            msg.append(hex_error_message(k));
            Err(msg)
        },
    }
}

/// Every character of `d` is a hexadecimal digit.
pub open spec fn all_hex_digits(d: Seq<char>) -> bool {
    forall|i: int| 0 <= i < d.len() ==> #[trigger] hex_digit_value(d[i]) is Some
}

/// The number that the hexadecimal digits `d` denote when read after the
/// value `acc` (most significant digit first).
pub open spec fn hex_value_from(d: Seq<char>, acc: int) -> int
    decreases d.len(),
{
    if d.len() == 0 {
        acc
    } else {
        hex_value_from(d.drop_first(), acc * 16 + hex_digit_value(d[0])->0)
    }
}

/// The hexadecimal digit for `v` (below 16), in upper or lower case.
pub open spec fn hex_char(v: int, upper: bool) -> char {
    if upper {
        seq!['0', '1', '2', '3', '4', '5', '6', '7', '8', '9', 'A', 'B', 'C', 'D', 'E', 'F'][v]
    } else {
        seq!['0', '1', '2', '3', '4', '5', '6', '7', '8', '9', 'a', 'b', 'c', 'd', 'e', 'f'][v]
    }
}

/// `n` written in hexadecimal without leading zeros (`0` for zero), as
/// `{:X}` (upper) or `{:x}` writes it.
pub open spec fn render_hex(n: nat, upper: bool) -> Seq<char>
    decreases n,
{
    if n < 16 {
        seq![hex_char(n as int, upper)]
    } else {
        render_hex(n / 16, upper).push(hex_char((n % 16) as int, upper))
    }
}

/// `s` with `'0'` added in front up to `width` characters, as `{:0width$x}`
/// pads.
pub open spec fn pad_with_zeros(s: Seq<char>, width: nat) -> Seq<char> {
    if s.len() < width {
        Seq::new((width - s.len()) as nat, |i: int| '0') + s
    } else {
        s
    }
}

proof fn lemma_hex_char(v: int, upper: bool)
    requires
        0 <= v < 16,
    ensures
        hex_digit_value(hex_char(v, upper)) == Some(v),
        !is_unicode_whitespace(hex_char(v, upper)),
{
}

proof fn lemma_hex_value_concat(a: Seq<char>, b: Seq<char>, acc: int)
    ensures
        hex_value_from(a + b, acc) == hex_value_from(b, hex_value_from(a, acc)),
    decreases a.len(),
{
    if a.len() == 0 {
        assert(a + b =~= b);
    } else {
        assert((a + b).drop_first() =~= a.drop_first() + b);
        assert((a + b)[0] == a[0]);
        lemma_hex_value_concat(a.drop_first(), b, acc * 16 + hex_digit_value(a[0])->0);
    }
}

proof fn lemma_hex_value_grows(d: Seq<char>, acc: int)
    requires
        acc >= 0,
        all_hex_digits(d),
    ensures
        hex_value_from(d, acc) >= acc,
    decreases d.len(),
{
    if d.len() > 0 {
        assert(hex_digit_value(d[0]) is Some);
        assert(all_hex_digits(d.drop_first())) by {
            assert forall|i: int| 0 <= i < d.drop_first().len() implies #[trigger] hex_digit_value(
                d.drop_first()[i],
            ) is Some by {
                assert(d.drop_first()[i] == d[i + 1]);
            }
        }
        lemma_hex_value_grows(d.drop_first(), acc * 16 + hex_digit_value(d[0])->0);
    }
}

proof fn lemma_parse_digits_value(d: Seq<char>, acc: int)
    requires
        acc >= 0,
        all_hex_digits(d),
        hex_value_from(d, acc) <= u32::MAX,
    ensures
        parse_hex_digits(d, acc) == Ok::<u32, HexError>(hex_value_from(d, acc) as u32),
    decreases d.len(),
{
    if d.len() > 0 {
        let v = hex_digit_value(d[0])->0;
        assert(hex_digit_value(d[0]) is Some);
        assert(all_hex_digits(d.drop_first())) by {
            assert forall|i: int| 0 <= i < d.drop_first().len() implies #[trigger] hex_digit_value(
                d.drop_first()[i],
            ) is Some by {
                assert(d.drop_first()[i] == d[i + 1]);
            }
        }
        assert(v >= 0);
        lemma_hex_value_grows(d.drop_first(), acc * 16 + v);
        lemma_parse_digits_value(d.drop_first(), acc * 16 + v);
    }
}

proof fn lemma_trim_surrounded(ws1: Seq<char>, t: Seq<char>, ws2: Seq<char>)
    requires
        t.len() > 0,
        !is_unicode_whitespace(t[0]),
        !is_unicode_whitespace(t.last()),
        forall|i: int| 0 <= i < ws1.len() ==> #[trigger] is_unicode_whitespace(ws1[i]),
        forall|i: int| 0 <= i < ws2.len() ==> #[trigger] is_unicode_whitespace(ws2[i]),
    ensures
        trim(ws1 + t + ws2) == t,
    decreases ws1.len() + ws2.len(),
{
    if ws1.len() > 0 {
        let s = ws1 + t + ws2;
        assert(s[0] == ws1[0]);
        assert(s.drop_first() =~= ws1.drop_first() + t + ws2);
        assert forall|i: int| 0 <= i < ws1.drop_first().len() implies #[trigger] is_unicode_whitespace(
            ws1.drop_first()[i],
        ) by {
            assert(ws1.drop_first()[i] == ws1[i + 1]);
        }
        lemma_trim_surrounded(ws1.drop_first(), t, ws2);
    } else if ws2.len() > 0 {
        let s = ws1 + t + ws2;
        assert(s =~= t + ws2);
        assert(trim_start(s) == s);
        assert(s.last() == ws2.last());
        assert(s.drop_last() =~= ws1 + t + ws2.drop_last());
        assert forall|i: int| 0 <= i < ws2.drop_last().len() implies #[trigger] is_unicode_whitespace(
            ws2.drop_last()[i],
        ) by {
            assert(ws2.drop_last()[i] == ws2[i]);
        }
        lemma_trim_surrounded(ws1, t, ws2.drop_last());
        assert(ws1 + t + ws2.drop_last() =~= t + ws2.drop_last());
        assert(trim_start(t + ws2.drop_last()) == t + ws2.drop_last()) by {
            assert((t + ws2.drop_last())[0] == t[0]);
        }
    } else {
        assert(ws1 + t + ws2 =~= t);
        assert(trim_start(t) == t);
        assert(trim_end(t) == t);
    }
}

/// Hexadecimal digits read back as their value: surrounded by any white
/// space and after one optional `0x` or `0X`, a non-empty run of
/// hexadecimal digits (either case, leading zeros allowed) whose value fits
/// in a `u32` parses to that value.
pub proof fn lemma_parse_hex_digits_back(ws1: Seq<char>, prefix: Seq<char>, digits: Seq<char>, ws2: Seq<char>)
    requires
        forall|i: int| 0 <= i < ws1.len() ==> #[trigger] is_unicode_whitespace(ws1[i]),
        forall|i: int| 0 <= i < ws2.len() ==> #[trigger] is_unicode_whitespace(ws2[i]),
        prefix == Seq::<char>::empty() || prefix == seq!['0', 'x'] || prefix == seq!['0', 'X'],
        digits.len() > 0,
        all_hex_digits(digits),
        hex_value_from(digits, 0) <= u32::MAX,
    ensures
        spec_parse_hex_u32(ws1 + prefix + digits + ws2) == Ok::<u32, HexError>(
            hex_value_from(digits, 0) as u32,
        ),
{
    let t = prefix + digits;
    assert(hex_digit_value(digits[0]) is Some);
    assert(hex_digit_value(digits.last()) is Some);
    assert(t.last() == digits.last());
    if prefix.len() == 0 {
        assert(t =~= digits);
    } else {
        assert(t[0] == '0');
    }
    assert(ws1 + prefix + digits + ws2 =~= ws1 + t + ws2);
    lemma_trim_surrounded(ws1, t, ws2);
    if prefix.len() == 0 {
        if digits.len() >= 2 {
            assert(hex_digit_value(digits[1]) is Some);
        }
        assert(strip_hex_prefix(t) == digits);
    } else {
        assert(t.skip(2) =~= digits);
        assert(strip_hex_prefix(t) == digits);
    }
    lemma_parse_digits_value(digits, 0);
}

proof fn lemma_render_hex(n: nat, upper: bool)
    ensures
        render_hex(n, upper).len() > 0,
        all_hex_digits(render_hex(n, upper)),
        hex_value_from(render_hex(n, upper), 0) == n,
    decreases n,
{
    if n < 16 {
        lemma_hex_char(n as int, upper);
        let r = render_hex(n, upper);
        assert(r.drop_first() =~= Seq::<char>::empty());
        assert(hex_value_from(r, 0) == hex_value_from(r.drop_first(), 0 * 16 + n as int));
    } else {
        let high = render_hex(n / 16, upper);
        let c = hex_char((n % 16) as int, upper);
        lemma_render_hex(n / 16, upper);
        lemma_hex_char((n % 16) as int, upper);
        lemma_hex_value_concat(high, seq![c], 0);
        assert(high.push(c) =~= high + seq![c]);
        assert(seq![c].drop_first() =~= Seq::<char>::empty());
        let hv = hex_value_from(high, 0);
        assert(hex_value_from(seq![c], hv) == hex_value_from(seq![c].drop_first(), hv * 16 + (n % 16) as int));
        assert((n / 16) * 16 + n % 16 == n) by (nonlinear_arith);
        assert(all_hex_digits(high.push(c))) by {
            assert forall|i: int| 0 <= i < high.push(c).len() implies #[trigger] hex_digit_value(
                high.push(c)[i],
            ) is Some by {
                if i < high.len() {
                    assert(high.push(c)[i] == high[i]);
                }
            }
        }
    }
}

/// The hexadecimal rendering of a number parses back to the number: `n`
/// written as `{:X}` or `{:x}`, padded with zeros to any width, after an
/// optional `0x` or `0X` and surrounded by any white space.
pub proof fn lemma_hex_rendering_parses_back(
    n: u32,
    upper: bool,
    width: nat,
    ws1: Seq<char>,
    prefix: Seq<char>,
    ws2: Seq<char>,
)
    requires
        forall|i: int| 0 <= i < ws1.len() ==> #[trigger] is_unicode_whitespace(ws1[i]),
        forall|i: int| 0 <= i < ws2.len() ==> #[trigger] is_unicode_whitespace(ws2[i]),
        prefix == Seq::<char>::empty() || prefix == seq!['0', 'x'] || prefix == seq!['0', 'X'],
    ensures
        spec_parse_hex_u32(ws1 + prefix + pad_with_zeros(render_hex(n as nat, upper), width) + ws2)
            == Ok::<u32, HexError>(n),
{
    let r = render_hex(n as nat, upper);
    lemma_render_hex(n as nat, upper);
    let d = pad_with_zeros(r, width);
    if r.len() < width {
        let z = Seq::new((width - r.len()) as nat, |i: int| '0');
        assert(hex_value_from(z, 0) == 0) by {
            lemma_zeros_value(z);
        }
        lemma_hex_value_concat(z, r, 0);
        assert(all_hex_digits(d)) by {
            assert forall|i: int| 0 <= i < d.len() implies #[trigger] hex_digit_value(d[i]) is Some by {
                if i >= z.len() {
                    assert(d[i] == r[i - z.len()]);
                }
            }
        }
    }
    lemma_parse_hex_digits_back(ws1, prefix, d, ws2);
}

proof fn lemma_zeros_value(z: Seq<char>)
    requires
        forall|i: int| 0 <= i < z.len() ==> z[i] == '0',
    ensures
        hex_value_from(z, 0) == 0,
    decreases z.len(),
{
    if z.len() > 0 {
        assert(z[0] == '0');
        lemma_zeros_value(z.drop_first());
    }
}

} // verus!
