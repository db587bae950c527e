//! Text produced by the monitor: decimal numbers, `#rrggbb` colour codes, SVG path
//! commands and comma-joined name lists.

use vstd::prelude::*;
use vstd::string::*;
use vstd::utf8::*;

verus! {

/// The character that stands for a digit below sixteen (lower-case for ten and above).
pub open spec fn digit_char(d: nat) -> char {
    seq!['0', '1', '2', '3', '4', '5', '6', '7', '8', '9', 'a', 'b', 'c', 'd', 'e', 'f'][d as int]
}

/// Decimal notation of a natural number, without sign or leading zeros.
pub open spec fn decimal_text(n: nat) -> Seq<char>
    decreases n,
{
    if n < 10 {
        seq![digit_char(n)]
    } else {
        decimal_text(n / 10).push(digit_char(n % 10))
    }
}

/// Appends the digit `d` (below sixteen) to `s`.
fn push_digit(s: &mut String, d: u8)
    requires
        d < 16,
    ensures
        final(s)@ == old(s)@.push(digit_char(d as nat)),
{
    let lit: &str = match d {
        0 => "0",
        1 => "1",
        2 => "2",
        3 => "3",
        4 => "4",
        5 => "5",
        6 => "6",
        7 => "7",
        8 => "8",
        9 => "9",
        10 => "a",
        11 => "b",
        12 => "c",
        13 => "d",
        14 => "e",
        _ => "f",
    };
    proof {
        reveal_strlit("0");
        reveal_strlit("1");
        reveal_strlit("2");
        reveal_strlit("3");
        reveal_strlit("4");
        reveal_strlit("5");
        reveal_strlit("6");
        reveal_strlit("7");
        reveal_strlit("8");
        reveal_strlit("9");
        reveal_strlit("a");
        reveal_strlit("b");
        reveal_strlit("c");
        reveal_strlit("d");
        reveal_strlit("e");
        reveal_strlit("f");
    }
    assert(lit@ =~= seq![digit_char(d as nat)]);
    s.append(lit);
}

/// Appends the decimal notation of `n` to `s`.
pub fn append_decimal(s: &mut String, n: u64)
    ensures
        final(s)@ == old(s)@ + decimal_text(n as nat),
    decreases n,
{
    if n >= 10 {
        append_decimal(s, n / 10);
    }
    push_digit(s, (n % 10) as u8);
    assert(old(s)@ + decimal_text(n as nat) =~= s@);
}

/// The decimal notation of `n`, as `format!("{}", n)` writes it.
pub fn decimal_string(n: u64) -> (s: String)
    ensures
        s@ == decimal_text(n as nat),
{
    let mut s = String::new();
    append_decimal(&mut s, n);
    assert(s@ =~= decimal_text(n as nat));
    s
}


/// `prefix` followed by the decimal notation of `n`, as `format!("{prefix}{n}")`.
pub fn labelled(prefix: &str, n: u64) -> (s: String)
    ensures
        s@ == prefix@ + decimal_text(n as nat),
{
    let mut s = String::from_str(prefix);
    append_decimal(&mut s, n);
    s
}

/// The items with `sep` between each two neighbours.
pub open spec fn joined(items: Seq<Seq<char>>, sep: Seq<char>) -> Seq<char>
    decreases items.len(),
{
    if items.len() == 0 {
        Seq::empty()
    } else if items.len() == 1 {
        items[0]
    } else {
        joined(items.drop_last(), sep) + sep + items.last()
    }
}

/// Joins the strings with `sep` between each two neighbours, as `[String]::join`.
pub fn join_strings(items: &Vec<String>, sep: &str) -> (s: String)
    ensures
        s@ == joined(crate::names::texts(items@), sep@),
{
    let ghost t = crate::names::texts(items@);
    let mut s = String::new();
    let mut k: usize = 0;
    while k < items.len()
        invariant
            k <= items@.len(),
            t == crate::names::texts(items@),
            s@ == joined(t.take(k as int), sep@),
        decreases items@.len() - k,
    {
        if k > 0 {
            s.append(sep);
        }
        s.append(items[k].as_str());
        proof {
            assert(t.take(k + 1).drop_last() =~= t.take(k as int));
            if k == 0 {
                assert(t.take(1) =~= seq![t[0]]);
            }
        }
        k = k + 1;
    }
    assert(t.take(items@.len() as int) =~= t);
    s
}

/// The SVG path segments ` L <i> <point i>` for the points with index 1 up to `n - 1`.
pub open spec fn path_segments(points: Seq<Seq<char>>, n: nat) -> Seq<char>
    decreases n,
{
    if n <= 1 {
        Seq::empty()
    } else {
        path_segments(points, (n - 1) as nat) + seq![' ', 'L', ' '] + decimal_text((n - 1) as nat)
            + seq![' '] + points[n - 1]
    }
}

/// The SVG path `M 0 <p0> L 1 <p1> L 2 <p2> ...` through the given vertical
/// coordinates (one step to the right per point); empty for no points.
pub open spec fn path_text(points: Seq<Seq<char>>) -> Seq<char> {
    if points.len() == 0 {
        Seq::empty()
    } else {
        seq!['M', ' ', '0', ' '] + points[0] + path_segments(points, points.len())
    }
}

/// Builds the SVG `d` commands (`M`, `L`) through the given, already formatted,
/// vertical coordinates.
pub fn path_commands(points: &Vec<String>) -> (s: String)
    ensures
        s@ == path_text(crate::names::texts(points@)),
{
    let ghost t = crate::names::texts(points@);
    let mut s = String::new();
    if points.len() == 0 {
        return s;
    }
    let start = "M 0 ";
    let step = " L ";
    let gap = " ";
    proof {
        reveal_strlit("M 0 ");
        reveal_strlit(" L ");
        reveal_strlit(" ");
        assert(start@ =~= seq!['M', ' ', '0', ' ']);
        assert(step@ =~= seq![' ', 'L', ' ']);
        assert(gap@ =~= seq![' ']);
    }
    s.append(start);
    s.append(points[0].as_str());
    let mut k: usize = 1;
    while k < points.len()
        invariant
            1 <= k <= points@.len(),
            t == crate::names::texts(points@),
            start@ == seq!['M', ' ', '0', ' '],
            step@ == seq![' ', 'L', ' '],
            gap@ == seq![' '],
            s@ == seq!['M', ' ', '0', ' '] + t[0] + path_segments(t, k as nat),
        decreases points@.len() - k,
    {
        s.append(step);
        append_decimal(&mut s, k as u64);
        s.append(gap);
        s.append(points[k].as_str());
        k = k + 1;
        assert(s@ =~= seq!['M', ' ', '0', ' '] + t[0] + path_segments(t, k as nat));
    }
    s
}

/// Characters with the Unicode `White_Space` property (what `char::is_whitespace`
/// tests).
pub open spec fn is_white_space(c: char) -> bool {
    let u = c as int;
    ||| 9 <= u <= 13
    ||| u == 32
    ||| u == 0x85
    ||| u == 0xA0
    ||| u == 0x1680
    ||| 0x2000 <= u <= 0x200A
    ||| u == 0x2028
    ||| u == 0x2029
    ||| u == 0x202F
    ||| u == 0x205F
    ||| u == 0x3000
}

/// The text without its leading white space.
pub open spec fn trim_start_text(s: Seq<char>) -> Seq<char>
    decreases s.len(),
{
    if s.len() > 0 && is_white_space(s[0]) {
        trim_start_text(s.drop_first())
    } else {
        s
    }
}

/// The text without its trailing white space.
pub open spec fn trim_end_text(s: Seq<char>) -> Seq<char>
    decreases s.len(),
{
    if s.len() > 0 && is_white_space(s.last()) {
        trim_end_text(s.drop_last())
    } else {
        s
    }
}

/// The text without leading and trailing white space, as `str::trim` leaves it.
pub open spec fn trimmed(s: Seq<char>) -> Seq<char> {
    trim_end_text(trim_start_text(s))
}

fn white_space(c: char) -> (b: bool)
    ensures
        b == is_white_space(c),
{
    let u = c as u32;
    (9 <= u && u <= 13) || u == 32 || u == 0x85 || u == 0xA0 || u == 0x1680 || (0x2000 <= u
        && u <= 0x200A) || u == 0x2028 || u == 0x2029 || u == 0x202F || u == 0x205F || u == 0x3000
}

/// A copy of the text without leading and trailing white space.
pub fn trim_text(s: &str) -> (t: String)
    ensures
        t@ == trimmed(s@),
{
    let n = s.unicode_len();
    let mut i: usize = 0;
    assert(s@.skip(0) =~= s@);
    while i < n && white_space(s.get_char(i))
        invariant
            n == s@.len(),
            i <= n,
            trim_start_text(s@) == trim_start_text(s@.skip(i as int)),
        decreases n - i,
    {
        assert(s@.skip(i as int).drop_first() =~= s@.skip(i + 1));
        i = i + 1;
    }
    assert(trim_start_text(s@) == s@.subrange(i as int, n as int)) by {
        assert(s@.skip(i as int) =~= s@.subrange(i as int, n as int));
    }
    let mut j: usize = n;
    while j > i && white_space(s.get_char(j - 1))
        invariant
            n == s@.len(),
            i <= j <= n,
            trimmed(s@) == trim_end_text(s@.subrange(i as int, j as int)),
        decreases j,
    {
        assert(s@.subrange(i as int, j as int).drop_last() =~= s@.subrange(i as int, j - 1));
        j = j - 1;
    }
    let sub = s.substring_char(i, j);
    String::from_str(sub)
}

/// Two lower-case hexadecimal digits of a byte, as `{:02x}` writes it.
pub open spec fn hex_byte_text(b: u8) -> Seq<char> {
    seq![digit_char((b / 16) as nat), digit_char((b % 16) as nat)]
}

/// The `#rrggbb` code of a colour, lower-case.
pub open spec fn color_hex_text(red: u8, green: u8, blue: u8) -> Seq<char> {
    seq!['#'] + hex_byte_text(red) + hex_byte_text(green) + hex_byte_text(blue)
}

/// Formats a colour as `#rrggbb` with lower-case digits.
pub fn rgb_to_hex(red: u8, green: u8, blue: u8) -> (s: String)
    ensures
        s@ == color_hex_text(red, green, blue),
{
    let mut s = String::new();
    let hash = "#";
    proof {
        reveal_strlit("#");
    }
    s.append(hash);
    push_digit(&mut s, red / 16);
    push_digit(&mut s, red % 16);
    push_digit(&mut s, green / 16);
    push_digit(&mut s, green % 16);
    push_digit(&mut s, blue / 16);
    push_digit(&mut s, blue % 16);
    assert(s@ =~= color_hex_text(red, green, blue));
    s
}

/// The value of an ASCII hexadecimal digit byte (either case), or `None`.
pub open spec fn hex_digit_value(c: u8) -> Option<u8> {
    if 48 <= c <= 57 {
        Some((c - 48) as u8)
    } else if 97 <= c <= 102 {
        Some((c - 87) as u8)
    } else if 65 <= c <= 70 {
        Some((c - 55) as u8)
    } else {
        None
    }
}

/// The value of two hexadecimal digit bytes `hi`, `lo`, read as a base-16 number.
pub open spec fn hex_pair_value(hi: u8, lo: u8) -> u8 {
    (16 * hex_digit_value(hi).unwrap() + hex_digit_value(lo).unwrap()) as u8
}

/// The fallback grey, for any text that is not a colour code.
pub open spec fn fallback_rgb() -> (u8, u8, u8) {
    (100, 100, 100)
}

/// A colour code: `#` followed by six hexadecimal digits (either case).
pub open spec fn is_hex_code(bytes: Seq<u8>) -> bool {
    &&& bytes.len() == 7
    &&& bytes[0] == 35
    &&& forall|i: int| 1 <= i < 7 ==> (#[trigger] hex_digit_value(bytes[i])) is Some
}

/// Channels read from the bytes of a colour code; any other text gives the fallback
/// grey.
pub open spec fn parsed_rgb(bytes: Seq<u8>) -> (u8, u8, u8) {
    if is_hex_code(bytes) {
        (
            hex_pair_value(bytes[1], bytes[2]),
            hex_pair_value(bytes[3], bytes[4]),
            hex_pair_value(bytes[5], bytes[6]),
        )
    } else {
        fallback_rgb()
    }
}

fn hex_digit(c: u8) -> (r: Option<u8>)
    ensures
        r == hex_digit_value(c),
{
    if 48 <= c && c <= 57 {
        Some(c - 48)
    } else if 97 <= c && c <= 102 {
        Some(c - 87)
    } else if 65 <= c && c <= 70 {
        Some(c - 55)
    } else {
        None
    }
}

/// Reads the red, green and blue channels of a `#RRGGBB` code (digits in either
/// case); any other text gives grey (100, 100, 100).
pub fn parse_hex_rgb(hex: &str) -> (rgb: (u8, u8, u8))
    ensures
        rgb == parsed_rgb(hex.spec_bytes()),
{
    let bytes = hex.as_bytes();
    if bytes.len() != 7 || bytes[0] != 35 {
        return (100, 100, 100);
    }
    let mut digits: [u8; 6] = [0; 6];
    let mut k: usize = 0;
    while k < 6
        invariant
            k <= 6,
            bytes@ == hex.spec_bytes(),
            bytes@.len() == 7,
            forall|i: int| 0 <= i < k ==> Some(#[trigger] digits@[i]) == hex_digit_value(bytes@[i + 1]),
        decreases 6 - k,
    {
        match hex_digit(bytes[k + 1]) {
            Some(v) => {
                digits[k] = v;
            },
            None => {
                proof {
                    assert(hex_digit_value(bytes@[k + 1]) is None);
                }
                return (100, 100, 100);
            },
        }
        k = k + 1;
    }
    proof {
        assert forall|i: int| 1 <= i < 7 implies (#[trigger] hex_digit_value(bytes@[i])) is Some by {
            assert(Some(digits@[i - 1]) == hex_digit_value(bytes@[i]));
        }
        assert(forall|i: int| 0 <= i < 6 ==> digits@[i] < 16);
    }
    assert(digits[0] < 16 && digits[1] < 16 && digits[2] < 16);
    assert(digits[3] < 16 && digits[4] < 16 && digits[5] < 16);
    (16 * digits[0] + digits[1], 16 * digits[2] + digits[3], 16 * digits[4] + digits[5])
}

proof fn lemma_digit_char_value(d: nat)
    requires
        d < 16,
    ensures
        hex_digit_value(digit_char(d) as u8) == Some(d as u8),
        '0' <= digit_char(d) <= 'f',
{
    if d == 0 {
    } else if d == 1 {
    } else if d == 2 {
    } else if d == 3 {
    } else if d == 4 {
    } else if d == 5 {
    } else if d == 6 {
    } else if d == 7 {
    } else if d == 8 {
    } else if d == 9 {
    } else if d == 10 {
    } else if d == 11 {
    } else if d == 12 {
    } else if d == 13 {
    } else if d == 14 {
    } else {
    }
}

/// A lower-case hexadecimal digit byte.
pub open spec fn is_lower_hex_digit(c: u8) -> bool {
    (48 <= c <= 57) || (97 <= c <= 102)
}

/// A `#rrggbb` code with lower-case digits, as bytes.
pub open spec fn is_lower_hex_code(bytes: Seq<u8>) -> bool {
    &&& bytes.len() == 7
    &&& bytes[0] == 35
    &&& forall|i: int| 1 <= i < 7 ==> is_lower_hex_digit(#[trigger] bytes[i])
}

proof fn lemma_lower_digit_roundtrip(c: u8)
    requires
        is_lower_hex_digit(c),
    ensures
        hex_digit_value(c) is Some,
        hex_digit_value(c).unwrap() < 16,
        digit_char(hex_digit_value(c).unwrap() as nat) as u8 == c,
{
    let v = hex_digit_value(c).unwrap();
    lemma_digit_char_value(v as nat);
    if v == 0 {
    } else if v == 1 {
    } else if v == 2 {
    } else if v == 3 {
    } else if v == 4 {
    } else if v == 5 {
    } else if v == 6 {
    } else if v == 7 {
    } else if v == 8 {
    } else if v == 9 {
    } else if v == 10 {
    } else if v == 11 {
    } else if v == 12 {
    } else if v == 13 {
    } else if v == 14 {
    } else {
    }
}

proof fn lemma_color_hex_text_ascii(red: u8, green: u8, blue: u8)
    ensures
        is_ascii_chars(color_hex_text(red, green, blue)),
        color_hex_text(red, green, blue).len() == 7,
        encode_utf8(color_hex_text(red, green, blue)).len() == 7,
        forall|i: int|
            0 <= i < 7 ==> #[trigger] encode_utf8(color_hex_text(red, green, blue))[i]
                == color_hex_text(red, green, blue)[i] as u8,
{
    let t = color_hex_text(red, green, blue);
    lemma_digit_char_value((red / 16) as nat);
    lemma_digit_char_value((red % 16) as nat);
    lemma_digit_char_value((green / 16) as nat);
    lemma_digit_char_value((green % 16) as nat);
    lemma_digit_char_value((blue / 16) as nat);
    lemma_digit_char_value((blue % 16) as nat);
    assert(t[0] == '#');
    assert(t[1] == digit_char((red / 16) as nat));
    assert(t[2] == digit_char((red % 16) as nat));
    assert(t[3] == digit_char((green / 16) as nat));
    assert(t[4] == digit_char((green % 16) as nat));
    assert(t[5] == digit_char((blue / 16) as nat));
    assert(t[6] == digit_char((blue % 16) as nat));
    assert(is_ascii_chars(t));
    is_ascii_chars_encode_utf8(t);
}

proof fn lemma_byte_roundtrip(b: u8)
    ensures
        hex_digit_value(digit_char((b / 16) as nat) as u8) is Some,
        hex_digit_value(digit_char((b % 16) as nat) as u8) is Some,
        hex_pair_value(digit_char((b / 16) as nat) as u8, digit_char((b % 16) as nat) as u8) == b,
{
    lemma_digit_char_value((b / 16) as nat);
    lemma_digit_char_value((b % 16) as nat);
}

/// Reading back a colour code that [`rgb_to_hex`] wrote gives the channels it was
/// written from.
pub proof fn lemma_parse_formatted(red: u8, green: u8, blue: u8)
    ensures
        parsed_rgb(encode_utf8(color_hex_text(red, green, blue))) == (red, green, blue),
{
    let t = color_hex_text(red, green, blue);
    let e = encode_utf8(t);
    lemma_color_hex_text_ascii(red, green, blue);
    lemma_byte_roundtrip(red);
    lemma_byte_roundtrip(green);
    lemma_byte_roundtrip(blue);
    assert(e[0] == t[0] as u8);
    assert(t[0] == '#');
    assert(e[1] == digit_char((red / 16) as nat) as u8) by {
        assert(e[1] == t[1] as u8);
    }
    assert(e[2] == digit_char((red % 16) as nat) as u8) by {
        assert(e[2] == t[2] as u8);
    }
    assert(e[3] == digit_char((green / 16) as nat) as u8) by {
        assert(e[3] == t[3] as u8);
    }
    assert(e[4] == digit_char((green % 16) as nat) as u8) by {
        assert(e[4] == t[4] as u8);
    }
    assert(e[5] == digit_char((blue / 16) as nat) as u8) by {
        assert(e[5] == t[5] as u8);
    }
    assert(e[6] == digit_char((blue % 16) as nat) as u8) by {
        assert(e[6] == t[6] as u8);
    }
    assert(is_hex_code(e)) by {
        assert forall|i: int| 1 <= i < 7 implies (#[trigger] hex_digit_value(e[i])) is Some by {
            if i == 1 {
            } else if i == 2 {
            } else if i == 3 {
            } else if i == 4 {
            } else if i == 5 {
            } else {
            }
        }
    }
}

proof fn lemma_pair_roundtrip(hi: u8, lo: u8)
    requires
        is_lower_hex_digit(hi),
        is_lower_hex_digit(lo),
    ensures
        digit_char((hex_pair_value(hi, lo) / 16) as nat) as u8 == hi,
        digit_char((hex_pair_value(hi, lo) % 16) as nat) as u8 == lo,
{
    lemma_lower_digit_roundtrip(hi);
    lemma_lower_digit_roundtrip(lo);
    let a = hex_digit_value(hi).unwrap();
    let b = hex_digit_value(lo).unwrap();
    assert(hex_pair_value(hi, lo) == 16 * a + b);
    assert((16 * a + b) / 16 == a && (16 * a + b) % 16 == b) by (nonlinear_arith)
        requires
            a < 16,
            b < 16,
    ;
}

/// Writing out the channels read from a lower-case `#rrggbb` code gives that code back.
pub proof fn lemma_format_parsed(bytes: Seq<u8>)
    requires
        is_lower_hex_code(bytes),
    ensures
        encode_utf8(
            color_hex_text(parsed_rgb(bytes).0, parsed_rgb(bytes).1, parsed_rgb(bytes).2),
        ) == bytes,
{
    let (r, g, b) = parsed_rgb(bytes);
    lemma_color_hex_text_ascii(r, g, b);
    assert(is_lower_hex_digit(bytes[1]) && is_lower_hex_digit(bytes[2]));
    assert(is_lower_hex_digit(bytes[3]) && is_lower_hex_digit(bytes[4]));
    assert(is_lower_hex_digit(bytes[5]) && is_lower_hex_digit(bytes[6]));
    lemma_pair_roundtrip(bytes[1], bytes[2]);
    lemma_pair_roundtrip(bytes[3], bytes[4]);
    lemma_pair_roundtrip(bytes[5], bytes[6]);
    let t = color_hex_text(r, g, b);
    assert(t[1] == digit_char((r / 16) as nat));
    assert(t[2] == digit_char((r % 16) as nat));
    assert(t[3] == digit_char((g / 16) as nat));
    assert(t[4] == digit_char((g % 16) as nat));
    assert(t[5] == digit_char((b / 16) as nat));
    assert(t[6] == digit_char((b % 16) as nat));
    assert(encode_utf8(t) =~= bytes);
}


proof fn lemma_path_segments_prefix(points: Seq<Seq<char>>, p: Seq<char>, n: nat)
    requires
        n <= points.len(),
    ensures
        path_segments(points.push(p), n) == path_segments(points, n),
    decreases n,
{
    if n > 1 {
        lemma_path_segments_prefix(points, p, (n - 1) as nat);
        assert(points.push(p)[n - 1] == points[n - 1]);
    }
}

/// A path through no points is empty, and a path through one point `p` is
/// `M 0 <p>`.
pub proof fn lemma_path_start(p: Seq<char>)
    ensures
        path_text(Seq::<Seq<char>>::empty()) == Seq::<char>::empty(),
        path_text(seq![p]) == seq!['M', ' ', '0', ' '] + p,
{
    assert(path_text(seq![p]) =~= seq!['M', ' ', '0', ' '] + p);
}

/// One more point `p` adds the segment ` L <i> <p>` at the end, where `i` is the full
/// decimal index of the new point (its place in the list).
pub proof fn lemma_path_extend(points: Seq<Seq<char>>, p: Seq<char>)
    requires
        points.len() > 0,
    ensures
        path_text(points.push(p)) == path_text(points) + seq![' ', 'L', ' '] + decimal_text(
            points.len(),
        ) + seq![' '] + p,
{
    let q = points.push(p);
    lemma_path_segments_prefix(points, p, points.len());
    assert(q[0] == points[0]);
    assert(q[points.len() as int] == p);
    assert(path_text(q) =~= path_text(points) + seq![' ', 'L', ' '] + decimal_text(points.len())
        + seq![' '] + p);
}

/// The number a string of decimal digits denotes.
pub open spec fn digits_value(t: Seq<char>) -> int
    decreases t.len(),
{
    if t.len() == 0 {
        0
    } else {
        digits_value(t.drop_last()) * 10 + (t.last() as int - 48)
    }
}

proof fn lemma_decimal_digit(d: nat)
    requires
        d < 10,
    ensures
        digit_char(d) as int == 48 + d,
{
    if d == 0 {
    } else if d == 1 {
    } else if d == 2 {
    } else if d == 3 {
    } else if d == 4 {
    } else if d == 5 {
    } else if d == 6 {
    } else if d == 7 {
    } else if d == 8 {
    } else {
    }
}

/// The decimal text of `n` is a non-empty string of the digits `0`-`9` that denotes
/// `n`, with no leading zero (except `0` itself).
pub proof fn lemma_decimal_text_value(n: nat)
    ensures
        decimal_text(n).len() >= 1,
        forall|i: int| 0 <= i < decimal_text(n).len() ==> '0' <= #[trigger] decimal_text(n)[i] <= '9',
        digits_value(decimal_text(n)) == n,
        decimal_text(n)[0] == '0' ==> n == 0,
        n == 0 ==> decimal_text(n) == seq!['0'],
    decreases n,
{
    if n < 10 {
        lemma_decimal_digit(n);
        assert(decimal_text(n).drop_last() =~= Seq::<char>::empty());
        assert(digits_value(Seq::<char>::empty()) == 0);
        assert(digits_value(decimal_text(n)) == digits_value(decimal_text(n).drop_last()) * 10 + (
        decimal_text(n).last() as int - 48));
    } else {
        lemma_decimal_text_value(n / 10);
        lemma_decimal_digit(n % 10);
        let t = decimal_text(n);
        assert(t.drop_last() =~= decimal_text(n / 10));
        assert(t[0] == decimal_text(n / 10)[0]);
        assert(forall|i: int| 0 <= i < t.len() - 1 ==> t[i] == decimal_text(n / 10)[i]);
        assert(n == (n / 10) * 10 + n % 10);
        assert(t.last() == digit_char(n % 10));
        assert(digits_value(t) == digits_value(t.drop_last()) * 10 + (t.last() as int - 48));
    }
}

/// Upper-case digits `A`-`F` read as their lower-case forms `a`-`f` do, and both read
/// as a digit.
pub proof fn lemma_hex_digit_ignores_case(c: u8)
    requires
        65 <= c <= 70,
    ensures
        hex_digit_value(c) is Some,
        hex_digit_value(c) == hex_digit_value((c + 32) as u8),
{
}

/// Every digit that the formatter writes reads back as its value.
pub proof fn lemma_written_digits_read_back(v: nat)
    requires
        v < 16,
    ensures
        hex_digit_value(digit_char(v) as u8) == Some(v as u8),
{
    lemma_digit_char_value(v);
}

/// The byte with an upper-case hexadecimal letter turned to lower case.
pub open spec fn lower_hex_letter(c: u8) -> u8 {
    if 65 <= c <= 70 {
        (c + 32) as u8
    } else {
        c
    }
}

/// A colour code reads the same with its hexadecimal letters in either case.
pub proof fn lemma_parse_ignores_case(bytes: Seq<u8>)
    ensures
        parsed_rgb(bytes) == parsed_rgb(bytes.map_values(|c: u8| lower_hex_letter(c))),
{
    let low = bytes.map_values(|c: u8| lower_hex_letter(c));
    assert forall|i: int| 0 <= i < bytes.len() implies hex_digit_value(#[trigger] low[i])
        == hex_digit_value(bytes[i]) by {
        if 65 <= bytes[i] <= 70 {
            lemma_hex_digit_ignores_case(bytes[i]);
        }
    }
    if bytes.len() == 7 {
        assert(low[0] == 35 <==> bytes[0] == 35);
        assert(is_hex_code(low) == is_hex_code(bytes)) by {
            if is_hex_code(bytes) {
                assert forall|i: int| 1 <= i < 7 implies (#[trigger] hex_digit_value(low[i])) is Some by {
                    assert(hex_digit_value(low[i]) == hex_digit_value(bytes[i]));
                }
            }
            if is_hex_code(low) {
                assert forall|i: int| 1 <= i < 7 implies (#[trigger] hex_digit_value(bytes[i])) is Some by {
                    assert(hex_digit_value(low[i]) == hex_digit_value(bytes[i]));
                }
            }
        }
        assert(hex_digit_value(low[1]) == hex_digit_value(bytes[1]));
        assert(hex_digit_value(low[2]) == hex_digit_value(bytes[2]));
        assert(hex_digit_value(low[3]) == hex_digit_value(bytes[3]));
        assert(hex_digit_value(low[4]) == hex_digit_value(bytes[4]));
        assert(hex_digit_value(low[5]) == hex_digit_value(bytes[5]));
        assert(hex_digit_value(low[6]) == hex_digit_value(bytes[6]));
    }
}


/// Joining nothing gives nothing, joining one item gives that item, and one more item
/// adds the separator and the item at the end.
pub proof fn lemma_joined(items: Seq<Seq<char>>, sep: Seq<char>, x: Seq<char>)
    ensures
        items.len() == 0 ==> joined(items, sep) == Seq::<char>::empty(),
        items.len() == 1 ==> joined(items, sep) == items[0],
        items.len() >= 1 ==> joined(items.push(x), sep) == joined(items, sep) + sep + x,
{
    assert(items.push(x).drop_last() =~= items);
}

proof fn lemma_trim_start_split(s: Seq<char>) -> (i: int)
    ensures
        0 <= i <= s.len(),
        trim_start_text(s) == s.subrange(i, s.len() as int),
        forall|k: int| 0 <= k < i ==> is_white_space(#[trigger] s[k]),
        i < s.len() ==> !is_white_space(s[i]),
    decreases s.len(),
{
    if s.len() > 0 && is_white_space(s[0]) {
        let i0 = lemma_trim_start_split(s.drop_first());
        assert(s.drop_first().subrange(i0, s.drop_first().len() as int) =~= s.subrange(i0 + 1, s.len() as int));
        assert forall|k: int| 0 <= k < i0 + 1 implies is_white_space(#[trigger] s[k]) by {
            if k > 0 {
                assert(s[k] == s.drop_first()[k - 1]);
            }
        }
        i0 + 1
    } else {
        assert(s.subrange(0, s.len() as int) =~= s);
        0
    }
}

proof fn lemma_trim_end_split(s: Seq<char>) -> (j: int)
    ensures
        0 <= j <= s.len(),
        trim_end_text(s) == s.subrange(0, j),
        forall|k: int| j <= k < s.len() ==> is_white_space(#[trigger] s[k]),
        j > 0 ==> !is_white_space(s[j - 1]),
    decreases s.len(),
{
    if s.len() > 0 && is_white_space(s.last()) {
        let j0 = lemma_trim_end_split(s.drop_last());
        assert(s.drop_last().subrange(0, j0) =~= s.subrange(0, j0));
        assert forall|k: int| j0 <= k < s.len() implies is_white_space(#[trigger] s[k]) by {
            if k < s.len() - 1 {
                assert(s[k] == s.drop_last()[k]);
            }
        }
        j0
    } else {
        assert(s.subrange(0, s.len() as int) =~= s);
        s.len() as int
    }
}

/// `t` is `s[i..j]` with only white space before `i` and from `j` on, and with no
/// white space at either end of `t`.
pub open spec fn trim_bounds(s: Seq<char>, t: Seq<char>, i: int, j: int) -> bool {
    &&& 0 <= i <= j <= s.len()
    &&& t == s.subrange(i, j)
    &&& forall|k: int| 0 <= k < i ==> is_white_space(#[trigger] s[k])
    &&& forall|k: int| j <= k < s.len() ==> is_white_space(#[trigger] s[k])
    &&& i < j ==> !is_white_space(s[i]) && !is_white_space(s[j - 1])
}

/// Trimming keeps a contiguous middle part of the text and removes only white space,
/// all of it from both ends.
pub proof fn lemma_trimmed_bounds(s: Seq<char>)
    ensures
        exists|i: int, j: int| trim_bounds(s, trimmed(s), i, j),
{
    let i = lemma_trim_start_split(s);
    let mid = s.subrange(i, s.len() as int);
    let jj = lemma_trim_end_split(mid);
    let j = i + jj;
    assert(mid.subrange(0, jj) =~= s.subrange(i, j));
    assert forall|k: int| j <= k < s.len() implies is_white_space(#[trigger] s[k]) by {
        assert(s[k] == mid[k - i]);
    }
    if i < j {
        assert(s[j - 1] == mid[jj - 1]);
        assert(s[i] == mid[0]);
        assert(i < s.len());
    }
    assert(trim_bounds(s, trimmed(s), i, j));
}

} // verus!
