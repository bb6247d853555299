//! Base64 with the standard alphabet.

use vstd::prelude::*;

verus! {

/// The character, as an ASCII code, that stands for a value below 64.
pub open spec fn digit(value: int) -> u8 {
    if value < 26 {
        (65 + value) as u8
    } else if value < 52 {
        (97 + value - 26) as u8
    } else if value < 62 {
        (48 + value - 52) as u8
    } else if value == 62 {
        43
    } else {
        47
    }
}

/// Whether an ASCII code is one of the 64 digits.
pub open spec fn is_digit(c: u8) -> bool {
    65 <= c <= 90 || 97 <= c <= 122 || 48 <= c <= 57 || c == 43 || c == 47
}

/// The value that a digit stands for.
pub open spec fn digit_value(c: u8) -> int {
    if 65 <= c <= 90 {
        c - 65
    } else if 97 <= c <= 122 {
        c - 97 + 26
    } else if 48 <= c <= 57 {
        c - 48 + 52
    } else if c == 43 {
        62
    } else {
        63
    }
}

/// The 24-bit number made of three bytes.
pub open spec fn triple(b0: u8, b1: u8, b2: u8) -> int {
    b0 * 65536 + b1 * 256 + b2
}

/// The four digits that stand for three bytes.
#[verifier::opaque]
pub open spec fn group_codes(b0: u8, b1: u8, b2: u8) -> Seq<u8> {
    let n = triple(b0, b1, b2);
    seq![digit(n / 262144), digit(n / 4096 % 64), digit(n / 64 % 64), digit(n % 64)]
}

/// The encoding of `data` as ASCII codes: four digits for three bytes; for one or two bytes
/// that are left over, two or three digits filled up to four with `=`.
pub open spec fn encoded_codes(data: Seq<u8>) -> Seq<u8>
    decreases data.len(),
{
    if data.len() == 0 {
        Seq::empty()
    } else if data.len() == 1 {
        group_codes(data[0], 0, 0).take(2) + seq![61u8, 61u8]
    } else if data.len() == 2 {
        group_codes(data[0], data[1], 0).take(3) + seq![61u8]
    } else {
        group_codes(data[0], data[1], data[2]) + encoded_codes(data.skip(3))
    }
}

/// ASCII codes as characters.
pub open spec fn as_chars(codes: Seq<u8>) -> Seq<char> {
    Seq::new(codes.len(), |i: int| codes[i] as char)
}

/// The encoding of `data` as text.
pub open spec fn encoded(data: Seq<u8>) -> Seq<char> {
    as_chars(encoded_codes(data))
}

/// The digit for a value.
fn digit_for(value: u32) -> (c: u8)
    requires
        value < 64,
    ensures
        c == digit(value as int),
{
    if value < 26 {
        65 + value as u8
    } else if value < 52 {
        97 + (value as u8 - 26)
    } else if value < 62 {
        48 + (value as u8 - 52)
    } else if value == 62 {
        43
    } else {
        47
    }
}

/// Appends the first `count` digits of the group that stands for three bytes.
fn push_group(out: &mut String, b0: u8, b1: u8, b2: u8, count: usize)
    requires
        2 <= count <= 4,
    ensures
        final(out)@ == old(out)@ + as_chars(group_codes(b0, b1, b2).take(count as int)),
{
    reveal(group_codes);
    let n: u32 = ((b0 as u32) << 16) | ((b1 as u32) << 8) | b2 as u32;
    assert(n == b0 * 65536 + b1 * 256 + b2 && n < 0x100_0000) by (bit_vector)
        requires
            n == ((b0 as u32) << 16) | ((b1 as u32) << 8) | b2 as u32,
    ;
    assert((n >> 18) & 63 == n / 262144 && (n >> 12) & 63 == n / 4096 % 64 && (n >> 6) & 63 == n
        / 64 % 64 && n & 63 == n % 64) by (bit_vector)
        requires
            n < 0x100_0000,
    ;
    let d0: u8 = digit_for((n >> 18) & 63);
    let d1: u8 = digit_for((n >> 12) & 63);
    let d2: u8 = digit_for((n >> 6) & 63);
    let d3: u8 = digit_for(n & 63);
    assert(group_codes(b0, b1, b2) =~= seq![d0, d1, d2, d3]);
    out.push(d0 as char);
    out.push(d1 as char);
    if count > 2 {
        out.push(d2 as char);
    }
    if count > 3 {
        out.push(d3 as char);
    }
    assert(out@ =~= old(out)@ + as_chars(seq![d0, d1, d2, d3].take(count as int)));
}

proof fn lemma_as_chars_add(a: Seq<u8>, b: Seq<u8>)
    ensures
        as_chars(a + b) == as_chars(a) + as_chars(b),
{
    assert(as_chars(a + b) =~= as_chars(a) + as_chars(b));
}

proof fn lemma_group_len(b0: u8, b1: u8, b2: u8)
    ensures
        group_codes(b0, b1, b2).len() == 4,
{
    reveal(group_codes);
}

/// Encodes bytes as base64.
pub fn b64_encode(data: &[u8]) -> (text: String)
    ensures
        text@ == encoded(data@),
{
    let mut out: String = String::new();
    let mut i: usize = 0;
    assert(data@.skip(0) =~= data@);
    assert(out@ + encoded(data@.skip(0)) =~= encoded(data@));
    while data.len() - i >= 3
        invariant
            i <= data@.len(),
            out@ + encoded(data@.skip(i as int)) == encoded(data@),
        decreases data@.len() - i,
    {
        let ghost before = out@;
        push_group(&mut out, data[i], data[i + 1], data[i + 2], 4);
        proof {
            let rest = data@.skip(i as int);
            let next = data@.skip(i + 3);
            let group = group_codes(data@[i as int], data@[i + 1], data@[i + 2]);
            lemma_group_len(data@[i as int], data@[i + 1], data@[i + 2]);
            assert(group.take(4) =~= group);
            assert(rest.skip(3) =~= next);
            lemma_as_chars_add(group, encoded_codes(next));
            assert(out@ + encoded(next) =~= before + encoded(rest));
        }
        i = i + 3;
    }
    let left: usize = data.len() - i;
    let ghost rest = data@.skip(i as int);
    let ghost before = out@;
    if left == 1 {
        push_group(&mut out, data[i], 0, 0, 2);
        out.push('=');
        out.push('=');
        proof {
            lemma_group_len(rest[0], 0, 0);
            assert(out@ =~= before + encoded(rest));
        }
    } else if left == 2 {
        push_group(&mut out, data[i], data[i + 1], 0, 3);
        out.push('=');
        proof {
            lemma_group_len(rest[0], rest[1], 0);
            assert(out@ =~= before + encoded(rest));
        }
    } else {
        assert(before + encoded(rest) =~= before);
    }
    out
}

/// Whether a byte of the input counts: white space and `=` do not.
pub open spec fn is_significant(c: u8) -> bool {
    !(c == 32 || c == 9 || c == 10 || c == 12 || c == 13 || c == 61)
}

/// The bytes of the input that count.
pub open spec fn significant(input: Seq<u8>) -> Seq<u8> {
    input.filter(|c: u8| is_significant(c))
}

/// The first byte that is not a digit.
pub open spec fn first_bad(digits: Seq<u8>) -> Option<u8>
    decreases digits.len(),
{
    if digits.len() == 0 {
        None
    } else if !is_digit(digits[0]) {
        Some(digits[0])
    } else {
        first_bad(digits.drop_first())
    }
}

/// The 24-bit number made of the first four digits, or of fewer followed by zeros.
#[verifier::opaque]
pub open spec fn quad(digits: Seq<u8>) -> int {
    digit_value(digits[0]) * 262144 + digit_value(digits[1]) * 4096 + (if digits.len() > 2 {
        digit_value(digits[2]) * 64
    } else {
        0
    }) + (if digits.len() > 3 {
        digit_value(digits[3])
    } else {
        0
    })
}

/// The first `count` bytes of a 24-bit number.
#[verifier::opaque]
pub open spec fn first_bytes(n: int, count: nat) -> Seq<u8> {
    seq![(n / 65536) as u8, (n / 256 % 256) as u8, (n % 256) as u8].take(count as int)
}

/// The bytes that a row of digits stands for: three for four digits, one for two and two
/// for three in a last group that is not complete.
pub open spec fn decoded_digits(digits: Seq<u8>) -> Seq<u8>
    decreases digits.len(),
{
    if digits.len() < 2 {
        Seq::empty()
    } else if digits.len() < 4 {
        first_bytes(quad(digits), (digits.len() - 1) as nat)
    } else {
        first_bytes(quad(digits), 3) + decoded_digits(digits.skip(4))
    }
}

/// What decoding gives for these bytes of input: the decoded bytes, or what is wrong.
pub open spec fn decoded_bytes(input: Seq<u8>) -> Result<Seq<u8>, Seq<char>> {
    let digits = significant(input);
    if digits.len() % 4 == 1 {
        Err("base64 长度非法"@)
    } else {
        match first_bad(digits) {
            Some(c) => Err("非法 base64 字符: "@.push(c as char)),
            None => Ok(decoded_digits(digits)),
        }
    }
}

/// What decoding gives for a text.
pub open spec fn decoded(text: Seq<char>) -> Result<Seq<u8>, Seq<char>> {
    decoded_bytes(vstd::utf8::encode_utf8(text))
}

/// The value of a digit, if it is one.
fn value_of(c: u8) -> (value: Option<u32>)
    ensures
        value == (if is_digit(c) {
            Some(digit_value(c) as u32)
        } else {
            None
        }),
        value matches Some(v) ==> v == digit_value(c) && v < 64,
{
    if 65 <= c && c <= 90 {
        Some((c - 65) as u32)
    } else if 97 <= c && c <= 122 {
        Some((c - 97) as u32 + 26)
    } else if 48 <= c && c <= 57 {
        Some((c - 48) as u32 + 52)
    } else if c == 43 {
        Some(62)
    } else if c == 47 {
        Some(63)
    } else {
        None
    }
}

/// The value of a digit; zero for any other byte.
fn value_or_zero(c: u8) -> (value: u32)
    requires
        is_digit(c),
    ensures
        value == digit_value(c),
        value < 64,
{
    match value_of(c) {
        Some(value) => value,
        None => 0,
    }
}

proof fn lemma_first_bad_none(digits: Seq<u8>, i: int)
    requires
        first_bad(digits) is None,
        0 <= i < digits.len(),
    ensures
        is_digit(digits[i]),
    decreases digits.len(),
{
    if i > 0 {
        lemma_first_bad_none(digits.drop_first(), i - 1);
    }
}

/// The number that the group of digits at `i` stands for.
fn quad_at(digits: &Vec<u8>, i: usize) -> (n: u32)
    requires
        first_bad(digits@) is None,
        i + 2 <= digits@.len(),
    ensures
        n == quad(digits@.skip(i as int)),
        n < 0x100_0000,
{
    reveal(quad);
    let left: usize = digits.len() - i;
    proof {
        lemma_first_bad_none(digits@, i as int);
        lemma_first_bad_none(digits@, i + 1);
        if left > 2 {
            lemma_first_bad_none(digits@, i + 2);
        }
        if left > 3 {
            lemma_first_bad_none(digits@, i + 3);
        }
    }
    let mut n: u32 = value_or_zero(digits[i]) * 262144 + value_or_zero(digits[i + 1]) * 4096;
    if left > 2 {
        n = n + value_or_zero(digits[i + 2]) * 64;
    }
    if left > 3 {
        n = n + value_or_zero(digits[i + 3]);
    }
    n
}

/// Appends the first `count` bytes of a 24-bit number.
fn push_first_bytes(out: &mut Vec<u8>, n: u32, count: usize)
    requires
        n < 0x100_0000,
        1 <= count <= 3,
    ensures
        final(out)@ == old(out)@ + first_bytes(n as int, count as nat),
{
    reveal(first_bytes);
    assert((n >> 16) as u8 == n / 65536 && (n >> 8) as u8 == n / 256 % 256 && n as u8 == n % 256)
        by (bit_vector)
        requires
            n < 0x100_0000,
    ;
    out.push((n >> 16) as u8);
    if count >= 2 {
        out.push((n >> 8) as u8);
    }
    if count >= 3 {
        out.push(n as u8);
    }
    assert(out@ =~= old(out)@ + first_bytes(n as int, count as nat));
}

/// Decodes a row of digits.
fn decode_digits(digits: &Vec<u8>) -> (out: Vec<u8>)
    requires
        first_bad(digits@) is None,
        digits@.len() % 4 != 1,
    ensures
        out@ == decoded_digits(digits@),
{
    let mut out: Vec<u8> = Vec::new();
    let mut i: usize = 0;
    assert(digits@.skip(0) =~= digits@);
    assert(out@ + decoded_digits(digits@) =~= decoded_digits(digits@));
    while digits.len() - i >= 4
        invariant
            i <= digits@.len(),
            first_bad(digits@) is None,
            (digits@.len() - i) % 4 != 1,
            out@ + decoded_digits(digits@.skip(i as int)) == decoded_digits(digits@),
        decreases digits@.len() - i,
    {
        let ghost rest = digits@.skip(i as int);
        let ghost before = out@;
        push_first_bytes(&mut out, quad_at(digits, i), 3);
        proof {
            let next = digits@.skip(i + 4);
            assert(rest.skip(4) =~= next);
            assert(out@ + decoded_digits(next) =~= before + decoded_digits(rest));
        }
        i = i + 4;
    }
    let left: usize = digits.len() - i;
    if left > 1 {
        push_first_bytes(&mut out, quad_at(digits, i), left - 1);
    }
    assert(out@ =~= decoded_digits(digits@));
    out
}

/// Decodes base64. White space and `=` are skipped wherever they stand.
pub fn b64_decode(input: &str) -> (result: Result<Vec<u8>, String>)
    ensures
        match result {
            Ok(bytes) => decoded(input@) == Ok::<Seq<u8>, Seq<char>>(bytes@),
            Err(message) => decoded(input@) == Err::<Seq<u8>, Seq<char>>(message@),
        },
{
    let bytes: &[u8] = input.as_bytes();
    let mut digits: Vec<u8> = Vec::new();
    let mut i: usize = 0;
    proof {
        reveal(Seq::filter);
        assert(bytes@.take(0) =~= Seq::empty());
    }
    while i < bytes.len()
        invariant
            i <= bytes@.len(),
            digits@ == significant(bytes@.take(i as int)),
        decreases bytes@.len() - i,
    {
        let c: u8 = bytes[i];
        proof {
            reveal(Seq::filter);
            assert(bytes@.take(i + 1).drop_last() =~= bytes@.take(i as int));
            assert(bytes@.take(i + 1).last() == c);
        }
        if c != 32 && c != 9 && c != 10 && c != 12 && c != 13 && c != 61 {
            digits.push(c);
        }
        i = i + 1;
    }
    assert(bytes@.take(bytes@.len() as int) =~= bytes@);
    if digits.len() % 4 == 1 {
        return Err("base64 长度非法".to_string());
    }
    let mut k: usize = 0;
    assert(digits@.skip(0) =~= digits@);
    while k < digits.len()
        invariant
            k <= digits@.len(),
            digits@ == significant(vstd::utf8::encode_utf8(input@)),
            digits@.len() % 4 != 1,
            first_bad(digits@) == first_bad(digits@.skip(k as int)),
        decreases digits@.len() - k,
    {
        let c: u8 = digits[k];
        if value_of(c).is_none() {
            let mut message: String = "非法 base64 字符: ".to_string();
            message.push(c as char);
            return Err(message);
        }
        assert(digits@.skip(k as int).drop_first() =~= digits@.skip(k + 1));
        k = k + 1;
    }
    Ok(decode_digits(&digits))
}

proof fn lemma_digit_back(value: int)
    requires
        0 <= value < 64,
    ensures
        is_digit(digit(value)),
        digit_value(digit(value)) == value,
        is_significant(digit(value)),
        digit(value) < 128,
{
}

proof fn lemma_first_bad_all(digits: Seq<u8>)
    requires
        forall|i: int| 0 <= i < digits.len() ==> is_digit(digits[i]),
    ensures
        first_bad(digits) is None,
    decreases digits.len(),
{
    if digits.len() > 0 {
        lemma_first_bad_all(digits.drop_first());
    }
}

proof fn lemma_significant_all(codes: Seq<u8>)
    requires
        forall|i: int| 0 <= i < codes.len() ==> is_significant(codes[i]),
    ensures
        significant(codes) == codes,
    decreases codes.len(),
{
    reveal(Seq::filter);
    if codes.len() > 0 {
        lemma_significant_all(codes.drop_last());
        assert(codes.drop_last().push(codes.last()) =~= codes);
    }
}

proof fn lemma_significant_add(a: Seq<u8>, b: Seq<u8>)
    ensures
        significant(a + b) == significant(a) + significant(b),
{
    Seq::filter_distributes_over_add(a, b, |c: u8| is_significant(c));
}

proof fn lemma_insignificant(codes: Seq<u8>)
    requires
        forall|i: int| 0 <= i < codes.len() ==> !is_significant(codes[i]),
    ensures
        significant(codes) == Seq::<u8>::empty(),
    decreases codes.len(),
{
    reveal(Seq::filter);
    if codes.len() > 0 {
        lemma_insignificant(codes.drop_last());
    }
}

/// The three bytes of a 24-bit number, and the four values of six bits in it.
proof fn lemma_triple_digits(b0: u8, b1: u8, b2: u8)
    ensures
        ({
            let n = triple(b0, b1, b2);
            &&& 0 <= n / 262144 < 64
            &&& n == n / 262144 * 262144 + n / 4096 % 64 * 4096 + n / 64 % 64 * 64 + n % 64
            &&& n / 65536 == b0
            &&& n / 256 % 256 == b1
            &&& n % 256 == b2
            &&& b2 == 0 ==> n % 64 == 0
            &&& b1 == 0 && b2 == 0 ==> n / 64 % 64 == 0
        }),
{
    let n = (b0 * 65536 + b1 * 256 + b2) as u32;
    assert(n / 262144 < 64 && n == n / 262144 * 262144 + n / 4096 % 64 * 4096 + n / 64 % 64 * 64 + n
        % 64 && n / 65536 == b0 && n / 256 % 256 == b1 && n % 256 == b2 && (b2 == 0 ==> n % 64 == 0)
        && (b1 == 0 && b2 == 0 ==> n / 64 % 64 == 0)) by (bit_vector)
        requires
            n == b0 * 65536 + b1 * 256 + b2,
    ;
}

/// The first `k` digits of a group stand for the first `k - 1` bytes, if the others are
/// zero.
proof fn lemma_group(b0: u8, b1: u8, b2: u8, k: int)
    requires
        2 <= k <= 4,
        k < 4 ==> b2 == 0,
        k < 3 ==> b1 == 0,
    ensures
        ({
            let head = group_codes(b0, b1, b2).take(k);
            &&& forall|i: int|
                0 <= i < k ==> is_digit(#[trigger] head[i]) && is_significant(head[i]) && head[i]
                    < 128
            &&& quad(head) == triple(b0, b1, b2)
            &&& first_bytes(quad(head), (k - 1) as nat) == seq![b0, b1, b2].take(k - 1)
            &&& head.len() == k
        }),
{
    reveal(group_codes);
    reveal(quad);
    reveal(first_bytes);
    let n = triple(b0, b1, b2);
    let head = group_codes(b0, b1, b2).take(k);
    lemma_triple_digits(b0, b1, b2);
    lemma_digit_back(n / 262144);
    lemma_digit_back(n / 4096 % 64);
    lemma_digit_back(n / 64 % 64);
    lemma_digit_back(n % 64);
    assert(head[0] == digit(n / 262144));
    assert(head[1] == digit(n / 4096 % 64));
    assert(k > 2 ==> head[2] == digit(n / 64 % 64));
    assert(k > 3 ==> head[3] == digit(n % 64));
    assert(quad(head) == n);
    assert(first_bytes(n, (k - 1) as nat) =~= seq![b0, b1, b2].take(k - 1));
}

/// Whether these codes stand for `data`, and are ASCII.
spec fn stands_for(codes: Seq<u8>, data: Seq<u8>) -> bool {
    let digits = significant(codes);
    &&& digits.len() % 4 != 1
    &&& first_bad(digits) is None
    &&& decoded_digits(digits) == data
    &&& forall|i: int| 0 <= i < codes.len() ==> #[trigger] codes[i] < 128
}

proof fn lemma_last_group(head: Seq<u8>, fill: Seq<u8>, data: Seq<u8>)
    requires
        head.len() == data.len() + 1,
        1 <= data.len() <= 2,
        forall|i: int|
            0 <= i < head.len() ==> is_digit(#[trigger] head[i]) && is_significant(head[i])
                && head[i] < 128,
        forall|i: int| 0 <= i < fill.len() ==> fill[i] == 61,
        first_bytes(quad(head), data.len()) == data,
    ensures
        stands_for(head + fill, data),
{
    lemma_significant_all(head);
    lemma_insignificant(fill);
    lemma_significant_add(head, fill);
    assert(significant(head + fill) =~= head);
    lemma_first_bad_all(head);
}

proof fn lemma_first_group(head: Seq<u8>, codes: Seq<u8>, bytes: Seq<u8>, data: Seq<u8>)
    requires
        head.len() == 4,
        forall|i: int|
            0 <= i < 4 ==> is_digit(#[trigger] head[i]) && is_significant(head[i]) && head[i]
                < 128,
        first_bytes(quad(head), 3) == bytes,
        stands_for(codes, data),
    ensures
        stands_for(head + codes, bytes + data),
{
    let tail = significant(codes);
    let digits = head + tail;
    lemma_significant_all(head);
    lemma_significant_add(head, codes);
    assert(digits.skip(4) =~= tail);
    assert(quad(digits) == quad(head)) by {
        reveal(quad);
    }
    assert forall|i: int| 0 <= i < digits.len() implies is_digit(digits[i]) by {
        if i >= 4 {
            lemma_first_bad_none(tail, i - 4);
        }
    }
    lemma_first_bad_all(digits);
}

proof fn lemma_encoding_stands_for(data: Seq<u8>)
    ensures
        stands_for(encoded_codes(data), data),
    decreases data.len(),
{
    if data.len() == 0 {
        lemma_significant_all(Seq::empty());
        assert(decoded_digits(Seq::empty()) =~= data);
    } else if data.len() == 1 {
        lemma_group(data[0], 0, 0, 2);
        assert(seq![data[0], 0, 0].take(1) =~= data);
        lemma_last_group(group_codes(data[0], 0, 0).take(2), seq![61u8, 61u8], data);
    } else if data.len() == 2 {
        lemma_group(data[0], data[1], 0, 3);
        assert(seq![data[0], data[1], 0].take(2) =~= data);
        lemma_last_group(group_codes(data[0], data[1], 0).take(3), seq![61u8], data);
    } else {
        let head = group_codes(data[0], data[1], data[2]);
        let bytes = seq![data[0], data[1], data[2]];
        lemma_group(data[0], data[1], data[2], 4);
        lemma_group_len(data[0], data[1], data[2]);
        assert(head.take(4) =~= head);
        assert(bytes.take(3) =~= bytes);
        lemma_encoding_stands_for(data.skip(3));
        lemma_first_group(head, encoded_codes(data.skip(3)), bytes, data.skip(3));
        assert(bytes + data.skip(3) =~= data);
    }
}

/// Decoding an encoding gives the data back, for data of every length.
pub proof fn law_decode_inverts_encode(data: Seq<u8>)
    ensures
        decoded(encoded(data)) == Ok::<Seq<u8>, Seq<char>>(data),
{
    lemma_encoding_stands_for(data);
    let codes = encoded_codes(data);
    let text = encoded(data);
    assert forall|i: int| 0 <= i < text.len() implies '\0' <= #[trigger] text[i] <= '\u{7f}' by {
        assert(codes[i] < 128);
    }
    vstd::utf8::is_ascii_chars_encode_utf8(text);
    assert(vstd::utf8::encode_utf8(text) =~= codes);
}

/// The characters that decoding skips.
pub open spec fn is_skipped(c: char) -> bool {
    c == ' ' || c == '\t' || c == '\n' || c == '\u{c}' || c == '\r' || c == '='
}

proof fn lemma_encode_utf8_add(a: Seq<char>, b: Seq<char>)
    ensures
        vstd::utf8::encode_utf8(a + b) == vstd::utf8::encode_utf8(a) + vstd::utf8::encode_utf8(b),
    decreases a.len(),
{
    if a.len() == 0 {
        assert(a + b =~= b);
        assert(vstd::utf8::encode_utf8(a) + vstd::utf8::encode_utf8(b)
            =~= vstd::utf8::encode_utf8(b));
    } else {
        assert((a + b).drop_first() =~= a.drop_first() + b);
        lemma_encode_utf8_add(a.drop_first(), b);
        assert(vstd::utf8::encode_utf8(a + b) =~= vstd::utf8::encode_utf8(a)
            + vstd::utf8::encode_utf8(b));
    }
}

/// White space or `=` put in anywhere changes nothing.
pub proof fn law_white_space_is_skipped(before: Seq<char>, c: char, after: Seq<char>)
    requires
        is_skipped(c),
    ensures
        decoded(before.push(c) + after) == decoded(before + after),
{
    let one = seq![c];
    let code = vstd::utf8::encode_utf8(one);
    assert(before.push(c) =~= before + one);
    lemma_encode_utf8_add(before, one);
    lemma_encode_utf8_add(before + one, after);
    lemma_encode_utf8_add(before, after);
    assert(vstd::utf8::is_ascii_chars(one));
    vstd::utf8::is_ascii_chars_encode_utf8(one);
    assert(one[0] as u8 == code[0]);
    let bytes1 = vstd::utf8::encode_utf8(before);
    let bytes2 = vstd::utf8::encode_utf8(after);
    lemma_insignificant(code);
    lemma_significant_add(bytes1, code);
    lemma_significant_add(bytes1 + code, bytes2);
    lemma_significant_add(bytes1, bytes2);
    assert(significant(bytes1 + code) =~= significant(bytes1));
}

// ---------------------------------------------------------------------------------------
// Letter by letter
// ---------------------------------------------------------------------------------------

/// The value of a letter: A to Z, a to z, 0 to 9, plus and slash stand for 0 to 63 in this
/// order; anything else for nothing.
pub open spec fn letter_value(c: char) -> Option<int> {
    if 'A' <= c <= 'Z' {
        Some(c as int - 'A' as int)
    } else if 'a' <= c <= 'z' {
        Some(26 + (c as int - 'a' as int))
    } else if '0' <= c <= '9' {
        Some(52 + (c as int - '0' as int))
    } else if c == '+' {
        Some(62)
    } else if c == '/' {
        Some(63)
    } else {
        None
    }
}

/// Whether a text consists of letters that have a value.
pub open spec fn all_letters(text: Seq<char>) -> bool {
    forall|i: int| 0 <= i < text.len() ==> letter_value(#[trigger] text[i]) is Some
}

/// The number that a row of letters stands for, with six bits for each.
pub open spec fn letters_number(text: Seq<char>) -> int
    decreases text.len(),
{
    if text.len() == 0 {
        0
    } else {
        letters_number(text.drop_last()) * 64 + letter_value(text.last())->0
    }
}

/// The number that a row of bytes stands for, with eight bits for each.
pub open spec fn bytes_number(data: Seq<u8>) -> int
    decreases data.len(),
{
    if data.len() == 0 {
        0
    } else {
        bytes_number(data.drop_last()) * 256 + data.last()
    }
}

/// A digit as a letter.
proof fn lemma_digit_letter(value: int)
    requires
        0 <= value < 64,
    ensures
        letter_value(digit(value) as char) == Some(value),
{
}

/// A code that is a digit, as a letter.
proof fn lemma_letter_of_code(c: u8)
    ensures
        is_digit(c) <==> letter_value(c as char) is Some,
        is_digit(c) ==> letter_value(c as char) == Some(digit_value(c)),
{
}

proof fn lemma_numbers_of_four(text: Seq<char>, data: Seq<u8>)
    ensures
        text.len() == 4 ==> letters_number(text) == letter_value(text[0])->0 * 262144
            + letter_value(text[1])->0 * 4096 + letter_value(text[2])->0 * 64 + letter_value(
            text[3],
        )->0,
        text.len() == 3 ==> letters_number(text) == letter_value(text[0])->0 * 4096 + letter_value(
            text[1],
        )->0 * 64 + letter_value(text[2])->0,
        text.len() == 2 ==> letters_number(text) == letter_value(text[0])->0 * 64 + letter_value(
            text[1],
        )->0,
        data.len() == 3 ==> bytes_number(data) == data[0] * 65536 + data[1] * 256 + data[2],
        data.len() == 2 ==> bytes_number(data) == data[0] * 256 + data[1],
        data.len() == 1 ==> bytes_number(data) == data[0],
{
    reveal_with_fuel(letters_number, 5);
    reveal_with_fuel(bytes_number, 4);
}

/// Three bytes become the four letters that stand for the same number; two bytes become three
/// letters, and one becomes two, that stand for the number with two or four zero bits behind
/// it, and `=` fills them up to four. What is longer is encoded three bytes at a time.
pub proof fn law_letters_of_an_encoding(data: Seq<u8>)
    ensures
        data.len() == 0 ==> encoded(data) == Seq::<char>::empty(),
        data.len() == 1 ==> {
            let text = encoded(data);
            &&& text.len() == 4
            &&& text[2] == '=' && text[3] == '='
            &&& all_letters(text.take(2))
            &&& letters_number(text.take(2)) == bytes_number(data) * 16
        },
        data.len() == 2 ==> {
            let text = encoded(data);
            &&& text.len() == 4
            &&& text[3] == '='
            &&& all_letters(text.take(3))
            &&& letters_number(text.take(3)) == bytes_number(data) * 4
        },
        data.len() == 3 ==> {
            let text = encoded(data);
            &&& text.len() == 4
            &&& all_letters(text)
            &&& letters_number(text) == bytes_number(data)
        },
        data.len() > 3 ==> encoded(data) == encoded(data.take(3)) + encoded(data.skip(3)),
{
    let text = encoded(data);
    let b0 = data[0];
    let b1 = if data.len() > 1 {
        data[1]
    } else {
        0
    };
    let b2 = if data.len() > 2 {
        data[2]
    } else {
        0
    };
    let n = triple(b0, b1, b2);
    if data.len() == 0 {
        assert(text =~= Seq::<char>::empty());
    } else {
        reveal(group_codes);
        let group = group_codes(b0, b1, b2);
        lemma_triple_digits(b0, b1, b2);
        lemma_digit_letter(n / 262144);
        lemma_digit_letter(n / 4096 % 64);
        lemma_digit_letter(n / 64 % 64);
        lemma_digit_letter(n % 64);
        if data.len() == 1 {
            assert(text.take(2) =~= as_chars(group.take(2)));
            lemma_numbers_of_four(text.take(2), data);
        } else if data.len() == 2 {
            assert(text.take(3) =~= as_chars(group.take(3)));
            lemma_numbers_of_four(text.take(3), data);
        } else {
            let first = data.take(3);
            assert(first.skip(3) =~= Seq::<u8>::empty());
            assert(encoded_codes(first.skip(3)) =~= Seq::<u8>::empty());
            assert(encoded_codes(first) =~= group);
            lemma_as_chars_add(group, encoded_codes(data.skip(3)));
            if data.len() == 3 {
                assert(first =~= data);
                assert(text =~= as_chars(group));
                lemma_numbers_of_four(text, data);
            }
        }
    }
}

/// A text in letters only, of which no single one is left over from groups of four, decodes to
/// three bytes for four letters, to the same number; of a last group of two or three letters the
/// last four or two bits are dropped. Longer texts decode four letters at a time.
pub proof fn law_bytes_of_a_decoding(text: Seq<char>)
    requires
        all_letters(text),
        text.len() % 4 != 1,
    ensures
        decoded(text) is Ok,
        decoded(text)->Ok_0.len() == text.len() * 3 / 4,
        text.len() == 2 ==> bytes_number(decoded(text)->Ok_0) == letters_number(text) / 16,
        text.len() == 3 ==> bytes_number(decoded(text)->Ok_0) == letters_number(text) / 4,
        text.len() == 4 ==> bytes_number(decoded(text)->Ok_0) == letters_number(text),
        text.len() > 4 ==> decoded(text)->Ok_0 == decoded(text.take(4))->Ok_0 + decoded(
            text.skip(4),
        )->Ok_0,
    decreases text.len(),
{
    lemma_decoded_letters(text);
    if text.len() == 0 {
    } else if text.len() <= 4 {
        lemma_one_group(text);
    } else {
        let first = text.take(4);
        let rest = text.skip(4);
        law_bytes_of_a_decoding(first);
        law_bytes_of_a_decoding(rest);
        lemma_more_groups(text);
    }
}

/// The number of a group of codes.
proof fn lemma_quad_number(text: Seq<char>, digits: Seq<u8>)
    requires
        2 <= text.len() <= 4,
        all_letters(text),
        digits.len() == text.len(),
        forall|i: int| 0 <= i < text.len() ==> #[trigger] digits[i] as char == text[i],
    ensures
        0 <= quad(digits) < 0x100_0000,
        text.len() == 2 ==> quad(digits) == letters_number(text) * 4096,
        text.len() == 3 ==> quad(digits) == letters_number(text) * 64,
        text.len() == 4 ==> quad(digits) == letters_number(text),
{
    reveal(quad);
    assert forall|i: int| 0 <= i < text.len() implies letter_value(text[i]) == Some(
        digit_value(#[trigger] digits[i]),
    ) && 0 <= digit_value(digits[i]) < 64 by {
        assert(digits[i] as char == text[i]);
        assert(letter_value(text[i]) is Some);
        lemma_letter_of_code(digits[i]);
    }
    assert(letter_value(text[0]) == Some(digit_value(digits[0])));
    assert(letter_value(text[1]) == Some(digit_value(digits[1])));
    assert(text.len() > 2 ==> letter_value(text[2]) == Some(digit_value(digits[2])));
    assert(text.len() > 3 ==> letter_value(text[3]) == Some(digit_value(digits[3])));
    lemma_numbers_of_four(text, Seq::empty());
}

/// The first bytes of a number of 24 bits, as a number.
proof fn lemma_first_bytes_number(n: int, count: nat)
    requires
        0 <= n < 0x100_0000,
        1 <= count <= 3,
    ensures
        first_bytes(n, count).len() == count,
        count == 1 ==> bytes_number(first_bytes(n, count)) == n / 65536,
        count == 2 ==> bytes_number(first_bytes(n, count)) == n / 256,
        count == 3 ==> bytes_number(first_bytes(n, count)) == n,
{
    reveal(first_bytes);
    lemma_bytes_of_number(n);
    lemma_numbers_of_four(Seq::empty(), first_bytes(n, count));
}

/// Decoding of one group.
proof fn lemma_one_group(text: Seq<char>)
    requires
        2 <= text.len() <= 4,
        all_letters(text),
    ensures
        decoded(text) is Ok,
        decoded(text)->Ok_0.len() == text.len() - 1,
        text.len() == 2 ==> bytes_number(decoded(text)->Ok_0) == letters_number(text) / 16,
        text.len() == 3 ==> bytes_number(decoded(text)->Ok_0) == letters_number(text) / 4,
        text.len() == 4 ==> bytes_number(decoded(text)->Ok_0) == letters_number(text),
{
    let digits = vstd::utf8::encode_utf8(text);
    lemma_decoded_letters(text);
    lemma_quad_number(text, digits);
    lemma_first_bytes_number(quad(digits), (text.len() - 1) as nat);
    assert(decoded_digits(Seq::<u8>::empty()) =~= Seq::<u8>::empty());
    assert(digits.len() == 4 ==> digits.skip(4) =~= Seq::<u8>::empty());
    assert(decoded_digits(digits) =~= first_bytes(quad(digits), (text.len() - 1) as nat));
}

/// What a text in letters only decodes to.
proof fn lemma_decoded_plain(text: Seq<char>)
    requires
        all_letters(text),
        text.len() % 4 != 1,
    ensures
        vstd::utf8::encode_utf8(text).len() == text.len(),
        decoded(text) == Ok::<Seq<u8>, Seq<char>>(decoded_digits(vstd::utf8::encode_utf8(text))),
{
    lemma_decoded_letters(text);
}

/// The first four codes are decoded by themselves.
proof fn lemma_first_four(head: Seq<u8>, tail: Seq<u8>)
    requires
        head.len() == 4,
    ensures
        decoded_digits(head + tail) == decoded_digits(head) + decoded_digits(tail),
{
    let digits = head + tail;
    assert(digits.skip(4) =~= tail);
    assert(head.skip(4) =~= Seq::<u8>::empty());
    assert(quad(digits) == quad(head)) by {
        reveal(quad);
    }
    assert(decoded_digits(Seq::<u8>::empty()) =~= Seq::<u8>::empty());
    assert(decoded_digits(head) =~= first_bytes(quad(head), 3));
}

/// Decoding of more than one group.
proof fn lemma_more_groups(text: Seq<char>)
    requires
        text.len() > 4,
        text.len() % 4 != 1,
        all_letters(text),
        all_letters(text.take(4)),
        all_letters(text.skip(4)),
    ensures
        decoded(text)->Ok_0 == decoded(text.take(4))->Ok_0 + decoded(text.skip(4))->Ok_0,
        decoded(text) is Ok,
{
    let first = text.take(4);
    let rest = text.skip(4);
    assert(first + rest =~= text);
    lemma_decoded_plain(text);
    lemma_decoded_plain(first);
    lemma_decoded_plain(rest);
    lemma_encode_utf8_add(first, rest);
    lemma_first_four(vstd::utf8::encode_utf8(first), vstd::utf8::encode_utf8(rest));
}

/// The bytes of a number of 24 bits.
proof fn lemma_bytes_of_number(n: int)
    requires
        0 <= n < 0x100_0000,
    ensures
        0 <= n / 65536 < 256,
        n == n / 65536 * 65536 + n / 256 % 256 * 256 + n % 256,
        n / 256 == n / 65536 * 256 + n / 256 % 256,
{
    let m = n as u32;
    assert(m / 65536 < 256 && m == m / 65536 * 65536 + m / 256 % 256 * 256 + m % 256 && m / 256 == m
        / 65536 * 256 + m / 256 % 256) by (bit_vector)
        requires
            m < 0x100_0000,
    ;
}

/// A text in letters only.
proof fn lemma_decoded_letters(text: Seq<char>)
    requires
        all_letters(text),
    ensures
        ({
            let digits = vstd::utf8::encode_utf8(text);
            &&& digits.len() == text.len()
            &&& forall|i: int| 0 <= i < text.len() ==> #[trigger] digits[i] as char == text[i]
            &&& significant(digits) == digits
            &&& first_bad(digits) is None
            &&& text.len() % 4 != 1 ==> decoded(text) == Ok::<Seq<u8>, Seq<char>>(
                decoded_digits(digits),
            )
        }),
{
    let digits = vstd::utf8::encode_utf8(text);
    assert forall|i: int| 0 <= i < text.len() implies '\0' <= #[trigger] text[i] <= '\u{7f}' by {
        assert(letter_value(text[i]) is Some);
    }
    vstd::utf8::is_ascii_chars_encode_utf8(text);
    assert forall|i: int| 0 <= i < digits.len() implies is_digit(digits[i]) && is_significant(
        digits[i],
    ) by {
        assert(letter_value(text[i]) is Some);
        lemma_letter_of_code(digits[i]);
    }
    lemma_significant_all(digits);
    lemma_first_bad_all(digits);
}

/// A single letter left over from groups of four is refused, and said to be so.
pub proof fn law_left_over_letter_is_refused(text: Seq<char>)
    requires
        all_letters(text),
        text.len() % 4 == 1,
    ensures
        decoded(text) == Err::<Seq<u8>, Seq<char>>("base64 长度非法"@),
{
    lemma_decoded_letters(text);
}

/// A character that is neither a letter nor skipped is refused wherever it stands, and the first
/// such one is named, unless the length is wrong already.
#[verifier::rlimit(40)]
pub proof fn law_bad_letter_is_refused(before: Seq<char>, c: char, after: Seq<char>)
    requires
        all_letters(before),
        letter_value(c) is None,
        !is_skipped(c),
        c <= '\u{7f}',
    ensures
        ({
            let result = decoded(before.push(c) + after);
            ||| result == Err::<Seq<u8>, Seq<char>>("base64 长度非法"@)
            ||| result == Err::<Seq<u8>, Seq<char>>("非法 base64 字符: "@.push(c))
        }),
{
    let one = seq![c];
    let code = vstd::utf8::encode_utf8(one);
    let head = vstd::utf8::encode_utf8(before);
    let tail = vstd::utf8::encode_utf8(after);
    lemma_codes_of_bad_letter(c);
    lemma_decoded_letters(before);
    assert(before.push(c) =~= before + one);
    lemma_encode_utf8_add(before, one);
    lemma_encode_utf8_add(before + one, after);
    lemma_significant_add(head, code);
    lemma_significant_add(head + code, tail);
    lemma_significant_all(code);
    let digits = significant(head + code + tail);
    assert(digits =~= head + (code + significant(tail)));
    lemma_first_bad_add(head, code + significant(tail));
    assert((code + significant(tail))[0] == code[0]);
}

proof fn lemma_codes_of_bad_letter(c: char)
    requires
        letter_value(c) is None,
        !is_skipped(c),
        c <= '\u{7f}',
    ensures
        ({
            let code = vstd::utf8::encode_utf8(seq![c]);
            &&& code.len() == 1
            &&& code[0] as char == c
            &&& !is_digit(code[0])
            &&& is_significant(code[0])
        }),
{
    let one = seq![c];
    let code = vstd::utf8::encode_utf8(one);
    assert(vstd::utf8::is_ascii_chars(one));
    vstd::utf8::is_ascii_chars_encode_utf8(one);
    assert(one[0] as u8 == code[0]);
    lemma_letter_of_code(code[0]);
}

proof fn lemma_first_bad_add(good: Seq<u8>, rest: Seq<u8>)
    requires
        first_bad(good) is None,
    ensures
        first_bad(good + rest) == first_bad(rest),
    decreases good.len(),
{
    if good.len() == 0 {
        assert(good + rest =~= rest);
    } else {
        lemma_first_bad_add(good.drop_first(), rest);
        assert((good + rest).drop_first() =~= good.drop_first() + rest);
    }
}

/// A character beyond ASCII is refused wherever it stands.
#[verifier::rlimit(40)]
pub proof fn law_foreign_character_is_refused(before: Seq<char>, c: char, after: Seq<char>)
    requires
        all_letters(before),
        c > '\u{7f}',
    ensures
        decoded(before.push(c) + after) is Err,
{
    let one = seq![c];
    let code = vstd::utf8::encode_utf8(one);
    let head = vstd::utf8::encode_utf8(before);
    let tail = vstd::utf8::encode_utf8(after);
    lemma_codes_beyond_ascii(c);
    lemma_decoded_letters(before);
    assert(before.push(c) =~= before + one);
    lemma_encode_utf8_add(before, one);
    lemma_encode_utf8_add(before + one, after);
    lemma_significant_add(head, code);
    lemma_significant_add(head + code, tail);
    lemma_significant_all(code);
    let digits = significant(head + code + tail);
    assert(digits =~= head + (code + significant(tail)));
    lemma_first_bad_add(head, code + significant(tail));
    assert((code + significant(tail))[0] == code[0]);
}

proof fn lemma_codes_beyond_ascii(c: char)
    requires
        c > '\u{7f}',
    ensures
        ({
            let code = vstd::utf8::encode_utf8(seq![c]);
            &&& code.len() > 0
            &&& forall|i: int| 0 <= i < code.len() ==> is_significant(#[trigger] code[i])
            &&& !is_digit(code[0])
        }),
{
    let one = seq![c];
    let scalar = c as u32;
    let code = vstd::utf8::encode_utf8(one);
    let bytes = vstd::utf8::encode_scalar(scalar);
    assert(one.drop_first() =~= Seq::empty());
    assert(vstd::utf8::encode_utf8(Seq::<char>::empty()) =~= Seq::empty());
    assert(code =~= bytes);
    assert forall|i: int| 0 <= i < bytes.len() implies #[trigger] bytes[i] >= 0x80 by {
        let x1 = ((scalar >> 6) & 0x1F) as u8;
        let x2 = ((scalar >> 12) & 0x0F) as u8;
        let x3 = ((scalar >> 18) & 0x7) as u8;
        let x4 = (scalar & 0x3F) as u8;
        let x5 = ((scalar >> 6) & 0x3F) as u8;
        let x6 = ((scalar >> 12) & 0x3F) as u8;
        assert(0xC0 | x1 >= 0x80 && 0xE0 | x2 >= 0x80 && 0xF0 | x3 >= 0x80 && 0x80 | x4 >= 0x80
            && 0x80 | x5 >= 0x80 && 0x80 | x6 >= 0x80) by (bit_vector);
    }
}

} // verus!
