use vstd::prelude::*;
use vstd::string::*;

verus! {

/// `heapless::String`, a string in a fixed number of bytes; only the
/// functions below look inside.
#[verifier::external_type_specification]
#[verifier::external_body]
pub struct ExString<const N: usize>(heapless::String<N>);

/// The bytes held by a 64-byte command string.
pub uninterp spec fn request_bytes(s: heapless::String<64>) -> Seq<u8>;

/// The decimal digits of `n` as ASCII bytes, most significant first.
pub open spec fn decimal(n: nat) -> Seq<u8>
    decreases n,
{
    if n < 10 {
        seq![(48 + n) as u8]
    } else {
        decimal(n / 10).push((48 + n % 10) as u8)
    }
}

/// The ASCII character of one decimal digit.
fn digit_char(d: usize) -> (c: char)
    requires
        d < 10,
    ensures
        c as u8 == 48 + d,
        (c as u32) < 128,
{
    (48u8 + d as u8) as char
}

/// Whether two byte strings are the same.
pub fn bytes_equal(a: &[u8], b: &[u8]) -> (same: bool)
    ensures
        same == (a@ == b@),
{
    if a.len() != b.len() {
        return false;
    }
    let mut i: usize = 0;
    while i < a.len()
        invariant
            a@.len() == b@.len(),
            i <= a@.len(),
            a@.take(i as int) == b@.take(i as int),
        decreases a@.len() - i,
    {
        if a[i] != b[i] {
            return false;
        }
        assert(a@.take(i + 1) == a@.take(i as int).push(a@[i as int]));
        assert(b@.take(i + 1) == b@.take(i as int).push(b@[i as int]));
        i = i + 1;
    }
    assert(a@.take(a@.len() as int) == a@);
    assert(b@.take(b@.len() as int) == b@);
    true
}

/// `heapless::String::<64>::new`: the new string holds no bytes.
#[verifier::external_body]
pub(crate) fn request_new() -> (s: heapless::String<64>)
    ensures
        request_bytes(s) == Seq::<u8>::empty(),
{
    heapless::String::new()
}

/// `heapless::String::<64>::push_str`: appends the bytes of `part` when the
/// result fits in 64 bytes, and otherwise changes nothing and reports it.
#[verifier::external_body]
pub(crate) fn request_push_str(s: &mut heapless::String<64>, part: &str) -> (r: Result<(), ()>)
    ensures
        r is Ok <==> request_bytes(*old(s)).len() + part.spec_bytes().len() <= 64,
        r is Ok ==> request_bytes(*final(s)) == request_bytes(*old(s)) + part.spec_bytes(),
        r is Err ==> request_bytes(*final(s)) == request_bytes(*old(s)),
{
    s.push_str(part)
}

/// `heapless::String::<64>::push` on an ASCII character: appends its one byte
/// when there is room, and otherwise changes nothing and reports it.
#[verifier::external_body]
pub(crate) fn request_push(s: &mut heapless::String<64>, c: char) -> (r: Result<(), ()>)
    requires
        (c as u32) < 128,
    ensures
        r is Ok <==> request_bytes(*old(s)).len() < 64,
        r is Ok ==> request_bytes(*final(s)) == request_bytes(*old(s)).push(c as u8),
        r is Err ==> request_bytes(*final(s)) == request_bytes(*old(s)),
{
    s.push(c)
}

/// Appends the decimal digits of `n`, where all of them fit.
pub(crate) fn request_push_decimal(s: &mut heapless::String<64>, n: usize) -> (r: Result<(), ()>)
    ensures
        r is Ok <==> request_bytes(*old(s)).len() + decimal(n as nat).len() <= 64,
        r is Ok ==> request_bytes(*final(s)) == request_bytes(*old(s)) + decimal(n as nat),
    decreases n,
{
    if n >= 10 {
        match request_push_decimal(s, n / 10) {
            Ok(()) => {},
            Err(()) => {
                return Err(());
            },
        }
    }
    request_push(s, digit_char(n % 10))
}

/// The bytes held by a 256-byte command string.
pub uninterp spec fn command_bytes(s: heapless::String<256>) -> Seq<u8>;

/// `heapless::String::<256>::new`: the new string holds no bytes.
#[verifier::external_body]
pub(crate) fn command_new() -> (s: heapless::String<256>)
    ensures
        command_bytes(s) == Seq::<u8>::empty(),
{
    heapless::String::new()
}

/// `heapless::String::<256>::from` on a string slice of at most 256 bytes:
/// the new string holds the bytes of the slice.
#[verifier::external_body]
pub(crate) fn command_from(text: &str) -> (s: heapless::String<256>)
    requires
        text.spec_bytes().len() <= 256,
    ensures
        command_bytes(s) == text.spec_bytes(),
{
    heapless::String::from(text)
}

/// `heapless::String::<256>::push_str`: appends the bytes of `part` when the
/// result fits in 256 bytes, and otherwise changes nothing and reports it.
#[verifier::external_body]
pub(crate) fn command_push_str(s: &mut heapless::String<256>, part: &str) -> (r: Result<(), ()>)
    ensures
        r is Ok <==> command_bytes(*old(s)).len() + part.spec_bytes().len() <= 256,
        r is Ok ==> command_bytes(*final(s)) == command_bytes(*old(s)) + part.spec_bytes(),
        r is Err ==> command_bytes(*final(s)) == command_bytes(*old(s)),
{
    s.push_str(part)
}

/// `heapless::String::<256>::push` on an ASCII character: appends its one
/// byte when there is room, and otherwise changes nothing and reports it.
#[verifier::external_body]
pub(crate) fn command_push(s: &mut heapless::String<256>, c: char) -> (r: Result<(), ()>)
    requires
        (c as u32) < 128,
    ensures
        r is Ok <==> command_bytes(*old(s)).len() < 256,
        r is Ok ==> command_bytes(*final(s)) == command_bytes(*old(s)).push(c as u8),
        r is Err ==> command_bytes(*final(s)) == command_bytes(*old(s)),
{
    s.push(c)
}

/// Appends the decimal digits of `n`, where all of them fit.
pub(crate) fn command_push_decimal(s: &mut heapless::String<256>, n: usize) -> (r: Result<(), ()>)
    ensures
        r is Ok <==> command_bytes(*old(s)).len() + decimal(n as nat).len() <= 256,
        r is Ok ==> command_bytes(*final(s)) == command_bytes(*old(s)) + decimal(n as nat),
    decreases n,
{
    if n >= 10 {
        match command_push_decimal(s, n / 10) {
            Ok(()) => {},
            Err(()) => {
                return Err(());
            },
        }
    }
    command_push(s, digit_char(n % 10))
}

/// Ten to the power `e`.
pub open spec fn pow10(e: nat) -> nat
    decreases e,
{
    if e == 0 {
        1
    } else {
        10 * pow10((e - 1) as nat)
    }
}

/// A number below ten to the power `digits` has no more digits than that.
pub proof fn lemma_decimal_len(n: nat, digits: nat)
    requires
        digits >= 1,
        n < pow10(digits),
    ensures
        1 <= decimal(n).len() <= digits,
    decreases n,
{
    if n >= 10 {
        if digits == 1 {
            reveal_with_fuel(pow10, 2);
        } else {
            lemma_decimal_len(n / 10, (digits - 1) as nat);
        }
    }
}

/// A `u8` has at most three digits, a `usize` at most twenty.
pub proof fn lemma_decimal_short(n: nat)
    ensures
        1 <= decimal(n).len(),
        n <= u8::MAX ==> decimal(n).len() <= 3,
        n <= usize::MAX ==> decimal(n).len() <= 20,
{
    assert(pow10(3) == 1000) by {
        reveal_with_fuel(pow10, 4);
    }
    assert(pow10(20) == 100000000000000000000) by {
        reveal_with_fuel(pow10, 21);
    }
    if n <= u8::MAX {
        lemma_decimal_len(n, 3);
    }
    if n <= usize::MAX {
        lemma_decimal_len(n, 20);
    }
}

/// The bytes of a string literal of ASCII characters are as many as its
/// characters.
pub proof fn lemma_ascii_len(s: &str)
    requires
        is_ascii(s),
    ensures
        s.spec_bytes().len() == s@.len(),
{
    is_ascii_spec_bytes(s);
}

} // verus!
