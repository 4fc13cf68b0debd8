//! The text of a step, read out of the protobuf message that records it.
use vstd::prelude::*;
use vstd::slice::slice_subrange;
use vstd::utf8::*;
use crate::text;

verus! {

/// `std::str::from_utf8` of the standard library: the text that the bytes
/// encode, if they are valid UTF-8.
#[verifier::external_body]
fn decode(bytes: &[u8]) -> (r: Option<String>)
    ensures
        match r {
            Some(s) => valid_utf8(bytes@) && s@ == decode_utf8(bytes@),
            None => !valid_utf8(bytes@),
        },
{
    std::str::from_utf8(bytes).ok().map(|s| s.to_owned())
}

/// 128 to the power of `n`.
pub open spec fn pow128(n: nat) -> nat
    decreases n,
{
    if n == 0 {
        1
    } else {
        128 * pow128((n - 1) as nat)
    }
}

/// The number that some bytes write in base 128, least digit first; the top
/// bit of each byte does not count.
pub open spec fn base128(bytes: Seq<u8>) -> nat
    decreases bytes.len(),
{
    if bytes.len() == 0 {
        0
    } else {
        base128(bytes.drop_last()) + (bytes.last() % 128) as nat * pow128(
            (bytes.len() - 1) as nat,
        )
    }
}

/// A varint of `n` bytes begins the bytes: the top bit is set in all of them
/// but the last.
pub open spec fn varint_ends(bytes: Seq<u8>, n: int) -> bool {
    &&& 1 <= n <= 10
    &&& n <= bytes.len()
    &&& bytes[n - 1] < 128
    &&& forall|i: int| 0 <= i < n - 1 ==> #[trigger] bytes[i] >= 128
}

/// The varint that begins the bytes, and how many of them it takes: ten at
/// most, and no more than 64 bits.
pub open spec fn varint(bytes: Seq<u8>) -> Option<(u64, nat)> {
    if exists|n: int| varint_ends(bytes, n) {
        let n = choose|n: int| varint_ends(bytes, n);
        if base128(bytes.take(n)) <= u64::MAX {
            Some((base128(bytes.take(n)) as u64, n as nat))
        } else {
            None
        }
    } else {
        None
    }
}

/// Where a varint ends is determined.
proof fn lemma_varint_end(bytes: Seq<u8>, m: int, n: int)
    requires
        varint_ends(bytes, m),
        varint_ends(bytes, n),
    ensures
        m == n,
{
    if m < n {
        assert(bytes[m - 1] >= 128);
    }
    if n < m {
        assert(bytes[n - 1] >= 128);
    }
}

/// What the varint is, given where it ends.
pub proof fn lemma_varint_is(bytes: Seq<u8>, n: int)
    requires
        varint_ends(bytes, n),
    ensures
        base128(bytes.take(n)) <= u64::MAX ==> varint(bytes) == Some(
            (base128(bytes.take(n)) as u64, n as nat),
        ),
        base128(bytes.take(n)) > u64::MAX ==> varint(bytes) is None,
{
    let m = choose|m: int| varint_ends(bytes, m);
    lemma_varint_end(bytes, m, n);
}

/// Ten digits in base 128 take 70 bits.
proof fn lemma_base128_bound(bytes: Seq<u8>)
    ensures
        base128(bytes) < pow128(bytes.len()),
    decreases bytes.len(),
{
    if bytes.len() > 0 {
        let p = pow128((bytes.len() - 1) as nat);
        let d = (bytes.last() % 128) as nat;
        lemma_base128_bound(bytes.drop_last());
        assert(d * p <= 127 * p) by (nonlinear_arith)
            requires
                d <= 127,
        ;
    }
}

/// The powers of 128 up to the tenth.
proof fn lemma_pow128(n: nat)
    requires
        n <= 10,
    ensures
        1 <= pow128(n) <= 0x40_0000_0000_0000_0000,
{
    reveal_with_fuel(pow128, 11);
}

/// Reads the varint that begins the bytes: its value, and how many bytes it
/// takes. There is none if no end is found within ten bytes, or if the value
/// takes more than 64 bits.
pub fn read_varint(bytes: &[u8]) -> (r: Option<(u64, usize)>)
    ensures
        match r {
            Some((value, n)) => varint(bytes@) == Some((value, n as nat)),
            None => varint(bytes@) is None,
        },
        r matches Some((value, n)) ==> 1 <= n <= bytes@.len(),
{
    let mut value: u128 = 0;
    let mut scale: u128 = 1;
    let mut i: usize = 0;
    while i < 10 && i < bytes.len()
        invariant
            0 <= i <= 10,
            i <= bytes@.len(),
            value == base128(bytes@.take(i as int)),
            scale == pow128(i as nat),
            forall|j: int| 0 <= j < i ==> #[trigger] bytes@[j] >= 128,
        decreases 10 - i,
    {
        let byte: u8 = bytes[i];
        let digit: u128 = (byte % 128) as u128;
        let ghost read = bytes@.take(i + 1);
        proof {
            assert(read.drop_last() =~= bytes@.take(i as int));
            lemma_base128_bound(bytes@.take(i as int));
            lemma_pow128(i as nat);
            assert(digit * scale <= 127 * scale) by (nonlinear_arith)
                requires
                    digit <= 127,
            ;
        }
        value = value + digit * scale;
        i = i + 1;
        if byte < 128 {
            proof {
                assert(varint_ends(bytes@, i as int));
                lemma_varint_is(bytes@, i as int);
            }
            if value <= 0xFFFF_FFFF_FFFF_FFFF {
                return Some((value as u64, i));
            }
            return None;
        }
        scale = scale * 128;
    }
    assert forall|n: int| !varint_ends(bytes@, n) by {
        if varint_ends(bytes@, n) {
            assert(bytes@[n - 1] >= 128);
        }
    }
    None
}

/// How many bytes the value of a field takes, by its wire type, where `bytes`
/// begin with it: a varint, eight bytes, a length with so many bytes behind it,
/// or four bytes.
pub open spec fn value_len(bytes: Seq<u8>, wire_type: u64) -> Option<nat> {
    if wire_type == 0 {
        match varint(bytes) {
            Some((value, n)) => Some(n),
            None => None,
        }
    } else if wire_type == 1 {
        Some(8)
    } else if wire_type == 2 {
        match varint(bytes) {
            Some((len, n)) => Some(n + len as nat),
            None => None,
        }
    } else if wire_type == 5 {
        Some(4)
    } else {
        None
    }
}

/// The content of the first field of a message that has the number and holds
/// bytes. What comes before it has to be well formed.
pub open spec fn first_field(message: Seq<u8>, number: u64) -> Option<Seq<u8>>
    decreases message.len(),
{
    match varint(message) {
        Some((key, k)) => {
            let value = message.skip(k as int);
            match value_len(value, key % 8) {
                Some(n) => if !(1 <= k <= message.len()) || n > value.len() {
                    None
                } else if key / 8 == number && key % 8 == 2 {
                    match varint(value) {
                        Some((len, h)) => Some(value.subrange(h as int, n as int)),
                        None => None,
                    }
                } else {
                    first_field(value.skip(n as int), number)
                },
                None => None,
            }
        },
        None => None,
    }
}

/// The text of a step: field 1 of field 20 of the message that records it.
pub open spec fn step_text(payload: Seq<u8>) -> Option<Seq<char>> {
    match first_field(payload, 20) {
        Some(answer) => match first_field(answer, 1) {
            Some(bytes) => if valid_utf8(bytes) {
                Some(decode_utf8(bytes))
            } else {
                None
            },
            None => None,
        },
        None => None,
    }
}

/// A varint takes some bytes, and no more than there are.
proof fn lemma_varint_len(bytes: Seq<u8>)
    ensures
        varint(bytes) matches Some((value, n)) ==> 1 <= n <= bytes.len(),
{
}

/// The first field of a message that has the number and holds bytes.
fn find_field(message: &[u8], number: u64) -> (r: Option<&[u8]>)
    ensures
        match r {
            Some(content) => first_field(message@, number) == Some(content@),
            None => first_field(message@, number) is None,
        },
{
    let total: usize = message.len();
    let mut at: usize = 0;
    assert(message@.skip(0) =~= message@);
    loop
        invariant
            at <= total,
            total == message@.len(),
            first_field(message@.skip(at as int), number) == first_field(message@, number),
        decreases total - at,
    {
        let rest = slice_subrange(message, at, total);
        proof {
            assert(rest@ =~= message@.skip(at as int));
            lemma_varint_len(rest@);
        }
        let (key, k) = match read_varint(rest) {
            Some(found) => found,
            None => {
                return None;
            },
        };
        let value = slice_subrange(rest, k, rest.len());
        let room: usize = value.len();
        proof {
            assert(value@ =~= rest@.skip(k as int));
            lemma_varint_len(value@);
        }
        let wire_type: u64 = key % 8;
        let n: usize = if wire_type == 0 {
            match read_varint(value) {
                Some((_, n)) => n,
                None => {
                    return None;
                },
            }
        } else if wire_type == 1 {
            8
        } else if wire_type == 2 {
            match read_varint(value) {
                Some((len, h)) => {
                    if len > (room - h) as u64 {
                        return None;
                    }
                    let n: usize = h + len as usize;
                    if key / 8 == number {
                        return Some(slice_subrange(value, h, n));
                    }
                    n
                },
                None => {
                    return None;
                },
            }
        } else if wire_type == 5 {
            4
        } else {
            return None;
        };
        if n > room {
            return None;
        }
        assert(value@.skip(n as int) =~= message@.skip(at + k + n));
        at = at + k + n;
    }
}

/// The text of a step, read out of the message that records it.
pub fn extract_text_from_step_payload(payload: &[u8]) -> (r: Option<String>)
    ensures
        match r {
            Some(s) => step_text(payload@) == Some(s@),
            None => step_text(payload@) is None,
        },
{
    let answer = match find_field(payload, 20) {
        Some(answer) => answer,
        None => {
            return None;
        },
    };
    match find_field(answer, 1) {
        Some(bytes) => decode(bytes),
        None => None,
    }
}

/// A number as a varint.
pub open spec fn encode_varint(n: nat) -> Seq<u8>
    decreases n,
{
    if n < 128 {
        seq![n as u8]
    } else {
        seq![(n % 128 + 128) as u8] + encode_varint(n / 128)
    }
}

/// A field that holds bytes.
pub open spec fn bytes_field(number: nat, content: Seq<u8>) -> Seq<u8> {
    encode_varint(number * 8 + 2) + encode_varint(content.len()) + content
}

/// A digit in front of a number in base 128.
pub proof fn lemma_base128_front(b: u8, s: Seq<u8>)
    ensures
        base128(seq![b] + s) == b % 128 + 128 * base128(s),
    decreases s.len(),
{
    let t = seq![b] + s;
    if s.len() == 0 {
        assert(t.drop_last() =~= Seq::<u8>::empty());
        assert(base128(t.drop_last()) == 0);
        assert(t.last() == b);
        assert(pow128(0) == 1);
        assert(base128(t) == (b % 128) as nat * pow128(0));
        assert((b % 128) as nat * pow128(0) == b % 128) by (nonlinear_arith)
            requires
                pow128(0) == 1,
        ;
    } else {
        assert(t.drop_last() =~= seq![b] + s.drop_last());
        lemma_base128_front(b, s.drop_last());
        assert(t.last() == s.last());
        let d = (s.last() % 128) as nat;
        let p = pow128((s.len() - 1) as nat);
        assert(pow128(s.len()) == 128 * p);
        assert(base128(s) == base128(s.drop_last()) + d * p);
        assert(base128(t) == base128(t.drop_last()) + d * pow128(s.len()));
        assert(d * (128 * p) == 128 * (d * p)) by (nonlinear_arith);
    }
}

/// A varint has the digits of its number, and ends at its end.
proof fn lemma_encode_varint(n: nat, k: nat)
    requires
        n < pow128(k),
        1 <= k,
    ensures
        base128(encode_varint(n)) == n,
        1 <= encode_varint(n).len() <= k,
        encode_varint(n).last() < 128,
        forall|i: int|
            0 <= i < encode_varint(n).len() - 1 ==> #[trigger] encode_varint(n)[i] >= 128,
    decreases k,
{
    let e = encode_varint(n);
    if n < 128 {
        lemma_base128_front(n as u8, Seq::empty());
        assert(e =~= seq![n as u8] + Seq::<u8>::empty());
        assert(base128(Seq::<u8>::empty()) == 0);
    } else {
        assert(k > 1) by {
            assert(pow128(0) == 1);
            assert(pow128(1) == 128 * pow128(0));
        }
        assert(n / 128 < pow128((k - 1) as nat));
        lemma_encode_varint(n / 128, (k - 1) as nat);
        let low = (n % 128 + 128) as u8;
        lemma_base128_front(low, encode_varint(n / 128));
        assert(low % 128 == n % 128);
        assert(n == n % 128 + 128 * (n / 128));
    }
}

/// A varint is read back, whatever stands behind it.
pub proof fn law_varint_is_read_back(n: u64, tail: Seq<u8>)
    ensures
        varint(encode_varint(n as nat) + tail) == Some((n, encode_varint(n as nat).len())),
{
    let e = encode_varint(n as nat);
    let bytes = e + tail;
    assert(u64::MAX < pow128(10)) by {
        reveal_with_fuel(pow128, 11);
    }
    lemma_encode_varint(n as nat, 10);
    assert(bytes.take(e.len() as int) =~= e);
    assert(bytes[e.len() - 1] == e.last());
    assert(varint_ends(bytes, e.len() as int));
    lemma_varint_is(bytes, e.len() as int);
}

/// The parts of a field that holds bytes, as they are read.
proof fn lemma_bytes_field(number: u64, content: Seq<u8>, tail: Seq<u8>)
    requires
        number * 8 + 2 <= u64::MAX,
        content.len() <= u64::MAX,
    ensures
        ({
            let message = bytes_field(number as nat, content) + tail;
            let key = encode_varint((number * 8 + 2) as nat);
            let len = encode_varint(content.len());
            &&& varint(message) == Some(((number * 8 + 2) as u64, key.len()))
            &&& key.len() >= 1
            &&& message.skip(key.len() as int) == len + content + tail
            &&& varint(len + content + tail) == Some((content.len() as u64, len.len()))
        }),
{
    let message = bytes_field(number as nat, content) + tail;
    let key = encode_varint((number * 8 + 2) as nat);
    let len = encode_varint(content.len());
    law_varint_is_read_back((number * 8 + 2) as u64, len + content + tail);
    assert(message =~= key + (len + content + tail));
    assert(message.skip(key.len() as int) =~= len + content + tail);
    law_varint_is_read_back(content.len() as u64, content + tail);
    assert(len + content + tail =~= len + (content + tail));
}

/// A field that holds bytes is found with its content.
pub proof fn law_field_is_found(number: u64, content: Seq<u8>, tail: Seq<u8>)
    requires
        number * 8 + 2 <= u64::MAX,
        content.len() <= u64::MAX,
    ensures
        first_field(bytes_field(number as nat, content) + tail, number) == Some(content),
{
    let len = encode_varint(content.len());
    let value = len + content + tail;
    lemma_bytes_field(number, content, tail);
    assert(value.subrange(len.len() as int, (len.len() + content.len()) as int) =~= content);
    assert((number * 8 + 2) as u64 / 8 == number);
    assert((number * 8 + 2) as u64 % 8 == 2);
}

/// A field of another number makes no difference.
pub proof fn law_other_field_is_passed_over(
    number: u64,
    other: u64,
    content: Seq<u8>,
    tail: Seq<u8>,
)
    requires
        number != other,
        other * 8 + 2 <= u64::MAX,
        content.len() <= u64::MAX,
    ensures
        first_field(bytes_field(other as nat, content) + tail, number) == first_field(tail, number),
{
    let len = encode_varint(content.len());
    let value = len + content + tail;
    lemma_bytes_field(other, content, tail);
    assert(value.skip((len.len() + content.len()) as int) =~= tail);
    assert((other * 8 + 2) as u64 / 8 == other);
    assert((other * 8 + 2) as u64 % 8 == 2);
}

/// The text that is recorded in a step is what is read out of it, whatever
/// other fields stand behind it.
pub proof fn law_step_text_is_read_back(s: Seq<char>, inner_tail: Seq<u8>, tail: Seq<u8>)
    requires
        text::byte_len(s) <= u64::MAX,
        bytes_field(1, encode_utf8(s)).len() + inner_tail.len() <= u64::MAX,
    ensures
        step_text(bytes_field(20, bytes_field(1, encode_utf8(s)) + inner_tail) + tail) == Some(s),
{
    law_field_is_found(1, encode_utf8(s), inner_tail);
    law_field_is_found(20, bytes_field(1, encode_utf8(s)) + inner_tail, tail);
    encode_utf8_valid_utf8(s);
    encode_utf8_decode_utf8(s);
}

} // verus!
