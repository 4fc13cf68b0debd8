//! What holds of answers as they are read out of recorded steps, whatever bytes
//! the steps hold and whatever the answers say.
use vstd::prelude::*;
use vstd::utf8::*;
use crate::narration;
use crate::protobuf;
use crate::text;

verus! {

/// A varint, byte by byte: a byte below 128 is its own value and the end; any
/// other adds its lower seven bits to 128 times what follows. There is none
/// without an end, beyond ten bytes, or beyond 64 bits.
pub proof fn law_varint_bytes(b: u8, rest: Seq<u8>)
    ensures
        b < 128 ==> protobuf::varint(seq![b] + rest) == Some((b as u64, 1nat)),
        b >= 128 ==> match protobuf::varint(rest) {
            Some((v, n)) => protobuf::varint(seq![b] + rest) == (if n <= 9 && b % 128 + 128 * v
                <= 0xFFFF_FFFF_FFFF_FFFF {
                Some(((b % 128 + 128 * v) as u64, (n + 1) as nat))
            } else {
                None
            }),
            None => protobuf::varint(seq![b] + rest) is None,
        },
        protobuf::varint(Seq::<u8>::empty()) is None,
{
    let all = seq![b] + rest;
    assert(forall|n: int| !protobuf::varint_ends(Seq::<u8>::empty(), n));
    if b < 128 {
        assert(protobuf::varint_ends(all, 1));
        protobuf::lemma_varint_is(all, 1);
        assert(all.take(1) =~= seq![b] + Seq::<u8>::empty());
        protobuf::lemma_base128_front(b, Seq::empty());
        assert(protobuf::base128(Seq::<u8>::empty()) == 0);
    } else {
        assert forall|m: int| #[trigger] protobuf::varint_ends(all, m) implies m > 1
            && protobuf::varint_ends(rest, m - 1) by {
            if m == 1 {
                assert(all[0] == b);
            }
            assert(rest[m - 2] == all[m - 1]);
            assert forall|i: int| 0 <= i < m - 2 implies #[trigger] rest[i] >= 128 by {
                assert(rest[i] == all[i + 1]);
            }
        }
        if exists|n: int| protobuf::varint_ends(rest, n) {
            let n = choose|n: int| protobuf::varint_ends(rest, n);
            protobuf::lemma_varint_is(rest, n);
            protobuf::lemma_base128_front(b, rest.take(n));
            assert(all.take(n + 1) =~= seq![b] + rest.take(n));
            if n <= 9 {
                assert(protobuf::varint_ends(all, n + 1)) by {
                    assert(all[n] == rest[n - 1]);
                    assert forall|i: int| 0 <= i < n implies #[trigger] all[i] >= 128 by {
                        if i > 0 {
                            assert(all[i] == rest[i - 1]);
                        }
                    }
                }
                protobuf::lemma_varint_is(all, n + 1);
            } else {
                if exists|m: int| protobuf::varint_ends(all, m) {
                    let m = choose|m: int| protobuf::varint_ends(all, m);
                    assert(protobuf::varint_ends(rest, m - 1));
                    assert(rest[m - 2] < 128);
                }
            }
        }
    }
}

/// Fields are gone through one by one, each by its wire type, up to the first
/// that has the number and holds bytes; its content is those bytes. A field that
/// is cut short, or of a wire type that does not exist, ends the search.
pub proof fn law_fields_are_searched(message: Seq<u8>, number: u64)
    ensures
        protobuf::varint(message) is None ==> protobuf::first_field(message, number) is None,
        protobuf::varint(message) matches Some((key, k)) ==> {
            let value = message.skip(k as int);
            let wire = key % 8;
            let found = protobuf::first_field(message, number);
            &&& wire == 0 ==> match protobuf::varint(value) {
                Some((v, n)) => found == protobuf::first_field(value.skip(n as int), number),
                None => found is None,
            }
            &&& wire == 1 ==> found == (if value.len() >= 8 {
                protobuf::first_field(value.skip(8), number)
            } else {
                None
            })
            &&& wire == 5 ==> found == (if value.len() >= 4 {
                protobuf::first_field(value.skip(4), number)
            } else {
                None
            })
            &&& wire == 2 ==> match protobuf::varint(value) {
                Some((len, h)) => found == (if h + len > value.len() {
                    None
                } else if key / 8 == number {
                    Some(value.subrange(h as int, h + len))
                } else {
                    protobuf::first_field(value.skip(h + len), number)
                }),
                None => found is None,
            }
            &&& wire == 3 || wire == 4 || wire == 6 || wire == 7 ==> found is None
        },
{
    if let Some((key, k)) = protobuf::varint(message) {
        lemma_varint_len(message);
        lemma_varint_len(message.skip(k as int));
    }
}

proof fn lemma_varint_len(bytes: Seq<u8>)
    ensures
        protobuf::varint(bytes) matches Some((value, n)) ==> 1 <= n <= bytes.len(),
{
}

/// The text of a step is what field 1 of its field 20 encodes, if both are there
/// and it is valid UTF-8.
pub proof fn law_text_of_a_step(payload: Seq<u8>)
    ensures
        match protobuf::first_field(payload, 20) {
            Some(answer) => match protobuf::first_field(answer, 1) {
                Some(bytes) => {
                    &&& valid_utf8(bytes) ==> protobuf::step_text(payload) == Some(
                        decode_utf8(bytes),
                    )
                    &&& !valid_utf8(bytes) ==> protobuf::step_text(payload) is None
                },
                None => protobuf::step_text(payload) is None,
            },
            None => protobuf::step_text(payload) is None,
        },
{
}

/// A text is narration exactly if it is not blank and each of its lines is blank
/// or, without the white space around it, begins with "I will ".
pub proof fn law_narration(s: Seq<char>)
    ensures
        narration::narrates(s) <==> text::trim(s).len() > 0 && forall|i: int|
            0 <= i < text::lines(s).len() ==> {
                let line = text::trim(#[trigger] text::lines(s)[i]);
                line.len() == 0 || (line.len() >= 7 && line.take(7) == "I will "@)
            },
{
    reveal_strlit("I will ");
    assert forall|line: Seq<char>| #[trigger] narration::announces(line) == {
        let t = text::trim(line);
        t.len() == 0 || (t.len() >= 7 && t.take(7) == "I will "@)
    } by {
        let t = text::trim(line);
        if t.len() >= 7 {
            assert(t.subrange(0, 7) =~= t.take(7));
        }
    }
}

/// The parts of an answer are put together in order, with a line feed between
/// each two and nowhere else.
pub proof fn law_joining(parts: Seq<Seq<char>>, last: Seq<char>)
    ensures
        parts.len() > 0 ==> narration::joined(parts.push(last)) == narration::joined(parts)
            + seq!['\n'] + last,
        narration::joined(seq![last]) == last,
        narration::joined(Seq::<Seq<char>>::empty()) == Seq::<char>::empty(),
{
    reveal_strlit("\n");
    assert(parts.push(last).drop_last() =~= parts);
    assert("\n"@ =~= seq!['\n']);
}

} // verus!
