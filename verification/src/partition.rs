//! The name of the storage partition of a session.
//!
//! A session id is any text. The partition of its log is named by the id's
//! bytes in UTF-8, where letters and digits of ASCII, `-` and `_` stand for
//! themselves and every other byte is written as `%` and its two hexadecimal
//! digits, followed by `.log`. Different sessions get different names, and a
//! name holds nothing but plain characters, `%` and the dot of its ending.

use vstd::prelude::*;
use vstd::utf8::{encode_utf8, valid_utf8};
use crate::record_codec::string_from_utf8;

verus! {

/// Whether a byte stands for itself in a partition name: a letter or a
/// digit of ASCII, `-` or `_`.
pub open spec fn is_plain(byte: u8) -> bool {
    ||| 0x30 <= byte <= 0x39
    ||| 0x41 <= byte <= 0x5A
    ||| 0x61 <= byte <= 0x7A
    ||| byte == 0x2D
    ||| byte == 0x5F
}

/// The hexadecimal digit of a number below 16, as a byte of ASCII, with
/// capital letters.
pub open spec fn hex_digit(n: int) -> u8 {
    if n < 10 {
        (0x30 + n) as u8
    } else {
        (0x41 + n - 10) as u8
    }
}

/// How one byte of a session id is written in the partition name.
pub open spec fn escaped(byte: u8) -> Seq<u8> {
    if is_plain(byte) {
        seq![byte]
    } else {
        seq![0x25u8, hex_digit(byte as int / 16), hex_digit(byte as int % 16)]
    }
}

/// How the bytes of a session id are written in the partition name.
pub open spec fn escaped_all(bytes: Seq<u8>) -> Seq<u8>
    decreases bytes.len(),
{
    if bytes.len() == 0 {
        Seq::empty()
    } else {
        escaped_all(bytes.drop_last()) + escaped(bytes.last())
    }
}

/// The ending of a partition name: `.log`.
pub open spec fn log_ending() -> Seq<u8> {
    seq![0x2Eu8, 0x6Cu8, 0x6Fu8, 0x67u8]
}

/// The partition name of a session, as its bytes in UTF-8.
pub open spec fn partition_name_of(session_id: Seq<char>) -> Seq<u8> {
    escaped_all(encode_utf8(session_id)) + log_ending()
}

/// Whether all of `bytes` are ASCII.
pub open spec fn all_ascii(bytes: Seq<u8>) -> bool {
    forall|i: int| 0 <= i < bytes.len() ==> #[trigger] bytes[i] < 0x80
}

/// Bytes of ASCII are valid UTF-8.
proof fn lemma_ascii_is_utf8(bytes: Seq<u8>)
    requires
        all_ascii(bytes),
    ensures
        valid_utf8(bytes),
{
    let chars = Seq::new(bytes.len(), |i: int| bytes[i] as char);
    assert(vstd::utf8::is_ascii_chars(chars)) by {
        assert forall|i: int| 0 <= i < chars.len() implies '\0' <= #[trigger] chars[i] <= '\u{7f}' by {
            assert(bytes[i] < 0x80);
        }
    }
    vstd::utf8::is_ascii_chars_encode_utf8(chars);
    assert(encode_utf8(chars) =~= bytes) by {
        assert forall|i: int| 0 <= i < bytes.len() implies encode_utf8(chars)[i] == bytes[i] by {
            assert(chars[i] as u8 == encode_utf8(chars)[i]);
            assert(bytes[i] < 0x80);
        }
    }
    vstd::utf8::encode_utf8_valid_utf8(chars);
}

/// What is written for a byte is ASCII, begins with `%` exactly when the
/// byte does not stand for itself, and takes one byte or three.
proof fn lemma_escaped_shape(byte: u8)
    ensures
        all_ascii(escaped(byte)),
        is_plain(byte) ==> escaped(byte).len() == 1 && escaped(byte)[0] == byte,
        !is_plain(byte) ==> escaped(byte).len() == 3 && escaped(byte)[0] == 0x25,
{
}

/// What is written for bytes is ASCII.
proof fn lemma_escaped_all_ascii(bytes: Seq<u8>)
    ensures
        all_ascii(escaped_all(bytes)),
    decreases bytes.len(),
{
    if bytes.len() > 0 {
        lemma_escaped_all_ascii(bytes.drop_last());
        lemma_escaped_shape(bytes.last());
    }
}

/// The hexadecimal digits of a number tell the number.
proof fn lemma_hex_digits_tell(first: u8, second: u8)
    requires
        hex_digit(first as int / 16) == hex_digit(second as int / 16),
        hex_digit(first as int % 16) == hex_digit(second as int % 16),
    ensures
        first == second,
{
}

/// Two runs of bytes that are written alike are alike.
proof fn lemma_escaped_all_tells(first: Seq<u8>, second: Seq<u8>)
    requires
        escaped_all(first) == escaped_all(second),
    ensures
        first == second,
    decreases first.len() + second.len(),
{
    if first.len() == 0 || second.len() == 0 {
        if first.len() > 0 {
            lemma_escaped_shape(first.last());
            assert(escaped_all(first).len() > 0);
        }
        if second.len() > 0 {
            lemma_escaped_shape(second.last());
            assert(escaped_all(second).len() > 0);
        }
        assert(first =~= second);
    } else {
        let a = first.last();
        let b = second.last();
        let head_a = escaped_all(first.drop_last());
        let head_b = escaped_all(second.drop_last());
        let whole = escaped_all(first);
        lemma_escaped_shape(a);
        lemma_escaped_shape(b);
        assert(whole == head_a + escaped(a));
        assert(whole == head_b + escaped(b));
        // Either both last bytes stood for themselves, or neither did. One
        // of each cannot be: a `%` would stand two places before the end of
        // what is written for whole bytes.
        if is_plain(a) && is_plain(b) {
            assert(whole[whole.len() - 1] == a);
            assert(whole[whole.len() - 1] == b);
            assert(head_a =~= whole.subrange(0, whole.len() - 1));
            assert(head_b =~= whole.subrange(0, whole.len() - 1));
        } else if !is_plain(a) && !is_plain(b) {
            assert(whole[whole.len() - 2] == escaped(a)[1]);
            assert(whole[whole.len() - 2] == escaped(b)[1]);
            assert(whole[whole.len() - 1] == escaped(a)[2]);
            assert(whole[whole.len() - 1] == escaped(b)[2]);
            lemma_hex_digits_tell(a, b);
            assert(head_a =~= whole.subrange(0, whole.len() - 3));
            assert(head_b =~= whole.subrange(0, whole.len() - 3));
        } else if is_plain(a) {
            assert(whole[whole.len() - 3] == escaped(b)[0]);
            assert(head_a[head_a.len() - 2] == whole[whole.len() - 3]);
            lemma_percent_is_followed_by_two(first.drop_last(), head_a.len() - 2);
            assert(false);
        } else {
            assert(whole[whole.len() - 3] == escaped(a)[0]);
            assert(head_b[head_b.len() - 2] == whole[whole.len() - 3]);
            lemma_percent_is_followed_by_two(second.drop_last(), head_b.len() - 2);
            assert(false);
        }
        lemma_escaped_all_tells(first.drop_last(), second.drop_last());
        assert(first =~= first.drop_last().push(a));
        assert(second =~= second.drop_last().push(b));
    }
}

/// In what is written for bytes, a `%` is never the last byte nor the one
/// before the last: its two digits follow it.
proof fn lemma_percent_is_followed_by_two(bytes: Seq<u8>, place: int)
    requires
        0 <= place < escaped_all(bytes).len(),
        escaped_all(bytes)[place] == 0x25,
    ensures
        place + 2 < escaped_all(bytes).len(),
    decreases bytes.len(),
{
    if bytes.len() > 0 {
        let head = escaped_all(bytes.drop_last());
        lemma_escaped_shape(bytes.last());
        if place < head.len() {
            lemma_percent_is_followed_by_two(bytes.drop_last(), place);
        } else {
            // Of what is written for the last byte only the first byte can
            // be a `%`, and then two digits follow.
            let within = place - head.len();
            assert(escaped_all(bytes)[place] == escaped(bytes.last())[within]);
        }
    }
}

/// Different sessions have different partitions: two session ids with the
/// same partition name are the same id.
pub proof fn law_partition_names_differ(first: Seq<char>, second: Seq<char>)
    requires
        partition_name_of(first) == partition_name_of(second),
    ensures
        first == second,
{
    let a = escaped_all(encode_utf8(first));
    let b = escaped_all(encode_utf8(second));
    assert(a =~= partition_name_of(first).subrange(0, a.len() as int));
    assert(b =~= partition_name_of(second).subrange(0, b.len() as int));
    assert(a.len() + 4 == partition_name_of(first).len());
    assert(b.len() + 4 == partition_name_of(second).len());
    lemma_escaped_all_tells(encode_utf8(first), encode_utf8(second));
    vstd::utf8::encode_utf8_decode_utf8(first);
    vstd::utf8::encode_utf8_decode_utf8(second);
}

/// A partition name is plain text: it holds only letters and digits of
/// ASCII, `-`, `_`, `%` and the dot of its ending, so no separator of a path
/// occurs in it, whatever the session id.
pub proof fn law_partition_name_is_plain(session_id: Seq<char>)
    ensures
        forall|i: int|
            0 <= i < partition_name_of(session_id).len() ==> {
                let byte = #[trigger] partition_name_of(session_id)[i];
                is_plain(byte) || byte == 0x25 || byte == 0x2E
            },
{
    lemma_escaped_all_plain(encode_utf8(session_id));
    let written = escaped_all(encode_utf8(session_id));
    assert forall|i: int| 0 <= i < partition_name_of(session_id).len() implies {
        let byte = #[trigger] partition_name_of(session_id)[i];
        is_plain(byte) || byte == 0x25 || byte == 0x2E
    } by {
        if i < written.len() {
            assert(partition_name_of(session_id)[i] == written[i]);
        } else {
            assert(partition_name_of(session_id)[i] == log_ending()[i - written.len()]);
        }
    }
}

/// What is written for bytes holds only plain bytes and `%`.
proof fn lemma_escaped_all_plain(bytes: Seq<u8>)
    ensures
        forall|i: int|
            0 <= i < escaped_all(bytes).len() ==> is_plain(#[trigger] escaped_all(bytes)[i])
                || escaped_all(bytes)[i] == 0x25,
    decreases bytes.len(),
{
    if bytes.len() > 0 {
        lemma_escaped_all_plain(bytes.drop_last());
        let head = escaped_all(bytes.drop_last());
        assert forall|i: int| 0 <= i < escaped_all(bytes).len() implies is_plain(
            #[trigger] escaped_all(bytes)[i],
        ) || escaped_all(bytes)[i] == 0x25 by {
            if i < head.len() {
                assert(escaped_all(bytes)[i] == head[i]);
            } else {
                assert(escaped_all(bytes)[i] == escaped(bytes.last())[i - head.len()]);
            }
        }
    }
}

/// Whether `byte` stands for itself in a partition name.
pub fn is_plain_byte(byte: u8) -> (plain: bool)
    ensures
        plain == is_plain(byte),
{
    (0x30 <= byte && byte <= 0x39) || (0x41 <= byte && byte <= 0x5A) || (0x61 <= byte && byte
        <= 0x7A) || byte == 0x2D || byte == 0x5F
}

/// The hexadecimal digit of `n`, as a byte of ASCII.
fn hex_digit_byte(n: u8) -> (digit: u8)
    requires
        n < 16,
    ensures
        digit == hex_digit(n as int),
{
    if n < 10 {
        0x30 + n
    } else {
        0x41 + (n - 10)
    }
}

/// The name of the storage partition of a session: the file that holds the
/// session's log.
pub fn partition_name(session_id: &str) -> (name: String)
    ensures
        encode_utf8(name@) == partition_name_of(session_id@),
{
    let bytes = session_id.as_bytes();
    let total = bytes.len();
    let mut written: Vec<u8> = Vec::new();
    let mut i: usize = 0;
    assert(bytes@.subrange(0, 0) =~= Seq::<u8>::empty());
    while i < total
        invariant
            total == bytes@.len(),
            i <= total,
            written@ == escaped_all(bytes@.subrange(0, i as int)),
        decreases total - i,
    {
        let byte = bytes[i];
        assert(bytes@.subrange(0, i + 1).drop_last() =~= bytes@.subrange(0, i as int));
        let ghost before = written@;
        if is_plain_byte(byte) {
            written.push(byte);
        } else {
            written.push(0x25);
            written.push(hex_digit_byte(byte / 16));
            written.push(hex_digit_byte(byte % 16));
        }
        assert(written@ =~= before + escaped(byte));
        i += 1;
    }
    assert(bytes@.subrange(0, total as int) =~= bytes@);
    let ghost body = written@;
    written.push(0x2E);
    written.push(0x6C);
    written.push(0x6F);
    written.push(0x67);
    proof {
        assert(written@ =~= body + log_ending());
        lemma_escaped_all_ascii(bytes@);
        assert(all_ascii(written@)) by {
            assert forall|j: int| 0 <= j < written@.len() implies #[trigger] written@[j] < 0x80 by {
                if j < body.len() {
                    assert(written@[j] == body[j]);
                } else {
                    assert(written@[j] == log_ending()[j - body.len()]);
                }
            }
        }
        lemma_ascii_is_utf8(written@);
    }
    match string_from_utf8(written) {
        Some(name) => name,
        None => String::new(),
    }
}

} // verus!
