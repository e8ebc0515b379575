//! The lines of a handshake, character by character, and the keys that go into them.
use crate::connect::parting_message;
use crate::error::TransitError;
use crate::handshake::{
    go_message, handshake_keys, law_hello_lengths, lemma_hello_ascii, ok_reply, receiver_hello,
    relay_request, sender_hello, Handshake, HandshakeKeysView, Role,
};
use crate::handshake_laws::{exchange, law_direct_exchange, ExchangeResult};
use crate::hints::HostType;
use crate::keys::{derived_key, hkdf_sha256, receiver_record_key, sender_record_key};
use crate::text::hex_text;
use crate::text_laws::{law_hex_text, law_hex_text_unambiguous};
use vstd::prelude::*;
use vstd::utf8::{encode_utf8, is_ascii_chars_encode_utf8};

verus! {

/// `text` stands in `line` from `start` on.
pub open spec fn stands_at(line: Seq<char>, start: int, text: Seq<char>) -> bool {
    &&& start + text.len() <= line.len()
    &&& forall|i: int| 0 <= i < text.len() ==> line[start + i] == #[trigger] text[i]
}

/// The bytes of `key` stand in `line` from `start` on, each as two lower-case hexadecimal
/// digits, the high one first.
pub open spec fn key_stands_at(line: Seq<char>, start: int, key: Seq<u8>) -> bool {
    &&& start + 2 * key.len() <= line.len()
    &&& forall|i: int|
        #![trigger key[i]]
        0 <= i < key.len() ==> {
            &&& line[start + 2 * i] == "0123456789abcdef"@[key[i] as int / 16]
            &&& line[start + 2 * i + 1] == "0123456789abcdef"@[key[i] as int % 16]
        }
}

proof fn lemma_key_stands_at(line: Seq<char>, start: int, key: Seq<u8>)
    requires
        0 <= start,
        start + 2 * key.len() <= line.len(),
        line.subrange(start, start + 2 * key.len()) == hex_text(key),
    ensures
        key_stands_at(line, start, key),
{
    law_hex_text(key);
    let part = line.subrange(start, start + 2 * key.len());
    assert forall|i: int|
        #![trigger key[i]]
        0 <= i < key.len() implies line[start + 2 * i] == "0123456789abcdef"@[key[i] as int / 16]
        && line[start + 2 * i + 1] == "0123456789abcdef"@[key[i] as int % 16] by {
        assert(part[2 * i] == line[start + 2 * i]);
        assert(part[2 * i + 1] == line[start + 2 * i + 1]);
    }
}

/// The line of the sending side: after `transit sender ` its handshake key, then ` ready`, and
/// two line ends.
pub proof fn law_sender_line(key: Seq<u8>)
    ensures
        stands_at(sender_hello(key), 0, "transit sender "@),
        key_stands_at(sender_hello(key), 15, key),
        stands_at(sender_hello(key), 15int + 2 * key.len(), " ready\n\n"@),
        sender_hello(key).len() == 15int + 2 * key.len() + 8,
{
    reveal_strlit("transit sender ");
    reveal_strlit(" ready\n\n");
    law_hex_text(key);
    assert(sender_hello(key).subrange(15, 15int + 2 * key.len()) =~= hex_text(key));
    lemma_key_stands_at(sender_hello(key), 15, key);
}

/// The line of the receiving side: after `transit receiver ` its handshake key, then ` ready`,
/// and two line ends.
pub proof fn law_receiver_line(key: Seq<u8>)
    ensures
        stands_at(receiver_hello(key), 0, "transit receiver "@),
        key_stands_at(receiver_hello(key), 17, key),
        stands_at(receiver_hello(key), 17int + 2 * key.len(), " ready\n\n"@),
        receiver_hello(key).len() == 17int + 2 * key.len() + 8,
{
    reveal_strlit("transit receiver ");
    reveal_strlit(" ready\n\n");
    law_hex_text(key);
    assert(receiver_hello(key).subrange(17, 17int + 2 * key.len()) =~= hex_text(key));
    lemma_key_stands_at(receiver_hello(key), 17, key);
}

/// The line that a relay is asked with: after `please relay ` the token, then ` for side ` and
/// what it tells the sides apart by, and one line end.
pub proof fn law_relay_line(token: Seq<u8>, tside: Seq<char>)
    ensures
        stands_at(relay_request(token, tside), 0, "please relay "@),
        key_stands_at(relay_request(token, tside), 13, token),
        stands_at(relay_request(token, tside), 13int + 2 * token.len(), " for side "@),
        stands_at(relay_request(token, tside), 13int + 2 * token.len() + 10, tside),
        stands_at(relay_request(token, tside), 13int + 2 * token.len() + 10 + tside.len(), "\n"@),
        relay_request(token, tside).len() == 13int + 2 * token.len() + 10 + tside.len() + 1,
{
    reveal_strlit("please relay ");
    reveal_strlit(" for side ");
    reveal_strlit("\n");
    law_hex_text(token);
    let line = relay_request(token, tside);
    assert(line.subrange(13, 13int + 2 * token.len()) =~= hex_text(token));
    lemma_key_stands_at(line, 13, token);
}

/// The relay finds the two sides by their token, whatever they are told apart by: two lines are
/// the same up to ` for side ` if and only if the tokens are the same. Where the tokens are the
/// same, the lines differ if the sides do.
pub proof fn law_relay_joins_by_token(
    a: Seq<u8>,
    b: Seq<u8>,
    a_side: Seq<char>,
    b_side: Seq<char>,
)
    requires
        a.len() == b.len(),
    ensures
        relay_request(a, a_side).take(13int + 2 * a.len()) == relay_request(b, b_side).take(
            13int + 2 * b.len(),
        ) <==> a == b,
        relay_request(a, a_side) == relay_request(b, b_side) ==> a == b && a_side == b_side,
{
    reveal_strlit("please relay ");
    reveal_strlit(" for side ");
    reveal_strlit("\n");
    law_hex_text(a);
    law_hex_text(b);
    let x = relay_request(a, a_side);
    let y = relay_request(b, b_side);
    let n = 13int + 2 * a.len();
    assert(x.take(n) =~= "please relay "@ + hex_text(a));
    assert(y.take(n) =~= "please relay "@ + hex_text(b));
    assert(x.take(n).skip(13) =~= hex_text(a));
    assert(y.take(n).skip(13) =~= hex_text(b));
    if x.take(n) == y.take(n) {
        law_hex_text_unambiguous(a, b);
    }
    if x == y {
        assert(a_side =~= x.subrange(n + 10, x.len() - 1));
        assert(b_side =~= y.subrange(n + 10, y.len() - 1));
    }
}

/// What a relay answers that has agreed, and what the sending side says on the stream that it
/// has picked; the receiving side says nothing there.
pub proof fn law_replies()
    ensures
        ok_reply() == seq!['o' as u8, 'k' as u8, 10u8],
        go_message() == seq!['g' as u8, 'o' as u8, 10u8],
        parting_message(Role::Sender) == seq!['g' as u8, 'o' as u8, 10u8],
        parting_message(Role::Receiver) == Seq::<u8>::empty(),
{
    reveal_strlit("ok\n");
    reveal_strlit("go\n");
    is_ascii_chars_encode_utf8("ok\n"@);
    is_ascii_chars_encode_utf8("go\n"@);
    assert("ok\n"@[0] == 'o' && "ok\n"@[1] == 'k' && "ok\n"@[2] == '\n');
    assert("go\n"@[0] == 'g' && "go\n"@[1] == 'o' && "go\n"@[2] == '\n');
    assert(ok_reply() =~= seq!['o' as u8, 'k' as u8, 10u8]);
    assert(go_message() =~= seq!['g' as u8, 'o' as u8, 10u8]);
}

/// The lines of the two sides stand on the stream as one byte for each character.
pub proof fn law_lines_are_bytes(key: Seq<u8>)
    ensures
        encode_utf8(sender_hello(key)) == sender_hello(key).map_values(|c: char| c as u8),
        encode_utf8(receiver_hello(key)) == receiver_hello(key).map_values(|c: char| c as u8),
{
    lemma_hello_ascii(key);
    is_ascii_chars_encode_utf8(sender_hello(key));
    is_ascii_chars_encode_utf8(receiver_hello(key));
    assert(encode_utf8(sender_hello(key)) =~= sender_hello(key).map_values(|c: char| c as u8));
    assert(encode_utf8(receiver_hello(key)) =~= receiver_hello(key).map_values(
        |c: char| c as u8,
    ));
}

/// A derived key is the 32 bytes that HKDF gives for the shared key with its purpose as the
/// context, whatever the purpose.
pub proof fn law_derived_key(key: Seq<u8>, purpose: Seq<char>)
    ensures
        derived_key(key, purpose) == hkdf_sha256(key, encode_utf8(purpose), 32),
{
}

/// Each key has its own purpose. The keys that a handshake leaves are those for records, that
/// of the sending side and that of the receiving side.
pub proof fn law_handshake_keys(key: Seq<u8>)
    ensures
        handshake_keys(key).sender == hkdf_sha256(key, encode_utf8("transit_sender"@), 32),
        handshake_keys(key).receiver == hkdf_sha256(key, encode_utf8("transit_receiver"@), 32),
        handshake_keys(key).relay_token == hkdf_sha256(
            key,
            encode_utf8("transit_relay_token"@),
            32,
        ),
        handshake_keys(key).skey == hkdf_sha256(
            key,
            encode_utf8("transit_record_sender_key"@),
            32,
        ),
        handshake_keys(key).rkey == hkdf_sha256(
            key,
            encode_utf8("transit_record_receiver_key"@),
            32,
        ),
        sender_record_key(key) == handshake_keys(key).skey,
        receiver_record_key(key) == handshake_keys(key).rkey,
        handshake_keys(key).transit().skey == handshake_keys(key).skey,
        handshake_keys(key).transit().rkey == handshake_keys(key).rkey,
{
}

/// The sending side says its line and nothing else. It reads 89 bytes, and its handshake
/// completes if and only if these are the line of a receiving side with the same key; it then
/// has its keys for records.
pub proof fn law_sender_handshake(keys: HandshakeKeysView, tside: Seq<char>, stream: Seq<u8>)
    requires
        keys.well_formed(),
    ensures
        ({
            let run = exchange(
                Handshake::initial(Role::Sender, HostType::Direct, keys, tside),
                stream,
            );
            &&& run.sent == encode_utf8(sender_hello(keys.sender))
            &&& stream.len() < 89 ==> run.result is Starved && run.unread == stream
            &&& stream.len() >= 89 ==> run.unread == stream.skip(89)
            &&& run.result is Done <==> stream.len() >= 89 && stream.take(89) == encode_utf8(
                receiver_hello(keys.receiver),
            )
            &&& run.result matches ExchangeResult::Done(transit) ==> transit.skey == keys.skey
                && transit.rkey == keys.rkey
            &&& run.result matches ExchangeResult::Fail(error) ==> stream.len() >= 89 && error
                == TransitError::HandshakeFailed
        }),
{
    law_direct_exchange(Role::Sender, keys, tside, stream);
    law_hello_lengths(keys.receiver);
}

/// The receiving side says its line and nothing else. It reads 87 bytes and three more, and its
/// handshake completes if and only if these are the line of a sending side with the same key,
/// and `go` with its line end: it goes on only where the sending side has picked this stream.
/// It then has its keys for records.
pub proof fn law_receiver_handshake(keys: HandshakeKeysView, tside: Seq<char>, stream: Seq<u8>)
    requires
        keys.well_formed(),
    ensures
        ({
            let run = exchange(
                Handshake::initial(Role::Receiver, HostType::Direct, keys, tside),
                stream,
            );
            &&& run.sent == encode_utf8(receiver_hello(keys.receiver))
            &&& stream.len() < 87 ==> run.result is Starved && run.unread == stream
            &&& 87 <= stream.len() < 90 ==> run.result is Starved && run.unread == stream.skip(87)
            &&& stream.len() >= 90 ==> run.unread == stream.skip(90)
            &&& run.result is Done <==> stream.len() >= 90 && stream.take(87) == encode_utf8(
                sender_hello(keys.sender),
            ) && stream[87] == 'g' as u8 && stream[88] == 'o' as u8 && stream[89] == 10
            &&& run.result matches ExchangeResult::Done(transit) ==> transit.skey == keys.skey
                && transit.rkey == keys.rkey
            &&& run.result matches ExchangeResult::Fail(error) ==> stream.len() >= 90 && error
                == TransitError::HandshakeFailed
        }),
{
    law_direct_exchange(Role::Receiver, keys, tside, stream);
    law_hello_lengths(keys.sender);
    law_replies();
    let line = encode_utf8(sender_hello(keys.sender));
    let go = seq!['g' as u8, 'o' as u8, 10u8];
    let all = line + go;
    if stream.len() >= 90 {
        let head = stream.take(90);
        if head == all {
            assert(stream.take(87) =~= line);
            assert(head[87] == go[0] && head[88] == go[1] && head[89] == go[2]);
        }
        if stream.take(87) == line && stream[87] == 'g' as u8 && stream[88] == 'o' as u8
            && stream[89] == 10 {
            assert forall|i: int| 0 <= i < 90 implies head[i] == all[i] by {
                if i < 87 {
                    assert(stream.take(87)[i] == head[i]);
                }
            }
            assert(head =~= all);
        }
    }
}

/// The keys that any handshake leaves are its keys for records.
pub proof fn law_transit_keys(keys: HandshakeKeysView)
    ensures
        keys.transit().skey == keys.skey,
        keys.transit().rkey == keys.rkey,
{
}

} // verus!
