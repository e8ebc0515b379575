//! Records, byte by byte: on the stream, and sealed.
use crate::error::TransitError;
use crate::record::{
    decrypted_record, encrypted_record, first_record, framed, zero_nonce, RecordReaderView,
};
use crate::secretbox::{secretbox_open, secretbox_seal};
use vstd::prelude::*;

verus! {

/// The number that the first four bytes stand for, the most significant one first.
pub open spec fn announced(stream: Seq<u8>) -> int {
    ((stream[0] * 256 + stream[1]) * 256 + stream[2]) * 256 + stream[3]
}

/// On the stream stand four bytes that announce the length of the record, the most significant
/// one first, then every byte of the record, and nothing else. Of a length that does not fit
/// into four bytes only the remainder is announced.
pub proof fn law_framing(buf: Seq<u8>)
    ensures
        framed(buf).len() == 4 + buf.len(),
        announced(framed(buf)) == buf.len() % 0x1_0000_0000,
        forall|i: int| 0 <= i < buf.len() ==> framed(buf)[4 + i] == #[trigger] buf[i],
{
    let n = (buf.len() % 0x1_0000_0000) as int;
    assert(framed(buf)[0] == n / 0x100_0000);
    assert(framed(buf)[1] == n / 0x1_0000 % 0x100);
    assert(framed(buf)[2] == n / 0x100 % 0x100);
    assert(framed(buf)[3] == n % 0x100);
}

/// The first record of a stream is as many bytes as are announced, those that follow the
/// announcement. It is there if and only if all of them are; where the stream ends before, it
/// tells in which part.
pub proof fn law_first_record(stream: Seq<u8>)
    ensures
        stream.len() < 4 <==> first_record(stream) == Err::<Seq<u8>, TransitError>(
            TransitError::UnexpectedEof,
        ),
        4 <= stream.len() < 4 + announced(stream) <==> first_record(stream) == Err::<
            Seq<u8>,
            TransitError,
        >(TransitError::RecordReadFailed),
        stream.len() >= 4 && stream.len() >= 4 + announced(stream) <==> first_record(
            stream,
        ) is Ok,
        first_record(stream) matches Ok(record) ==> {
            &&& record.len() == announced(stream)
            &&& forall|i: int| 0 <= i < record.len() ==> #[trigger] record[i] == stream[4 + i]
        },
{
    if stream.len() >= 4 {
        let head = stream.take(4);
        assert(head[0] == stream[0] && head[1] == stream[1] && head[2] == stream[2] && head[3]
            == stream[3]);
    }
}

/// Four bytes are asked for first; of a record, never more than is missing and never more than
/// 1024 bytes at a time, but always something. Only where the record itself cannot be read is
/// there an error of its own.
pub proof fn law_reader_wants(missing: nat, packet: Seq<u8>)
    ensures
        RecordReaderView::Header.wanted() == 4,
        RecordReaderView::Header.read_error() is None,
        RecordReaderView::Body(missing, packet).wanted() <= missing,
        RecordReaderView::Body(missing, packet).wanted() <= 1024,
        RecordReaderView::Body(missing, packet).wanted() == missing || RecordReaderView::Body(
            missing,
            packet,
        ).wanted() == 1024,
        RecordReaderView::Body(missing, packet).read_error() == Some(
            TransitError::RecordReadFailed,
        ),
{
}

/// A sealed record begins with the nonce, its bytes turned round, and goes on with what was
/// sealed under just those bytes. This is so whatever was sealed.
pub proof fn law_sealed_record(plaintext: Seq<u8>, nonce: Seq<u8>, key: Seq<u8>)
    requires
        nonce.len() == 24,
    ensures
        ({
            let packet = encrypted_record(plaintext, nonce, key);
            &&& packet.len() >= 24
            &&& forall|i: int| 0 <= i < 24 ==> #[trigger] packet[i] == nonce[23 - i]
            &&& packet.skip(24) == secretbox_seal(plaintext, packet.take(24), key)
        }),
{
    let packet = encrypted_record(plaintext, nonce, key);
    assert(packet.take(24) =~= nonce.reverse());
    assert(packet.skip(24) =~= secretbox_seal(plaintext, nonce.reverse(), key));
}

/// A record is opened with the nonce bytes as they stand in it: what is read is what opens
/// under them and the key, if and only if something does. Nothing is opened with a key that has
/// not 32 bytes.
pub proof fn law_opened_record(packet: Seq<u8>, key: Seq<u8>)
    requires
        packet.len() >= 24,
    ensures
        key.len() != 32 ==> decrypted_record(packet, key) == Err::<Seq<u8>, TransitError>(
            TransitError::KeyUnwrapFailed,
        ),
        key.len() == 32 ==> {
            let message = secretbox_open(packet.skip(24), packet.take(24), key);
            &&& message matches Some(plaintext) ==> decrypted_record(packet, key) == Ok::<
                Seq<u8>,
                TransitError,
            >(plaintext)
            &&& message is None ==> decrypted_record(packet, key) == Err::<Seq<u8>, TransitError>(
                TransitError::DecryptionFailed,
            )
        },
{
}

/// Whoever has opened what was sealed under the nonce bytes of a record reads it as this
/// library does: it makes no difference by which client a record was sealed.
pub proof fn law_any_client_is_read(
    nonce: Seq<u8>,
    ciphertext: Seq<u8>,
    plaintext: Seq<u8>,
    key: Seq<u8>,
)
    requires
        nonce.len() == 24,
        key.len() == 32,
        secretbox_open(ciphertext, nonce, key) == Some(plaintext),
    ensures
        decrypted_record(nonce + ciphertext, key) == Ok::<Seq<u8>, TransitError>(plaintext),
{
    assert((nonce + ciphertext).take(24) =~= nonce);
    assert((nonce + ciphertext).skip(24) =~= ciphertext);
}

/// The nonce of an acknowledgement is 24 zero bytes.
pub proof fn law_zero_nonce()
    ensures
        zero_nonce().len() == 24,
        forall|i: int| 0 <= i < 24 ==> #[trigger] zero_nonce()[i] == 0,
{
}

} // verus!
