//! Records: the messages on a stream once the handshake is complete.
//!
//! On the stream a record is four bytes that give its length, the most significant one
//! first, and then that many bytes. Those are a nonce, the least significant byte first, and
//! what was sealed with it.
use crate::error::TransitError;
use crate::message::{ack_json, TransitAck};
use crate::secretbox::{open, seal, secretbox_open, secretbox_seal, KEYBYTES, MACBYTES, NONCEBYTES};
use vstd::prelude::*;
use vstd::slice::slice_to_vec;
use vstd::utf8::encode_utf8;

verus! {

/// Number of bytes that give the length of a record.
pub const HEADER_LENGTH: usize = 4;

/// Number of bytes that are taken from a stream at a time, at most.
pub const CHUNK_LENGTH: u32 = 1024;

/// The four bytes that stand for `n`, the most significant one first.
pub open spec fn be_bytes(n: nat) -> Seq<u8>
    recommends
        n < 0x1_0000_0000,
{
    seq![
        (n / 0x100_0000) as u8,
        (n / 0x1_0000 % 0x100) as u8,
        (n / 0x100 % 0x100) as u8,
        (n % 0x100) as u8,
    ]
}

/// The number that four bytes stand for, the most significant one first.
pub open spec fn be_value(bytes: Seq<u8>) -> nat
    recommends
        bytes.len() == HEADER_LENGTH,
{
    (bytes[0] * 0x100_0000 + bytes[1] * 0x1_0000 + bytes[2] * 0x100 + bytes[3]) as nat
}

/// What stands on the stream for the record `buf`: its length, or the remainder of that where
/// it does not fit into four bytes, and the record.
pub open spec fn framed(buf: Seq<u8>) -> Seq<u8> {
    be_bytes(buf.len() % 0x1_0000_0000) + buf
}

/// The first record of `stream`, after which nothing comes; or what is wrong where the stream
/// ends within the length of the record, or within the record itself.
pub open spec fn first_record(stream: Seq<u8>) -> Result<Seq<u8>, TransitError> {
    if stream.len() < HEADER_LENGTH {
        Err(TransitError::UnexpectedEof)
    } else {
        let end = HEADER_LENGTH + be_value(stream.take(HEADER_LENGTH as int));
        if stream.len() < end {
            Err(TransitError::RecordReadFailed)
        } else {
            Ok(stream.subrange(HEADER_LENGTH as int, end as int))
        }
    }
}

/// The bytes that are to be put on the stream for the record `buf`. The length of a record
/// of 4 GiB or more does not fit into its four bytes, and only its remainder stands there.
pub fn send_record(buf: &[u8]) -> (bytes: Vec<u8>)
    ensures
        bytes@ == framed(buf@),
{
    let length: u32 = (buf.len() as u64 % 0x1_0000_0000) as u32;
    let mut bytes: Vec<u8> = Vec::new();
    bytes.push((length / 0x100_0000) as u8);
    bytes.push((length / 0x1_0000 % 0x100) as u8);
    bytes.push((length / 0x100 % 0x100) as u8);
    bytes.push((length % 0x100) as u8);
    assert(bytes@ =~= be_bytes(length as nat));
    let mut body = slice_to_vec(buf);
    bytes.append(&mut body);
    bytes
}

/// Four bytes that stand for a number give that number back, if it fits.
pub proof fn lemma_be_value_of_bytes(n: nat)
    requires
        n < 0x1_0000_0000,
    ensures
        be_value(be_bytes(n)) == n,
{
}

/// A record that is being taken from a stream.
pub struct RecordReader {
    state: ReaderState,
}

enum ReaderState {
    Header,
    Body(u32, Vec<u8>),
}

/// The contents of [`RecordReader`].
pub enum RecordReaderView {
    /// The length is not known yet.
    Header,
    /// So many bytes are missing, and these are there.
    Body(nat, Seq<u8>),
}

impl View for RecordReader {
    type V = RecordReaderView;

    closed spec fn view(&self) -> RecordReaderView {
        match self.state {
            ReaderState::Header => RecordReaderView::Header,
            ReaderState::Body(missing, packet) => RecordReaderView::Body(missing as nat, packet@),
        }
    }
}

/// How many of `missing` bytes are taken at a time.
pub open spec fn chunk(missing: nat) -> nat {
    if missing < CHUNK_LENGTH {
        missing
    } else {
        CHUNK_LENGTH as nat
    }
}

impl RecordReaderView {
    /// How many bytes are to be taken from the stream next.
    pub open spec fn wanted(self) -> nat {
        match self {
            RecordReaderView::Header => HEADER_LENGTH as nat,
            RecordReaderView::Body(missing, _) => chunk(missing),
        }
    }

    /// What a failed read from the stream is reported as, if not as the error of the stream
    /// itself.
    pub open spec fn read_error(self) -> Option<TransitError> {
        match self {
            RecordReaderView::Header => None,
            RecordReaderView::Body(_, _) => Some(TransitError::RecordReadFailed),
        }
    }

    /// What it is reported as when the stream ends too early.
    pub open spec fn end_error(self) -> TransitError {
        match self.read_error() {
            Some(error) => error,
            None => TransitError::UnexpectedEof,
        }
    }
}

/// What is to be done next for a record.
pub enum RecordAction {
    /// Take this many bytes from the stream, then go on with them.
    Read(usize, RecordReader),
    /// The record is complete.
    Done(Vec<u8>),
}

/// The contents of [`RecordAction`].
pub enum RecordActionView {
    Read(nat, RecordReaderView),
    Done(Seq<u8>),
}

impl View for RecordAction {
    type V = RecordActionView;

    open spec fn view(&self) -> RecordActionView {
        match self {
            RecordAction::Read(count, reader) => RecordActionView::Read(*count as nat, reader@),
            RecordAction::Done(packet) => RecordActionView::Done(packet@),
        }
    }
}

/// What is to be done for a record of which `missing` bytes are missing and `packet` is there.
pub open spec fn after_chunk(missing: nat, packet: Seq<u8>) -> RecordActionView {
    if missing == 0 {
        RecordActionView::Done(packet)
    } else {
        RecordActionView::Read(chunk(missing), RecordReaderView::Body(missing, packet))
    }
}

/// What is to be done for a record after `input` was taken from the stream.
pub open spec fn after_input(reader: RecordReaderView, input: Seq<u8>) -> RecordActionView {
    match reader {
        RecordReaderView::Header => after_chunk(be_value(input), seq![]),
        RecordReaderView::Body(missing, packet) => after_chunk(
            (missing - input.len()) as nat,
            packet + input,
        ),
    }
}

impl RecordReader {
    /// Begins to take a record from a stream.
    pub fn start() -> (action: RecordAction)
        ensures
            action@ == RecordActionView::Read(HEADER_LENGTH as nat, RecordReaderView::Header),
    {
        RecordAction::Read(HEADER_LENGTH, RecordReader { state: ReaderState::Header })
    }

    /// Goes on with `input`, which was taken from the stream because of the last action.
    pub fn next(self, input: &[u8]) -> (action: RecordAction)
        requires
            input@.len() == self@.wanted(),
        ensures
            action@ == after_input(self@, input@),
    {
        match self.state {
            ReaderState::Header => {
                let length: u32 = input[0] as u32 * 0x100_0000 + input[1] as u32 * 0x1_0000
                    + input[2] as u32 * 0x100 + input[3] as u32;
                RecordReader::proceed(length, Vec::new())
            },
            ReaderState::Body(missing, packet) => {
                let mut packet = packet;
                let mut chunk = slice_to_vec(input);
                packet.append(&mut chunk);
                RecordReader::proceed(missing - input.len() as u32, packet)
            },
        }
    }

    /// What is to be reported where the bytes that were asked for cannot be read. Where there
    /// is nothing, the length of the record was to be read, and the error of the stream stands
    /// as it is.
    pub fn read_error(&self) -> (error: Option<TransitError>)
        ensures
            error == self@.read_error(),
    {
        match self.state {
            ReaderState::Header => None,
            ReaderState::Body(_, _) => Some(TransitError::RecordReadFailed),
        }
    }

    fn proceed(missing: u32, packet: Vec<u8>) -> (action: RecordAction)
        ensures
            action@ == after_chunk(missing as nat, packet@),
    {
        if missing == 0 {
            RecordAction::Done(packet)
        } else {
            let count: usize = if missing < CHUNK_LENGTH {
                missing as usize
            } else {
                CHUNK_LENGTH as usize
            };
            RecordAction::Read(
                count,
                RecordReader { state: ReaderState::Body(missing, packet) },
            )
        }
    }
}

/// What a reader makes of `stream`, after which nothing comes.
pub open spec fn read_record(reader: RecordReaderView, stream: Seq<u8>) -> Result<
    Seq<u8>,
    TransitError,
>
    decreases stream.len(),
{
    let count = reader.wanted();
    if count == 0 || stream.len() < count {
        Err(reader.end_error())
    } else {
        match after_input(reader, stream.take(count as int)) {
            RecordActionView::Read(_, rest) => read_record(rest, stream.skip(count as int)),
            RecordActionView::Done(packet) => Ok(packet),
        }
    }
}

/// A reader takes from a stream exactly its first record, chunk by chunk, and none of what
/// follows it; where the stream ends too early, what it reports tells whether that was within
/// the length of the record or within the record.
pub proof fn law_reader_takes_first_record(stream: Seq<u8>)
    ensures
        read_record(RecordReaderView::Header, stream) == first_record(stream),
{
    let header = HEADER_LENGTH as int;
    if stream.len() >= header {
        let length = be_value(stream.take(header));
        if length == 0 {
            assert(stream.subrange(header, header) =~= seq![]);
        } else {
            lemma_read_body(length, seq![], stream.skip(header));
            if stream.len() >= header + length {
                assert(seq![] + stream.skip(header).take(length as int) =~= stream.subrange(
                    header,
                    header + length,
                ));
            }
        }
    }
}

proof fn lemma_read_body(missing: nat, packet: Seq<u8>, stream: Seq<u8>)
    requires
        missing > 0,
    ensures
        read_record(RecordReaderView::Body(missing, packet), stream) == if stream.len() < missing {
            Err(TransitError::RecordReadFailed)
        } else {
            Ok(packet + stream.take(missing as int))
        },
    decreases missing,
{
    let count = chunk(missing);
    if stream.len() >= count && missing > count {
        let left = (missing - count) as nat;
        let taken = stream.take(count as int);
        let rest = stream.skip(count as int);
        lemma_read_body(left, packet + taken, rest);
        if stream.len() >= missing {
            assert(packet + taken + rest.take(left as int) =~= packet + stream.take(
                missing as int,
            ));
        }
    }
}

/// Takes the first record from `stream`, which holds all that will come. With the record
/// comes the number of bytes that it took up. Where the stream ends too early there is no
/// record, and no part of one.
pub fn receive_record(stream: &[u8]) -> (record: Result<(Vec<u8>, usize), TransitError>)
    ensures
        match record {
            Ok((packet, taken)) => first_record(stream@) == Ok::<Seq<u8>, TransitError>(packet@)
                && taken == HEADER_LENGTH + packet@.len(),
            Err(error) => first_record(stream@) == Err::<Seq<u8>, TransitError>(error),
        },
{
    let mut taken: usize = 0;
    let mut action = RecordReader::start();
    loop
        invariant
            taken <= stream@.len(),
            match action@ {
                RecordActionView::Read(count, RecordReaderView::Header) => taken == 0 && count
                    == HEADER_LENGTH,
                RecordActionView::Read(count, RecordReaderView::Body(missing, packet)) => {
                    &&& HEADER_LENGTH <= taken
                    &&& count == chunk(missing)
                    &&& missing > 0
                    &&& packet == stream@.subrange(HEADER_LENGTH as int, taken as int)
                    &&& be_value(stream@.take(HEADER_LENGTH as int)) == packet.len() + missing
                },
                RecordActionView::Done(packet) => {
                    &&& HEADER_LENGTH <= taken
                    &&& packet == stream@.subrange(HEADER_LENGTH as int, taken as int)
                    &&& be_value(stream@.take(HEADER_LENGTH as int)) == packet.len()
                },
            },
        decreases stream@.len() - taken,
    {
        match action {
            RecordAction::Done(packet) => {
                return Ok((packet, taken));
            },
            RecordAction::Read(count, reader) => {
                if count > stream.len() - taken {
                    return match reader.read_error() {
                        Some(error) => Err(error),
                        None => Err(TransitError::UnexpectedEof),
                    };
                }
                let input = vstd::slice::slice_subrange(stream, taken, taken + count);
                action = reader.next(input);
                proof {
                    if taken == 0 {
                        assert(input@ =~= stream@.take(HEADER_LENGTH as int));
                        assert(stream@.subrange(4, 4) =~= seq![]);
                    } else {
                        assert(stream@.subrange(HEADER_LENGTH as int, taken as int) + input@
                            =~= stream@.subrange(HEADER_LENGTH as int, taken + count));
                    }
                }
                taken = taken + count;
            },
        }
    }
}

/// A record that was put on a stream is taken from it unchanged, whatever follows it there.
/// This leaves out records of 4 GiB and more, whose length does not fit into four bytes.
pub proof fn law_record_round_trip(buf: Seq<u8>, rest: Seq<u8>)
    requires
        buf.len() < 0x1_0000_0000,
    ensures
        first_record(framed(buf) + rest) == Ok::<Seq<u8>, TransitError>(buf),
{
    let stream = framed(buf) + rest;
    lemma_be_value_of_bytes(buf.len());
    assert(stream.take(HEADER_LENGTH as int) =~= be_bytes(buf.len()));
    assert(stream.subrange(HEADER_LENGTH as int, HEADER_LENGTH + buf.len()) =~= buf);
}

/// What is in a record that `plaintext` was sealed in, under `key` and with `nonce`: the
/// nonce with its bytes turned round, and what was sealed with that.
pub open spec fn encrypted_record(plaintext: Seq<u8>, nonce: Seq<u8>, key: Seq<u8>) -> Seq<u8> {
    nonce.reverse() + secretbox_seal(plaintext, nonce.reverse(), key)
}

/// What was sealed in the record `packet` under `key`.
pub open spec fn decrypted_record(packet: Seq<u8>, key: Seq<u8>) -> Result<Seq<u8>, TransitError> {
    if key.len() != KEYBYTES {
        Err(TransitError::KeyUnwrapFailed)
    } else {
        opened_record(
            secretbox_open(packet.skip(NONCEBYTES as int), packet.take(NONCEBYTES as int), key),
        )
    }
}

/// What is made of a record of which this was sealed, if anything was.
pub open spec fn opened_record(message: Option<Seq<u8>>) -> Result<Seq<u8>, TransitError> {
    match message {
        Some(plaintext) => Ok(plaintext),
        None => Err(TransitError::DecryptionFailed),
    }
}

/// The nonce as it stands in a record: the least significant byte first.
pub fn reversed_nonce(nonce: &[u8; NONCEBYTES]) -> (reversed: Vec<u8>)
    ensures
        reversed@ == nonce@.reverse(),
{
    let mut reversed: Vec<u8> = Vec::new();
    let mut i: usize = NONCEBYTES;
    while i > 0
        invariant
            i <= NONCEBYTES,
            reversed@ == nonce@.reverse().take(NONCEBYTES - i),
        decreases i,
    {
        i = i - 1;
        reversed.push(nonce[i]);
        assert(reversed@ =~= nonce@.reverse().take(NONCEBYTES - i));
    }
    assert(reversed@ =~= nonce@.reverse());
    reversed
}

/// Puts a record together from its nonce and from what was sealed with it.
pub fn join_record(nonce: Vec<u8>, ciphertext: Vec<u8>) -> (packet: Vec<u8>)
    ensures
        packet@ == nonce@ + ciphertext@,
{
    let mut packet = nonce;
    let mut ciphertext = ciphertext;
    packet.append(&mut ciphertext);
    packet
}

/// Takes a record apart into its nonce and what was sealed with it.
pub fn split_record(packet: &[u8]) -> (parts: (&[u8], &[u8]))
    requires
        packet@.len() >= NONCEBYTES,
    ensures
        parts.0@ == packet@.take(NONCEBYTES as int),
        parts.1@ == packet@.skip(NONCEBYTES as int),
{
    let parts = packet.split_at(NONCEBYTES);
    assert(parts.0@ =~= packet@.take(NONCEBYTES as int));
    assert(parts.1@ =~= packet@.skip(NONCEBYTES as int));
    parts
}

/// What is read from a record of which `message` was sealed, if anything was.
pub fn opened(message: Option<Vec<u8>>) -> (plaintext: Result<Vec<u8>, TransitError>)
    ensures
        match plaintext {
            Ok(p) => message matches Some(m) && p@ == m@,
            Err(e) => message is None && e == TransitError::DecryptionFailed,
        },
{
    match message {
        Some(m) => Ok(m),
        None => Err(TransitError::DecryptionFailed),
    }
}

/// Seals `plaintext` under `key` with `nonce`, and makes a record of it. What is read from
/// that record under the same key is `plaintext`.
pub fn encrypt_record(plaintext: &[u8], nonce: &[u8; NONCEBYTES], key: &[u8]) -> (packet: Result<
    Vec<u8>,
    TransitError,
>)
    requires
        key@.len() == KEYBYTES,
        NONCEBYTES + plaintext@.len() + MACBYTES <= isize::MAX,
    ensures
        packet matches Ok(p) && {
            &&& p@ == encrypted_record(plaintext@, nonce@, key@)
            &&& p@.take(NONCEBYTES as int) == nonce@.reverse()
            &&& p@.skip(NONCEBYTES as int) == secretbox_seal(
                plaintext@,
                p@.take(NONCEBYTES as int),
                key@,
            )
            &&& p@.len() == NONCEBYTES + plaintext@.len() + MACBYTES
            &&& decrypted_record(p@, key@) == Ok::<Seq<u8>, TransitError>(plaintext@)
        },
{
    let reversed = reversed_nonce(nonce);
    let ciphertext = seal(plaintext, reversed.as_slice(), key);
    let ghost n = reversed@;
    let ghost c = ciphertext@;
    let packet = join_record(reversed, ciphertext);
    assert(packet@.take(NONCEBYTES as int) =~= n);
    assert(packet@.skip(NONCEBYTES as int) =~= c);
    Ok(packet)
}

/// Opens the record `enc_packet` under `key`. What is read is what was sealed in it: the
/// record is the one that `encrypt_record` makes of it under the same key, with the nonce
/// that stands in the record.
pub fn decrypt_record(enc_packet: &[u8], key: &[u8]) -> (plaintext: Result<Vec<u8>, TransitError>)
    requires
        enc_packet@.len() >= NONCEBYTES,
    ensures
        match plaintext {
            Ok(p) => {
                &&& decrypted_record(enc_packet@, key@) == Ok::<Seq<u8>, TransitError>(p@)
                &&& key@.len() == KEYBYTES
                &&& secretbox_open(
                    enc_packet@.skip(NONCEBYTES as int),
                    enc_packet@.take(NONCEBYTES as int),
                    key@,
                ) == Some(p@)
                &&& enc_packet@ == encrypted_record(
                    p@,
                    enc_packet@.take(NONCEBYTES as int).reverse(),
                    key@,
                )
                &&& enc_packet@.len() == NONCEBYTES + p@.len() + MACBYTES
            },
            Err(e) => {
                &&& decrypted_record(enc_packet@, key@) == Err::<Seq<u8>, TransitError>(e)
                &&& e == TransitError::KeyUnwrapFailed && key@.len() != KEYBYTES || e
                    == TransitError::DecryptionFailed && key@.len() == KEYBYTES && secretbox_open(
                    enc_packet@.skip(NONCEBYTES as int),
                    enc_packet@.take(NONCEBYTES as int),
                    key@,
                ) is None
            },
        },
{
    let (nonce, ciphertext) = split_record(enc_packet);
    if key.len() != KEYBYTES {
        return Err(TransitError::KeyUnwrapFailed);
    }
    assert(nonce@.reverse().reverse() =~= nonce@);
    assert(nonce@ + ciphertext@ =~= enc_packet@);
    opened(open(ciphertext, nonce, key))
}

/// The nonce whose bytes are all zero.
pub open spec fn zero_nonce() -> Seq<u8> {
    Seq::new(NONCEBYTES as nat, |i: int| 0u8)
}

/// Makes the record by which the receiving side confirms that it has the whole file, whose
/// hash is `sha256`.
pub fn make_transit_ack_msg(sha256: &str, key: &[u8]) -> (packet: Result<Vec<u8>, TransitError>)
    requires
        key@.len() == KEYBYTES,
        NONCEBYTES + encode_utf8(ack_json("ok"@, sha256@)).len() + MACBYTES <= isize::MAX,
    ensures
        packet matches Ok(p) && {
            let plaintext = encode_utf8(ack_json("ok"@, sha256@));
            &&& p@ == encrypted_record(plaintext, zero_nonce(), key@)
            &&& forall|i: int| 0 <= i < NONCEBYTES ==> #[trigger] p@[i] == 0
            &&& p@.skip(NONCEBYTES as int) == secretbox_seal(
                plaintext,
                p@.take(NONCEBYTES as int),
                key@,
            )
            &&& p@.len() == NONCEBYTES + plaintext.len() + MACBYTES
            &&& decrypted_record(p@, key@) == Ok::<Seq<u8>, TransitError>(plaintext)
        },
{
    let plaintext = TransitAck::new("ok", sha256).serialize();
    let nonce: [u8; NONCEBYTES] = [0u8; NONCEBYTES];
    assert(nonce@ =~= zero_nonce());
    encrypt_record(plaintext.as_str().as_bytes(), &nonce, key)
}

} // verus!
