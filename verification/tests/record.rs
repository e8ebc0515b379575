use sodiumoxide::crypto::secretbox;
use wormhole_transit::error::TransitError;
use wormhole_transit::record::{
    decrypt_record, encrypt_record, join_record, make_transit_ack_msg, opened, receive_record,
    reversed_nonce, send_record, split_record, RecordAction, RecordReader,
};

fn counting(length: usize) -> Vec<u8> {
    (0..length).map(|i| (i * 7 % 251) as u8).collect()
}

fn nonce() -> [u8; 24] {
    let mut nonce = [0u8; 24];
    for i in 0..24 {
        nonce[i] = i as u8;
    }
    nonce
}

#[test]
fn framing() {
    assert_eq!(send_record(&[]), vec![0, 0, 0, 0]);
    assert_eq!(send_record(b"abc"), vec![0, 0, 0, 3, 97, 98, 99]);
    assert_eq!(send_record(&counting(0x010203))[..4], [0, 1, 2, 3]);
}

#[test]
fn framing_round_trip() {
    for length in [0, 1, 1023, 1024, 1025, 2048, 5000] {
        let record = counting(length);
        let mut stream = send_record(&record);
        stream.extend_from_slice(b"rest");
        assert_eq!(receive_record(&stream), Ok((record, length + 4)));
    }
}

#[test]
fn truncated_streams() {
    let cut_header = Err(TransitError::UnexpectedEof);
    let cut_body = Err(TransitError::RecordReadFailed);
    assert_eq!(receive_record(&[]), cut_header);
    assert_eq!(receive_record(&[0, 0, 0]), cut_header);
    assert_eq!(receive_record(&[0, 0, 0, 2]), cut_body);
    assert_eq!(receive_record(&[0, 0, 0, 2, 1]), cut_body);
    let stream = send_record(&counting(3000));
    assert_eq!(receive_record(&stream[..stream.len() - 1]), cut_body);
    assert_eq!(receive_record(&[255, 255, 255, 255]), cut_body);
    let error = receive_record(&[0, 0, 0, 5, 1, 2]).unwrap_err();
    assert_eq!(error.message(), "cannot read from the tcp connection");
    let end = std::io::Error::from(std::io::ErrorKind::UnexpectedEof);
    assert_eq!(TransitError::UnexpectedEof.message(), end.to_string());
}

#[test]
fn only_the_body_has_a_read_error_of_its_own() {
    let reader = match RecordReader::start() {
        RecordAction::Read(4, reader) => reader,
        _ => panic!("a record begins with its length"),
    };
    assert_eq!(reader.read_error(), None);
    match reader.next(&[0, 0, 0, 5]) {
        RecordAction::Read(5, reader) => {
            assert_eq!(reader.read_error(), Some(TransitError::RecordReadFailed));
        }
        _ => panic!("the body follows"),
    }
}

#[test]
fn a_record_is_read_in_chunks() {
    let record = counting(2500);
    let stream = send_record(&record);
    let mut sizes = vec![];
    let mut taken = 0;
    let mut action = RecordReader::start();
    let packet = loop {
        match action {
            RecordAction::Read(count, reader) => {
                sizes.push(count);
                action = reader.next(&stream[taken..taken + count]);
                taken += count;
            }
            RecordAction::Done(packet) => break packet,
        }
    };
    assert_eq!(sizes, vec![4, 1024, 1024, 452]);
    assert_eq!(packet, record);
    assert_eq!(taken, stream.len());
}

#[test]
fn sealed_records_can_be_opened() {
    let key = counting(32);
    for length in [0, 1, 100, 4096] {
        let plaintext = counting(length);
        let packet = encrypt_record(&plaintext, &nonce(), &key).unwrap();
        assert_eq!(packet.len(), 24 + length + 16);
        assert_eq!(decrypt_record(&packet, &key), Ok(plaintext));
    }
}

#[test]
fn nonces_stand_turned_round() {
    let key = counting(32);
    let packet = encrypt_record(b"hello", &nonce(), &key).unwrap();
    let mut expected = nonce().to_vec();
    expected.reverse();
    assert_eq!(reversed_nonce(&nonce()), expected);
    assert_eq!(packet[..24], expected[..]);
    let sealed = secretbox::seal(
        b"hello",
        &secretbox::Nonce::from_slice(&expected).unwrap(),
        &secretbox::Key::from_slice(&key).unwrap(),
    );
    assert_eq!(packet[24..], sealed[..]);
}

#[test]
fn changed_records_are_refused() {
    let key = counting(32);
    let packet = encrypt_record(b"hello", &nonce(), &key).unwrap();
    for i in 0..packet.len() {
        let mut changed = packet.clone();
        changed[i] ^= 1;
        assert_eq!(decrypt_record(&changed, &key), Err(TransitError::DecryptionFailed));
    }
    let mut other = key.clone();
    other[0] ^= 1;
    assert_eq!(decrypt_record(&packet, &other), Err(TransitError::DecryptionFailed));
    assert_eq!(decrypt_record(&packet[..39], &key), Err(TransitError::DecryptionFailed));
    assert_eq!(decrypt_record(&packet[..24], &key), Err(TransitError::DecryptionFailed));
}

#[test]
fn keys_of_another_length_are_refused() {
    let packet = encrypt_record(b"hello", &nonce(), &counting(32)).unwrap();
    for length in [0, 31, 33] {
        assert_eq!(
            decrypt_record(&packet, &counting(length)),
            Err(TransitError::KeyUnwrapFailed)
        );
    }
}

#[test]
fn records_come_apart_as_they_were_joined() {
    let packet = join_record(counting(24), vec![1, 2, 3]);
    assert_eq!(packet.len(), 27);
    let (first, second) = split_record(&packet);
    assert_eq!(first, &counting(24)[..]);
    assert_eq!(second, &[1, 2, 3]);
    assert_eq!(opened(Some(vec![1])), Ok(vec![1]));
    assert_eq!(opened(None), Err(TransitError::DecryptionFailed));
}

#[test]
fn acknowledgement_record() {
    let key = counting(32);
    let packet = make_transit_ack_msg("deadbeaf", &key).unwrap();
    assert_eq!(packet[..24], [0u8; 24]);
    assert_eq!(packet.len(), 24 + 32 + 16);
    assert_eq!(
        decrypt_record(&packet, &key),
        Ok(b"{\"ack\":\"ok\",\"sha256\":\"deadbeaf\"}".to_vec())
    );
}
