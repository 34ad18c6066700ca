use nordstone::codec::encode;
use nordstone::encryption::{
    classify, header_fault, open_payload, sealed_outcome, AgeEncryptor, DecryptFault, Encryptor,
};
use nordstone::errors::{CryptoError, StoreError};
use nordstone::models::{Folder, Record};

#[test]
fn test_encryptor() {
    let encryptor = AgeEncryptor::new("key".into());
    let mut record = Record::new();
    record.add_field("name".into(), "value".into()).unwrap();
    record
        .add_file(
            Some(b"testfile.test".to_vec()),
            Some(b"test".to_vec()),
            Some(b"attached bytes".to_vec()),
        )
        .unwrap();
    let subfolder = Folder::new();
    let mut main_folder = Folder::new();
    main_folder.add_folder(subfolder);
    main_folder.add_record(record);
    let encrypted = encryptor.encrypt(&main_folder).unwrap();
    let decrypted = encryptor.decrypt(encrypted).unwrap();
    assert_eq!(decrypted, main_folder);
}

#[test]
fn sealed_payload_opens_with_the_same_passphrase() {
    let encryptor = AgeEncryptor::new("correct horse".into());
    let payload: Vec<u8> = vec![0, 1, 2, 0xff, 0xfe, b'x'];
    let first = encryptor.encrypt_bytes(&payload).unwrap();
    let second = encryptor.encrypt_bytes(&payload).unwrap();
    assert_ne!(first, payload);
    assert_ne!(first, second);
    assert_eq!(encryptor.decrypt_bytes(&first), Ok(payload.clone()));
    assert_eq!(encryptor.decrypt_bytes(&second), Ok(payload));
}

#[test]
fn wrong_passphrase_is_an_authentication_error() {
    let blob = AgeEncryptor::new("right".into()).encrypt_bytes(&vec![1, 2, 3]).unwrap();
    let other = AgeEncryptor::new("wrong".into());
    assert_eq!(other.decrypt_bytes(&blob), Err(DecryptFault::DecryptionFailed));
    assert_eq!(
        other.decrypt(blob),
        Err(StoreError::Crypto(CryptoError::WrongPassphraseOrCorruptedData))
    );
}

#[test]
fn altered_container_is_refused() {
    let encryptor = AgeEncryptor::new("pass".into());
    let blob = encryptor.encrypt_bytes(&vec![9u8; 40]).unwrap();
    for at in [blob.len() - 1, blob.len() - 30, 30] {
        let mut altered = blob.clone();
        altered[at] ^= 0x01;
        assert!(encryptor.decrypt_bytes(&altered).is_err());
    }
}

#[test]
fn empty_tree_survives_sealing() {
    let encryptor = AgeEncryptor::new("pass".into());
    let blob = encryptor.encrypt(&Folder::new()).unwrap();
    let back = encryptor.decrypt(blob).unwrap();
    assert_eq!(back, Folder::new());
    assert!(back.records.is_empty());
    assert_eq!(back.subfolders, None);
}

#[test]
fn nested_tree_survives_sealing() {
    let mut record = Record::new();
    record.add_field("user".into(), "bob".into()).unwrap();
    let mut b = Folder::named("B".to_string());
    b.add_record(record);
    let mut a = Folder::named("A".to_string());
    a.add_folder(b);
    let encryptor = AgeEncryptor::new("pass".into());
    let back = encryptor.decrypt(encryptor.encrypt(&a).unwrap()).unwrap();
    assert_eq!(back.name, "A");
    let subs = back.subfolders.as_ref().unwrap();
    assert_eq!(subs.len(), 1);
    assert_eq!(subs[0].name, "B");
    assert_eq!(subs[0].subfolders, None);
    assert_eq!(subs[0].records.len(), 1);
    assert_eq!(subs[0].records[0].fields, vec![("user".to_string(), "bob".to_string())]);
    assert_eq!(back, a);
}

#[test]
fn truncated_or_foreign_bytes_are_refused() {
    let encryptor = AgeEncryptor::new("pass".into());
    let blob = encryptor.encrypt(&Folder::named("x".to_string())).unwrap();
    let cut = blob[..blob.len() - 5].to_vec();
    assert_eq!(
        encryptor.decrypt(cut),
        Err(StoreError::Crypto(CryptoError::WrongPassphraseOrCorruptedData))
    );
    let short = blob[..10].to_vec();
    assert_eq!(encryptor.decrypt_bytes(&short), Err(DecryptFault::HeaderRead));
    assert_eq!(encryptor.decrypt(short), Err(StoreError::Crypto(CryptoError::MalformedBlob)));
    assert_eq!(encryptor.decrypt_bytes(&Vec::new()), Err(DecryptFault::HeaderRead));
    assert_eq!(
        encryptor.decrypt(Vec::new()),
        Err(StoreError::Crypto(CryptoError::MalformedBlob))
    );
    assert_eq!(
        encryptor.decrypt(b"this is no container at all, only text\n".to_vec()),
        Err(StoreError::Crypto(CryptoError::MalformedBlob))
    );
}

#[test]
fn sealed_bytes_that_hold_no_tree_are_a_serialization_error() {
    let encryptor = AgeEncryptor::new("pass".into());
    let blob = encryptor.encrypt_bytes(&vec![1, 2, 3]).unwrap();
    assert_eq!(encryptor.decrypt(blob), Err(StoreError::Serialization));
}

#[test]
fn every_refusal_has_its_error() {
    assert_eq!(classify(DecryptFault::DecryptionFailed), CryptoError::WrongPassphraseOrCorruptedData);
    assert_eq!(classify(DecryptFault::InvalidMac), CryptoError::WrongPassphraseOrCorruptedData);
    assert_eq!(classify(DecryptFault::Io), CryptoError::WrongPassphraseOrCorruptedData);
    assert_eq!(classify(DecryptFault::KeyDecryptionFailed), CryptoError::WrongPassphraseOrCorruptedData);
    assert_eq!(classify(DecryptFault::NoMatchingKeys), CryptoError::WrongPassphraseOrCorruptedData);
    assert_eq!(classify(DecryptFault::InvalidHeader), CryptoError::MalformedBlob);
    assert_eq!(classify(DecryptFault::HeaderRead), CryptoError::MalformedBlob);
    assert_eq!(classify(DecryptFault::UnknownFormat), CryptoError::MalformedBlob);
    assert_eq!(classify(DecryptFault::ExcessiveWork), CryptoError::KdfFailure);
}

#[test]
fn open_payload_reads_or_reports() {
    assert_eq!(open_payload(Ok(vec![0u8; 17])), Ok(Folder::new()));
    assert_eq!(open_payload(Ok(vec![0u8; 16])), Err(StoreError::Serialization));
    assert_eq!(
        open_payload(Err(DecryptFault::DecryptionFailed)),
        Err(StoreError::Crypto(CryptoError::WrongPassphraseOrCorruptedData))
    );
    assert_eq!(
        open_payload(Err(DecryptFault::UnknownFormat)),
        Err(StoreError::Crypto(CryptoError::MalformedBlob))
    );
}

#[test]
fn sealed_outcome_keeps_bytes_and_names_the_failure() {
    assert_eq!(sealed_outcome(Some(vec![1, 2, 3])), Ok(vec![1, 2, 3]));
    assert_eq!(sealed_outcome(Some(vec![])), Ok(vec![]));
    assert_eq!(sealed_outcome(None), Err(CryptoError::EncryptionFailed));
}

#[test]
fn a_failed_read_counts_by_its_stage() {
    assert_eq!(header_fault(DecryptFault::Io), DecryptFault::HeaderRead);
    assert_eq!(header_fault(DecryptFault::InvalidHeader), DecryptFault::InvalidHeader);
    assert_eq!(header_fault(DecryptFault::UnknownFormat), DecryptFault::UnknownFormat);
    assert_eq!(header_fault(DecryptFault::DecryptionFailed), DecryptFault::DecryptionFailed);
    assert_eq!(
        open_payload(Err(DecryptFault::HeaderRead)),
        Err(StoreError::Crypto(CryptoError::MalformedBlob))
    );
    assert_eq!(
        open_payload(Err(DecryptFault::Io)),
        Err(StoreError::Crypto(CryptoError::WrongPassphraseOrCorruptedData))
    );
}

#[test]
fn a_container_cut_in_its_header_or_nonce_is_malformed() {
    let encryptor = AgeEncryptor::new("pass".into());
    let payload = vec![5u8; 20];
    let blob = encryptor.encrypt_bytes(&payload).unwrap();
    let header_and_nonce = blob.len() - payload.len() - 16;
    for keep in [1, 21, 60, header_and_nonce - 16, header_and_nonce - 1] {
        assert_eq!(encryptor.decrypt_bytes(&blob[..keep].to_vec()), Err(DecryptFault::HeaderRead));
    }
}

#[test]
fn a_container_is_longer_than_what_it_seals() {
    let encryptor = AgeEncryptor::new("".into());
    let empty = encryptor.encrypt_bytes(&Vec::new()).unwrap();
    assert!(empty.len() > 0);
    assert_eq!(encryptor.decrypt_bytes(&empty), Ok(Vec::new()));
    let payload = vec![3u8; 70_000];
    let blob = encryptor.encrypt_bytes(&payload).unwrap();
    assert!(blob.len() > payload.len());
    let mut folder = Folder::named("A".to_string());
    folder.add_record(Record::new());
    let sealed = encryptor.encrypt(&folder).unwrap();
    assert!(sealed.len() > encode(&folder).len());
}
