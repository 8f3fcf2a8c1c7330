use honu::execution::Execution;
use honu::identity::{Identity, NAMESPACE};
use honu::record::Record;

#[test]
fn fingerprints_encode_boundaries() {
    let fingerprint = Record::new(Execution::default(), b"foo", &[b"bar".to_vec()]).fingerprint;

    assert_eq!(
        fingerprint,
        [
            0, 0, 0, 0, 0, 0, 0, 3, b'f', b'o', b'o', 0, 0, 0, 0, 0, 0, 0, 3, b'b', b'a', b'r',
        ],
    );

    assert_ne!(
        Record::new(Execution::default(), b"foo", &[b"a".to_vec(), b"bc".to_vec()]).fingerprint,
        Record::new(Execution::default(), b"foo", &[b"ab".to_vec(), b"c".to_vec()]).fingerprint,
    );
}

#[test]
fn fingerprint_of_empty_parts_still_frames_them() {
    assert_eq!(
        Record::new(Execution::default(), b"", &[Vec::new()]).fingerprint,
        [0u8; 16],
    );
    assert_ne!(
        Record::new(Execution::default(), b"", &[]).fingerprint,
        Record::new(Execution::default(), b"", &[Vec::new()]).fingerprint,
    );
}

#[test]
fn identifier_is_the_v5_uuid_of_the_framed_name() {
    let identity = Identity {
        fields: vec![b"foo".to_vec()],
        scheme: b"plain".to_vec(),
    };

    let mut name = Vec::new();
    for part in [
        b"plain".as_slice(),
        b"zsh".as_slice(),
        b"foo".as_slice(),
        &7u64.to_be_bytes(),
    ] {
        name.extend_from_slice(&(part.len() as u64).to_be_bytes());
        name.extend_from_slice(part);
    }

    assert_eq!(
        identity.identifier("zsh", 7),
        uuid::Uuid::new_v5(&uuid::Uuid::from_u128(NAMESPACE), &name).as_u128(),
    );
    assert_ne!(identity.identifier("zsh", 7), identity.identifier("zsh", 8));
    assert_ne!(identity.identifier("zsh", 7), identity.identifier("bash", 7));
}

#[test]
fn identifiers_are_version_five_uuids() {
    let identity = Identity {
        fields: vec![b"foo".to_vec()],
        scheme: b"plain".to_vec(),
    };
    let id = identity.identifier("zsh", 1);
    assert_eq!((id >> 76) & 0xf, 5);
    assert_eq!((id >> 62) & 3, 2);
}
