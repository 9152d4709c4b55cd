//! Records, blocks, files and their checksums.

use tc_chain::{
    check_identity, element, identity, invalid, reference, ChainBlock, ChainError, ChainFile, CollectionRef,
    Element, ElementRef, ErrorKind, MutationRecord, Resolution, Resolved, Scalar, Store, SubjectPath, TxnId,
    TxnMap,
};

fn id(n: u16) -> TxnId {
    let half = u128::from_be_bytes([n as u8; 16]);
    TxnId { time: 100, nonce: n, trace_high: half, trace_low: half }
}

fn path(text: &str) -> SubjectPath {
    SubjectPath::parse(text).unwrap()
}

fn null() -> Scalar {
    Scalar::Literal("null".to_string())
}

fn stored(name: &str) -> Scalar {
    Scalar::Get(CollectionRef {
        name: name.to_string(),
        path: path("/state/collection/btree"),
        schema: "[]".to_string(),
    })
}

#[test]
fn mutation_record_arity_is_unambiguous() {
    let cases: Vec<(Vec<Element>, bool, bool)> = vec![
        (vec![Element::Path(path("/")), Element::Value(null())], true, false),
        (
            vec![Element::Path(path("/nested")), Element::Value(null()), Element::Value(null())],
            true,
            true,
        ),
        (vec![], false, false),
        (vec![Element::Path(path("/"))], false, false),
        (
            vec![
                Element::Path(path("/")),
                Element::Value(null()),
                Element::Value(null()),
                Element::Value(null()),
            ],
            false,
            false,
        ),
    ];
    for (elements, valid, put) in cases {
        let decoded = MutationRecord::decode(elements);
        assert_eq!(decoded.is_ok(), valid);
        if let Ok(record) = decoded {
            assert_eq!(matches!(record, MutationRecord::Put(..)), put);
        }
    }
}

#[test]
fn malformed_records_are_refused_by_length_and_by_kind() {
    assert!(matches!(MutationRecord::decode(vec![]), Err(ChainError::InvalidLength(0))));
    assert!(matches!(
        MutationRecord::decode(vec![Element::Path(path("/"))]),
        Err(ChainError::InvalidLength(1))
    ));
    let long = vec![
        Element::Path(path("/")),
        Element::Value(null()),
        Element::Value(null()),
        Element::Value(null()),
        Element::Value(null()),
    ];
    assert!(matches!(MutationRecord::decode(long), Err(ChainError::InvalidLength(4))));
    assert!(matches!(
        MutationRecord::decode(vec![Element::Value(null())]),
        Err(ChainError::InvalidRecord)
    ));
    assert!(matches!(
        MutationRecord::decode(vec![Element::Path(path("/")), Element::Path(path("/"))]),
        Err(ChainError::InvalidRecord)
    ));
}

#[test]
fn records_are_read_back_as_they_were_persisted() {
    let name = "0123456789abcdef".repeat(4);
    let records = [
        MutationRecord::Put(path("/insert"), null(), null()),
        MutationRecord::Delete(path("/"), null()),
        MutationRecord::Restore(stored(&name)),
    ];
    for record in records {
        let value = record.value().is_some();
        let kind = std::mem::discriminant(&record);
        let elements = record.encode();
        let read = MutationRecord::decode(elements).unwrap();
        assert_eq!(std::mem::discriminant(&read), kind);
        assert_eq!(read.value().is_some(), value);
    }
}

#[test]
fn borrowed_and_owned_records_have_the_same_elements() {
    let record = MutationRecord::Put(path("/insert"), null(), Scalar::Literal("7".to_string()));
    let borrowed: Vec<String> = record
        .to_elements()
        .iter()
        .map(|e| match e {
            ElementRef::Path(path) => path.as_str().to_string(),
            ElementRef::Value(value) => format!("{value:?}"),
        })
        .collect();
    let owned: Vec<String> = record
        .encode()
        .iter()
        .map(|e| match e {
            Element::Path(path) => path.as_str().to_string(),
            Element::Value(value) => format!("{value:?}"),
        })
        .collect();
    assert_eq!(borrowed, owned);
    assert_eq!(borrowed.len(), 3);
    assert_eq!(MutationRecord::Delete(path("/"), null()).to_elements().len(), 2);
    assert_eq!(MutationRecord::Restore(stored(&"0".repeat(64))).to_elements().len(), 1);
}

#[test]
fn borrowed_and_owned_blocks_have_the_same_elements() {
    let large = "42".repeat(100_000);
    let transactions = vec![
        (id(5), vec![MutationRecord::Delete(path("/nested/delete"), null())]),
        (
            id(2),
            vec![
                MutationRecord::Put(path("/insert"), null(), Scalar::Literal(large)),
                MutationRecord::Put(path("/"), null(), null()),
                MutationRecord::Delete(path("/"), null()),
            ],
        ),
    ];
    let block = ChainBlock::decode(vec![0; 32], transactions).unwrap();
    let mut borrowed: Vec<(TxnId, Vec<Vec<String>>)> = Vec::new();
    for i in 0..block.mutations.len() {
        let (id, records) = block.mutations.at(i);
        let records = records
            .iter()
            .map(|record| {
                record
                    .to_elements()
                    .iter()
                    .map(|e| match e {
                        ElementRef::Path(path) => format!("{path:?}"),
                        ElementRef::Value(value) => format!("{value:?}"),
                    })
                    .collect()
            })
            .collect();
        borrowed.push((id, records));
    }
    let (hash, entries) = block.encode();
    let owned: Vec<(TxnId, Vec<Vec<String>>)> = entries
        .into_iter()
        .map(|(id, records)| {
            let records = records
                .into_iter()
                .map(|record| {
                    record
                        .encode()
                        .iter()
                        .map(|e| match e {
                            Element::Path(path) => format!("{path:?}"),
                            Element::Value(value) => format!("{value:?}"),
                        })
                        .collect()
                })
                .collect();
            (id, records)
        })
        .collect();
    assert_eq!(hash, vec![0; 32]);
    assert_eq!(borrowed, owned);
    assert_eq!(owned[0].0, id(2));
    assert_eq!(owned[0].1.len(), 3);
}

#[test]
fn the_first_element_is_a_route_exactly_if_it_is_a_text() {
    assert!(matches!(
        element(true, Some("insert"), null()),
        Ok(Element::Path(path)) if path.as_str() == "/insert"
    ));
    assert!(matches!(element(true, Some("/trailing/"), null()), Err(ChainError::InvalidPath)));
    assert!(matches!(element(false, Some("/trailing/"), null()), Ok(Element::Value(_))));
    assert!(matches!(element(true, None, stored("x")), Ok(Element::Value(Scalar::Get(_)))));
    assert!(matches!(element(false, None, null()), Ok(Element::Value(Scalar::Literal(_)))));
}

#[test]
fn native_record_paths_and_committed_structure_are_validated() {
    for text in ["/", "/insert", "/nested/delete"] {
        let expected = path(text);
        assert_eq!(expected.as_str(), text);
        let records = vec![
            MutationRecord::Put(path(text), null(), null()),
            MutationRecord::Delete(path(text), null()),
        ];
        let mut read = Vec::new();
        for record in records {
            read.push(MutationRecord::decode(record.encode()).unwrap());
        }
        assert!(matches!(&read[0], MutationRecord::Put(actual, ..) if actual.same(&expected)));
        assert!(matches!(&read[1], MutationRecord::Delete(actual, ..) if actual.same(&expected)));
    }
    for text in ["/trailing/", "/double//slash"] {
        assert!(matches!(SubjectPath::parse(text), Err(ChainError::InvalidPath)));
    }
}

#[test]
fn paths_are_displayed_as_they_are_parsed() {
    // a single segment is displayed as a route from the root
    assert_eq!(path("relative").as_str(), "/relative");
    assert!(SubjectPath::parse("").is_err());
    let nested = path("/nested/delete");
    assert!(path(nested.as_str()).same(&nested));
    assert!(!nested.same(&path("/nested")));
    assert_eq!(nested.clone().as_str(), "/nested/delete");
}

#[test]
fn shared_blocks_preserve_order_and_reject_duplicate_ids() {
    for size in [0, 31, 32, 33] {
        let transactions = vec![
            (id(10), vec![MutationRecord::Delete(path("/delete"), null())]),
            (
                id(2),
                vec![
                    MutationRecord::Put(path("/insert"), null(), null()),
                    MutationRecord::Delete(path("/"), null()),
                ],
            ),
        ];
        let decoded = ChainBlock::decode(vec![7; size], transactions);
        assert_eq!(decoded.is_ok(), size == 32);
        match decoded {
            Ok(block) => {
                assert_eq!(block.previous_hash, [7; 32]);
                let (hash, entries) = block.encode();
                assert_eq!(hash, vec![7; 32]);
                let ids: Vec<TxnId> = entries.iter().map(|(id, _)| *id).collect();
                assert_eq!(ids, vec![id(2), id(10)]);
                assert!(matches!(entries[0].1[0], MutationRecord::Put(..)));
                assert!(matches!(entries[0].1[1], MutationRecord::Delete(..)));
            }
            Err(error) => assert!(matches!(error, ChainError::PredecessorLength)),
        }
    }

    let duplicate = vec![(id(2), Vec::new()), (id(2), Vec::new())];
    let error = ChainBlock::decode(vec![0; 32], duplicate).err().unwrap();
    assert!(error.message().contains("duplicate block transaction ID"));
}

#[test]
fn identities_are_hexadecimal() {
    assert_eq!(identity(&[0x00, 0x0f, 0xff]), "000fff");
    let name = identity(&[0xa5; 32]);
    assert_eq!(name, "a5".repeat(32));
    assert!(check_identity(&name));
    assert!(!check_identity(&name[1..]));
    assert!(!check_identity(&"A5".repeat(32)));
    assert!(!check_identity(&"\u{e9}".repeat(32)));
}

#[test]
fn only_stored_references_are_references() {
    let name = "0".repeat(64);
    assert!(reference(&null()).unwrap().is_none());
    assert_eq!(reference(&stored(&name)).unwrap().unwrap().name, name);
    for value in [stored("short"), stored(&"g".repeat(64)), Scalar::Ref("$id".to_string())] {
        assert!(matches!(reference(&value), Err(ChainError::InvalidReference)));
    }
}

#[test]
fn stored_values_are_resolved_only_under_their_identity() {
    let hash = vec![0xab; 32];
    let value = stored(&identity(&hash));
    assert!(matches!(
        Store::resolve(null(), &Resolution::Missing),
        Ok(Resolved::Scalar(Scalar::Literal(_)))
    ));
    assert!(matches!(
        Store::resolve(value.clone(), &Resolution::Loaded(hash)),
        Ok(Resolved::Collection(_))
    ));
    assert!(matches!(
        Store::resolve(value.clone(), &Resolution::Loaded(vec![0; 32])),
        Err(ChainError::CollectionChecksum)
    ));
    assert!(matches!(
        Store::resolve(value.clone(), &Resolution::Missing),
        Err(ChainError::MissingCollection)
    ));
    assert!(matches!(
        Store::resolve(value, &Resolution::InvalidSchema),
        Err(ChainError::InvalidSchema)
    ));
    assert!(matches!(
        Store::resolve(stored("short"), &Resolution::Missing),
        Err(ChainError::InvalidReference)
    ));
}

#[test]
fn references_are_named_once_in_ascending_order() {
    let put = |value| MutationRecord::Put(path("/insert"), null(), value);
    let (a, b) = ("a".repeat(64), "b".repeat(64));
    let records = vec![
        put(stored(&b)),
        put(null()),
        put(stored(&a)),
        put(stored(&b)),
        MutationRecord::Delete(path("/"), stored(&"c".repeat(64))),
        MutationRecord::Restore(stored(&a)),
    ];
    assert_eq!(Store::sync(&records).unwrap(), vec![a.clone(), b.clone()]);
    assert_eq!(Store::references(&records).unwrap(), vec![a.clone(), b.clone()]);
    assert!(matches!(
        Store::sync(&vec![put(stored("short"))]),
        Err(ChainError::InvalidReference)
    ));

    let mut file = ChainFile::default();
    file.block.mutations.insert(id(3), vec![put(stored(&a))]);
    file.block.mutations.insert(id(2), records);
    assert_eq!(Store::published(&file).unwrap(), vec![a.clone(), b.clone()]);
    let names = vec!["x".to_string(), a.clone(), "y".to_string()];
    assert_eq!(Store::orphans(names, &vec![b, a]), vec!["x", "y"]);
}

#[test]
fn files_begin_with_the_checksum_of_their_payload() {
    let (bytes, size) = ChainFile::save(&vec![b"a".to_vec(), b"bc".to_vec()]).unwrap();
    assert_eq!(size, 35);
    // SHA-256 of "abc"
    assert_eq!(
        identity(&bytes[..32]),
        "ba7816bf8f01cfea414140de5dae2223b00361a396177a9cb410ff61f20015ad"
    );
    assert_eq!(&bytes[32..], b"abc");
    assert_eq!(ChainFile::payload(&bytes).unwrap(), b"abc");
    assert!(ChainFile::load(&bytes, Ok(ChainFile::default())).is_ok());

    let (empty, size) = ChainFile::save(&vec![]).unwrap();
    assert_eq!(size, 32);
    assert_eq!(
        identity(&empty),
        "e3b0c44298fc1c149afbf4c8996fb92427ae41e4649b934ca495991b7852b855"
    );
}

#[test]
fn changed_files_are_refused() {
    let (bytes, _) = ChainFile::save(&vec![b"payload".to_vec()]).unwrap();
    for i in 0..bytes.len() {
        let mut changed = bytes.clone();
        changed[i] ^= 1;
        assert!(matches!(
            ChainFile::load(&changed, Ok(ChainFile::default())),
            Err(ChainError::FileChecksum)
        ));
    }
    let short = bytes[..31].to_vec();
    assert!(matches!(ChainFile::payload(&short), Err(ChainError::UnexpectedEof)));
    assert!(matches!(
        ChainFile::load(&short, Ok(ChainFile::default())),
        Err(ChainError::UnexpectedEof)
    ));
    // what cannot be decoded is reported before the checksum
    let mut changed = bytes;
    changed[0] ^= 1;
    assert!(matches!(
        ChainFile::load(&changed, Err(invalid("not a file".to_string()))),
        Err(ChainError::Invalid(message)) if message == "not a file"
    ));
}

#[test]
fn file_sizes_are_summed_without_overflow() {
    assert_eq!(ChainFile::size(&vec![]).unwrap(), 32);
    assert_eq!(ChainFile::size(&vec![3, 0, 4]).unwrap(), 39);
    assert!(matches!(ChainFile::size(&vec![usize::MAX]), Err(ChainError::SizeOverflow)));
    assert_eq!(ChainFile::size(&vec![usize::MAX - 32]).unwrap(), usize::MAX);
}

#[test]
fn files_refuse_what_may_not_be_loaded() {
    assert!(ChainFile::default().check().is_ok());
    let record = || MutationRecord::Delete(path("/"), null());
    let file = || {
        let file = ChainFile::default().publish(id(2), vec![record()]).unwrap();
        file.publish(id(4), vec![record(), record()]).unwrap()
    };
    assert!(file().check().is_ok());
    assert!(matches!(
        file().publish(id(4), vec![record()]),
        Err(ChainError::AlreadyPublished)
    ));
    let mut linked = file();
    linked.block.previous_hash[31] = 1;
    assert!(matches!(linked.check(), Err(ChainError::InvalidPredecessor)));
    assert!(matches!(file().intend(id(3)).check(), Err(ChainError::RecoveryRequired)));
    let mut conflicting = file();
    conflicting.frontier = Some(id(2));
    assert!(matches!(conflicting.check(), Err(ChainError::ConflictingTransaction)));
    let empty = file().publish(id(3), vec![]).unwrap();
    assert!(matches!(empty.check(), Err(ChainError::ConflictingTransaction)));

    assert!(file().covers(&id(2)) && !file().covers(&id(1)));
    let finalized = file().intend(id(3)).finalize(id(3));
    assert_eq!(finalized.frontier, Some(id(3)));
    assert_eq!(finalized.materializing, None);
    assert_eq!(finalized.block.mutations.len(), 1);
    assert_eq!(finalized.block.mutations.get(&id(4)).unwrap().len(), 2);
    assert!(finalized.check().is_ok());
    assert_eq!(finalized.duplicate().block.mutations.len(), 1);
}

#[test]
fn transactions_are_ordered_by_their_whole_identity() {
    let base = TxnId { time: 1, nonce: 1, trace_high: 1, trace_low: 1 };
    let later = [
        TxnId { time: 2, nonce: 0, trace_high: 0, trace_low: 0 },
        TxnId { time: 1, nonce: 2, trace_high: 0, trace_low: 0 },
        TxnId { time: 1, nonce: 1, trace_high: 2, trace_low: 0 },
        TxnId { time: 1, nonce: 1, trace_high: 1, trace_low: 2 },
    ];
    for other in later {
        assert!(base.precedes(&other));
        assert!(!other.precedes(&base));
    }
    assert!(!base.precedes(&base));

    let mut map = TxnMap::new();
    for n in [5, 3, 9, 3] {
        map.insert(id(n), n);
    }
    assert_eq!(map.len(), 3);
    assert_eq!(map.get(&id(9)), Some(&9));
    map.retain_after(&id(3));
    let entries = map.into_entries();
    assert_eq!(entries, vec![(id(5), 5), (id(9), 9)]);
}

#[test]
fn errors_are_reported_by_kind_and_text() {
    let reported = [
        (ChainError::NotPersistent, ErrorKind::BadRequest, "persistent collection owner"),
        (ChainError::StorageNotEmpty, ErrorKind::BadRequest, "empty WAL storage"),
        (ChainError::AlreadyPublished, ErrorKind::Conflict, "already published"),
        (ChainError::CapacityExhausted, ErrorKind::Conflict, "capacity exhausted"),
        (ChainError::FileChecksum, ErrorKind::InvalidData, "checksum mismatch"),
        (ChainError::UnexpectedEof, ErrorKind::UnexpectedEof, "unexpected end"),
        (ChainError::Interrupted, ErrorKind::Unavailable, "interrupted"),
        (ChainError::RecoveryRequired, ErrorKind::Unavailable, "recovery"),
        (
            ChainError::Delegated(ErrorKind::Internal, "disk full".to_string()),
            ErrorKind::Internal,
            "disk full",
        ),
        (
            ChainError::Delegated(ErrorKind::Forbidden, "not yours".to_string()),
            ErrorKind::Forbidden,
            "not yours",
        ),
        (invalid("bad text".to_string()), ErrorKind::InvalidData, "bad text"),
    ];
    for (error, kind, text) in reported {
        assert_eq!(error.kind(), kind);
        assert!(error.message().contains(text));
    }
}
