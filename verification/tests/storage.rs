use eir::entity::EntityDocument;
use eir::error::{Error, IoErrorKind};
use eir::ids::{EntityID, SourceID, TagID};
use eir::storage::backend::Backend;
use eir::storage::deir::{DeirFile, DeirHeader, DeirKind};
use eir::storage::indexes::IndexBuilder;
use eir::storage::posting_list::{PostingList, PostingListRecord};
use eir::storage::segment::Segment;
use eir::storage::segment_manager::{
    count_segments, latest_segment, obsolete_segments, parse_u64, rewrite_temp_file_name, segment_file_name,
    segment_id, SegmentManager, StorageConfig,
};
use eir::storage::store::Store;
use eir::storage::wal::Wal;

/// Writes `data` into an in-memory file at `offset`, growing it with zeros.
fn write_at(file: &mut Vec<u8>, offset: usize, data: &[u8]) {
    if file.len() < offset + data.len() {
        file.resize(offset + data.len(), 0);
    }
    file[offset..offset + data.len()].copy_from_slice(data);
}

/// Appends `payload` to an in-memory DEIR file as `DeirFile::append` plans it.
fn append(file: &DeirFile, bytes: &mut Vec<u8>, payload: &[u8]) -> Result<(), Error> {
    let (offset, header) = file.append(&bytes[..16], payload.len())?;
    write_at(bytes, offset as usize, payload);
    write_at(bytes, 0, &header);
    Ok(())
}

fn test_config(root: &str, max_segment_size: u64, max_segments: usize) -> StorageConfig {
    StorageConfig {
        name: "test".into(),
        root: root.into(),
        max_segment_size,
        max_segments,
    }
}

fn segment_path(root: &str, id: u64) -> String {
    format!("{}/segments/{}", root, segment_file_name(id))
}

fn document(id: usize) -> EntityDocument {
    EntityDocument {
        id: EntityID::new(id),
        aliases: vec![],
        attributes: vec![],
        relationships: vec![],
        sources: vec![],
        tags: vec![],
    }
}

#[test]
fn deir_append_roundtrip() {
    let (file, mut bytes) = DeirFile::create("test.deir".into(), DeirKind::Wal);

    append(&file, &mut bytes, b"hello").unwrap();
    append(&file, &mut bytes, b" world").unwrap();

    assert_eq!(file.read(&bytes).unwrap(), b"hello world");
}

#[test]
fn deir_truncate_preserves_header() {
    let (file, mut bytes) = DeirFile::create("test.deir".into(), DeirKind::Wal);

    append(&file, &mut bytes, b"hello").unwrap();

    bytes = file.truncate();

    assert!(file.read(&bytes).unwrap().is_empty());

    let reopened = DeirFile::open("test.deir".into(), DeirKind::Wal, &bytes[..16]).unwrap();
    assert!(reopened.read(&bytes).unwrap().is_empty());
}

#[test]
fn deir_header_encodes_magic_version_kind_and_length() {
    let bytes = DeirHeader::new(DeirKind::Segment, 0x0102).encode();
    assert_eq!(
        bytes,
        vec![68, 69, 73, 82, 1, 0, 1, 0, 2, 1, 0, 0, 0, 0, 0, 0]
    );
    let header = DeirHeader::decode(&bytes).unwrap();
    assert_eq!(header, DeirHeader::new(DeirKind::Segment, 0x0102));
}

#[test]
fn deir_header_rejects_bad_magic_version_and_kind() {
    let mut bytes = DeirHeader::new(DeirKind::Wal, 5).encode();
    bytes[0] = b'X';
    assert!(matches!(DeirHeader::decode(&bytes), Err(Error::InvalidFormat(_))));

    let mut bytes = DeirHeader::new(DeirKind::Wal, 5).encode();
    bytes[4] = 2;
    assert!(matches!(DeirHeader::decode(&bytes), Err(Error::UnsupportedVersion(2))));

    let mut bytes = DeirHeader::new(DeirKind::Wal, 5).encode();
    bytes[6] = 9;
    assert!(matches!(DeirHeader::decode(&bytes), Err(Error::InvalidFormat(_))));
}

#[test]
fn deir_open_rejects_other_kind_and_short_file() {
    let (_, bytes) = DeirFile::create("a.deir".into(), DeirKind::Segment);
    assert!(matches!(
        DeirFile::open("a.deir".into(), DeirKind::Wal, &bytes[..16]),
        Err(Error::InvalidFormat(_))
    ));
    assert!(matches!(
        DeirFile::open("a.deir".into(), DeirKind::Segment, &bytes[..10]),
        Err(Error::Io { kind: IoErrorKind::UnexpectedEof, .. })
    ));
}

#[test]
fn deir_read_rejects_payload_past_the_end() {
    let file = DeirFile::create("a.deir".into(), DeirKind::Segment).0;
    let mut bytes = file.write(b"abcdef");
    bytes.truncate(19);
    assert!(matches!(
        file.read(&bytes),
        Err(Error::Io { kind: IoErrorKind::UnexpectedEof, .. })
    ));
    assert_eq!(file.read(&[]).unwrap(), Vec::<u8>::new());
}

#[test]
fn manager_creates_first_segment() {
    let root = "/tmp/eir-test";
    let config = test_config(root, 1024, 4);
    let (active, _) = Segment::create(segment_path(root, 1));
    let manager = SegmentManager::new(config, active);

    assert_eq!(manager.path(), "/tmp/eir-test/segments/000001.deir");
}

#[test]
fn manager_rotates_segment() {
    let root = "/tmp/eir-test";
    let config = test_config(root, 1024, 4);
    let (active, _) = Segment::create(segment_path(root, 1));
    let mut manager = SegmentManager::new(config, active);

    assert_eq!(manager.active_id(), 1);
    assert!(manager.path().ends_with("000001.deir"));

    let (id, name) = manager.rotate(1).unwrap();
    manager.install(Segment::create(format!("{root}/segments/{name}")).0, id);

    assert_eq!(manager.active_id(), 2);
    assert!(manager.path().ends_with("000002.deir"));

    let (id, name) = manager.rotate(2).unwrap();
    manager.install(Segment::create(format!("{root}/segments/{name}")).0, id);

    assert_eq!(manager.active_id(), 3);
    assert!(manager.path().ends_with("000003.deir"));
}

#[test]
fn segment_reports_size() {
    let (segment, _) = Segment::create("segment.deir".into());
    let file = segment.write(b"hello");

    assert!(file.len() > 0);
    assert_eq!(segment.read(&file).unwrap(), b"hello");
}

#[test]
fn manager_rejects_rotation_at_segment_limit() {
    let root = "/tmp/eir-test";
    let config = test_config(root, 1024, 2);
    let (active, _) = Segment::create(segment_path(root, 1));
    let mut manager = SegmentManager::new(config, active);

    let (id, name) = manager.rotate(1).unwrap();
    manager.install(Segment::create(format!("{root}/segments/{name}")).0, id);

    assert_eq!(manager.active_id(), 2);

    let result = manager.rotate(2);

    assert!(matches!(
        result,
        Err(Error::StorageLimit { max_segments: 2 })
    ));

    assert_eq!(manager.active_id(), 2);
}

#[test]
fn manager_read_empty_segment_returns_not_found() {
    let result = SegmentManager::decode_last_record(&[]);

    assert!(matches!(
        result,
        Err(Error::Io { kind: IoErrorKind::NotFound, .. })
    ));
}

#[test]
fn manager_can_rotate_after_rewrite() {
    let root = "/tmp/eir-test";
    let config = test_config(root, 1024 * 1024, 2);
    let (active, _) = Segment::create(segment_path(root, 1));
    let mut manager = SegmentManager::new(config, active);

    let (id, name) = manager.rotate(1).unwrap();
    manager.install(Segment::create(format!("{root}/segments/{name}")).0, id);

    assert_eq!(manager.active_id(), 2);

    let (id, temp, name) = manager.rewrite().unwrap();
    assert_eq!(temp, ".rewrite.000003.tmp");
    assert_eq!(name, "000003.deir");
    manager.install(Segment::create(format!("{root}/segments/{name}")).0, id);

    // Rewrite leaves only one physical segment.
    assert_eq!(manager.active_id(), 3);

    // We should be able to create another segment even though the
    // sequence number is already greater than max_segments.
    let (id, name) = manager.rotate(1).unwrap();
    manager.install(Segment::create(format!("{root}/segments/{name}")).0, id);

    assert_eq!(manager.active_id(), 4);
}

#[test]
fn manager_appends_snapshots_and_reads_latest() {
    let first = vec![1u8, 2, 3];
    let second = vec![4u8, 5, 6, 7];

    let mut payload = Vec::new();
    payload.extend(SegmentManager::encode_record(&first).unwrap());
    let first_size = payload.len();

    payload.extend(SegmentManager::encode_record(&second).unwrap());
    let second_size = payload.len();

    assert!(second_size > first_size);

    let loaded = SegmentManager::decode_last_record(&payload).unwrap();

    assert_eq!(loaded, second);
}

#[test]
fn manager_rewrite_reduces_append_only_storage() {
    let record = vec![9u8; 32];

    let mut payload = Vec::new();
    payload.extend(SegmentManager::encode_record(&record).unwrap());
    payload.extend(SegmentManager::encode_record(&record).unwrap());
    payload.extend(SegmentManager::encode_record(&record).unwrap());

    let before = payload.len();

    let rewritten = SegmentManager::encode_record(&record).unwrap();

    let after = rewritten.len();

    assert!(after < before);
    assert_eq!(SegmentManager::decode_last_record(&rewritten).unwrap(), record);
}

#[test]
fn manager_decode_rejects_cut_short_frames() {
    let mut payload = SegmentManager::encode_record(&[1, 2, 3]).unwrap();
    payload.push(7);
    assert!(matches!(
        SegmentManager::decode_last_record(&payload),
        Err(Error::InvalidFormat(_))
    ));

    let mut payload = SegmentManager::encode_record(&[1, 2, 3]).unwrap();
    payload.pop();
    assert!(matches!(
        SegmentManager::decode_last_record(&payload),
        Err(Error::InvalidFormat(_))
    ));
}

#[test]
fn manager_frame_is_length_then_record() {
    assert_eq!(
        SegmentManager::encode_record(&[0xaa, 0xbb]).unwrap(),
        vec![2, 0, 0, 0, 0, 0, 0, 0, 0xaa, 0xbb]
    );
}

#[test]
fn manager_should_rotate_when_segment_would_grow_too_large() {
    let (active, _) = Segment::create("000001.deir".into());
    let manager = SegmentManager::new(test_config("/tmp", 100, 4), active);

    assert!(!manager.should_rotate(60, 40));
    assert!(manager.should_rotate(60, 41));
}

#[test]
fn segment_names_are_zero_padded() {
    assert_eq!(segment_file_name(1), "000001.deir");
    assert_eq!(segment_file_name(1234567), "1234567.deir");
    assert_eq!(rewrite_temp_file_name(42), ".rewrite.000042.tmp");
}

#[test]
fn segment_ids_are_read_from_file_names() {
    assert_eq!(segment_id("000007.deir"), Some(7));
    assert_eq!(segment_id("+12.deir"), Some(12));
    assert_eq!(segment_id("x1.deir"), None);
    assert_eq!(segment_id(".deir"), None);
    assert_eq!(segment_id("000007.tmp"), None);
    assert_eq!(segment_id("18446744073709551616.deir"), None);
    assert_eq!(parse_u64(&"18446744073709551615".chars().collect()), Some(u64::MAX));
    assert_eq!(parse_u64(&"+".chars().collect()), None);
    assert_eq!(parse_u64(&"-1".chars().collect()), None);
}

#[test]
fn latest_segment_is_the_highest_number() {
    let names: Vec<String> = vec![
        "000002.deir".into(),
        ".rewrite.000009.tmp".into(),
        "000010.deir".into(),
        "notes.txt".into(),
        "000003.deir".into(),
    ];
    assert_eq!(latest_segment(&names), Some((10, 2)));
    assert_eq!(count_segments(&names), 3);

    let none: Vec<String> = vec!["a.tmp".into()];
    assert_eq!(latest_segment(&none), None);
    assert_eq!(count_segments(&none), 0);
}

#[test]
fn wal_append_multiple_roundtrip() {
    let (wal, _) = Wal::create("wal.deir".into());

    let remove_one = vec![1u8, 0, 0, 0];
    let remove_two = vec![2u8, 0, 0, 0];

    let mut payload = Vec::new();
    payload.extend(wal.append(&remove_one).unwrap());
    payload.extend(wal.append(&remove_two).unwrap());

    let operations = wal.replay(&payload);

    assert_eq!(operations.len(), 2);
    assert_eq!(operations[0], remove_one);
    assert_eq!(operations[1], remove_two);
}

#[test]
fn wal_insert_roundtrip() {
    let (wal, _) = Wal::create("wal.deir".into());

    let insert = b"insert 9300 WAL Berry".to_vec();

    let payload = wal.append(&insert).unwrap();

    let operations = wal.replay(&payload);

    assert_eq!(operations.len(), 1);
    assert_eq!(operations[0], insert);
}

#[test]
fn wal_insert_survives_reopen() {
    let (wal, header) = Wal::create("wal.deir".into());
    let insert = b"insert 9300 WAL Berry".to_vec();

    let mut file = header;
    let record = wal.append(&insert).unwrap();
    let (offset, new_header) = wal.file.append(&file[..16], record.len()).unwrap();
    write_at(&mut file, offset as usize, &record);
    write_at(&mut file, 0, &new_header);

    let reopened = Wal::open("wal.deir".into(), &file[..16]).unwrap();
    let payload = reopened.file.read(&file).unwrap();
    let operations = reopened.replay(&payload);

    assert_eq!(operations.len(), 1);
    assert_eq!(operations[0], insert);
}

#[test]
fn wal_replay_ignores_torn_tail() {
    let (wal, _) = Wal::create("wal.deir".into());
    let mut payload = wal.append(b"first").unwrap();
    let second = wal.append(b"second").unwrap();
    payload.extend_from_slice(&second[..7]);

    let operations = wal.replay(&payload);
    assert_eq!(operations, vec![b"first".to_vec()]);

    payload.truncate(9 + 2);
    assert_eq!(wal.replay(&payload), vec![b"first".to_vec()]);
}

#[test]
fn wal_frame_is_four_byte_length_then_record() {
    let (wal, _) = Wal::create("wal.deir".into());
    assert_eq!(wal.append(&[7, 8]).unwrap(), vec![2, 0, 0, 0, 7, 8]);
    assert_eq!(wal.truncate(), DeirHeader::new(DeirKind::Wal, 0).encode());
}

#[test]
fn store_roundtrip() {
    let mut store = Store::new("eir-store.eir".into());

    store.entities.push(EntityDocument {
        id: EntityID::new(100),
        aliases: vec!["Test Berry".into()],
        tags: vec![],
        attributes: vec![],
        relationships: vec![],
        sources: vec![],
    });

    let record = store.clone().into_record();
    let loaded = Store::from_record(store.path().into(), record);

    assert_eq!(loaded.entities.len(), 1);
    assert_eq!(loaded.entities[0].id, EntityID::new(100));
    assert_eq!(loaded.entities[0].aliases, vec![String::from("Test Berry")]);
    assert_eq!(loaded.path(), "eir-store.eir");
}

#[test]
fn store_load_missing_file_returns_error() {
    let result = Segment::open("eir-store-missing.eir".into(), &[]);

    assert!(matches!(result, Err(Error::Io { .. })));
}

#[test]
fn backend_recovers_only_from_missing_files() {
    let missing = Error::Io { kind: IoErrorKind::NotFound, message: "gone".into() };
    let other = Error::Io { kind: IoErrorKind::Other, message: "denied".into() };
    assert!(Backend::is_missing(&missing));
    assert!(!Backend::is_missing(&other));
    assert!(!Backend::is_missing(&Error::InvalidFormat("bad".into())));
}

#[test]
fn posting_list_files_and_looks_up_in_ascending_order() {
    let mut list = PostingList::<TagID>::default();
    list.insert(TagID::new(3), EntityID::new(20));
    list.insert(TagID::new(3), EntityID::new(5));
    list.insert(TagID::new(3), EntityID::new(20));
    list.insert(TagID::new(4), EntityID::new(7));

    assert_eq!(list.lookup(TagID::new(3)), vec![EntityID::new(5), EntityID::new(20)]);
    assert_eq!(list.lookup(TagID::new(4)), vec![EntityID::new(7)]);
    assert_eq!(list.lookup(TagID::new(9)), Vec::<EntityID>::new());
}

#[test]
fn posting_list_record_roundtrip() {
    let mut list = PostingList::<SourceID>::default();
    list.insert(SourceID::new(1), EntityID::new(9));
    list.insert(SourceID::new(1), EntityID::new(2));
    list.insert(SourceID::new(0), EntityID::new(4));

    let mut record = list.to_record();
    record.index.sort_by_key(|(key, _)| key.index);
    assert_eq!(
        record.index,
        vec![(SourceID::new(0), vec![4]), (SourceID::new(1), vec![2, 9])]
    );

    let restored = PostingList::<SourceID>::from_record(record);
    assert_eq!(restored.lookup(SourceID::new(1)), vec![EntityID::new(2), EntityID::new(9)]);
    assert_eq!(restored.lookup(SourceID::new(0)), vec![EntityID::new(4)]);

    let archived = restored.to_archived();
    assert_eq!(archived.keys.len(), 2);
    assert_eq!(archived.values.len(), 2);
}

#[test]
fn posting_list_record_later_entry_wins() {
    let record = PostingListRecord {
        index: vec![(TagID::new(1), vec![1, 2]), (TagID::new(1), vec![3])],
    };
    let list = PostingList::<TagID>::from_record(record);
    assert_eq!(list.lookup(TagID::new(1)), vec![EntityID::new(3)]);
}

#[test]
fn index_builder_files_tags_sources_and_targets() {
    let mut apple = document(1);
    apple.tags = vec![TagID::new(0), TagID::new(1)];
    apple.sources = vec![SourceID::new(5)];
    let mut pie = document(2);
    pie.tags = vec![TagID::new(1)];
    pie.relationships = vec![eir::entity::Relationship {
        kind: eir::entity::RelationshipType::PartOf,
        target: EntityID::new(1),
    }];

    let indexes = IndexBuilder::build(&[apple, pie], &vec![]);

    assert_eq!(indexes.tags.lookup(TagID::new(0)), vec![EntityID::new(1)]);
    assert_eq!(
        indexes.tags.lookup(TagID::new(1)),
        vec![EntityID::new(1), EntityID::new(2)]
    );
    assert_eq!(indexes.sources.lookup(SourceID::new(5)), vec![EntityID::new(1)]);
    assert_eq!(indexes.relationships.lookup(EntityID::new(1)), vec![EntityID::new(2)]);
    assert!(indexes.relationships_type.is_empty());
}

#[test]
fn segment_names_read_back_as_their_numbers() {
    for id in [0u64, 1, 7, 999_999, 1_000_000, u64::MAX] {
        assert_eq!(segment_id(&segment_file_name(id)), Some(id));
    }
}

#[test]
fn index_builder_files_aliases_words_and_attributes() {
    let mut apple = document(1);
    apple.aliases = vec!["Fizz-Berry Spark".into()];
    apple.attributes = vec![
        eir::entity::Attribute {
            key: eir::ids::AttributeKeyID::new(0),
            value: eir::entity::Value::String("Acme Foods".into()),
        },
        eir::entity::Attribute {
            key: eir::ids::AttributeKeyID::new(5),
            value: eir::entity::Value::Integer(3),
        },
    ];
    let mut pie = document(2);
    pie.aliases = vec!["Berry Pie".into()];
    pie.attributes = vec![eir::entity::Attribute {
        key: eir::ids::AttributeKeyID::new(1),
        value: eir::entity::Value::Integer(-7),
    }];

    let keys = vec![String::from("Brand"), String::from("Weight")];
    let indexes = IndexBuilder::build(&[apple, pie], &keys);

    assert_eq!(indexes.alias.lookup("fizz berry spark"), vec![EntityID::new(1)]);
    assert_eq!(indexes.alias.lookup("Fizz-Berry Spark"), Vec::<EntityID>::new());
    assert_eq!(indexes.inverted.lookup("berry"), vec![EntityID::new(1), EntityID::new(2)]);
    assert_eq!(indexes.inverted.lookup("pie"), vec![EntityID::new(2)]);
    assert_eq!(indexes.attribute_keys.lookup("brand"), vec![EntityID::new(1)]);
    assert_eq!(indexes.attribute_keys.lookup("weight"), vec![EntityID::new(2)]);
    assert_eq!(indexes.attribute_values.lookup("acme foods"), vec![EntityID::new(1)]);
    assert_eq!(indexes.attribute_values.lookup("foods"), vec![EntityID::new(1)]);
    assert_eq!(indexes.attribute_values.lookup("7"), vec![EntityID::new(2)]);
    assert_eq!(indexes.attribute_values.lookup("3"), Vec::<EntityID>::new());
    assert_eq!(indexes.attribute_pairs.lookup("brand:acme foods"), vec![EntityID::new(1)]);
    assert_eq!(indexes.attribute_pairs.lookup("weight:7"), vec![EntityID::new(2)]);
}

#[test]
fn rewrite_removes_every_other_segment() {
    let names: Vec<String> = vec![
        "000001.deir".into(),
        "000003.deir".into(),
        ".rewrite.000003.tmp".into(),
        "000002.deir".into(),
        "notes.txt".into(),
    ];
    assert_eq!(
        obsolete_segments(&names, "000003.deir"),
        vec![String::from("000001.deir"), String::from("000002.deir")]
    );
}

#[test]
fn manager_decode_names_each_refusal() {
    let mut overflow = vec![0xffu8; 8];
    overflow.push(1);
    assert!(matches!(
        SegmentManager::decode_last_record(&overflow),
        Err(Error::InvalidFormat(m)) if m == "snapshot length overflow"
    ));

    let mut short = SegmentManager::encode_record(&[1, 2, 3]).unwrap();
    short.pop();
    assert!(matches!(
        SegmentManager::decode_last_record(&short),
        Err(Error::InvalidFormat(m)) if m == "truncated segment record payload"
    ));

    let mut header_cut = SegmentManager::encode_record(&[1]).unwrap();
    header_cut.extend_from_slice(&[0, 0, 0]);
    assert!(matches!(
        SegmentManager::decode_last_record(&header_cut),
        Err(Error::InvalidFormat(m)) if m == "truncated segment record header"
    ));
}
