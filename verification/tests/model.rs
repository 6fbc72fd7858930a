use jarde_reader::model::{
    ArchiveNameBytes, ClassBytesId, ContainerId, ContainerOrigin, Digest, Location, PhysicalClassLocation,
    PhysicalDefinitionId, PhysicalEntryId, PhysicalVariant, Provenance, SnapshotId,
};

fn entry(ordinal: u64, name: &str) -> PhysicalEntryId {
    PhysicalEntryId {
        origin: ContainerOrigin {
            snapshot: SnapshotId("snap-1".into()),
            root_container: ContainerId("root".into()),
            steps: Vec::new(),
        },
        ordinal,
        raw_name: ArchiveNameBytes(name.as_bytes().to_vec()),
    }
}

#[test]
fn identical_bytes_keep_distinct_physical_origins() {
    let bytes = ClassBytesId { digest: Digest("same".into()), length: 4 };
    let left = PhysicalDefinitionId {
        location: PhysicalClassLocation::ArchiveEntry { entry: entry(1, "a/A.class") },
        class_bytes: bytes.clone(),
        variant: PhysicalVariant::Base,
    };
    let right = PhysicalDefinitionId {
        location: PhysicalClassLocation::ArchiveEntry { entry: entry(2, "b/A.class") },
        class_bytes: bytes,
        variant: PhysicalVariant::Base,
    };
    assert_ne!(left, right);
    assert_eq!(left.class_bytes, right.class_bytes);
}

#[test]
fn provenance_derives_one_snapshot_from_location() {
    let definition = PhysicalDefinitionId {
        location: PhysicalClassLocation::ArchiveEntry { entry: entry(2, "A.class") },
        class_bytes: ClassBytesId { digest: Digest("d".into()), length: 1 },
        variant: PhysicalVariant::Base,
    };
    let provenance = Provenance { location: Location::ClassOffset { definition, offset: 0 } };
    assert_eq!(provenance.snapshot(), &SnapshotId("snap-1".into()));
    assert_eq!(provenance.location.snapshot(), provenance.snapshot());
}

#[test]
fn a_wire_jvm_string_is_accepted_only_when_its_parts_agree() {
    let value = jarde_reader::model::JvmString::from_wire(b"a\"".to_vec(), vec![0x61, 0x22], &"a\\\"".to_string())
        .expect("consistent parts");
    assert_eq!(value.raw().0, b"a\"".to_vec());
    assert_eq!(value.utf16(), &[0x61, 0x22]);
    let nul = jarde_reader::model::JvmString::from_wire(vec![0xc0, 0x80], vec![0], &"\\u0000".to_string())
        .expect("the two-byte NUL");
    assert_eq!(nul.escaped(), "\\u0000");
    assert!(jarde_reader::model::JvmString::from_wire(b"a".to_vec(), vec![0x62], &"b".to_string()).is_none());
    assert!(jarde_reader::model::JvmString::from_wire(b"a".to_vec(), vec![0x61], &"b".to_string()).is_none());
    assert!(jarde_reader::model::JvmString::from_wire(vec![0xff], vec![], &String::new()).is_none());
    assert!(jarde_reader::model::JvmString::from_wire(vec![0], vec![0], &"\\u0000".to_string()).is_none());
}
