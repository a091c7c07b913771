use chrome_trace::directory::{DirectoryBuilder, DirectoryEntry, ExclusiveDirectory};

fn sample() -> ExclusiveDirectory<u32, &'static str> {
    ExclusiveDirectory::new(
        vec![
            ("bin".to_string(), DirectoryEntry::Dir(1)),
            ("README".to_string(), DirectoryEntry::Leaf("text")),
        ],
        0xfeed,
    )
}

#[test]
fn directory_get_finds_entries_by_name() {
    let d = sample();
    assert!(matches!(d.get(&"bin".to_string()), Some(DirectoryEntry::Dir(1))));
    assert!(matches!(d.get(&"README".to_string()), Some(DirectoryEntry::Leaf("text"))));
    assert!(d.get(&"missing".to_string()).is_none());
}

#[test]
fn directory_keeps_fingerprint_and_entries() {
    let d = sample();
    assert_eq!(d.fingerprint(), 0xfeed);
    assert_eq!(d.entries().len(), 2);
    let entries = d.into_entries();
    assert_eq!(entries[0].0, "bin");
}

#[test]
fn directory_becomes_immutable_builder() {
    match sample().into_builder() {
        DirectoryBuilder::Immutable(d) => assert_eq!(d.fingerprint(), 0xfeed),
        DirectoryBuilder::Mutable(_) => panic!("expected the directory itself"),
    }
}
