use h7cad::annotation_context::{
    clear_annotation_context, resolve_root_named_dict, root_named_dict, set_own_flag, NamedObject,
    ObjectEntry, RootChoice,
};
use h7cad::annotative::{AnnoKind, ANNOTATIVE_DATA_APP, ANNO_PO_APP};
use h7cad::dim_override::{ExtendedData, ExtendedDataRecord};

fn dict(handle: u64, owner: u64, entries: &[(&str, u64)]) -> ObjectEntry {
    ObjectEntry {
        handle,
        object: NamedObject::Dictionary {
            owner,
            entries: entries.iter().map(|(k, v)| (k.to_string(), *v)).collect(),
        },
    }
}

fn other(handle: u64) -> ObjectEntry {
    ObjectEntry { handle, object: NamedObject::Other }
}

fn record(app: &str) -> ExtendedDataRecord {
    ExtendedDataRecord { application_name: app.to_string(), values: vec![] }
}

fn objects() -> Vec<ObjectEntry> {
    vec![
        dict(100, 5, &[("AcDbContextDataManager", 101), ("ACAD_XREC_ROUNDTRIP", 110)]),
        dict(101, 100, &[("acdb_annotationscales", 102)]),
        dict(102, 101, &[("1:1", 103), ("1:50", 104)]),
        other(103),
        other(104),
        other(110),
        other(111),
    ]
}

#[test]
fn clearing_drops_the_context_subtree() {
    let mut objs = objects();
    let mut xd = ExtendedData { records: vec![record(ANNO_PO_APP), record("KEEP"), record(ANNOTATIVE_DATA_APP)] };
    clear_annotation_context(&mut objs, Some(100), &mut xd);
    let handles: Vec<u64> = objs.iter().map(|o| o.handle).collect();
    assert_eq!(handles, vec![100, 110, 111]);
    match &objs[0].object {
        NamedObject::Dictionary { owner, entries } => {
            assert_eq!(*owner, 5);
            assert_eq!(entries, &vec![("ACAD_XREC_ROUNDTRIP".to_string(), 110)]);
        }
        NamedObject::Other => panic!("the extension dictionary must stay"),
    }
    let apps: Vec<&str> = xd.records.iter().map(|r| r.application_name.as_str()).collect();
    assert_eq!(apps, vec!["KEEP"]);
}

#[test]
fn without_an_extension_dictionary_only_xdata_is_cleared() {
    let mut objs = objects();
    let mut xd = ExtendedData { records: vec![record(ANNOTATIVE_DATA_APP)] };
    clear_annotation_context(&mut objs, None, &mut xd);
    assert_eq!(objs.len(), 7);
    assert!(xd.records.is_empty());
}

#[test]
fn a_manager_without_scales_is_still_removed() {
    let mut objs = vec![dict(1, 0, &[("ACDBCONTEXTDATAMANAGER", 2)]), dict(2, 1, &[]), other(3)];
    let mut xd = ExtendedData { records: vec![] };
    clear_annotation_context(&mut objs, Some(1), &mut xd);
    let handles: Vec<u64> = objs.iter().map(|o| o.handle).collect();
    assert_eq!(handles, vec![1, 3]);
    // The manager entry is dropped by its exact name only.
    match &objs[0].object {
        NamedObject::Dictionary { entries, .. } => assert_eq!(entries.len(), 1),
        NamedObject::Other => panic!(),
    }
}

#[test]
fn own_flags_are_set_on_mtext_and_multileaders_only() {
    let mut k = AnnoKind::MText { annotative: true, style: "S".to_string() };
    assert!(set_own_flag(&mut k, false));
    assert!(matches!(k, AnnoKind::MText { annotative: false, .. }));
    let mut k = AnnoKind::MultiLeader { enabled: false, style: Some(7) };
    assert!(set_own_flag(&mut k, true));
    assert!(matches!(k, AnnoKind::MultiLeader { enabled: true, style: Some(7) }));
    let mut k = AnnoKind::Text { style: "S".to_string() };
    assert!(!set_own_flag(&mut k, true));
}

#[test]
fn root_dictionary_is_found_adopted_or_created() {
    let objs = vec![dict(1, 0, &[("A", 9)]), dict(2, 0, &[("A", 9), ("B", 8)]), dict(3, 0, &[("C", 7), ("D", 6)]), other(4)];
    assert_eq!(root_named_dict(1, &objs), RootChoice::Existing(1));
    // Dangling pointers: the richest top-level dictionary, the last of equals.
    assert_eq!(root_named_dict(4, &objs), RootChoice::Adopt(3));
    assert_eq!(root_named_dict(99, &objs), RootChoice::Adopt(3));
    let owned = vec![dict(1, 5, &[]), other(2)];
    assert_eq!(root_named_dict(2, &owned), RootChoice::Create);
    assert_eq!(root_named_dict(1, &owned), RootChoice::Existing(1));
}

#[test]
fn resolving_the_root_twice_finds_the_same_dictionary() {
    // Existing root: nothing changes.
    let mut objs = vec![dict(1, 0, &[("A", 9)]), other(4)];
    let mut header = 1;
    assert_eq!(resolve_root_named_dict(&mut header, &mut objs, 50), 1);
    assert_eq!((header, objs.len()), (1, 2));
    // Dangling pointer: the richest top-level dictionary is adopted once.
    let mut objs = vec![dict(1, 0, &[("A", 9)]), dict(3, 0, &[("C", 7), ("D", 6)]), other(4)];
    let mut header = 4;
    assert_eq!(resolve_root_named_dict(&mut header, &mut objs, 50), 3);
    assert_eq!(header, 3);
    assert_eq!(resolve_root_named_dict(&mut header, &mut objs, 51), 3);
    assert_eq!((header, objs.len()), (3, 3));
    // Nothing reachable: one fresh root is created, and only one.
    let mut objs = vec![dict(1, 5, &[]), other(2)];
    let mut header = 2;
    assert_eq!(resolve_root_named_dict(&mut header, &mut objs, 50), 50);
    assert_eq!((header, objs.len()), (50, 3));
    assert_eq!(objs[2].handle, 50);
    assert!(matches!(&objs[2].object, NamedObject::Dictionary { owner: 0, entries } if entries.is_empty()));
    assert_eq!(resolve_root_named_dict(&mut header, &mut objs, 51), 50);
    assert_eq!((header, objs.len()), (50, 3));
    assert_eq!(root_named_dict(header, &objs), RootChoice::Existing(50));
}

#[test]
fn a_created_root_replaces_the_object_under_its_handle() {
    let mut objs = vec![dict(1, 5, &[]), other(2)];
    let mut header = 7;
    assert_eq!(resolve_root_named_dict(&mut header, &mut objs, 2), 2);
    assert_eq!((header, objs.len()), (2, 2));
    assert!(matches!(&objs[1].object, NamedObject::Dictionary { owner: 0, entries } if entries.is_empty()));
    assert_eq!(resolve_root_named_dict(&mut header, &mut objs, 9), 2);
    assert_eq!((header, objs.len()), (2, 2));
}
