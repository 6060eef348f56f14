use h7cad::layout::{BlockRecord, DocEntity, DocObject, Document, ObjectKind, Scene};

const DICT: u64 = 1;

fn layout(handle: u64, name: &str, block_record: u64, tab_order: i16) -> DocObject {
    DocObject {
        handle,
        kind: ObjectKind::Layout { name: name.to_string(), block_record, tab_order },
    }
}

fn scene() -> Scene<u32> {
    let objects = vec![
        DocObject {
            handle: DICT,
            kind: ObjectKind::Dictionary {
                entries: vec![
                    ("Model".to_string(), 9),
                    ("Layout1".to_string(), 10),
                    ("Layout2".to_string(), 11),
                ],
            },
        },
        layout(9, "Model", 99, 0),
        layout(10, "Layout1", 100, 1),
        layout(11, "Layout2", 101, 2),
        DocObject { handle: 12, kind: ObjectKind::PlotSettings { page_name: "Layout1".to_string() } },
        DocObject { handle: 13, kind: ObjectKind::PlotSettings { page_name: "Layout2".to_string() } },
        DocObject { handle: 14, kind: ObjectKind::Other },
    ];
    let entities = vec![
        DocEntity { handle: 200, owner: 99 },
        DocEntity { handle: 201, owner: 100 },
        DocEntity { handle: 202, owner: 100 },
        DocEntity { handle: 203, owner: 101 },
    ];
    let block_records = vec![
        BlockRecord { handle: 99, name: "*Model_Space".to_string() },
        BlockRecord { handle: 100, name: "*Paper_Space".to_string() },
        BlockRecord { handle: 101, name: "*Paper_Space0".to_string() },
    ];
    Scene {
        document: Document { objects, entities, block_records, acad_layout_dict_handle: DICT },
        hatches: vec![200, 201],
        meshes: vec![202, 203],
        solid_models: vec![201],
        current_layout: "Layout1".to_string(),
        geometry_epoch: 5,
        preview_wires: vec![],
        interim_wire: None,
    }
}

fn layout_names(s: &Scene<u32>) -> Vec<(String, i16)> {
    s.document
        .objects
        .iter()
        .filter_map(|o| match &o.kind {
            ObjectKind::Layout { name, tab_order, .. } => Some((name.clone(), *tab_order)),
            _ => None,
        })
        .collect()
}

#[test]
fn rename_layout_renames_the_first_match() {
    let mut s = scene();
    s.rename_layout("Layout2", "Details");
    let names: Vec<String> = layout_names(&s).into_iter().map(|(n, _)| n).collect();
    assert_eq!(names, vec!["Model", "Layout1", "Details"]);
}

#[test]
fn rename_of_a_missing_layout_changes_nothing() {
    let mut s = scene();
    s.rename_layout("Nope", "Details");
    assert_eq!(layout_names(&s), layout_names(&scene()));
}

#[test]
fn rename_and_rename_back_restores() {
    let mut s = scene();
    s.rename_layout("Layout1", "Sheet A");
    s.rename_layout("Sheet A", "Layout1");
    assert_eq!(layout_names(&s), layout_names(&scene()));
}

#[test]
fn delete_layout_removes_what_it_owns() {
    let mut s = scene();
    assert!(s.delete_layout("Layout1"));
    let names: Vec<String> = layout_names(&s).into_iter().map(|(n, _)| n).collect();
    assert_eq!(names, vec!["Model", "Layout2"]);
    let ents: Vec<u64> = s.document.entities.iter().map(|e| e.handle).collect();
    assert_eq!(ents, vec![200, 203]);
    assert_eq!(s.hatches, vec![200]);
    assert_eq!(s.meshes, vec![203]);
    assert!(s.solid_models.is_empty());
    let blocks: Vec<u64> = s.document.block_records.iter().map(|b| b.handle).collect();
    assert_eq!(blocks, vec![99, 101]);
    match &s.document.objects[0].kind {
        ObjectKind::Dictionary { entries } => {
            let keys: Vec<&str> = entries.iter().map(|(k, _)| k.as_str()).collect();
            assert_eq!(keys, vec!["Model", "Layout2"]);
        }
        _ => panic!("layout dictionary expected first"),
    }
    let page_setups = s
        .document
        .objects
        .iter()
        .filter(|o| matches!(&o.kind, ObjectKind::PlotSettings { page_name } if page_name == "Layout1"))
        .count();
    assert_eq!(page_setups, 0);
    assert!(s.document.objects.iter().all(|o| o.handle != 10));
    assert_eq!(s.current_layout, "Model");
    assert_eq!(s.geometry_epoch, 6);
}

#[test]
fn delete_of_an_inactive_layout_keeps_the_active_one() {
    let mut s = scene();
    assert!(s.delete_layout("Layout2"));
    assert_eq!(s.current_layout, "Layout1");
}

#[test]
fn model_and_missing_layouts_are_not_deleted() {
    let mut s = scene();
    assert!(!s.delete_layout("Model"));
    assert!(!s.delete_layout("Ghost"));
    assert_eq!(layout_names(&s), layout_names(&scene()));
    assert_eq!(s.geometry_epoch, 5);
}

#[test]
fn geometry_epoch_wraps() {
    let mut s = scene();
    s.geometry_epoch = u64::MAX;
    assert!(s.delete_layout("Layout2"));
    assert_eq!(s.geometry_epoch, 0);
}

#[test]
fn swap_layout_order_exchanges_tab_orders() {
    let mut s = scene();
    s.swap_layout_order("Layout1", "Layout2");
    assert_eq!(
        layout_names(&s),
        vec![("Model".to_string(), 0), ("Layout1".to_string(), 2), ("Layout2".to_string(), 1)]
    );
}

#[test]
fn swapping_twice_restores_the_order() {
    let mut s = scene();
    s.swap_layout_order("Layout1", "Layout2");
    s.swap_layout_order("Layout1", "Layout2");
    assert_eq!(layout_names(&s), layout_names(&scene()));
}

#[test]
fn swap_with_a_missing_layout_changes_nothing() {
    let mut s = scene();
    s.swap_layout_order("Layout1", "Missing");
    assert_eq!(layout_names(&s), layout_names(&scene()));
}

#[test]
fn preview_wires_are_set_and_cleared() {
    let mut s = scene();
    s.set_preview_wires(vec![1, 2, 3]);
    s.set_interim_wire(9);
    assert_eq!(s.preview_wires, vec![1, 2, 3]);
    assert_eq!(s.interim_wire, Some(9));
    assert_eq!(s.geometry_epoch, 5);
    s.clear_preview_wire();
    assert!(s.preview_wires.is_empty());
    assert_eq!(s.interim_wire, None);
}
