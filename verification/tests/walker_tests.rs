use nbt_view::model::{Entry, TagValue};
use nbt_view::state::UiTable;
use nbt_view::walker::{render_tree, try_render_tree, NodeId, RegionLabel, RenderOp, ScalarValue};

fn entry(name: &str, value: TagValue) -> Entry {
    Entry { name: name.to_owned(), value }
}

fn ids_of(ops: &[RenderOp]) -> Vec<(Vec<u64>, u64)> {
    let mut ids: Vec<(Vec<u64>, u64)> = Vec::new();
    for op in ops {
        let id: Option<&NodeId> = match op {
            RenderOp::Line { id, .. } => Some(id),
            RenderOp::TextLine { id, .. } => Some(id),
            RenderOp::BeginRegion { id, .. } => Some(id),
            _ => None,
        };
        if let Some(id) = id {
            ids.push((id.path.clone(), id.seq));
        }
    }
    ids
}

fn sample_tree() -> Vec<Entry> {
    vec![
        entry("byte", TagValue::Byte(-3)),
        entry("stats", TagValue::Compound(vec![
            entry("hp", TagValue::Int(17)),
            entry("xp", TagValue::Long(99)),
        ])),
        entry("tags", TagValue::List(vec![
            TagValue::Text("alpha".to_owned()),
            TagValue::Short(7),
        ])),
        entry("blob", TagValue::ByteArray(vec![1, 2, 3])),
    ]
}

#[test]
fn traversal_is_idempotent() {
    let tree = sample_tree();
    let tbl = UiTable::new();
    let a = render_tree(&tree, &tbl);
    let b = render_tree(&tree, &tbl);
    assert_eq!(a.len(), b.len());
    assert_eq!(ids_of(&a), ids_of(&b));
}

#[test]
fn traversal_visits_every_node_once() {
    let tree = sample_tree();
    let tbl = UiTable::new();
    let ops = render_tree(&tree, &tbl);
    // 4 top-level nodes, 2 compound entries, 2 list elements, 3 array elements
    let ids = ids_of(&ops);
    assert_eq!(ids.len(), 11);
    // depth-first counters: exactly 0..=10, each handed out once
    for (i, (_path, seq)) in ids.iter().enumerate() {
        assert_eq!(*seq, i as u64);
    }
}

#[test]
fn identities_are_stable_across_tables() {
    let tree = sample_tree();
    let t1 = UiTable::new();
    let mut t2 = UiTable::new();
    t2.toggle_expanded(1);
    t2.toggle_expanded(4);
    t2.set_editor_open(0, true);
    let a = render_tree(&tree, &t1);
    let b = render_tree(&tree, &t2);
    assert_eq!(ids_of(&a), ids_of(&b));
}

#[test]
fn identities_are_unique_within_one_pass() {
    let tree = sample_tree();
    let tbl = UiTable::new();
    let ids = ids_of(&render_tree(&tree, &tbl));
    for i in 0..ids.len() {
        for j in (i + 1)..ids.len() {
            assert_ne!(ids[i], ids[j]);
        }
    }
}

#[test]
fn identities_follow_structural_paths() {
    let tree = sample_tree();
    let tbl = UiTable::new();
    let ops = render_tree(&tree, &tbl);
    // entry 1 ("stats") is a region whose children carry path [1, 0] and [1, 1]
    match &ops[1] {
        RenderOp::BeginRegion { id, .. } => {
            assert_eq!(id.path, vec![1]);
            assert_eq!(id.seq, 1);
        }
        other => panic!("expected a region, got {:?}", ids_of(&[clone_op(other)])),
    }
    match &ops[2] {
        RenderOp::Line { id, name, value } => {
            assert_eq!(id.path, vec![1, 0]);
            assert_eq!(id.seq, 2);
            assert_eq!(name.as_str(), "hp");
            assert!(matches!(value, ScalarValue::Int(17)));
        }
        _ => panic!("expected the hp line"),
    }
}

fn clone_op(op: &RenderOp) -> RenderOp {
    match op {
        RenderOp::EndRegion { id } => RenderOp::EndRegion {
            id: NodeId { path: id.path.clone(), seq: id.seq },
        },
        RenderOp::Line { id, name, value } => RenderOp::Line {
            id: NodeId { path: id.path.clone(), seq: id.seq },
            name: name.clone(),
            value: *value,
        },
        RenderOp::TextLine { id, name, text } => RenderOp::TextLine {
            id: NodeId { path: id.path.clone(), seq: id.seq },
            name: name.clone(),
            text: text.clone(),
        },
        RenderOp::EditWindow { id, name, value, buffer } => RenderOp::EditWindow {
            id: NodeId { path: id.path.clone(), seq: id.seq },
            name: name.clone(),
            value: *value,
            buffer: buffer.clone(),
        },
        RenderOp::BeginRegion { id, label, expanded } => RenderOp::BeginRegion {
            id: NodeId { path: id.path.clone(), seq: id.seq },
            label: match label {
                RegionLabel::Named(s) => RegionLabel::Named(s.clone()),
                RegionLabel::EntryCount(n) => RegionLabel::EntryCount(*n),
            },
            expanded: *expanded,
        },
    }
}

#[test]
fn empty_compound_renders_region_with_entry_count() {
    // an unnamed compound reports its entry count: zero entries, region kept
    let tree = vec![entry("", TagValue::Compound(vec![]))];
    let tbl = UiTable::new();
    let ops = render_tree(&tree, &tbl);
    assert_eq!(ops.len(), 2);
    match &ops[0] {
        RenderOp::BeginRegion { label, .. } => match label {
            RegionLabel::EntryCount(n) => assert_eq!(*n, 0),
            RegionLabel::Named(_) => panic!("an unnamed compound labels itself by entry count"),
        },
        _ => panic!("an empty compound still renders its region"),
    }
    assert!(matches!(&ops[1], RenderOp::EndRegion { .. }));
}

#[test]
fn empty_list_still_renders_region() {
    let tree = vec![entry("items", TagValue::List(vec![]))];
    let tbl = UiTable::new();
    let ops = render_tree(&tree, &tbl);
    assert_eq!(ops.len(), 2);
    match &ops[0] {
        RenderOp::BeginRegion { label, .. } => match label {
            RegionLabel::Named(s) => assert_eq!(s.as_str(), "items"),
            RegionLabel::EntryCount(_) => panic!("a named list keeps its name"),
        },
        _ => panic!("an empty list still renders its region"),
    }
    assert!(matches!(&ops[1], RenderOp::EndRegion { .. }));
}

#[test]
fn float_scenario_two_top_level_instructions() {
    // root compound {"health": Float(20.0), "items": List[]}
    let bits = 20.0f32.to_bits();
    let tree = vec![
        entry("health", TagValue::FloatBits(bits)),
        entry("items", TagValue::List(vec![])),
    ];
    let tbl = UiTable::new();
    let ops = render_tree(&tree, &tbl);
    assert_eq!(ops.len(), 3);
    match &ops[0] {
        RenderOp::Line { name, value, .. } => {
            assert_eq!(name.as_str(), "health");
            match value {
                ScalarValue::FloatBits(b) => {
                    assert_eq!(*b, bits);
                    assert_eq!(format!("{}", f32::from_bits(*b)), "20");
                }
                _ => panic!("health is a float"),
            }
        }
        _ => panic!("health renders as a scalar line"),
    }
    match &ops[1] {
        RenderOp::BeginRegion { label, .. } => match label {
            RegionLabel::Named(s) => assert_eq!(s.as_str(), "items"),
            _ => panic!("items keeps its name"),
        },
        _ => panic!("items renders as a region"),
    }
    assert!(matches!(&ops[2], RenderOp::EndRegion { .. }));
}

#[test]
fn open_editor_window_follows_its_scalar_line() {
    let tree = vec![entry("health", TagValue::FloatBits(20.0f32.to_bits()))];
    let mut tbl = UiTable::new();
    tbl.set_editor_open(0, true);
    tbl.set_buffer(0, "20.5".to_owned());
    let ops = render_tree(&tree, &tbl);
    assert_eq!(ops.len(), 2);
    assert!(matches!(&ops[0], RenderOp::Line { .. }));
    match &ops[1] {
        RenderOp::EditWindow { id, name, buffer, .. } => {
            assert_eq!(id.seq, 0);
            assert_eq!(name.as_str(), "health");
            assert_eq!(buffer.as_str(), "20.5");
        }
        _ => panic!("the open editor window follows its line"),
    }
}

#[test]
fn text_node_renders_raw_string() {
    let tree = vec![entry("note", TagValue::Text("hello there".to_owned()))];
    let tbl = UiTable::new();
    let ops = render_tree(&tree, &tbl);
    assert_eq!(ops.len(), 1);
    match &ops[0] {
        RenderOp::TextLine { text, .. } => assert_eq!(text.as_str(), "hello there"),
        _ => panic!("text renders as a raw line"),
    }
}

#[test]
fn array_elements_render_as_unnamed_lines() {
    let tree = vec![entry("xs", TagValue::IntArray(vec![5, -6]))];
    let tbl = UiTable::new();
    let ops = render_tree(&tree, &tbl);
    assert_eq!(ops.len(), 4);
    match &ops[1] {
        RenderOp::Line { id, name, value } => {
            assert_eq!(name.as_str(), "");
            assert_eq!(id.path, vec![0, 0]);
            assert_eq!(id.seq, 1);
            assert!(matches!(value, ScalarValue::Int(5)));
        }
        _ => panic!("array elements are lines"),
    }
    match &ops[2] {
        RenderOp::Line { id, value, .. } => {
            assert_eq!(id.path, vec![0, 1]);
            assert_eq!(id.seq, 2);
            assert!(matches!(value, ScalarValue::Int(-6)));
        }
        _ => panic!("array elements are lines"),
    }
}

#[test]
fn region_carries_expansion_state_from_table() {
    let tree = vec![entry("stats", TagValue::Compound(vec![entry("hp", TagValue::Int(1))]))];
    let mut tbl = UiTable::new();
    let collapsed = render_tree(&tree, &tbl);
    match &collapsed[0] {
        RenderOp::BeginRegion { expanded, .. } => assert!(!expanded),
        _ => panic!("expected region"),
    }
    tbl.toggle_expanded(0);
    let expanded_ops = render_tree(&tree, &tbl);
    match &expanded_ops[0] {
        RenderOp::BeginRegion { expanded, .. } => assert!(expanded),
        _ => panic!("expected region"),
    }
    // children are emitted either way; the shell hides collapsed ones
    assert_eq!(collapsed.len(), expanded_ops.len());
}

#[test]
fn guarded_traversal_matches_plain_traversal() {
    let tree = sample_tree();
    let tbl = UiTable::new();
    let guarded = try_render_tree(&tree, &tbl).unwrap();
    let plain = render_tree(&tree, &tbl);
    assert_eq!(guarded.len(), plain.len());
    assert_eq!(ids_of(&guarded), ids_of(&plain));
}
