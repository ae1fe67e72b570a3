use vstd::prelude::*;

use crate::model::{count_nodes, count_nodes_entries, count_nodes_list, Entry, TagValue};
use crate::state::{spec_state, Slot, UiTable};

verus! {

/// The stable identity of one visited node.
///
/// `path` is the ordered sequence of structural steps from the root to the
/// node: the index of the entry taken inside each compound, the index of the
/// element taken inside each list or array. `seq` is the visitation counter,
/// the node's position in the depth-first traversal; it never repeats within
/// one traversal and is the key under which the UI-state table is consulted.
/// Both parts are derived from structural position alone, so a rebuilt frame
/// derives the same identity for the same node.
pub struct NodeId {
    pub path: Vec<u64>,
    pub seq: u64,
}

/// Spec-level value of a [`NodeId`]; the counter is kept as a plain integer.
pub struct NodeIdV {
    pub path: Seq<u64>,
    pub seq: int,
}

impl View for NodeId {
    type V = NodeIdV;

    open spec fn view(&self) -> NodeIdV {
        NodeIdV { path: self.path@, seq: self.seq as int }
    }
}

/// The payload of one scalar line, exactly as the model stores it.
#[derive(PartialEq, Eq, Structural, Clone, Copy, Debug)]
pub enum ScalarValue {
    Byte(i8),
    Short(i16),
    Int(i32),
    Long(i64),
    FloatBits(u32),
    DoubleBits(u64),
}

/// The label of a collapsible region: the node's name, or — for an unnamed
/// compound — its direct entry count.
pub enum RegionLabel {
    Named(String),
    EntryCount(usize),
}

/// Spec-level value of a [`RegionLabel`].
pub enum RegionLabelV {
    Named(Seq<char>),
    EntryCount(int),
}

impl View for RegionLabel {
    type V = RegionLabelV;

    open spec fn view(&self) -> RegionLabelV {
        match self {
            RegionLabel::Named(s) => RegionLabelV::Named(s@),
            RegionLabel::EntryCount(n) => RegionLabelV::EntryCount(*n as int),
        }
    }
}

/// One abstract render instruction handed to the rendering shell.
///
/// A traversal emits instructions for every node of the tree, whatever the
/// expansion state; `BeginRegion` carries the region's expanded flag, and the
/// shell decides what a collapsed region shows. An empty name on a line or a
/// region means the node is unnamed and no `name:` prefix is drawn.
pub enum RenderOp {
    /// A labeled scalar line; double-clicking it may open an edit window.
    Line { id: NodeId, name: String, value: ScalarValue },
    /// A raw text line, shown without quoting.
    TextLine { id: NodeId, name: String, text: String },
    /// The edit window bound to a scalar whose table state says it is open.
    EditWindow { id: NodeId, name: String, value: ScalarValue, buffer: String },
    /// Opens a collapsible region; instructions up to the matching
    /// `EndRegion` belong to it.
    BeginRegion { id: NodeId, label: RegionLabel, expanded: bool },
    /// Closes the region opened under the same identity.
    EndRegion { id: NodeId },
}

/// Spec-level value of a [`RenderOp`].
pub enum RenderOpV {
    Line { id: NodeIdV, name: Seq<char>, value: ScalarValue },
    TextLine { id: NodeIdV, name: Seq<char>, text: Seq<char> },
    EditWindow { id: NodeIdV, name: Seq<char>, value: ScalarValue, buffer: Seq<char> },
    BeginRegion { id: NodeIdV, label: RegionLabelV, expanded: bool },
    EndRegion { id: NodeIdV },
}

impl View for RenderOp {
    type V = RenderOpV;

    open spec fn view(&self) -> RenderOpV {
        match self {
            RenderOp::Line { id, name, value } => RenderOpV::Line {
                id: id@,
                name: name@,
                value: *value,
            },
            RenderOp::TextLine { id, name, text } => RenderOpV::TextLine {
                id: id@,
                name: name@,
                text: text@,
            },
            RenderOp::EditWindow { id, name, value, buffer } => RenderOpV::EditWindow {
                id: id@,
                name: name@,
                value: *value,
                buffer: buffer@,
            },
            RenderOp::BeginRegion { id, label, expanded } => RenderOpV::BeginRegion {
                id: id@,
                label: label@,
                expanded: *expanded,
            },
            RenderOp::EndRegion { id } => RenderOpV::EndRegion { id: id@ },
        }
    }
}

/// The spec-level values of a sequence of emitted instructions.
pub open spec fn ops_view(s: Seq<RenderOp>) -> Seq<RenderOpV> {
    s.map_values(|op: RenderOp| op@)
}

/// The instructions one scalar node emits: its line, then — when its table
/// state holds an open edit window — that window.
pub open spec fn spec_scalar_ops(
    name: Seq<char>,
    sv: ScalarValue,
    path: Seq<u64>,
    c: int,
    tbl: Seq<Slot>,
) -> Seq<RenderOpV> {
    let id = NodeIdV { path, seq: c };
    let st = spec_state(tbl, c as u64);
    let line = seq![RenderOpV::Line { id, name, value: sv }];
    if st.editor_open {
        line.push(RenderOpV::EditWindow { id, name, value: sv, buffer: st.buffer })
    } else {
        line
    }
}

/// The instructions one array node emits: a named region holding one unnamed
/// line per element, in stored order.
pub open spec fn spec_array_ops(
    name: Seq<char>,
    elems: Seq<ScalarValue>,
    path: Seq<u64>,
    c: int,
    tbl: Seq<Slot>,
) -> Seq<RenderOpV> {
    let id = NodeIdV { path, seq: c };
    let begin = RenderOpV::BeginRegion {
        id,
        label: RegionLabelV::Named(name),
        expanded: spec_state(tbl, c as u64).expanded,
    };
    let lines = Seq::new(
        elems.len(),
        |i: int| RenderOpV::Line {
            id: NodeIdV { path: path.push(i as u64), seq: c + 1 + i },
            name: Seq::empty(),
            value: elems[i],
        },
    );
    seq![begin] + lines + seq![RenderOpV::EndRegion { id }]
}

/// The depth-first instruction sequence of one node and its descendants.
///
/// `name` is the name the node carries in its parent compound (empty for an
/// unnamed node), `path` its structural path, `c` the visitation counter it
/// is assigned, and `tbl` the records of the UI-state table. Node `c`'s
/// children are numbered depth-first from `c + 1` on.
pub open spec fn spec_render_value(
    name: Seq<char>,
    v: TagValue,
    path: Seq<u64>,
    c: int,
    tbl: Seq<Slot>,
) -> Seq<RenderOpV>
    decreases v,
{
    match v {
        TagValue::Byte(n) => spec_scalar_ops(name, ScalarValue::Byte(n), path, c, tbl),
        TagValue::Short(n) => spec_scalar_ops(name, ScalarValue::Short(n), path, c, tbl),
        TagValue::Int(n) => spec_scalar_ops(name, ScalarValue::Int(n), path, c, tbl),
        TagValue::Long(n) => spec_scalar_ops(name, ScalarValue::Long(n), path, c, tbl),
        TagValue::FloatBits(b) => spec_scalar_ops(name, ScalarValue::FloatBits(b), path, c, tbl),
        TagValue::DoubleBits(b) => spec_scalar_ops(name, ScalarValue::DoubleBits(b), path, c, tbl),
        TagValue::Text(s) => seq![
            RenderOpV::TextLine { id: NodeIdV { path, seq: c }, name, text: s@ },
        ],
        TagValue::ByteArray(a) => spec_array_ops(
            name,
            a@.map_values(|x: i8| ScalarValue::Byte(x)),
            path,
            c,
            tbl,
        ),
        TagValue::IntArray(a) => spec_array_ops(
            name,
            a@.map_values(|x: i32| ScalarValue::Int(x)),
            path,
            c,
            tbl,
        ),
        TagValue::LongArray(a) => spec_array_ops(
            name,
            a@.map_values(|x: i64| ScalarValue::Long(x)),
            path,
            c,
            tbl,
        ),
        TagValue::List(items) => {
            let id = NodeIdV { path, seq: c };
            let begin = RenderOpV::BeginRegion {
                id,
                label: RegionLabelV::Named(name),
                expanded: spec_state(tbl, c as u64).expanded,
            };
            seq![begin] + spec_render_items(items@, path, 0, c + 1, tbl) + seq![
                RenderOpV::EndRegion { id },
            ]
        },
        TagValue::Compound(entries) => {
            let id = NodeIdV { path, seq: c };
            let label = if name.len() == 0 {
                RegionLabelV::EntryCount(entries@.len() as int)
            } else {
                RegionLabelV::Named(name)
            };
            let begin = RenderOpV::BeginRegion {
                id,
                label,
                expanded: spec_state(tbl, c as u64).expanded,
            };
            seq![begin] + spec_render_entries(entries@, path, 0, c + 1, tbl) + seq![
                RenderOpV::EndRegion { id },
            ]
        },
    }
}

/// The instructions of a list's elements from index `j` on, each an unnamed
/// child whose path step is its index.
pub open spec fn spec_render_items(
    items: Seq<TagValue>,
    path: Seq<u64>,
    j: int,
    c: int,
    tbl: Seq<Slot>,
) -> Seq<RenderOpV>
    decreases items, items.len() - j,
{
    if j < 0 || j >= items.len() {
        Seq::empty()
    } else {
        spec_render_value(Seq::empty(), items[j], path.push(j as u64), c, tbl)
            + spec_render_items(items, path, j + 1, c + count_nodes(items[j]), tbl)
    }
}

/// The instructions of a compound's entries from index `j` on, each a named
/// child whose path step is its position, in insertion order.
pub open spec fn spec_render_entries(
    entries: Seq<Entry>,
    path: Seq<u64>,
    j: int,
    c: int,
    tbl: Seq<Slot>,
) -> Seq<RenderOpV>
    decreases entries, entries.len() - j,
{
    if j < 0 || j >= entries.len() {
        Seq::empty()
    } else {
        spec_render_value(entries[j].name@, entries[j].value, path.push(j as u64), c, tbl)
            + spec_render_entries(entries, path, j + 1, c + count_nodes(entries[j].value), tbl)
    }
}

/// The full instruction sequence of one frame over a document's root
/// entries: the root compound itself is not wrapped in a region, its entries
/// stand at top level, numbered from zero.
pub open spec fn spec_render_tree(entries: Seq<Entry>, tbl: Seq<Slot>) -> Seq<RenderOpV> {
    spec_render_entries(entries, Seq::empty(), 0, 0, tbl)
}

/// The identities of the instructions that introduce a node, in emission
/// order. `EditWindow` and `EndRegion` reuse the identity of the node that
/// introduced them, so they carry no fresh identity and are skipped.
pub open spec fn op_ids(s: Seq<RenderOpV>) -> Seq<NodeIdV>
    decreases s.len(),
{
    if s.len() == 0 {
        Seq::empty()
    } else {
        let rest = op_ids(s.drop_first());
        match s[0] {
            RenderOpV::Line { id, .. } => seq![id] + rest,
            RenderOpV::TextLine { id, .. } => seq![id] + rest,
            RenderOpV::BeginRegion { id, .. } => seq![id] + rest,
            _ => rest,
        }
    }
}

/// The identity sequence a traversal of `v` hands out, as a function of the
/// tree's structure alone: neither the node's display name nor the UI-state
/// table takes part.
pub open spec fn spec_ids_value(v: TagValue, path: Seq<u64>, c: int) -> Seq<NodeIdV>
    decreases v,
{
    let own = NodeIdV { path, seq: c };
    match v {
        TagValue::ByteArray(a) => seq![own] + spec_elem_ids(a@.len() as int, path, c),
        TagValue::IntArray(a) => seq![own] + spec_elem_ids(a@.len() as int, path, c),
        TagValue::LongArray(a) => seq![own] + spec_elem_ids(a@.len() as int, path, c),
        TagValue::List(items) => seq![own] + spec_ids_items(items@, path, 0, c + 1),
        TagValue::Compound(entries) => seq![own] + spec_ids_entries(entries@, path, 0, c + 1),
        _ => seq![own],
    }
}

/// The identities of an array's element lines.
pub open spec fn spec_elem_ids(n: int, path: Seq<u64>, c: int) -> Seq<NodeIdV> {
    Seq::new(n as nat, |i: int| NodeIdV { path: path.push(i as u64), seq: c + 1 + i })
}

/// The identities handed out inside a list's elements from index `j` on.
pub open spec fn spec_ids_items(items: Seq<TagValue>, path: Seq<u64>, j: int, c: int) -> Seq<
    NodeIdV,
>
    decreases items, items.len() - j,
{
    if j < 0 || j >= items.len() {
        Seq::empty()
    } else {
        spec_ids_value(items[j], path.push(j as u64), c) + spec_ids_items(
            items,
            path,
            j + 1,
            c + count_nodes(items[j]),
        )
    }
}

/// The identities handed out inside a compound's entries from index `j` on.
pub open spec fn spec_ids_entries(entries: Seq<Entry>, path: Seq<u64>, j: int, c: int) -> Seq<
    NodeIdV,
>
    decreases entries, entries.len() - j,
{
    if j < 0 || j >= entries.len() {
        Seq::empty()
    } else {
        spec_ids_value(entries[j].value, path.push(j as u64), c) + spec_ids_entries(
            entries,
            path,
            j + 1,
            c + count_nodes(entries[j].value),
        )
    }
}

proof fn lemma_op_ids_one(op: RenderOpV)
    ensures
        op matches RenderOpV::Line { id, .. } ==> op_ids(seq![op]) == seq![id],
        op matches RenderOpV::TextLine { id, .. } ==> op_ids(seq![op]) == seq![id],
        op matches RenderOpV::BeginRegion { id, .. } ==> op_ids(seq![op]) == seq![id],
        op matches RenderOpV::EditWindow { .. } ==> op_ids(seq![op]) == Seq::<NodeIdV>::empty(),
        op matches RenderOpV::EndRegion { .. } ==> op_ids(seq![op]) == Seq::<NodeIdV>::empty(),
{
    assert(seq![op].len() == 1);
    assert(seq![op][0] == op);
    assert(seq![op].drop_first() =~= Seq::<RenderOpV>::empty());
    assert(op_ids(seq![op].drop_first()) == Seq::<NodeIdV>::empty());
    match op {
        RenderOpV::Line { id, .. } => {
            assert(op_ids(seq![op]) == seq![id] + op_ids(seq![op].drop_first()));
            assert(seq![id] + Seq::<NodeIdV>::empty() =~= seq![id]);
        },
        RenderOpV::TextLine { id, .. } => {
            assert(op_ids(seq![op]) == seq![id] + op_ids(seq![op].drop_first()));
            assert(seq![id] + Seq::<NodeIdV>::empty() =~= seq![id]);
        },
        RenderOpV::BeginRegion { id, .. } => {
            assert(op_ids(seq![op]) == seq![id] + op_ids(seq![op].drop_first()));
            assert(seq![id] + Seq::<NodeIdV>::empty() =~= seq![id]);
        },
        RenderOpV::EditWindow { .. } => {
            assert(op_ids(seq![op]) == op_ids(seq![op].drop_first()));
        },
        RenderOpV::EndRegion { .. } => {
            assert(op_ids(seq![op]) == op_ids(seq![op].drop_first()));
        },
    }
}

proof fn lemma_op_ids_concat(a: Seq<RenderOpV>, b: Seq<RenderOpV>)
    ensures
        op_ids(a + b) == op_ids(a) + op_ids(b),
    decreases a.len(),
{
    if a.len() == 0 {
        assert(a + b =~= b);
        assert(op_ids(a) + op_ids(b) =~= op_ids(b));
    } else {
        lemma_op_ids_concat(a.drop_first(), b);
        assert((a + b).drop_first() =~= a.drop_first() + b);
        assert((a + b)[0] == a[0]);
        let x = op_ids(a.drop_first());
        let y = op_ids(b);
        match a[0] {
            RenderOpV::Line { id, .. } => {
                assert(seq![id] + (x + y) =~= (seq![id] + x) + y);
            },
            RenderOpV::TextLine { id, .. } => {
                assert(seq![id] + (x + y) =~= (seq![id] + x) + y);
            },
            RenderOpV::BeginRegion { id, .. } => {
                assert(seq![id] + (x + y) =~= (seq![id] + x) + y);
            },
            _ => {},
        }
    }
}

proof fn lemma_op_ids_lines(s: Seq<RenderOpV>, ids: Seq<NodeIdV>)
    requires
        s.len() == ids.len(),
        forall|i: int|
            0 <= i < s.len() ==> ((#[trigger] s[i]) matches RenderOpV::Line { id, .. } && id
                == ids[i]),
    ensures
        op_ids(s) == ids,
    decreases s.len(),
{
    if s.len() == 0 {
        assert(op_ids(s) =~= ids);
    } else {
        assert forall|i: int| 0 <= i < s.drop_first().len() implies ((#[trigger] s.drop_first()[i])
            matches RenderOpV::Line { id, .. } && id == ids.drop_first()[i]) by {
            assert(s.drop_first()[i] == s[i + 1]);
            assert(ids.drop_first()[i] == ids[i + 1]);
        }
        lemma_op_ids_lines(s.drop_first(), ids.drop_first());
        assert(s[0] matches RenderOpV::Line { id, .. } && id == ids[0]);
        assert(seq![ids[0]] + ids.drop_first() =~= ids);
    }
}

proof fn lemma_scalar_ops_ids(
    name: Seq<char>,
    sv: ScalarValue,
    path: Seq<u64>,
    c: int,
    tbl: Seq<Slot>,
)
    ensures
        op_ids(spec_scalar_ops(name, sv, path, c, tbl)) == seq![NodeIdV { path, seq: c }],
{
    let id = NodeIdV { path, seq: c };
    let st = spec_state(tbl, c as u64);
    let line = RenderOpV::Line { id, name, value: sv };
    lemma_op_ids_one(line);
    if st.editor_open {
        let win = RenderOpV::EditWindow { id, name, value: sv, buffer: st.buffer };
        assert(spec_scalar_ops(name, sv, path, c, tbl) =~= seq![line] + seq![win]);
        lemma_op_ids_concat(seq![line], seq![win]);
        lemma_op_ids_one(win);
        assert(seq![id] + Seq::<NodeIdV>::empty() =~= seq![id]);
    }
}

proof fn lemma_array_ops_ids(
    name: Seq<char>,
    elems: Seq<ScalarValue>,
    path: Seq<u64>,
    c: int,
    tbl: Seq<Slot>,
)
    ensures
        op_ids(spec_array_ops(name, elems, path, c, tbl)) == seq![NodeIdV { path, seq: c }]
            + spec_elem_ids(elems.len() as int, path, c),
{
    let id = NodeIdV { path, seq: c };
    let begin = RenderOpV::BeginRegion {
        id,
        label: RegionLabelV::Named(name),
        expanded: spec_state(tbl, c as u64).expanded,
    };
    let lines = Seq::new(
        elems.len(),
        |i: int| RenderOpV::Line {
            id: NodeIdV { path: path.push(i as u64), seq: c + 1 + i },
            name: Seq::empty(),
            value: elems[i],
        },
    );
    let end = RenderOpV::EndRegion { id };
    let lids = spec_elem_ids(elems.len() as int, path, c);
    lemma_op_ids_lines(lines, lids);
    lemma_op_ids_concat(seq![begin], lines);
    lemma_op_ids_concat(seq![begin] + lines, seq![end]);
    lemma_op_ids_one(begin);
    lemma_op_ids_one(end);
    assert((seq![id] + lids) + Seq::<NodeIdV>::empty() =~= seq![id] + lids);
}

/// The identities a traversal emits are a function of the tree's structure
/// alone: the node's name and the whole UI-state table drop out.
pub proof fn lemma_render_value_ids(
    name: Seq<char>,
    v: TagValue,
    path: Seq<u64>,
    c: int,
    tbl: Seq<Slot>,
)
    ensures
        op_ids(spec_render_value(name, v, path, c, tbl)) == spec_ids_value(v, path, c),
    decreases v, 0int,
{
    let own = NodeIdV { path, seq: c };
    match v {
        TagValue::Byte(n) => {
            lemma_scalar_ops_ids(name, ScalarValue::Byte(n), path, c, tbl);
        },
        TagValue::Short(n) => {
            lemma_scalar_ops_ids(name, ScalarValue::Short(n), path, c, tbl);
        },
        TagValue::Int(n) => {
            lemma_scalar_ops_ids(name, ScalarValue::Int(n), path, c, tbl);
        },
        TagValue::Long(n) => {
            lemma_scalar_ops_ids(name, ScalarValue::Long(n), path, c, tbl);
        },
        TagValue::FloatBits(b) => {
            lemma_scalar_ops_ids(name, ScalarValue::FloatBits(b), path, c, tbl);
        },
        TagValue::DoubleBits(b) => {
            lemma_scalar_ops_ids(name, ScalarValue::DoubleBits(b), path, c, tbl);
        },
        TagValue::Text(s) => {
            let line = RenderOpV::TextLine { id: own, name, text: s@ };
            lemma_op_ids_one(line);
        },
        TagValue::ByteArray(a) => {
            lemma_array_ops_ids(name, a@.map_values(|x: i8| ScalarValue::Byte(x)), path, c, tbl);
        },
        TagValue::IntArray(a) => {
            lemma_array_ops_ids(name, a@.map_values(|x: i32| ScalarValue::Int(x)), path, c, tbl);
        },
        TagValue::LongArray(a) => {
            lemma_array_ops_ids(name, a@.map_values(|x: i64| ScalarValue::Long(x)), path, c, tbl);
        },
        TagValue::List(items) => {
            let begin = RenderOpV::BeginRegion {
                id: own,
                label: RegionLabelV::Named(name),
                expanded: spec_state(tbl, c as u64).expanded,
            };
            let end = RenderOpV::EndRegion { id: own };
            let inner = spec_render_items(items@, path, 0, c + 1, tbl);
            lemma_render_items_ids(items@, path, 0, c + 1, tbl);
            lemma_op_ids_concat(seq![begin], inner);
            lemma_op_ids_concat(seq![begin] + inner, seq![end]);
            lemma_op_ids_one(begin);
            lemma_op_ids_one(end);
            assert((seq![own] + op_ids(inner)) + Seq::<NodeIdV>::empty() =~= seq![own] + op_ids(
                inner,
            ));
        },
        TagValue::Compound(entries) => {
            let label = if name.len() == 0 {
                RegionLabelV::EntryCount(entries@.len() as int)
            } else {
                RegionLabelV::Named(name)
            };
            let begin = RenderOpV::BeginRegion {
                id: own,
                label,
                expanded: spec_state(tbl, c as u64).expanded,
            };
            let end = RenderOpV::EndRegion { id: own };
            let inner = spec_render_entries(entries@, path, 0, c + 1, tbl);
            lemma_render_entries_ids(entries@, path, 0, c + 1, tbl);
            lemma_op_ids_concat(seq![begin], inner);
            lemma_op_ids_concat(seq![begin] + inner, seq![end]);
            lemma_op_ids_one(begin);
            lemma_op_ids_one(end);
            assert((seq![own] + op_ids(inner)) + Seq::<NodeIdV>::empty() =~= seq![own] + op_ids(
                inner,
            ));
        },
    }
}

proof fn lemma_render_items_ids(items: Seq<TagValue>, path: Seq<u64>, j: int, c: int, tbl: Seq<Slot>)
    ensures
        op_ids(spec_render_items(items, path, j, c, tbl)) == spec_ids_items(items, path, j, c),
    decreases items, items.len() - j,
{
    if j < 0 || j >= items.len() {
        assert(op_ids(Seq::<RenderOpV>::empty()) =~= Seq::<NodeIdV>::empty());
    } else {
        lemma_render_value_ids(Seq::empty(), items[j], path.push(j as u64), c, tbl);
        lemma_render_items_ids(items, path, j + 1, c + count_nodes(items[j]), tbl);
        lemma_op_ids_concat(
            spec_render_value(Seq::empty(), items[j], path.push(j as u64), c, tbl),
            spec_render_items(items, path, j + 1, c + count_nodes(items[j]), tbl),
        );
    }
}

proof fn lemma_render_entries_ids(
    entries: Seq<Entry>,
    path: Seq<u64>,
    j: int,
    c: int,
    tbl: Seq<Slot>,
)
    ensures
        op_ids(spec_render_entries(entries, path, j, c, tbl)) == spec_ids_entries(
            entries,
            path,
            j,
            c,
        ),
    decreases entries, entries.len() - j,
{
    if j < 0 || j >= entries.len() {
        assert(op_ids(Seq::<RenderOpV>::empty()) =~= Seq::<NodeIdV>::empty());
    } else {
        lemma_render_value_ids(entries[j].name@, entries[j].value, path.push(j as u64), c, tbl);
        lemma_render_entries_ids(entries, path, j + 1, c + count_nodes(entries[j].value), tbl);
        lemma_op_ids_concat(
            spec_render_value(entries[j].name@, entries[j].value, path.push(j as u64), c, tbl),
            spec_render_entries(entries, path, j + 1, c + count_nodes(entries[j].value), tbl),
        );
    }
}

/// The counters a subtree's identities carry form exactly the interval from
/// `c`, one per node: the traversal visits every node exactly once.
pub proof fn lemma_ids_value_interval(v: TagValue, path: Seq<u64>, c: int)
    ensures
        spec_ids_value(v, path, c).len() == count_nodes(v),
        forall|i: int|
            0 <= i < spec_ids_value(v, path, c).len() ==> (#[trigger] spec_ids_value(
                v,
                path,
                c,
            )[i]).seq == c + i,
    decreases v, 0int,
{
    match v {
        TagValue::List(items) => {
            assert(items@.skip(0) =~= items@);
            lemma_ids_items_interval(items@, path, 0, c + 1);
        },
        TagValue::Compound(entries) => {
            assert(entries@.skip(0) =~= entries@);
            lemma_ids_entries_interval(entries@, path, 0, c + 1);
        },
        _ => {},
    }
}

proof fn lemma_ids_items_interval(items: Seq<TagValue>, path: Seq<u64>, j: int, c: int)
    requires
        0 <= j <= items.len(),
    ensures
        spec_ids_items(items, path, j, c).len() == count_nodes_list(items.skip(j)),
        forall|i: int|
            0 <= i < spec_ids_items(items, path, j, c).len() ==> (#[trigger] spec_ids_items(
                items,
                path,
                j,
                c,
            )[i]).seq == c + i,
    decreases items, items.len() - j,
{
    if j >= items.len() {
        assert(items.skip(j).len() == 0);
    } else {
        lemma_ids_value_interval(items[j], path.push(j as u64), c);
        lemma_ids_items_interval(items, path, j + 1, c + count_nodes(items[j]));
        lemma_count_list_skip(items, j);
    }
}

proof fn lemma_ids_entries_interval(entries: Seq<Entry>, path: Seq<u64>, j: int, c: int)
    requires
        0 <= j <= entries.len(),
    ensures
        spec_ids_entries(entries, path, j, c).len() == count_nodes_entries(entries.skip(j)),
        forall|i: int|
            0 <= i < spec_ids_entries(entries, path, j, c).len() ==> (#[trigger] spec_ids_entries(
                entries,
                path,
                j,
                c,
            )[i]).seq == c + i,
    decreases entries, entries.len() - j,
{
    if j >= entries.len() {
        assert(entries.skip(j).len() == 0);
    } else {
        lemma_ids_value_interval(entries[j].value, path.push(j as u64), c);
        lemma_ids_entries_interval(entries, path, j + 1, c + count_nodes(entries[j].value));
        lemma_count_entries_skip(entries, j);
    }
}

/// Identity stability: for a fixed tree, two traversals assign each node the
/// same identity whatever either traversal's UI-state table holds.
pub proof fn lemma_identity_stable(entries: Seq<Entry>, t1: Seq<Slot>, t2: Seq<Slot>)
    ensures
        op_ids(spec_render_tree(entries, t1)) == op_ids(spec_render_tree(entries, t2)),
{
    lemma_render_entries_ids(entries, Seq::empty(), 0, 0, t1);
    lemma_render_entries_ids(entries, Seq::empty(), 0, 0, t2);
}

/// Identity uniqueness: within one traversal, no two distinct visited nodes
/// receive the same identity.
pub proof fn lemma_identity_unique(entries: Seq<Entry>, tbl: Seq<Slot>)
    ensures
        forall|i: int, j: int|
            0 <= i < j < op_ids(spec_render_tree(entries, tbl)).len() ==> op_ids(
                spec_render_tree(entries, tbl),
            )[i] != op_ids(spec_render_tree(entries, tbl))[j],
{
    lemma_render_entries_ids(entries, Seq::empty(), 0, 0, tbl);
    assert(entries.skip(0) =~= entries);
    lemma_ids_entries_interval(entries, Seq::empty(), 0, 0);
}

/// Completeness: one traversal hands out exactly one identity per node of
/// the tree — every compound entry, list element and array element included
/// — and the visitation counters run through the whole depth-first order
/// without a gap.
pub proof fn lemma_traversal_complete(entries: Seq<Entry>, tbl: Seq<Slot>)
    ensures
        op_ids(spec_render_tree(entries, tbl)).len() == count_nodes_entries(entries),
        forall|i: int|
            0 <= i < op_ids(spec_render_tree(entries, tbl)).len() ==> (#[trigger] op_ids(
                spec_render_tree(entries, tbl),
            )[i]).seq == i,
{
    lemma_render_entries_ids(entries, Seq::empty(), 0, 0, tbl);
    assert(entries.skip(0) =~= entries);
    lemma_ids_entries_interval(entries, Seq::empty(), 0, 0);
}

proof fn lemma_ops_view_push(s: Seq<RenderOp>, op: RenderOp)
    ensures
        ops_view(s.push(op)) == ops_view(s).push(op@),
{
    assert(ops_view(s.push(op)) =~= ops_view(s).push(op@));
}

/// Splitting a list's tail at `j` splits its node count at `j`.
proof fn lemma_count_list_skip(items: Seq<TagValue>, j: int)
    requires
        0 <= j < items.len(),
    ensures
        count_nodes_list(items.skip(j)) == count_nodes(items[j]) + count_nodes_list(
            items.skip(j + 1),
        ),
{
    assert(items.skip(j).len() == items.len() - j);
    assert(items.skip(j)[0] == items[j]);
    assert(items.skip(j).drop_first() =~= items.skip(j + 1));
}

/// Splitting a compound's tail at `j` splits its node count at `j`.
proof fn lemma_count_entries_skip(entries: Seq<Entry>, j: int)
    requires
        0 <= j < entries.len(),
    ensures
        count_nodes_entries(entries.skip(j)) == count_nodes(entries[j].value)
            + count_nodes_entries(entries.skip(j + 1)),
{
    assert(entries.skip(j).len() == entries.len() - j);
    assert(entries.skip(j)[0] == entries[j]);
    assert(entries.skip(j).drop_first() =~= entries.skip(j + 1));
}

/// A fresh copy of a path vector.
fn copy_path(p: &Vec<u64>) -> (r: Vec<u64>)
    ensures
        r@ == p@,
{
    let mut r: Vec<u64> = Vec::new();
    let mut i: usize = 0;
    while i < p.len()
        invariant
            i <= p@.len(),
            r@ == p@.take(i as int),
        decreases p@.len() - i,
    {
        r.push(p[i]);
        proof {
            assert(p@.take(i as int).push(p@[i as int]) =~= p@.take(i + 1));
        }
        i = i + 1;
    }
    proof {
        assert(p@.take(p@.len() as int) =~= p@);
    }
    r
}

/// The path of the child reached from `p` by `step`.
fn child_path(p: &Vec<u64>, step: u64) -> (r: Vec<u64>)
    ensures
        r@ == p@.push(step),
{
    let mut r = copy_path(p);
    r.push(step);
    r
}

/// Emits the line of one scalar node and, when its table state holds an open
/// edit window, that window.
fn emit_scalar(
    name: &str,
    sv: ScalarValue,
    path: &Vec<u64>,
    c: u64,
    tbl: &UiTable,
    out: &mut Vec<RenderOp>,
)
    ensures
        ops_view(final(out)@) == ops_view(old(out)@) + spec_scalar_ops(
            name@,
            sv,
            path@,
            c as int,
            tbl.slots@,
        ),
{
    let st = tbl.get(c);
    let id = NodeId { path: copy_path(path), seq: c };
    let line = RenderOp::Line { id, name: name.to_owned(), value: sv };
    proof {
        lemma_ops_view_push(out@, line);
    }
    out.push(line);
    if st.editor_open {
        let id2 = NodeId { path: copy_path(path), seq: c };
        let win = RenderOp::EditWindow {
            id: id2,
            name: name.to_owned(),
            value: sv,
            buffer: st.buffer,
        };
        proof {
            lemma_ops_view_push(out@, win);
        }
        out.push(win);
    }
    proof {
        assert(ops_view(out@) =~= ops_view(old(out)@) + spec_scalar_ops(
            name@,
            sv,
            path@,
            c as int,
            tbl.slots@,
        ));
    }
}

/// Emits the region of one array node and one unnamed line per element.
fn emit_array(
    name: &str,
    elems: &Vec<ScalarValue>,
    path: &Vec<u64>,
    c: u64,
    tbl: &UiTable,
    out: &mut Vec<RenderOp>,
)
    requires
        c + 1 + elems@.len() <= u64::MAX,
    ensures
        ops_view(final(out)@) == ops_view(old(out)@) + spec_array_ops(
            name@,
            elems@,
            path@,
            c as int,
            tbl.slots@,
        ),
{
    let ghost lines = Seq::new(
        elems@.len(),
        |i: int| RenderOpV::Line {
            id: NodeIdV { path: path@.push(i as u64), seq: c + 1 + i },
            name: Seq::empty(),
            value: elems@[i],
        },
    );
    let st = tbl.get(c);
    let begin = RenderOp::BeginRegion {
        id: NodeId { path: copy_path(path), seq: c },
        label: RegionLabel::Named(name.to_owned()),
        expanded: st.expanded,
    };
    let ghost beginv = begin@;
    proof {
        lemma_ops_view_push(out@, begin);
    }
    out.push(begin);
    let mut i: usize = 0;
    while i < elems.len()
        invariant
            i <= elems@.len(),
            c + 1 + elems@.len() <= u64::MAX,
            lines == Seq::new(
                elems@.len(),
                |k: int| RenderOpV::Line {
                    id: NodeIdV { path: path@.push(k as u64), seq: c + 1 + k },
                    name: Seq::empty(),
                    value: elems@[k],
                },
            ),
            ops_view(out@) == ops_view(old(out)@).push(beginv) + lines.take(i as int),
        decreases elems@.len() - i,
    {
        let op = RenderOp::Line {
            id: NodeId { path: child_path(path, i as u64), seq: c + 1 + (i as u64) },
            name: String::new(),
            value: elems[i],
        };
        proof {
            lemma_ops_view_push(out@, op);
            assert(op@ == lines[i as int]);
            assert(lines.take(i as int).push(lines[i as int]) =~= lines.take(i + 1));
            assert((ops_view(old(out)@).push(beginv) + lines.take(i as int)).push(lines[i as int])
                =~= ops_view(old(out)@).push(beginv) + lines.take(i + 1));
        }
        out.push(op);
        i = i + 1;
    }
    let end = RenderOp::EndRegion { id: NodeId { path: copy_path(path), seq: c } };
    proof {
        lemma_ops_view_push(out@, end);
    }
    out.push(end);
    proof {
        assert(lines.take(elems@.len() as int) =~= lines);
        assert(ops_view(out@) =~= ops_view(old(out)@) + spec_array_ops(
            name@,
            elems@,
            path@,
            c as int,
            tbl.slots@,
        ));
    }
}

/// The elements of a byte array as scalar line payloads.
fn to_scalars_i8(a: &Vec<i8>) -> (r: Vec<ScalarValue>)
    ensures
        r@ == a@.map_values(|x: i8| ScalarValue::Byte(x)),
{
    let mut r: Vec<ScalarValue> = Vec::new();
    let mut i: usize = 0;
    while i < a.len()
        invariant
            i <= a@.len(),
            r@ =~= a@.take(i as int).map_values(|x: i8| ScalarValue::Byte(x)),
        decreases a@.len() - i,
    {
        r.push(ScalarValue::Byte(a[i]));
        proof {
            assert(a@.take(i + 1).map_values(|x: i8| ScalarValue::Byte(x)) =~= a@.take(
                i as int,
            ).map_values(|x: i8| ScalarValue::Byte(x)).push(ScalarValue::Byte(a@[i as int])));
        }
        i = i + 1;
    }
    proof {
        assert(a@.take(a@.len() as int) =~= a@);
    }
    r
}

/// The elements of an int array as scalar line payloads.
fn to_scalars_i32(a: &Vec<i32>) -> (r: Vec<ScalarValue>)
    ensures
        r@ == a@.map_values(|x: i32| ScalarValue::Int(x)),
{
    let mut r: Vec<ScalarValue> = Vec::new();
    let mut i: usize = 0;
    while i < a.len()
        invariant
            i <= a@.len(),
            r@ =~= a@.take(i as int).map_values(|x: i32| ScalarValue::Int(x)),
        decreases a@.len() - i,
    {
        r.push(ScalarValue::Int(a[i]));
        proof {
            assert(a@.take(i + 1).map_values(|x: i32| ScalarValue::Int(x)) =~= a@.take(
                i as int,
            ).map_values(|x: i32| ScalarValue::Int(x)).push(ScalarValue::Int(a@[i as int])));
        }
        i = i + 1;
    }
    proof {
        assert(a@.take(a@.len() as int) =~= a@);
    }
    r
}

/// The elements of a long array as scalar line payloads.
fn to_scalars_i64(a: &Vec<i64>) -> (r: Vec<ScalarValue>)
    ensures
        r@ == a@.map_values(|x: i64| ScalarValue::Long(x)),
{
    let mut r: Vec<ScalarValue> = Vec::new();
    let mut i: usize = 0;
    while i < a.len()
        invariant
            i <= a@.len(),
            r@ =~= a@.take(i as int).map_values(|x: i64| ScalarValue::Long(x)),
        decreases a@.len() - i,
    {
        r.push(ScalarValue::Long(a[i]));
        proof {
            assert(a@.take(i + 1).map_values(|x: i64| ScalarValue::Long(x)) =~= a@.take(
                i as int,
            ).map_values(|x: i64| ScalarValue::Long(x)).push(ScalarValue::Long(a@[i as int])));
        }
        i = i + 1;
    }
    proof {
        assert(a@.take(a@.len() as int) =~= a@);
    }
    r
}

/// Emits the instructions of the node `v` reached by `path` under `name`,
/// assigning it the visitation counter `c`, and returns the counter after
/// its whole subtree: `c` plus the subtree's node count.
pub fn render_value(
    name: &str,
    v: &TagValue,
    path: &Vec<u64>,
    c: u64,
    tbl: &UiTable,
    out: &mut Vec<RenderOp>,
) -> (c2: u64)
    requires
        c + count_nodes(*v) <= u64::MAX,
    ensures
        c2 == c + count_nodes(*v),
        ops_view(final(out)@) == ops_view(old(out)@) + spec_render_value(
            name@,
            *v,
            path@,
            c as int,
            tbl.slots@,
        ),
    decreases *v, 0int,
{
    match v {
        TagValue::Byte(n) => {
            emit_scalar(name, ScalarValue::Byte(*n), path, c, tbl, out);
            c + 1
        },
        TagValue::Short(n) => {
            emit_scalar(name, ScalarValue::Short(*n), path, c, tbl, out);
            c + 1
        },
        TagValue::Int(n) => {
            emit_scalar(name, ScalarValue::Int(*n), path, c, tbl, out);
            c + 1
        },
        TagValue::Long(n) => {
            emit_scalar(name, ScalarValue::Long(*n), path, c, tbl, out);
            c + 1
        },
        TagValue::FloatBits(b) => {
            emit_scalar(name, ScalarValue::FloatBits(*b), path, c, tbl, out);
            c + 1
        },
        TagValue::DoubleBits(b) => {
            emit_scalar(name, ScalarValue::DoubleBits(*b), path, c, tbl, out);
            c + 1
        },
        TagValue::Text(s) => {
            let op = RenderOp::TextLine {
                id: NodeId { path: copy_path(path), seq: c },
                name: name.to_owned(),
                text: s.clone(),
            };
            proof {
                lemma_ops_view_push(out@, op);
                assert(ops_view(out@).push(op@) =~= ops_view(out@) + spec_render_value(
                    name@,
                    *v,
                    path@,
                    c as int,
                    tbl.slots@,
                ));
            }
            out.push(op);
            c + 1
        },
        TagValue::ByteArray(a) => {
            let elems = to_scalars_i8(a);
            emit_array(name, &elems, path, c, tbl, out);
            c + 1 + (a.len() as u64)
        },
        TagValue::IntArray(a) => {
            let elems = to_scalars_i32(a);
            emit_array(name, &elems, path, c, tbl, out);
            c + 1 + (a.len() as u64)
        },
        TagValue::LongArray(a) => {
            let elems = to_scalars_i64(a);
            emit_array(name, &elems, path, c, tbl, out);
            c + 1 + (a.len() as u64)
        },
        TagValue::List(items) => {
            let st = tbl.get(c);
            let begin = RenderOp::BeginRegion {
                id: NodeId { path: copy_path(path), seq: c },
                label: RegionLabel::Named(name.to_owned()),
                expanded: st.expanded,
            };
            proof {
                lemma_ops_view_push(out@, begin);
                assert(items@.skip(0) =~= items@);
            }
            out.push(begin);
            let c2 = render_items(items, path, 0, c + 1, tbl, out);
            let end = RenderOp::EndRegion { id: NodeId { path: copy_path(path), seq: c } };
            proof {
                lemma_ops_view_push(out@, end);
            }
            out.push(end);
            proof {
                assert(ops_view(out@) =~= ops_view(old(out)@) + spec_render_value(
                    name@,
                    *v,
                    path@,
                    c as int,
                    tbl.slots@,
                ));
            }
            c2
        },
        TagValue::Compound(entries) => {
            let st = tbl.get(c);
            let label = if name.is_empty() {
                RegionLabel::EntryCount(entries.len())
            } else {
                RegionLabel::Named(name.to_owned())
            };
            let begin = RenderOp::BeginRegion {
                id: NodeId { path: copy_path(path), seq: c },
                label,
                expanded: st.expanded,
            };
            proof {
                lemma_ops_view_push(out@, begin);
                assert(entries@.skip(0) =~= entries@);
            }
            out.push(begin);
            let c2 = render_entries(entries, path, 0, c + 1, tbl, out);
            let end = RenderOp::EndRegion { id: NodeId { path: copy_path(path), seq: c } };
            proof {
                lemma_ops_view_push(out@, end);
            }
            out.push(end);
            proof {
                assert(ops_view(out@) =~= ops_view(old(out)@) + spec_render_value(
                    name@,
                    *v,
                    path@,
                    c as int,
                    tbl.slots@,
                ));
            }
            c2
        },
    }
}

/// Emits the instructions of a list's elements from index `j` on, each an
/// unnamed child whose path step is its index.
fn render_items(
    items: &Vec<TagValue>,
    path: &Vec<u64>,
    j: usize,
    c: u64,
    tbl: &UiTable,
    out: &mut Vec<RenderOp>,
) -> (c2: u64)
    requires
        j <= items@.len(),
        c + count_nodes_list(items@.skip(j as int)) <= u64::MAX,
    ensures
        c2 == c + count_nodes_list(items@.skip(j as int)),
        ops_view(final(out)@) == ops_view(old(out)@) + spec_render_items(
            items@,
            path@,
            j as int,
            c as int,
            tbl.slots@,
        ),
    decreases *items, items@.len() - j,
{
    if j == items.len() {
        proof {
            assert(items@.skip(j as int).len() == 0);
        }
        return c;
    }
    proof {
        lemma_count_list_skip(items@, j as int);
    }
    let cp = child_path(path, j as u64);
    let c1 = render_value("", &items[j], &cp, c, tbl, out);
    let c2 = render_items(items, path, j + 1, c1, tbl, out);
    proof {
        reveal_strlit("");
        assert(""@ =~= Seq::<char>::empty());
        assert(ops_view(out@) =~= ops_view(old(out)@) + spec_render_items(
            items@,
            path@,
            j as int,
            c as int,
            tbl.slots@,
        ));
    }
    c2
}

/// Emits the instructions of a compound's entries from index `j` on, in
/// insertion order, each a named child whose path step is its position.
fn render_entries(
    entries: &Vec<Entry>,
    path: &Vec<u64>,
    j: usize,
    c: u64,
    tbl: &UiTable,
    out: &mut Vec<RenderOp>,
) -> (c2: u64)
    requires
        j <= entries@.len(),
        c + count_nodes_entries(entries@.skip(j as int)) <= u64::MAX,
    ensures
        c2 == c + count_nodes_entries(entries@.skip(j as int)),
        ops_view(final(out)@) == ops_view(old(out)@) + spec_render_entries(
            entries@,
            path@,
            j as int,
            c as int,
            tbl.slots@,
        ),
    decreases *entries, entries@.len() - j,
{
    if j == entries.len() {
        proof {
            assert(entries@.skip(j as int).len() == 0);
        }
        return c;
    }
    proof {
        lemma_count_entries_skip(entries@, j as int);
    }
    let cp = child_path(path, j as u64);
    let e = &entries[j];
    let c1 = render_value(e.name.as_str(), &e.value, &cp, c, tbl, out);
    let c2 = render_entries(entries, path, j + 1, c1, tbl, out);
    proof {
        assert(ops_view(out@) =~= ops_view(old(out)@) + spec_render_entries(
            entries@,
            path@,
            j as int,
            c as int,
            tbl.slots@,
        ));
    }
    c2
}

/// Counts the identities `v`'s subtree takes on top of `acc`, refusing to
/// wrap the counter.
fn count_value_checked(v: &TagValue, acc: u64) -> (r: Option<u64>)
    ensures
        r matches Some(n) ==> n == acc + count_nodes(*v),
        r is None ==> acc + count_nodes(*v) > u64::MAX,
    decreases *v, 0int,
{
    match v {
        TagValue::ByteArray(a) => match acc.checked_add(1) {
            None => None,
            Some(a1) => a1.checked_add(a.len() as u64),
        },
        TagValue::IntArray(a) => match acc.checked_add(1) {
            None => None,
            Some(a1) => a1.checked_add(a.len() as u64),
        },
        TagValue::LongArray(a) => match acc.checked_add(1) {
            None => None,
            Some(a1) => a1.checked_add(a.len() as u64),
        },
        TagValue::List(items) => {
            proof {
                assert(items@.skip(0) =~= items@);
            }
            match acc.checked_add(1) {
                None => None,
                Some(a1) => count_list_checked(items, 0, a1),
            }
        },
        TagValue::Compound(entries) => {
            proof {
                assert(entries@.skip(0) =~= entries@);
            }
            match acc.checked_add(1) {
                None => None,
                Some(a1) => count_entries_checked(entries, 0, a1),
            }
        },
        _ => acc.checked_add(1),
    }
}

fn count_list_checked(items: &Vec<TagValue>, j: usize, acc: u64) -> (r: Option<u64>)
    requires
        j <= items@.len(),
    ensures
        r matches Some(n) ==> n == acc + count_nodes_list(items@.skip(j as int)),
        r is None ==> acc + count_nodes_list(items@.skip(j as int)) > u64::MAX,
    decreases *items, items@.len() - j,
{
    if j == items.len() {
        proof {
            assert(items@.skip(j as int).len() == 0);
        }
        Some(acc)
    } else {
        proof {
            lemma_count_list_skip(items@, j as int);
        }
        match count_value_checked(&items[j], acc) {
            None => None,
            Some(a1) => count_list_checked(items, j + 1, a1),
        }
    }
}

fn count_entries_checked(entries: &Vec<Entry>, j: usize, acc: u64) -> (r: Option<u64>)
    requires
        j <= entries@.len(),
    ensures
        r matches Some(n) ==> n == acc + count_nodes_entries(entries@.skip(j as int)),
        r is None ==> acc + count_nodes_entries(entries@.skip(j as int)) > u64::MAX,
    decreases *entries, entries@.len() - j,
{
    if j == entries.len() {
        proof {
            assert(entries@.skip(j as int).len() == 0);
        }
        Some(acc)
    } else {
        proof {
            lemma_count_entries_skip(entries@, j as int);
        }
        match count_value_checked(&entries[j].value, acc) {
            None => None,
            Some(a1) => count_entries_checked(entries, j + 1, a1),
        }
    }
}

/// One frame's traversal, guarded: first counts the tree's nodes with a
/// checked sum, and traverses only when the visitation counter cannot wrap.
/// A tree too large for the counter — beyond any tree memory can hold —
/// yields no instructions at all rather than colliding identities.
pub fn try_render_tree(entries: &Vec<Entry>, tbl: &UiTable) -> (r: Option<Vec<RenderOp>>)
    ensures
        r matches Some(out) ==> (count_nodes_entries(entries@) <= u64::MAX && ops_view(out@)
            == spec_render_tree(entries@, tbl.slots@)),
        r is None ==> count_nodes_entries(entries@) > u64::MAX,
{
    proof {
        assert(entries@.skip(0) =~= entries@);
    }
    match count_entries_checked(entries, 0, 0) {
        None => None,
        Some(_) => Some(render_tree(entries, tbl)),
    }
}

/// One frame's traversal of a document's root entries. Emits the instruction
/// sequence of the whole tree, depth-first, every node visited exactly once,
/// and never mutates anything: rendering the same tree against the same
/// table twice yields the same instructions.
pub fn render_tree(entries: &Vec<Entry>, tbl: &UiTable) -> (out: Vec<RenderOp>)
    requires
        count_nodes_entries(entries@) <= u64::MAX,
    ensures
        ops_view(out@) == spec_render_tree(entries@, tbl.slots@),
{
    let mut out: Vec<RenderOp> = Vec::new();
    let path: Vec<u64> = Vec::new();
    proof {
        assert(entries@.skip(0) =~= entries@);
    }
    render_entries(entries, &path, 0, 0, tbl, &mut out);
    proof {
        assert(ops_view(out@) =~= spec_render_tree(entries@, tbl.slots@));
    }
    out
}

} // verus!
