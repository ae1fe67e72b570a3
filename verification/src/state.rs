use vstd::prelude::*;

verus! {

/// Transient interaction state of one tree node: whether its collapsible
/// region is expanded, whether an edit window bound to it is open, and the
/// in-progress text of that window's edit buffer.
pub struct NodeState {
    pub expanded: bool,
    pub editor_open: bool,
    pub buffer: String,
}

/// Spec-level value of a [`NodeState`].
pub struct NodeStateV {
    pub expanded: bool,
    pub editor_open: bool,
    pub buffer: Seq<char>,
}

impl View for NodeState {
    type V = NodeStateV;

    open spec fn view(&self) -> NodeStateV {
        NodeStateV {
            expanded: self.expanded,
            editor_open: self.editor_open,
            buffer: self.buffer@,
        }
    }
}

/// The state assumed for an identity the table holds no record for:
/// collapsed, no edit window, empty buffer. A lookup miss is never an error.
pub open spec fn default_state() -> NodeStateV {
    NodeStateV { expanded: false, editor_open: false, buffer: Seq::empty() }
}

/// One recorded (identity, state) pair.
pub struct Slot {
    pub key: u64,
    pub state: NodeState,
}

/// The UI-state side table of one document, keyed by node identity.
///
/// Records are appended and never edited in place: a lookup takes the most
/// recent record for a key, so an older record is superseded the moment a
/// newer one is pushed. Superseded records, like records for identities that
/// are no longer reachable, are leaked harmlessly; they can never make a
/// lookup fail.
pub struct UiTable {
    pub slots: Vec<Slot>,
}

/// The most recent state recorded for `key`, if any record exists.
pub open spec fn spec_lookup(slots: Seq<Slot>, key: u64) -> Option<NodeStateV>
    decreases slots.len(),
{
    if slots.len() == 0 {
        None
    } else if slots.last().key == key {
        Some(slots.last().state@)
    } else {
        spec_lookup(slots.drop_last(), key)
    }
}

/// The state the walker sees for `key`: the most recent record, or the
/// default collapsed/closed state when no record exists.
pub open spec fn spec_state(slots: Seq<Slot>, key: u64) -> NodeStateV {
    match spec_lookup(slots, key) {
        Some(st) => st,
        None => default_state(),
    }
}

impl UiTable {
    /// The empty table: every identity is in the default state.
    pub fn new() -> (t: UiTable)
        ensures
            t.slots@.len() == 0,
            forall|k: u64| spec_state(t.slots@, k) == default_state(),
    {
        UiTable { slots: Vec::new() }
    }

    /// Looks up the state of `key`; a missing key yields the default state.
    pub fn get(&self, key: u64) -> (st: NodeState)
        ensures
            st@ == spec_state(self.slots@, key),
    {
        let mut i: usize = self.slots.len();
        proof {
            assert(self.slots@.take(i as int) =~= self.slots@);
        }
        while i > 0
            invariant
                i <= self.slots@.len(),
                spec_lookup(self.slots@, key) == spec_lookup(self.slots@.take(i as int), key),
            decreases i,
        {
            i = i - 1;
            let slot = &self.slots[i];
            proof {
                assert(self.slots@.take(i + 1).last() == self.slots@[i as int]);
                assert(self.slots@.take(i + 1).drop_last() =~= self.slots@.take(i as int));
            }
            if slot.key == key {
                return NodeState {
                    expanded: slot.state.expanded,
                    editor_open: slot.state.editor_open,
                    buffer: slot.state.buffer.clone(),
                };
            }
        }
        proof {
            assert(self.slots@.take(0).len() == 0);
        }
        NodeState { expanded: false, editor_open: false, buffer: String::new() }
    }

    /// Records `st` for `key`, superseding any earlier record; every other
    /// key keeps the state it had.
    pub fn set(&mut self, key: u64, st: NodeState)
        ensures
            spec_state(final(self).slots@, key) == st@,
            forall|k: u64|
                k != key ==> spec_state(final(self).slots@, k) == spec_state(old(self).slots@, k),
    {
        self.slots.push(Slot { key, state: st });
        proof {
            assert(self.slots@.drop_last() =~= old(self).slots@);
        }
    }

    /// Flips the expanded flag of `key`, keeping its other state.
    pub fn toggle_expanded(&mut self, key: u64)
        ensures
            spec_state(final(self).slots@, key) == (NodeStateV {
                expanded: !spec_state(old(self).slots@, key).expanded,
                ..spec_state(old(self).slots@, key)
            }),
            forall|k: u64|
                k != key ==> spec_state(final(self).slots@, k) == spec_state(old(self).slots@, k),
    {
        let mut st = self.get(key);
        st.expanded = !st.expanded;
        self.set(key, st);
    }

    /// Opens or closes the edit window bound to `key`, keeping its other state.
    pub fn set_editor_open(&mut self, key: u64, open_flag: bool)
        ensures
            spec_state(final(self).slots@, key) == (NodeStateV {
                editor_open: open_flag,
                ..spec_state(old(self).slots@, key)
            }),
            forall|k: u64|
                k != key ==> spec_state(final(self).slots@, k) == spec_state(old(self).slots@, k),
    {
        let mut st = self.get(key);
        st.editor_open = open_flag;
        self.set(key, st);
    }

    /// Replaces the edit buffer bound to `key`, keeping its other state.
    pub fn set_buffer(&mut self, key: u64, text: String)
        ensures
            spec_state(final(self).slots@, key) == (NodeStateV {
                buffer: text@,
                ..spec_state(old(self).slots@, key)
            }),
            forall|k: u64|
                k != key ==> spec_state(final(self).slots@, k) == spec_state(old(self).slots@, k),
    {
        let mut st = self.get(key);
        st.buffer = text;
        self.set(key, st);
    }
}

/// One user interaction reported by the rendering shell, addressed to the
/// node identity the instruction stream carried.
pub enum UiEvent {
    /// The header of a collapsible region was clicked: toggle expansion.
    HeaderClicked(u64),
    /// A scalar line was double-clicked: open its edit window.
    ScalarActivated(u64),
    /// An open edit window was dismissed.
    EditorClosed(u64),
    /// The text of an open edit window changed.
    BufferEdited(u64, String),
}

/// Applies one interaction event to the table. Every identity the event does
/// not address keeps its state; the addressed identity changes exactly the
/// field the event names.
pub fn handle_event(table: &mut UiTable, ev: UiEvent)
    ensures
        ev matches UiEvent::HeaderClicked(k) ==> spec_state(final(table).slots@, k)
            == (NodeStateV {
            expanded: !spec_state(old(table).slots@, k).expanded,
            ..spec_state(old(table).slots@, k)
        }) && unchanged_except(old(table), final(table), k),
        ev matches UiEvent::ScalarActivated(k) ==> spec_state(final(table).slots@, k)
            == (NodeStateV { editor_open: true, ..spec_state(old(table).slots@, k) })
            && unchanged_except(old(table), final(table), k),
        ev matches UiEvent::EditorClosed(k) ==> spec_state(final(table).slots@, k)
            == (NodeStateV { editor_open: false, ..spec_state(old(table).slots@, k) })
            && unchanged_except(old(table), final(table), k),
        ev matches UiEvent::BufferEdited(k, text) ==> spec_state(final(table).slots@, k)
            == (NodeStateV { buffer: text@, ..spec_state(old(table).slots@, k) })
            && unchanged_except(old(table), final(table), k),
{
    match ev {
        UiEvent::HeaderClicked(k) => table.toggle_expanded(k),
        UiEvent::ScalarActivated(k) => table.set_editor_open(k, true),
        UiEvent::EditorClosed(k) => table.set_editor_open(k, false),
        UiEvent::BufferEdited(k, text) => table.set_buffer(k, text),
    }
}

/// Every key other than `key` maps to the same state in both tables.
pub open spec fn unchanged_except(t0: &UiTable, t1: &UiTable, key: u64) -> bool {
    forall|k: u64| k != key ==> spec_state(t1.slots@, k) == spec_state(t0.slots@, k)
}

} // verus!
