use vstd::prelude::*;

verus! {

/// One named child of a compound tag. Insertion order of entries is the
/// display order and is preserved by every operation of this crate.
pub struct Entry {
    pub name: String,
    pub value: TagValue,
}

/// One node of a decoded tagged tree: a closed, exhaustive variant set.
///
/// Floating-point payloads are carried as their raw IEEE 754 bit patterns
/// (`FloatBits` for the 32-bit kind, `DoubleBits` for the 64-bit kind); the
/// shell around this crate converts between bits and machine floats at the
/// boundary, so the model itself stays purely integral.
pub enum TagValue {
    Byte(i8),
    Short(i16),
    Int(i32),
    Long(i64),
    FloatBits(u32),
    DoubleBits(u64),
    Text(String),
    ByteArray(Vec<i8>),
    IntArray(Vec<i32>),
    LongArray(Vec<i64>),
    List(Vec<TagValue>),
    Compound(Vec<Entry>),
}

/// How many identities a traversal of `v` hands out: one for the node itself,
/// one for every descendant node, and one for every array element.
pub open spec fn count_nodes(v: TagValue) -> nat
    decreases v,
{
    match v {
        TagValue::ByteArray(a) => 1 + a@.len(),
        TagValue::IntArray(a) => 1 + a@.len(),
        TagValue::LongArray(a) => 1 + a@.len(),
        TagValue::List(items) => 1 + count_nodes_list(items@),
        TagValue::Compound(entries) => 1 + count_nodes_entries(entries@),
        _ => 1,
    }
}

/// Sum of `count_nodes` over the unnamed elements of a list.
pub open spec fn count_nodes_list(items: Seq<TagValue>) -> nat
    decreases items,
{
    if items.len() == 0 {
        0
    } else {
        count_nodes(items[0]) + count_nodes_list(items.drop_first())
    }
}

/// Sum of `count_nodes` over the named entries of a compound.
pub open spec fn count_nodes_entries(entries: Seq<Entry>) -> nat
    decreases entries,
{
    if entries.len() == 0 {
        0
    } else {
        count_nodes(entries[0].value) + count_nodes_entries(entries.drop_first())
    }
}

/// No two direct children of one compound share a name.
pub open spec fn distinct_names(entries: Seq<Entry>) -> bool {
    forall|i: int, j: int|
        0 <= i < j < entries.len() ==> entries[i].name@ != entries[j].name@
}

/// Well-formedness of a tree: every compound anywhere in it keeps its direct
/// children's names pairwise distinct. Nothing else is constrained; lists may
/// be heterogeneous and every container may be empty.
pub open spec fn wf_value(v: TagValue) -> bool
    decreases v,
{
    match v {
        TagValue::List(items) => wf_list(items@),
        TagValue::Compound(entries) => distinct_names(entries@) && wf_entries(entries@),
        _ => true,
    }
}

pub open spec fn wf_list(items: Seq<TagValue>) -> bool
    decreases items,
{
    if items.len() == 0 {
        true
    } else {
        wf_value(items[0]) && wf_list(items.drop_first())
    }
}

pub open spec fn wf_entries(entries: Seq<Entry>) -> bool
    decreases entries,
{
    if entries.len() == 0 {
        true
    } else {
        wf_value(entries[0].value) && wf_entries(entries.drop_first())
    }
}

/// Well-formedness of a document's root: the root compound's own names are
/// pairwise distinct and every subtree is well-formed.
pub open spec fn wf_root(entries: Seq<Entry>) -> bool {
    distinct_names(entries) && wf_entries(entries)
}

/// Decides whether no two of the entries share a name.
fn check_distinct(entries: &Vec<Entry>) -> (b: bool)
    ensures
        b == distinct_names(entries@),
{
    let mut i: usize = 0;
    while i < entries.len()
        invariant
            i <= entries@.len(),
            forall|x: int, y: int|
                0 <= x < y < entries@.len() && x < i ==> (#[trigger] entries@[x]).name@ != (
                #[trigger] entries@[y]).name@,
        decreases entries@.len() - i,
    {
        let mut j: usize = i + 1;
        while j < entries.len()
            invariant
                i < j,
                j <= entries@.len(),
                i < entries@.len(),
                forall|y: int|
                    i < y < j ==> (#[trigger] entries@[y]).name@ != entries@[i as int].name@,
            decreases entries@.len() - j,
        {
            if crate::order::title_eq(&entries[i].name, &entries[j].name) {
                return false;
            }
            j = j + 1;
        }
        i = i + 1;
    }
    true
}

/// Decides well-formedness of one subtree: inside it, every compound keeps
/// its direct children's names pairwise distinct.
pub fn check_wf(v: &TagValue) -> (b: bool)
    ensures
        b == wf_value(*v),
    decreases *v, 0int,
{
    match v {
        TagValue::List(items) => {
            proof {
                assert(items@.skip(0) =~= items@);
            }
            check_wf_list(items, 0)
        },
        TagValue::Compound(entries) => {
            proof {
                assert(entries@.skip(0) =~= entries@);
            }
            if !check_distinct(entries) {
                false
            } else {
                check_wf_entries(entries, 0)
            }
        },
        _ => true,
    }
}

/// Decides well-formedness of a list's elements from index `j` on.
fn check_wf_list(items: &Vec<TagValue>, j: usize) -> (b: bool)
    requires
        j <= items@.len(),
    ensures
        b == wf_list(items@.skip(j as int)),
    decreases *items, items@.len() - j,
{
    if j == items.len() {
        proof {
            assert(items@.skip(j as int).len() == 0);
        }
        true
    } else {
        proof {
            assert(items@.skip(j as int)[0] == items@[j as int]);
            assert(items@.skip(j as int).drop_first() =~= items@.skip(j + 1));
        }
        if !check_wf(&items[j]) {
            false
        } else {
            check_wf_list(items, j + 1)
        }
    }
}

/// Decides well-formedness of a compound's entries from index `j` on.
fn check_wf_entries(entries: &Vec<Entry>, j: usize) -> (b: bool)
    requires
        j <= entries@.len(),
    ensures
        b == wf_entries(entries@.skip(j as int)),
    decreases *entries, entries@.len() - j,
{
    if j == entries.len() {
        proof {
            assert(entries@.skip(j as int).len() == 0);
        }
        true
    } else {
        proof {
            assert(entries@.skip(j as int)[0] == entries@[j as int]);
            assert(entries@.skip(j as int).drop_first() =~= entries@.skip(j + 1));
        }
        if !check_wf(&entries[j].value) {
            false
        } else {
            check_wf_entries(entries, j + 1)
        }
    }
}

/// Decides well-formedness of a whole decoded root, so an ingest can refuse
/// a malformed tree before it enters the document set.
pub fn check_wf_root(entries: &Vec<Entry>) -> (b: bool)
    ensures
        b == wf_root(entries@),
{
    proof {
        assert(entries@.skip(0) =~= entries@);
    }
    if !check_distinct(entries) {
        false
    } else {
        check_wf_entries(entries, 0)
    }
}

} // verus!
