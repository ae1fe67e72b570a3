use vstd::prelude::*;

use crate::model::Entry;
use crate::order::{
    lemma_lex_lt_irrefl, lemma_lex_lt_total, lemma_lex_lt_trans, lex_lt, title_eq, title_lt,
};
use crate::state::UiTable;

verus! {

use vstd::string::StringSliceAdditionalSpecFns;
use vstd::utf8::encode_utf8;
use vstd::utf8::encode_utf8_decode_utf8;

/// One loaded tree: the root compound's entries, the display title the
/// buffer manager keys it by, and the document's own UI-state table. Closing
/// the document drops the table with it, so state recorded for its nodes can
/// never outlive the document.
pub struct Document {
    pub title: String,
    pub root: Vec<Entry>,
    pub ui: UiTable,
}

impl Document {
    /// Wraps a decoded root compound under its display title, every node in
    /// the default collapsed state.
    pub fn new(title: String, root: Vec<Entry>) -> (d: Document)
        ensures
            d.title == title,
            d.root == root,
            d.ui.slots@.len() == 0,
    {
        Document { title, root, ui: UiTable::new() }
    }
}

/// The UTF-8 bytes of a document's title: the key its position is ordered by.
pub open spec fn title_bytes(d: Document) -> Seq<u8> {
    encode_utf8(d.title@)
}

/// Titles strictly ascending in byte order; strictness also makes them
/// pairwise distinct.
pub open spec fn titles_sorted(docs: Seq<Document>) -> bool {
    forall|i: int, j: int|
        0 <= i < j < docs.len() ==> lex_lt(
            title_bytes(#[trigger] docs[i]),
            title_bytes(#[trigger] docs[j]),
        )
}

/// Some open document carries this title.
pub open spec fn has_title(docs: Seq<Document>, t: Seq<char>) -> bool {
    exists|i: int| 0 <= i < docs.len() && (#[trigger] docs[i]).title@ == t
}

/// Some tab slot holds this title.
pub open spec fn has_tab(tabs: Seq<String>, t: Seq<char>) -> bool {
    exists|i: int| 0 <= i < tabs.len() && (#[trigger] tabs[i])@ == t
}

/// The position title order assigns to the key `tb`: the number of documents
/// whose title comes strictly before it.
pub open spec fn insert_pos(docs: Seq<Document>, tb: Seq<u8>) -> int
    decreases docs.len(),
{
    if docs.len() == 0 {
        0
    } else if lex_lt(title_bytes(docs[0]), tb) {
        1 + insert_pos(docs.drop_first(), tb)
    } else {
        0
    }
}

/// Equal title bytes come from equal titles.
proof fn lemma_title_bytes_inj(x: Seq<char>, y: Seq<char>)
    requires
        encode_utf8(x) == encode_utf8(y),
    ensures
        x == y,
{
    encode_utf8_decode_utf8(x);
    encode_utf8_decode_utf8(y);
}

/// A scan that stops at the first title not strictly below `tb` has found
/// `insert_pos`.
proof fn lemma_insert_pos_of(docs: Seq<Document>, tb: Seq<u8>, i: int)
    requires
        0 <= i <= docs.len(),
        forall|k: int| 0 <= k < i ==> lex_lt(title_bytes(#[trigger] docs[k]), tb),
        i == docs.len() || !lex_lt(title_bytes(docs[i]), tb),
    ensures
        insert_pos(docs, tb) == i,
    decreases docs.len(),
{
    if docs.len() == 0 {
    } else if i == 0 {
    } else {
        assert(lex_lt(title_bytes(docs[0]), tb));
        assert forall|k: int| 0 <= k < i - 1 implies lex_lt(
            title_bytes(#[trigger] docs.drop_first()[k]),
            tb,
        ) by {
            assert(docs.drop_first()[k] == docs[k + 1]);
        }
        if i < docs.len() {
            assert(docs.drop_first()[i - 1] == docs[i]);
        }
        lemma_insert_pos_of(docs.drop_first(), tb, i - 1);
    }
}

/// Title uniqueness: documents kept in strictly ascending title order can
/// never hold the same title twice, so one title always addresses at most
/// one document of a session.
pub proof fn lemma_titles_unique(docs: Seq<Document>)
    requires
        titles_sorted(docs),
    ensures
        forall|i: int, j: int|
            0 <= i < j < docs.len() ==> (#[trigger] docs[i]).title@ != (#[trigger] docs[j]).title@,
{
    assert forall|i: int, j: int|
        0 <= i < j < docs.len() implies (#[trigger] docs[i]).title@ != (
    #[trigger] docs[j]).title@ by {
        if docs[i].title@ == docs[j].title@ {
            lemma_lex_lt_irrefl(title_bytes(docs[i]));
        }
    }
}

/// The set of open documents, the tab layout over them, and the active tab.
///
/// Documents are kept ordered by title, strictly ascending in byte order, so
/// titles are unique and `list_titles` yields them lexicographically — the
/// left-to-right order tabs and entries are drawn in. `tabs` holds the titles
/// currently placed into visible tab slots; `active` indexes the slot shown.
pub struct DocumentSet {
    pub docs: Vec<Document>,
    pub tabs: Vec<String>,
    pub active: Option<usize>,
}

impl DocumentSet {
    /// The structural invariant every operation preserves: documents sorted
    /// strictly by title, every tab backed by an open document, no two tabs
    /// alike, and the active index in range.
    pub open spec fn wf(&self) -> bool {
        &&& titles_sorted(self.docs@)
        &&& forall|i: int|
            0 <= i < self.tabs@.len() ==> has_title(self.docs@, (#[trigger] self.tabs@[i])@)
        &&& forall|i: int, j: int|
            0 <= i < j < self.tabs@.len() ==> (#[trigger] self.tabs@[i])@ != (
            #[trigger] self.tabs@[j])@
        &&& self.active matches Some(a) ==> (a as int) < self.tabs@.len()
    }

    /// The empty session: no documents, no tabs, nothing active.
    pub fn new() -> (s: DocumentSet)
        ensures
            s.wf(),
            s.docs@.len() == 0,
            s.tabs@.len() == 0,
            s.active is None,
    {
        DocumentSet { docs: Vec::new(), tabs: Vec::new(), active: None }
    }

    /// The position of the document carrying `title`, if one is open.
    pub fn find_doc(&self, title: &String) -> (r: Option<usize>)
        ensures
            r matches Some(i) ==> (i as int) < self.docs@.len() && self.docs@[i as int].title@
                == title@,
            r is None ==> !has_title(self.docs@, title@),
    {
        let mut i: usize = 0;
        while i < self.docs.len()
            invariant
                i <= self.docs@.len(),
                forall|k: int| 0 <= k < i ==> (#[trigger] self.docs@[k]).title@ != title@,
            decreases self.docs@.len() - i,
        {
            if title_eq(&self.docs[i].title, title) {
                return Some(i);
            }
            i = i + 1;
        }
        None
    }

    /// The slot of the tab holding `title`, if it is placed.
    pub fn find_tab(&self, title: &String) -> (r: Option<usize>)
        ensures
            r matches Some(i) ==> (i as int) < self.tabs@.len() && self.tabs@[i as int]@
                == title@,
            r is None ==> !has_tab(self.tabs@, title@),
    {
        let mut i: usize = 0;
        while i < self.tabs.len()
            invariant
                i <= self.tabs@.len(),
                forall|k: int| 0 <= k < i ==> (#[trigger] self.tabs@[k])@ != title@,
            decreases self.tabs@.len() - i,
        {
            if title_eq(&self.tabs[i], title) {
                return Some(i);
            }
            i = i + 1;
        }
        None
    }

    /// The first position whose title is not strictly below `title`.
    fn insert_position(docs: &Vec<Document>, title: &String) -> (p: usize)
        ensures
            p <= docs@.len(),
            forall|k: int|
                0 <= k < p ==> lex_lt(title_bytes(#[trigger] docs@[k]), encode_utf8(title@)),
            (p as int) == docs@.len() || !lex_lt(title_bytes(docs@[p as int]), encode_utf8(title@)),
    {
        let mut p: usize = 0;
        while p < docs.len()
            invariant
                p <= docs@.len(),
                forall|k: int|
                    0 <= k < p ==> lex_lt(title_bytes(#[trigger] docs@[k]), encode_utf8(title@)),
            decreases docs@.len() - p,
        {
            if !title_lt(docs[p].title.as_str(), title.as_str()) {
                return p;
            }
            p = p + 1;
        }
        p
    }

    /// Opens `d` under its title.
    ///
    /// Title collision is reported, never resolved silently: when a document
    /// with the same title is already open, nothing changes and the caller —
    /// who alone can ask the user — decides whether to call
    /// [`DocumentSet::open_replace`]. Otherwise the document is inserted at
    /// its title's position, a tab for it is placed last, and that tab
    /// becomes active.
    pub fn open(&mut self, d: Document) -> (r: Result<(), OpenError>)
        requires
            old(self).wf(),
        ensures
            final(self).wf(),
            has_title(old(self).docs@, d.title@) ==> r is Err && *final(self) == *old(self),
            !has_title(old(self).docs@, d.title@) ==> r is Ok && final(self).docs@ == old(self).docs@.insert(insert_pos(old(self).docs@, title_bytes(d)), d) && final(self).tabs@
                == old(self).tabs@.push(d.title) && final(self).active == Some(
                old(self).tabs@.len() as usize,
            ),
    {
        match self.find_doc(&d.title) {
            Some(_) => Err(OpenError::TitleTaken),
            None => {
                let t = d.title.clone();
                let p = Self::insert_position(&self.docs, &d.title);
                proof {
                    lemma_insert_pos_of(self.docs@, encode_utf8(d.title@), p as int);
                    let docs0 = self.docs@;
                    let tb = encode_utf8(d.title@);
                    assert forall|k: int| p <= k < docs0.len() implies lex_lt(
                        tb,
                        title_bytes(#[trigger] docs0[k]),
                    ) by {
                        assert(docs0[k].title@ != d.title@);
                        if title_bytes(docs0[k]) == tb {
                            lemma_title_bytes_inj(docs0[k].title@, d.title@);
                        }
                        lemma_lex_lt_total(tb, title_bytes(docs0[k]));
                        if k > p {
                            if lex_lt(title_bytes(docs0[k]), tb) {
                                if title_bytes(docs0[p as int]) == tb {
                                    lemma_title_bytes_inj(docs0[p as int].title@, d.title@);
                                }
                                lemma_lex_lt_total(tb, title_bytes(docs0[p as int]));
                                if lex_lt(tb, title_bytes(docs0[p as int])) {
                                    lemma_lex_lt_trans(
                                        tb,
                                        title_bytes(docs0[p as int]),
                                        title_bytes(docs0[k]),
                                    );
                                    lemma_lex_lt_trans(tb, title_bytes(docs0[k]), tb);
                                    lemma_lex_lt_irrefl(tb);
                                }
                            }
                        }
                    }
                }
                let ghost docs0 = self.docs@;
                let ghost tabs0 = self.tabs@;
                self.docs.insert(p, d);
                let ti = self.tabs.len();
                self.tabs.push(t);
                self.active = Some(ti);
                proof {
                    let tb = encode_utf8(d.title@);
                    assert forall|i: int, j: int| 0 <= i < j < self.docs@.len() implies lex_lt(
                        title_bytes(#[trigger] self.docs@[i]),
                        title_bytes(#[trigger] self.docs@[j]),
                    ) by {
                        if i < p && j == p {
                            assert(self.docs@[i] == docs0[i]);
                        } else if i == p && j > p {
                            assert(self.docs@[j] == docs0[j - 1]);
                        } else if j < p {
                            assert(self.docs@[i] == docs0[i] && self.docs@[j] == docs0[j]);
                        } else if i < p && j > p {
                            assert(self.docs@[i] == docs0[i] && self.docs@[j] == docs0[j - 1]);
                            lemma_lex_lt_trans(title_bytes(docs0[i]), tb, title_bytes(docs0[j - 1]));
                        } else if i > p {
                            assert(self.docs@[i] == docs0[i - 1] && self.docs@[j] == docs0[j - 1]);
                        }
                    }
                    assert forall|i: int|
                        0 <= i < self.tabs@.len() implies has_title(
                        self.docs@,
                        (#[trigger] self.tabs@[i])@,
                    ) by {
                        if i < tabs0.len() {
                            assert(self.tabs@[i] == tabs0[i]);
                            let w = choose|w: int|
                                0 <= w < docs0.len() && (#[trigger] docs0[w]).title@ == tabs0[i]@;
                            if w < p {
                                assert(self.docs@[w] == docs0[w]);
                            } else {
                                assert(self.docs@[w + 1] == docs0[w]);
                            }
                        } else {
                            assert(self.docs@[p as int].title@ == d.title@);
                        }
                    }
                    assert forall|i: int, j: int|
                        0 <= i < j < self.tabs@.len() implies (#[trigger] self.tabs@[i])@ != (
                    #[trigger] self.tabs@[j])@ by {
                        if j == tabs0.len() {
                            assert(self.tabs@[i] == tabs0[i]);
                            assert(!has_title(docs0, d.title@));
                        }
                    }
                }
                Ok(())
            },
        }
    }

    /// Replaces the document already open under `d`'s title — the path a
    /// caller takes once the collision reported by [`DocumentSet::open`] is
    /// confirmed. The replaced document's UI-state table goes with it. When
    /// no collision exists after all, this behaves exactly like a successful
    /// `open`.
    pub fn open_replace(&mut self, d: Document)
        requires
            old(self).wf(),
        ensures
            final(self).wf(),
            forall|i: int|
                0 <= i < old(self).docs@.len() && (#[trigger] old(self).docs@[i]).title@
                    == d.title@ ==> final(self).docs@ == old(self).docs@.update(i, d) && final(self).tabs@ == old(self).tabs@ && final(self).active == old(self).active,
            !has_title(old(self).docs@, d.title@) ==> final(self).docs@ == old(self).docs@.insert(insert_pos(old(self).docs@, title_bytes(d)), d) && final(self).tabs@
                == old(self).tabs@.push(d.title) && final(self).active == Some(
                old(self).tabs@.len() as usize,
            ),
    {
        let ghost docs0 = self.docs@;
        match self.find_doc(&d.title) {
            Some(i) => {
                proof {
                    assert forall|k: int|
                        0 <= k < docs0.len() && (#[trigger] docs0[k]).title@ == d.title@ implies k
                        == i as int by {
                        if k != i as int {
                            lemma_title_bytes_inj(docs0[k].title@, docs0[i as int].title@);
                            if k < i as int {
                                lemma_lex_lt_irrefl(title_bytes(docs0[k]));
                            } else {
                                lemma_lex_lt_irrefl(title_bytes(docs0[k]));
                            }
                        }
                    }
                }
                self.docs.set(i, d);
                proof {
                    assert forall|x: int, y: int| 0 <= x < y < self.docs@.len() implies lex_lt(
                        title_bytes(#[trigger] self.docs@[x]),
                        title_bytes(#[trigger] self.docs@[y]),
                    ) by {
                        assert(title_bytes(self.docs@[i as int]) == title_bytes(docs0[i as int]));
                        assert(x != i ==> self.docs@[x] == docs0[x]);
                        assert(y != i ==> self.docs@[y] == docs0[y]);
                    }
                    assert forall|t: int|
                        0 <= t < self.tabs@.len() implies has_title(
                        self.docs@,
                        (#[trigger] self.tabs@[t])@,
                    ) by {
                        let w = choose|w: int|
                            0 <= w < docs0.len() && (#[trigger] docs0[w]).title@ == self.tabs@[t]@;
                        if w == i as int {
                            assert(self.docs@[w].title@ == d.title@);
                        } else {
                            assert(self.docs@[w] == docs0[w]);
                        }
                    }
                }
            },
            None => {
                let r = self.open(d);
                proof {
                    assert(r is Ok);
                }
            },
        }
    }

    /// Marks `title`'s tab as the visible one. A title without an open
    /// document is ignored; a title without a tab slot is newly placed into
    /// the last slot and shown there.
    pub fn activate(&mut self, title: &String)
        requires
            old(self).wf(),
        ensures
            final(self).wf(),
            final(self).docs@ == old(self).docs@,
            !has_title(old(self).docs@, title@) ==> *final(self) == *old(self),
            has_title(old(self).docs@, title@) && has_tab(old(self).tabs@, title@) ==> final(self).tabs@ == old(self).tabs@ && (final(self).active matches Some(a) && old(self).tabs@[a as int]@ == title@),
            has_title(old(self).docs@, title@) && !has_tab(old(self).tabs@, title@) ==> final(self).tabs@ == old(self).tabs@.push(*title) && final(self).active == Some(
                old(self).tabs@.len() as usize,
            ),
    {
        match self.find_doc(title) {
            None => {},
            Some(_) => {
                match self.find_tab(title) {
                    Some(t) => {
                        self.active = Some(t);
                    },
                    None => {
                        let ti = self.tabs.len();
                        self.tabs.push(title.clone());
                        self.active = Some(ti);
                        proof {
                            assert forall|i: int, j: int|
                                0 <= i < j < self.tabs@.len() implies (
                            #[trigger] self.tabs@[i])@ != (#[trigger] self.tabs@[j])@ by {}
                        }
                    },
                }
            },
        }
    }

    /// Closes the document under `title`: the document — with its whole
    /// UI-state table — and its tab slot are removed. When the closed tab
    /// was the active one, no tab is active afterwards; an active tab in a
    /// later slot keeps its place, its index shifted down past the removed
    /// slot. A title without an open document is ignored.
    pub fn close(&mut self, title: &String)
        requires
            old(self).wf(),
        ensures
            final(self).wf(),
            !has_title(old(self).docs@, title@) ==> *final(self) == *old(self),
            forall|i: int|
                0 <= i < old(self).docs@.len() && (#[trigger] old(self).docs@[i]).title@
                    == title@ ==> final(self).docs@ == old(self).docs@.remove(i),
            has_title(old(self).docs@, title@) && !has_tab(old(self).tabs@, title@) ==> final(self).tabs@ == old(self).tabs@ && final(self).active == old(self).active,
            forall|t: int|
                0 <= t < old(self).tabs@.len() && (#[trigger] old(self).tabs@[t])@ == title@
                    && has_title(old(self).docs@, title@) ==> final(self).tabs@ == old(self).tabs@.remove(t) && final(self).active == (match old(self).active {
                    Option::None => Option::<usize>::None,
                    Option::Some(a) => if a as int == t {
                        Option::<usize>::None
                    } else if a as int > t {
                        Option::<usize>::Some((a - 1) as usize)
                    } else {
                        Option::<usize>::Some(a)
                    },
                }),
    {
        let ghost docs0 = self.docs@;
        let ghost tabs0 = self.tabs@;
        let di = match self.find_doc(title) {
            None => {
                return ;
            },
            Some(i) => i,
        };
        proof {
            assert forall|k: int|
                0 <= k < docs0.len() && (#[trigger] docs0[k]).title@ == title@ implies k
                == di as int by {
                if k != di as int {
                    lemma_title_bytes_inj(docs0[k].title@, docs0[di as int].title@);
                    lemma_lex_lt_irrefl(title_bytes(docs0[k]));
                }
            }
        }
        let _doc = self.docs.remove(di);
        proof {
            assert forall|x: int, y: int| 0 <= x < y < self.docs@.len() implies lex_lt(
                title_bytes(#[trigger] self.docs@[x]),
                title_bytes(#[trigger] self.docs@[y]),
            ) by {
                assert(self.docs@[x] == (if x < di as int {
                    docs0[x]
                } else {
                    docs0[x + 1]
                }));
                assert(self.docs@[y] == (if y < di as int {
                    docs0[y]
                } else {
                    docs0[y + 1]
                }));
            }
        }
        match self.find_tab(title) {
            None => {
                proof {
                    assert forall|t: int|
                        0 <= t < self.tabs@.len() implies has_title(
                        self.docs@,
                        (#[trigger] self.tabs@[t])@,
                    ) by {
                        let w = choose|w: int|
                            0 <= w < docs0.len() && (#[trigger] docs0[w]).title@ == self.tabs@[t]@;
                        assert(self.tabs@[t]@ != title@);
                        assert(w != di as int);
                        if w < di as int {
                            assert(self.docs@[w] == docs0[w]);
                        } else {
                            assert(self.docs@[w - 1] == docs0[w]);
                        }
                    }
                }
            },
            Some(t) => {
                let _ = self.tabs.remove(t);
                self.active = match self.active {
                    None => None,
                    Some(a) => if a == t {
                        None
                    } else if a > t {
                        Some(a - 1)
                    } else {
                        Some(a)
                    },
                };
                proof {
                    assert forall|u: int|
                        0 <= u < self.tabs@.len() implies has_title(
                        self.docs@,
                        (#[trigger] self.tabs@[u])@,
                    ) by {
                        assert(self.tabs@[u] == (if u < t as int {
                            tabs0[u]
                        } else {
                            tabs0[u + 1]
                        }));
                        let old_u: int = if u < t as int {
                            u
                        } else {
                            u + 1
                        };
                        assert(tabs0[old_u]@ != tabs0[t as int]@);
                        let w = choose|w: int|
                            0 <= w < docs0.len() && (#[trigger] docs0[w]).title@ == tabs0[old_u]@;
                        assert(w != di as int);
                        if w < di as int {
                            assert(self.docs@[w] == docs0[w]);
                        } else {
                            assert(self.docs@[w - 1] == docs0[w]);
                        }
                    }
                    assert forall|x: int, y: int|
                        0 <= x < y < self.tabs@.len() implies (#[trigger] self.tabs@[x])@ != (
                    #[trigger] self.tabs@[y])@ by {
                        assert(self.tabs@[x] == (if x < t as int {
                            tabs0[x]
                        } else {
                            tabs0[x + 1]
                        }));
                        assert(self.tabs@[y] == (if y < t as int {
                            tabs0[y]
                        } else {
                            tabs0[y + 1]
                        }));
                    }
                }
            },
        }
    }

    /// The open titles in stored — that is lexicographic — order: the order
    /// tabs and entries are drawn in.
    pub fn list_titles(&self) -> (r: Vec<String>)
        ensures
            r@.len() == self.docs@.len(),
            forall|i: int| 0 <= i < r@.len() ==> (#[trigger] r@[i])@ == self.docs@[i].title@,
    {
        let mut r: Vec<String> = Vec::new();
        let mut i: usize = 0;
        while i < self.docs.len()
            invariant
                i <= self.docs@.len(),
                r@.len() == i,
                forall|k: int| 0 <= k < i ==> (#[trigger] r@[k])@ == self.docs@[k].title@,
            decreases self.docs@.len() - i,
        {
            r.push(self.docs[i].title.clone());
            i = i + 1;
        }
        r
    }

    /// The title shown in the active tab, if a tab is active.
    pub fn active_title(&self) -> (r: Option<&String>)
        requires
            self.wf(),
        ensures
            r matches Some(t) ==> (self.active matches Some(a) && self.tabs@[a as int]@ == t@),
            r is None ==> self.active is None,
    {
        match self.active {
            None => None,
            Some(a) => Some(&self.tabs[a]),
        }
    }
}

/// Why an `open` was refused.
#[derive(PartialEq, Eq, Structural, Clone, Copy, Debug)]
pub enum OpenError {
    /// A document with the same title is already open; nothing was changed.
    TitleTaken,
}

} // verus!
