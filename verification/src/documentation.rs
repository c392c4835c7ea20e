//! The documentation that is written above declarations, looked up by raw
//! name.

use crate::lex::{compare_bytes, Rank};
use crate::name_container::NameContainer;
use crate::text::{comment_block, comment_lines};
use vstd::prelude::*;

verus! {

/// The text that documents one name.
pub struct DocEntry {
    name: NameContainer,
    text: String,
}

/// Documentation by raw name. The descriptors themselves hold none: it is
/// handed to the generator when text is written.
pub struct Documentation {
    entries: Vec<DocEntry>,
}

/// The map that a list of entries stands for. A later entry for a name
/// replaces an earlier one.
pub closed spec fn entries_map(entries: Seq<DocEntry>) -> Map<Seq<u8>, Seq<char>>
    decreases entries.len(),
{
    if entries.len() == 0 {
        Map::empty()
    } else {
        entries_map(entries.drop_last()).insert(entries.last().name@, entries.last().text@)
    }
}

/// The comment block that documents `name`, or nothing where `docs` has no
/// text for it.
pub open spec fn doc_comment(docs: Map<Seq<u8>, Seq<char>>, name: Seq<u8>) -> Seq<char> {
    if docs.contains_key(name) {
        comment_block(docs[name])
    } else {
        Seq::empty()
    }
}

proof fn lemma_entries_map_found(entries: Seq<DocEntry>, name: Seq<u8>, at: int)
    requires
        0 <= at < entries.len(),
        entries[at].name@ == name,
        forall|j: int| at < j < entries.len() ==> entries[j].name@ != name,
    ensures
        entries_map(entries).contains_key(name),
        entries_map(entries)[name] == entries[at].text@,
    decreases entries.len(),
{
    if at < entries.len() - 1 {
        lemma_entries_map_found(entries.drop_last(), name, at);
    }
}

proof fn lemma_entries_map_absent(entries: Seq<DocEntry>, name: Seq<u8>)
    requires
        forall|j: int| 0 <= j < entries.len() ==> entries[j].name@ != name,
    ensures
        !entries_map(entries).contains_key(name),
    decreases entries.len(),
{
    if entries.len() > 0 {
        lemma_entries_map_absent(entries.drop_last(), name);
    }
}

impl View for Documentation {
    type V = Map<Seq<u8>, Seq<char>>;

    closed spec fn view(&self) -> Map<Seq<u8>, Seq<char>> {
        entries_map(self.entries@)
    }
}

impl Documentation {
    /// Documentation for no name.
    pub fn new() -> (r: Documentation)
        ensures
            r@ == Map::<Seq<u8>, Seq<char>>::empty(),
    {
        Documentation { entries: Vec::new() }
    }

    /// Sets the text that documents `name`.
    pub fn insert(&mut self, name: NameContainer, text: String)
        ensures
            final(self)@ == old(self)@.insert(name@, text@),
    {
        let ghost before = self.entries@;
        self.entries.push(DocEntry { name, text });
        proof {
            assert(self.entries@.drop_last() =~= before);
        }
    }

    /// The text that documents `name`.
    pub fn get(&self, name: &NameContainer) -> (r: Option<&String>)
        ensures
            match r {
                Some(t) => self@.contains_key(name@) && self@[name@] == t@,
                None => !self@.contains_key(name@),
            },
    {
        let mut i: usize = self.entries.len();
        while i > 0
            invariant
                i <= self.entries.len(),
                forall|j: int| i <= j < self.entries.len() ==> self.entries@[j].name@ != name@,
            decreases i,
        {
            i -= 1;
            if compare_bytes(self.entries[i].name.as_bytes(), name.as_bytes()) == Rank::Same {
                proof {
                    lemma_entries_map_found(self.entries@, name@, i as int);
                }
                return Some(&self.entries[i].text);
            }
        }
        proof {
            lemma_entries_map_absent(self.entries@, name@);
        }
        None
    }

    /// The comment block that documents `name`, empty where there is no text
    /// for it.
    pub fn comment_for(&self, name: &NameContainer) -> (r: String)
        ensures
            r@ == doc_comment(self@, name@),
    {
        match self.get(name) {
            Some(text) => comment_lines(text.as_str()),
            None => String::new(),
        }
    }
}

} // verus!
