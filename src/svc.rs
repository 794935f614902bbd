//! Services, their doc sections, and the configuration that holds them.
use crate::html::{entries_html, render_entries};
use crate::keys::{
    found_at_slot, has_key, lemma_slot_bounds, lemma_lookup_sorted, lemma_removed_sorted, lemma_upserted_sorted,
    position, remove_key, removed, slot, sorted, upsert, upserted, upserted_all, Keyed,
};
use vstd::prelude::*;

verus! {

/// Where a doc section's link points.
#[derive(Debug, Clone, PartialEq, Eq)]
pub enum DocSectionLink {
    /// An outside address.
    External {
        /// The address, as given.
        url: String,
    },
    /// A path of this site named after the section.
    Local,
}

/// The link made from an optional address.
pub open spec fn link_of(url: Option<String>) -> DocSectionLink {
    match url {
        Some(u) => DocSectionLink::External { url: u },
        None => DocSectionLink::Local,
    }
}

impl DocSectionLink {
    /// External with the given address, or Local when there is none.
    pub fn from_url_opt(url: &Option<String>) -> (r: Self)
        ensures
            r == link_of(*url),
    {
        if let Some(u) = url {
            return DocSectionLink::External { url: u.clone() };
        }
        DocSectionLink::Local
    }
}

/// One named documentation section of a service.
#[derive(Debug, Clone, PartialEq, Eq)]
pub struct DocSection {
    /// Name of the section: its key, and its path when the link is local.
    pub section: String,
    /// Title shown for the section.
    pub title: String,
    /// Where the section's link points.
    pub link: DocSectionLink,
}

impl Keyed for DocSection {
    open spec fn key(&self) -> Seq<char> {
        self.section@
    }

    fn key_str(&self) -> (r: &str) {
        self.section.as_str()
    }
}

/// One service.
#[derive(Debug, Clone, PartialEq, Eq)]
pub struct Entry {
    /// Id of the service.
    pub id: String,
    /// Title of the service.
    pub title: String,
    /// Description of the service.
    pub description: String,
    /// Doc sections, sorted by name, each name once.
    pub docs: Vec<DocSection>,
}

impl Keyed for Entry {
    open spec fn key(&self) -> Seq<char> {
        self.id@
    }

    fn key_str(&self) -> (r: &str) {
        self.id.as_str()
    }
}

impl Entry {
    /// The doc sections are sorted by name, each name once.
    pub open spec fn wf(&self) -> bool {
        sorted(self.docs@)
    }

    /// A service with no doc sections.
    pub fn new(id: String, title: String, description: String) -> (r: Entry)
        ensures
            r.id == id,
            r.title == title,
            r.description == description,
            r.docs@ == Seq::<DocSection>::empty(),
            r.wf(),
    {
        Entry { id, title, description, docs: Vec::new() }
    }

    /// A service holding `docs`, each stored in turn under its name.
    pub fn with_sections(id: String, title: String, description: String, docs: Vec<DocSection>) -> (r:
        Entry)
        ensures
            r.id == id,
            r.title == title,
            r.description == description,
            r.docs@ == upserted_all(docs@),
            r.wf(),
    {
        let mut e = Entry::new(id, title, description);
        let mut rest = docs;
        let ghost all = rest@;
        let mut done: usize = 0;
        assert(rest@ =~= all.skip(0));
        assert(all.len() == rest.len());
        while rest.len() > 0
            invariant
                e.id == id,
                e.title == title,
                e.description == description,
                e.wf(),
                all.len() <= usize::MAX,
                done + rest@.len() == all.len(),
                e.docs@ == upserted_all(all.take(done as int)),
                rest@ == all.skip(done as int),
            decreases rest@.len(),
        {
            let d = rest.remove(0);
            proof {
                assert(d == all[done as int]);
                assert(all.take(done + 1).drop_last() =~= all.take(done as int));
                assert(rest@ =~= all.skip(done + 1));
                lemma_upserted_sorted(e.docs@, d);
            }
            e.add_section(d);
            done += 1;
        }
        assert(all.take(done as int) =~= all);
        e
    }

    /// Stores `section` under its name, replacing a section of that name.
    pub fn add_section(&mut self, section: DocSection)
        requires
            old(self).wf(),
        ensures
            final(self).docs@ == upserted(old(self).docs@, section),
            final(self).id == old(self).id,
            final(self).title == old(self).title,
            final(self).description == old(self).description,
            final(self).wf(),
    {
        proof {
            lemma_upserted_sorted(self.docs@, section);
        }
        upsert(&mut self.docs, section);
    }

    /// Removes the section with the given name, if there is one.
    pub fn remove_section(&mut self, section: &str)
        requires
            old(self).wf(),
        ensures
            final(self).docs@ == removed(old(self).docs@, section@),
            final(self).id == old(self).id,
            final(self).title == old(self).title,
            final(self).description == old(self).description,
            final(self).wf(),
    {
        proof {
            lemma_removed_sorted(self.docs@, section@);
        }
        remove_key(&mut self.docs, section);
    }

    /// The section with the given name, if there is one.
    pub fn get_section(&self, section: &str) -> (r: Option<&DocSection>)
        requires
            self.wf(),
        ensures
            r is Some <==> has_key(self.docs@, section@),
            r is Some ==> r->0.section@ == section@ && self.docs@.contains(*r->0),
    {
        proof {
            lemma_lookup_sorted(self.docs@, section@);
        }
        match position(&self.docs, section) {
            Some(p) => {
                assert(self.docs@.contains(self.docs@[p as int]));
                Some(&self.docs[p])
            },
            None => None,
        }
    }
}

/// All services, sorted by id, each id once.
#[derive(Debug, Clone, PartialEq, Eq)]
pub struct Config {
    /// The services.
    pub entries: Vec<Entry>,
}

impl Default for Config {
    fn default() -> (r: Config)
        ensures
            r.entries@ == Seq::<Entry>::empty(),
    {
        Config { entries: Vec::new() }
    }
}

impl Config {
    /// Entries are sorted by id, each id once, and each is well formed.
    pub open spec fn wf(&self) -> bool {
        &&& sorted(self.entries@)
        &&& forall|i: int| 0 <= i < self.entries@.len() ==> (#[trigger] self.entries@[i]).wf()
    }

    /// The configuration with no services.
    pub fn new() -> (r: Config)
        ensures
            r.entries@ == Seq::<Entry>::empty(),
            r.wf(),
    {
        Config { entries: Vec::new() }
    }

    /// The configuration that a load yielded, or the empty one where it
    /// yielded nothing: a missing, unreadable or malformed file.
    pub fn or_empty(loaded: Option<Config>) -> (r: Config)
        ensures
            loaded is Some ==> r == loaded->0,
            loaded is None ==> r.entries@ == Seq::<Entry>::empty(),
    {
        match loaded {
            Some(c) => c,
            None => Config::new(),
        }
    }

    /// A configuration holding `entries`, each stored in turn under its id.
    pub fn from_entries(entries: Vec<Entry>) -> (r: Config)
        requires
            forall|i: int| 0 <= i < entries@.len() ==> (#[trigger] entries@[i]).wf(),
        ensures
            r.entries@ == upserted_all(entries@),
            r.wf(),
    {
        let mut c = Config::new();
        let mut rest = entries;
        let ghost all = rest@;
        let mut done: usize = 0;
        assert(rest@ =~= all.skip(0));
        assert(all.len() == rest.len());
        while rest.len() > 0
            invariant
                c.wf(),
                all.len() <= usize::MAX,
                done + rest@.len() == all.len(),
                forall|i: int| 0 <= i < all.len() ==> (#[trigger] all[i]).wf(),
                c.entries@ == upserted_all(all.take(done as int)),
                rest@ == all.skip(done as int),
            decreases rest@.len(),
        {
            let e = rest.remove(0);
            proof {
                assert(e == all[done as int]);
                assert(all.take(done + 1).drop_last() =~= all.take(done as int));
                assert(rest@ =~= all.skip(done + 1));
            }
            c.add(e);
            done += 1;
        }
        assert(all.take(done as int) =~= all);
        c
    }

    /// Stores `entry` under its id, replacing an entry with that id.
    pub fn add(&mut self, entry: Entry)
        requires
            old(self).wf(),
            entry.wf(),
        ensures
            final(self).entries@ == upserted(old(self).entries@, entry),
            final(self).wf(),
    {
        proof {
            lemma_upserted_sorted(self.entries@, entry);
            lemma_upserted_keeps_wf(self.entries@, entry);
        }
        upsert(&mut self.entries, entry);
    }

    /// The entry with the given id, if there is one.
    pub fn get(&self, id: &str) -> (r: Option<&Entry>)
        requires
            self.wf(),
        ensures
            r is Some <==> has_key(self.entries@, id@),
            r is Some ==> r->0.id@ == id@ && self.entries@.contains(*r->0),
    {
        proof {
            lemma_lookup_sorted(self.entries@, id@);
        }
        match position(&self.entries, id) {
            Some(p) => {
                assert(self.entries@.contains(self.entries@[p as int]));
                Some(&self.entries[p])
            },
            None => None,
        }
    }

    /// The entry with the given id, if there is one, to change in place.
    /// The configuration stays well formed where the change keeps the id
    /// and the entry well formed.
    pub fn get_mut(&mut self, id: &str) -> (r: Option<&mut Entry>)
        requires
            old(self).wf(),
        ensures
            r is Some <==> has_key(old(self).entries@, id@),
            r is Some ==> ({
                let p = slot(old(self).entries@, id@) as int;
                &&& p < old(self).entries@.len()
                &&& old(self).entries@[p].id@ == id@
                &&& *r->0 == old(self).entries@[p]
                &&& final(self).entries@ == old(self).entries@.update(p, *final(r->0))
            }),
            r is None ==> final(self).entries@ == old(self).entries@,
    {
        proof {
            lemma_lookup_sorted(self.entries@, id@);
        }
        match position(&self.entries, id) {
            Some(p) => Some(&mut self.entries[p]),
            None => None,
        }
    }

    /// Removes the entry with the given id, if there is one.
    pub fn remove(&mut self, id: &str)
        requires
            old(self).wf(),
        ensures
            final(self).entries@ == removed(old(self).entries@, id@),
            final(self).wf(),
    {
        proof {
            lemma_removed_sorted(self.entries@, id@);
            lemma_removed_keeps_wf(self.entries@, id@);
        }
        remove_key(&mut self.entries, id);
    }

    /// The index fragment: each entry's block in id order, each block
    /// listing the entry's doc sections in name order.
    pub fn into_html(&self) -> (r: String)
        ensures
            r@ == entries_html(self.entries@),
    {
        render_entries(&self.entries)
    }
}

proof fn lemma_upserted_keeps_wf(s: Seq<Entry>, x: Entry)
    requires
        forall|i: int| 0 <= i < s.len() ==> (#[trigger] s[i]).wf(),
        x.wf(),
    ensures
        forall|i: int| 0 <= i < upserted(s, x).len() ==> (#[trigger] upserted(s, x)[i]).wf(),
{
    let r = upserted(s, x);
    let p = slot(s, x.key()) as int;
    lemma_slot_bounds(s, x.key());
    assert forall|i: int| 0 <= i < r.len() implies (#[trigger] r[i]).wf() by {
        if i > p {
            if !found_at_slot(s, x.key()) {
                assert(r[i] == s[i - 1]);
            }
        }
    }
}

proof fn lemma_removed_keeps_wf(s: Seq<Entry>, k: Seq<char>)
    requires
        forall|i: int| 0 <= i < s.len() ==> (#[trigger] s[i]).wf(),
    ensures
        forall|i: int| 0 <= i < removed(s, k).len() ==> (#[trigger] removed(s, k)[i]).wf(),
{
    let r = removed(s, k);
    let p = slot(s, k) as int;
    lemma_slot_bounds(s, k);
    assert forall|i: int| 0 <= i < r.len() implies (#[trigger] r[i]).wf() by {
        if i >= p && found_at_slot(s, k) {
            assert(r[i] == s[i + 1]);
        }
    }
}

} // verus!
