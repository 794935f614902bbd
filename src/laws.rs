//! Laws of the configuration operations, stated over the functions'
//! contracts and proved.
use crate::keys::{
    lemma_each_found, lemma_lookup_removed, lemma_lookup_upserted, lemma_removed_sorted, lemma_removed_twice, lemma_upserted_all_sorted,
    lemma_upserted_sorted, lemma_upserted_twice, lookup, removed, sorted, upserted,
    upserted_all, Keyed,
};
use crate::svc::{Config, DocSection, Entry};
use vstd::prelude::*;

verus! {

/// Adding the same entry twice leaves the entries as adding it once does.
pub proof fn law_add_twice(c: Config, e: Entry)
    requires
        c.wf(),
        e.wf(),
    ensures
        upserted(upserted(c.entries@, e), e) == upserted(c.entries@, e),
{
    lemma_upserted_twice(c.entries@, e);
}

/// Removing the same id twice leaves the entries as removing it once does:
/// the second removal changes nothing.
pub proof fn law_remove_twice(c: Config, id: Seq<char>)
    requires
        c.wf(),
    ensures
        removed(removed(c.entries@, id), id) == removed(c.entries@, id),
{
    lemma_removed_twice(c.entries@, id);
}

/// After adding or removing an entry, ids are still sorted and unique, and
/// each entry is found under its own id.
pub proof fn law_entries_keyed_by_id(c: Config, e: Entry, id: Seq<char>)
    requires
        c.wf(),
        e.wf(),
    ensures
        sorted(upserted(c.entries@, e)),
        forall|i: int|
            0 <= i < upserted(c.entries@, e).len() ==> lookup(
                upserted(c.entries@, e),
                (#[trigger] upserted(c.entries@, e)[i]).id@,
            ) == Some(upserted(c.entries@, e)[i]),
        sorted(removed(c.entries@, id)),
        forall|i: int|
            0 <= i < removed(c.entries@, id).len() ==> lookup(
                removed(c.entries@, id),
                (#[trigger] removed(c.entries@, id)[i]).id@,
            ) == Some(removed(c.entries@, id)[i]),
{
    lemma_upserted_sorted(c.entries@, e);
    lemma_each_found(upserted(c.entries@, e));
    lemma_removed_sorted(c.entries@, id);
    lemma_each_found(removed(c.entries@, id));
}

/// After adding or removing a doc section, section names are still sorted
/// and unique, and each section is found under its own name.
pub proof fn law_sections_keyed_by_name(e: Entry, d: DocSection, name: Seq<char>)
    requires
        e.wf(),
    ensures
        sorted(upserted(e.docs@, d)),
        forall|i: int|
            0 <= i < upserted(e.docs@, d).len() ==> lookup(
                upserted(e.docs@, d),
                (#[trigger] upserted(e.docs@, d)[i]).section@,
            ) == Some(upserted(e.docs@, d)[i]),
        sorted(removed(e.docs@, name)),
        forall|i: int|
            0 <= i < removed(e.docs@, name).len() ==> lookup(
                removed(e.docs@, name),
                (#[trigger] removed(e.docs@, name)[i]).section@,
            ) == Some(removed(e.docs@, name)[i]),
{
    lemma_upserted_sorted(e.docs@, d);
    lemma_each_found(upserted(e.docs@, d));
    lemma_removed_sorted(e.docs@, name);
    lemma_each_found(removed(e.docs@, name));
}

/// After adding an entry, looking up its id finds it, and any other id
/// finds what it found before; after removing an id, looking it up finds
/// nothing, and any other id finds what it found before.
pub proof fn law_lookup_after_change(c: Config, e: Entry, id: Seq<char>, other: Seq<char>)
    requires
        c.wf(),
        e.wf(),
        other != e.id@,
        other != id,
    ensures
        lookup(upserted(c.entries@, e), e.id@) == Some(e),
        lookup(upserted(c.entries@, e), other) == lookup(c.entries@, other),
        lookup(removed(c.entries@, id), id) == None::<Entry>,
        lookup(removed(c.entries@, id), other) == lookup(c.entries@, other),
{
    lemma_lookup_upserted(c.entries@, e, e.id@);
    lemma_lookup_upserted(c.entries@, e, other);
    lemma_lookup_removed(c.entries@, id, id);
    lemma_lookup_removed(c.entries@, id, other);
}

/// Rebuilding a configuration from its entries, and each entry from its
/// doc sections, in the order they are stored, gives them back unchanged:
/// what a load does with what a save wrote.
pub proof fn law_rebuild_unchanged(c: Config)
    requires
        c.wf(),
    ensures
        upserted_all(c.entries@) == c.entries@,
        forall|i: int|
            0 <= i < c.entries@.len() ==> upserted_all((#[trigger] c.entries@[i]).docs@)
                == c.entries@[i].docs@,
{
    lemma_upserted_all_sorted(c.entries@);
    assert forall|i: int| 0 <= i < c.entries@.len() implies upserted_all(
        (#[trigger] c.entries@[i]).docs@,
    ) == c.entries@[i].docs@ by {
        lemma_upserted_all_sorted(c.entries@[i].docs@);
    }
}

} // verus!
