//! The configuration subcommands: what each one does to a configuration.
//!
//! Reading the file before and writing it after are left to the caller; this
//! module decides the one change that a subcommand makes.
use crate::keys::{has_key, key_lt, removed, slot, sorted, upserted, Keyed};
use crate::svc::{link_of, Config, DocSection, DocSectionLink, Entry};
use vstd::prelude::*;

verus! {

/// A configuration subcommand.
#[derive(Debug, Clone, PartialEq, Eq)]
pub enum ConfigAction {
    /// List all services.
    List,
    /// Show one service.
    Show { id: String },
    /// Add a service, replacing one with the same id.
    Add { id: String, title: String, description: String },
    /// Add a doc section to a service.
    AddSection { id: String, section: String, title: String, url: Option<String> },
    /// Remove a doc section from a service.
    RemoveSection { id: String, section: String },
    /// Remove a service.
    Remove { id: String },
}

/// Why a subcommand could not be carried out.
#[derive(Debug, Clone, PartialEq, Eq)]
pub enum ActionError {
    /// No service has this id.
    NotFound { id: String },
}

impl ActionError {
    /// A one-line message for the user.
    pub fn message(&self) -> (r: String)
        ensures
            r@ == (match self {
                ActionError::NotFound { id } => "service not found: "@ + id@,
            }),
    {
        match self {
            ActionError::NotFound { id } => {
                let mut m = String::from_str("service not found: ");
                m.append(id.as_str());
                m
            },
        }
    }
}

/// `new` is `old` with the doc sections of the entry with id `id` replaced
/// by `docs`, and nothing else changed.
pub open spec fn docs_replaced(
    old: Seq<Entry>,
    new: Seq<Entry>,
    id: Seq<char>,
    docs: Seq<DocSection>,
) -> bool {
    let p = slot(old, id) as int;
    &&& new.len() == old.len()
    &&& forall|i: int| 0 <= i < old.len() && i != p ==> new[i] == old[i]
    &&& new[p].id == old[p].id
    &&& new[p].title == old[p].title
    &&& new[p].description == old[p].description
    &&& new[p].docs@ == docs
}

/// The doc sections of the entry with id `id` in `s`.
pub open spec fn docs_of(s: Seq<Entry>, id: Seq<char>) -> Seq<DocSection> {
    s[slot(s, id) as int].docs@
}

/// Carries out `action` on `config`. `Ok(true)` means the configuration
/// changed and is to be saved; `Ok(false)` that it was only read. A
/// subcommand on an id that no service has fails with `NotFound` and
/// changes nothing.
pub fn apply(config: &mut Config, action: ConfigAction) -> (r: Result<bool, ActionError>)
    requires
        old(config).wf(),
    ensures
        final(config).wf(),
        match action {
            ConfigAction::List => r == Ok::<bool, ActionError>(false)
                && *final(config) == *old(config),
            ConfigAction::Show { id } => *final(config) == *old(config) && if has_key(
                old(config).entries@,
                id@,
            ) {
                r == Ok::<bool, ActionError>(false)
            } else {
                r == Err::<bool, ActionError>(ActionError::NotFound { id })
            },
            ConfigAction::Add { id, title, description } => r == Ok::<bool, ActionError>(true)
                && exists|e: Entry|
                #![trigger upserted(old(config).entries@, e)]
                e.id == id && e.title == title && e.description == description && e.docs@.len()
                    == 0 && final(config).entries@ == upserted(old(config).entries@, e),
            ConfigAction::AddSection { id, section, title, url } => if has_key(
                old(config).entries@,
                id@,
            ) {
                r == Ok::<bool, ActionError>(true) && docs_replaced(
                    old(config).entries@,
                    final(config).entries@,
                    id@,
                    upserted(
                        docs_of(old(config).entries@, id@),
                        (DocSection { section, title, link: link_of(url) }),
                    ),
                )
            } else {
                r == Err::<bool, ActionError>(ActionError::NotFound { id }) 
                    && final(config).entries@ == old(config).entries@
            },
            ConfigAction::RemoveSection { id, section } => if has_key(
                old(config).entries@,
                id@,
            ) {
                r == Ok::<bool, ActionError>(true) && docs_replaced(
                    old(config).entries@,
                    final(config).entries@,
                    id@,
                    removed(docs_of(old(config).entries@, id@), section@),
                )
            } else {
                r == Err::<bool, ActionError>(ActionError::NotFound { id }) 
                    && final(config).entries@ == old(config).entries@
            },
            ConfigAction::Remove { id } => r == Ok::<bool, ActionError>(true)
                && final(config).entries@ == removed(old(config).entries@, id@),
        },
{
    match action {
        ConfigAction::List => Ok(false),
        ConfigAction::Show { id } => {
            if config.get(id.as_str()).is_some() {
                Ok(false)
            } else {
                Err(ActionError::NotFound { id })
            }
        },
        ConfigAction::Add { id, title, description } => {
            let e = Entry::new(id, title, description);
            config.add(e);
            Ok(true)
        },
        ConfigAction::AddSection { id, section, title, url } => {
            let link = DocSectionLink::from_url_opt(&url);
            let d = DocSection { section, title, link };
            let ghost before = *config;
            match config.get_mut(id.as_str()) {
                Some(entry) => {
                    entry.add_section(d);
                    proof {
                        lemma_same_key_update(before, slot(before.entries@, id@) as int, *entry);
                    }
                    Ok(true)
                },
                None => Err(ActionError::NotFound { id }),
            }
        },
        ConfigAction::RemoveSection { id, section } => {
            let ghost before = *config;
            match config.get_mut(id.as_str()) {
                Some(entry) => {
                    entry.remove_section(section.as_str());
                    proof {
                        lemma_same_key_update(before, slot(before.entries@, id@) as int, *entry);
                    }
                    Ok(true)
                },
                None => Err(ActionError::NotFound { id }),
            }
        },
        ConfigAction::Remove { id } => {
            config.remove(id.as_str());
            Ok(true)
        },
    }
}

/// Replacing an entry by a well-formed one with the same id keeps a
/// configuration well formed.
proof fn lemma_same_key_update(c: Config, p: int, e: Entry)
    requires
        c.wf(),
        0 <= p < c.entries@.len(),
        e.id@ == c.entries@[p].id@,
        e.wf(),
    ensures
        sorted(c.entries@.update(p, e)),
        forall|i: int|
            0 <= i < c.entries@.len() ==> (#[trigger] c.entries@.update(p, e)[i]).wf(),
{
    let s = c.entries@.update(p, e);
    assert forall|i: int, j: int| 0 <= i < j < s.len() implies key_lt(
        #[trigger] s[i].key(),
        #[trigger] s[j].key(),
    ) by {
        assert(c.entries@[i].key() == s[i].key());
        assert(c.entries@[j].key() == s[j].key());
    }
}

} // verus!
