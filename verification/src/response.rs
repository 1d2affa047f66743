//! What the response to a request for two revisions holds.

use crate::change::ChangeView;
use crate::diff_rules::{revision_changes, DiffContext};
use crate::json::{json_text_value, JsonView, Members};
use crate::text::decimal_text;
use crate::wdrc::{item_id_of, SyncError};
use crate::RevisionId;
use vstd::prelude::*;

verus! {

/// The revisions that one page of a response lists.
pub open spec fn page_revisions() -> spec_fn((Seq<char>, JsonView)) -> Seq<JsonView> {
    |page: (Seq<char>, JsonView)| page.1.array_field("revisions"@)
}

/// The revisions that the pages list, page after page.
pub open spec fn revisions_of_pages(pages: Members) -> Seq<JsonView> {
    pages.map_values(page_revisions()).flatten()
}

/// The revisions that a response lists: those of the pages of its query;
/// none where it has no query.
pub open spec fn listed_revisions(response: JsonView) -> Seq<JsonView> {
    match response.get("query"@) {
        Some(query) => revisions_of_pages(query.object_field("pages"@)),
        None => Seq::empty(),
    }
}

/// The content of the main slot of a listed revision, where it has one
/// that is a string.
pub open spec fn slot_text(revision: JsonView) -> Option<Seq<char>> {
    match revision.get("slots"@) {
        Some(slots) => match slots.get("main"@) {
            Some(main) => main.text_field("*"@),
            None => None,
        },
        None => None,
    }
}

/// The number of a listed revision.
pub open spec fn revision_number(revision: JsonView) -> Option<RevisionId> {
    match revision.get("revid"@) {
        Some(id) => id.as_u64(),
        None => None,
    }
}

/// The number and the content of a listed revision, where its number is
/// one of the two asked for and it has a content.
pub open spec fn wanted_slot(old: RevisionId, new: RevisionId, revision: JsonView) -> Option<
    (RevisionId, Seq<char>),
> {
    match revision_number(revision) {
        Some(id) => if id == old || id == new {
            match slot_text(revision) {
                Some(text) => Some((id, text)),
                None => None,
            }
        } else {
            None
        },
        None => None,
    }
}

/// What a listed revision adds to the documents: its number with the tree
/// that its content writes, where the number is one of the two asked for
/// and the content is JSON; else nothing.
pub open spec fn revision_entry(old: RevisionId, new: RevisionId, revision: JsonView) -> Option<
    (RevisionId, JsonView),
> {
    match wanted_slot(old, new, revision) {
        Some(slot) => match json_text_value(slot.1) {
            Some(document) => Some((slot.0, document)),
            None => None,
        },
        None => None,
    }
}

/// [`revision_entry`] as a function of the revision.
pub open spec fn revision_rule(old: RevisionId, new: RevisionId) -> spec_fn(JsonView) -> Option<
    (RevisionId, JsonView),
> {
    |revision: JsonView| revision_entry(old, new, revision)
}

/// The documents of the two revisions asked for that a response holds, in
/// the order in which it lists them.
pub open spec fn extracted_revisions(old: RevisionId, new: RevisionId, response: JsonView) -> Seq<
    (RevisionId, JsonView),
> {
    listed_revisions(response).filter_map(revision_rule(old, new))
}

/// The document of a revision among those extracted: the one listed last
/// under its number.
pub open spec fn document_of(documents: Seq<(RevisionId, JsonView)>, id: RevisionId) -> Option<
    JsonView,
>
    decreases documents.len(),
{
    if documents.len() == 0 {
        None
    } else if documents.last().0 == id {
        Some(documents.last().1)
    } else {
        document_of(documents.drop_last(), id)
    }
}

/// What comparing two revisions of an item comes to, given the response to
/// the request for them (none where the response could not be read): the
/// changes between the two documents, or the reason why there are none.
pub open spec fn run_outcome(
    q: Seq<char>,
    old: RevisionId,
    new: RevisionId,
    timestamp: Seq<char>,
    response: Option<JsonView>,
) -> Result<Seq<ChangeView>, SyncError> {
    match item_id_of(q) {
        None => Err(SyncError::InvalidIdentifier),
        Some(item_id) => match response {
            None => Err(SyncError::RevisionFetch),
            Some(response) => {
                let documents = extracted_revisions(old, new, response);
                match document_of(documents, old) {
                    None => Err(SyncError::RevisionFetch),
                    Some(rev_old) => match document_of(documents, new) {
                        None => Err(SyncError::RevisionFetch),
                        Some(rev_new) => Ok(
                            revision_changes(
                                DiffContext { item_id, revision_id: new, timestamp },
                                rev_old,
                                rev_new,
                            ),
                        ),
                    },
                }
            },
        },
    }
}

/// The comparison after a run: set to the item, the newer revision and the
/// time where the item's identifier is valid, else as it was.
pub open spec fn context_after(
    before: DiffContext,
    q: Seq<char>,
    new: RevisionId,
    timestamp: Seq<char>,
) -> DiffContext {
    match item_id_of(q) {
        Some(item_id) => DiffContext { item_id, revision_id: new, timestamp },
        None => before,
    }
}

/// The address that the two revisions of an item are asked for at.
pub open spec fn revisions_url(q: Seq<char>, old: RevisionId, new: RevisionId) -> Seq<char> {
    "https://www.wikidata.org/w/api.php?action=query&prop=revisions&titles="@ + q
        + "&rvprop=ids|content&rvstartid="@ + decimal_text(new as nat) + "&rvendid="@
        + decimal_text(old as nat) + "&rvslots=main&format=json"@
}

} // verus!
