//! The rows that the records of a cycle are stored as.

use crate::change::{ChangeSubject, ChangeType, ChangeView};
use crate::recent_changes::{DeletionView, NewItemView, RedirectView};
use crate::wdrc::item_id_of;
use crate::{ItemId, RevisionId, TextId};
use vstd::prelude::*;

verus! {

/// A row of the table of claim changes.
#[derive(Debug, Clone, PartialEq)]
pub struct StatementRow {
    pub item: ItemId,
    pub revision: RevisionId,
    pub property: ItemId,
    pub timestamp: String,
    pub change_type: ChangeType,
}

/// The mathematical value of a [`StatementRow`].
pub struct StatementRowView {
    pub item: ItemId,
    pub revision: RevisionId,
    pub property: ItemId,
    pub timestamp: Seq<char>,
    pub change_type: ChangeType,
}

impl View for StatementRow {
    type V = StatementRowView;

    open spec fn view(&self) -> StatementRowView {
        StatementRowView {
            item: self.item,
            revision: self.revision,
            property: self.property,
            timestamp: self.timestamp@,
            change_type: self.change_type,
        }
    }
}

/// A row of the table of changes to labels, descriptions, aliases and
/// sitelinks. `language` is the identifier of the interned language or
/// site.
#[derive(Debug, Clone, PartialEq)]
pub struct LabelRow {
    pub item: ItemId,
    pub revision: RevisionId,
    pub subject: ChangeSubject,
    pub timestamp: String,
    pub change_type: ChangeType,
    pub language: TextId,
}

/// The mathematical value of a [`LabelRow`].
pub struct LabelRowView {
    pub item: ItemId,
    pub revision: RevisionId,
    pub subject: ChangeSubject,
    pub timestamp: Seq<char>,
    pub change_type: ChangeType,
    pub language: TextId,
}

impl View for LabelRow {
    type V = LabelRowView;

    open spec fn view(&self) -> LabelRowView {
        LabelRowView {
            item: self.item,
            revision: self.revision,
            subject: self.subject,
            timestamp: self.timestamp@,
            change_type: self.change_type,
            language: self.language,
        }
    }
}

/// The row that a change to a claim is stored as; none where the property
/// is no valid identifier.
pub open spec fn statement_row_of(change: ChangeView) -> Option<StatementRowView> {
    match item_id_of(change.property) {
        Some(property) => Some(
            StatementRowView {
                item: change.item_id,
                revision: change.revision_id,
                property,
                timestamp: change.timestamp,
                change_type: change.change_type,
            },
        ),
        None => None,
    }
}

/// The row that a change to a label, a description, an alias or a sitelink
/// is stored as, given the identifier of its language or site.
pub open spec fn label_row_of(change: ChangeView, text_id: TextId) -> LabelRowView {
    LabelRowView {
        item: change.item_id,
        revision: change.revision_id,
        subject: change.subject,
        timestamp: change.timestamp,
        change_type: change.change_type,
        language: text_id,
    }
}

/// A row of the table of redirects.
#[derive(Debug, Clone, PartialEq)]
pub struct RedirectRow {
    pub source: ItemId,
    pub target: ItemId,
    pub timestamp: String,
}

/// The mathematical value of a [`RedirectRow`].
pub struct RedirectRowView {
    pub source: ItemId,
    pub target: ItemId,
    pub timestamp: Seq<char>,
}

impl View for RedirectRow {
    type V = RedirectRowView;

    open spec fn view(&self) -> RedirectRowView {
        RedirectRowView { source: self.source, target: self.target, timestamp: self.timestamp@ }
    }
}

/// A row of the table of deletions or of the table of creations: an item
/// with the time of the event.
#[derive(Debug, Clone, PartialEq)]
pub struct ItemRow {
    pub q: ItemId,
    pub timestamp: String,
}

/// The mathematical value of an [`ItemRow`].
pub struct ItemRowView {
    pub q: ItemId,
    pub timestamp: Seq<char>,
}

impl View for ItemRow {
    type V = ItemRowView;

    open spec fn view(&self) -> ItemRowView {
        ItemRowView { q: self.q, timestamp: self.timestamp@ }
    }
}

/// The values of a list of redirect rows.
pub open spec fn redirect_rows_view(rows: Seq<RedirectRow>) -> Seq<RedirectRowView> {
    Seq::new(rows.len(), |i: int| rows[i]@)
}

/// The values of a list of item rows.
pub open spec fn item_rows_view(rows: Seq<ItemRow>) -> Seq<ItemRowView> {
    Seq::new(rows.len(), |i: int| rows[i]@)
}

/// The values of a list of statement rows.
pub open spec fn statement_rows_view(rows: Seq<StatementRow>) -> Seq<StatementRowView> {
    Seq::new(rows.len(), |i: int| rows[i]@)
}

/// The values of a list of label rows.
pub open spec fn label_rows_view(rows: Seq<LabelRow>) -> Seq<LabelRowView> {
    Seq::new(rows.len(), |i: int| rows[i]@)
}

/// The row that a redirect is stored as; none where its source or its
/// target is no valid identifier.
pub open spec fn redirect_row_of(redirect: RedirectView) -> Option<RedirectRowView> {
    match item_id_of(redirect.source) {
        Some(source) => match item_id_of(redirect.target) {
            Some(target) => Some(
                RedirectRowView { source, target, timestamp: redirect.timestamp },
            ),
            None => None,
        },
        None => None,
    }
}

/// [`redirect_row_of`] as a function.
pub open spec fn redirect_rule() -> spec_fn(RedirectView) -> Option<RedirectRowView> {
    |redirect: RedirectView| redirect_row_of(redirect)
}

/// The timestamps of a list of redirect rows.
pub open spec fn redirect_stamps(rows: Seq<RedirectRowView>) -> Seq<Seq<char>> {
    Seq::new(rows.len(), |i: int| rows[i].timestamp)
}

/// The row that a deletion is stored as; none where its item is no valid
/// identifier.
pub open spec fn deletion_row_of(deletion: DeletionView) -> Option<ItemRowView> {
    match item_id_of(deletion.q) {
        Some(q) => Some(ItemRowView { q, timestamp: deletion.timestamp }),
        None => None,
    }
}

/// [`deletion_row_of`] as a function.
pub open spec fn deletion_rule() -> spec_fn(DeletionView) -> Option<ItemRowView> {
    |deletion: DeletionView| deletion_row_of(deletion)
}

/// The timestamps of a list of item rows.
pub open spec fn item_stamps(rows: Seq<ItemRowView>) -> Seq<Seq<char>> {
    Seq::new(rows.len(), |i: int| rows[i].timestamp)
}

/// The row that a new item is stored as; none where its item is no valid
/// identifier.
pub open spec fn creation_row_of(item: NewItemView) -> Option<ItemRowView> {
    match item_id_of(item.q) {
        Some(q) => Some(ItemRowView { q, timestamp: item.timestamp }),
        None => None,
    }
}

/// [`creation_row_of`] as a function.
pub open spec fn creation_rule() -> spec_fn(NewItemView) -> Option<ItemRowView> {
    |item: NewItemView| creation_row_of(item)
}

/// The row of a change where it is one to a claim and its property is a
/// valid identifier.
pub open spec fn claim_row_rule() -> spec_fn(ChangeView) -> Option<StatementRowView> {
    |change: ChangeView|
        if change.subject == ChangeSubject::Claims {
            statement_row_of(change)
        } else {
            None
        }
}

/// The text that a change is stored under: its site for a sitelink, its
/// language for a label, a description or an alias. A change to a claim has
/// none. `sitelinks` says which of the two kinds is asked for.
pub open spec fn interned_text(change: ChangeView, sitelinks: bool) -> Option<Seq<char>> {
    match change.subject {
        ChangeSubject::Sitelinks => if sitelinks {
            Some(change.site)
        } else {
            None
        },
        ChangeSubject::Claims => None,
        _ => if sitelinks {
            None
        } else {
            Some(change.language)
        },
    }
}

/// The identifier that the cache has for a text.
pub open spec fn cached_id(texts: Map<Seq<char>, TextId>, text: Seq<char>) -> Option<TextId> {
    if texts.contains_key(text) {
        Some(texts[text])
    } else {
        None
    }
}

/// The row of a change of the kind asked for whose text the cache has.
pub open spec fn label_row_rule(texts: Map<Seq<char>, TextId>, sitelinks: bool) -> spec_fn(
    ChangeView,
) -> Option<LabelRowView> {
    |change: ChangeView|
        match interned_text(change, sitelinks) {
            Some(text) => match cached_id(texts, text) {
                Some(id) => Some(label_row_of(change, id)),
                None => None,
            },
            None => None,
        }
}

/// The text of a change of the kind asked for that the cache lacks.
pub open spec fn missing_text_rule(texts: Map<Seq<char>, TextId>, sitelinks: bool) -> spec_fn(
    ChangeView,
) -> Option<Seq<char>> {
    |change: ChangeView|
        match interned_text(change, sitelinks) {
            Some(text) => if texts.contains_key(text) {
                None
            } else {
                Some(text)
            },
            None => None,
        }
}

} // verus!
