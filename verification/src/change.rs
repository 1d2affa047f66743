//! Change records: what the diff of two revisions yields.

use crate::rows::{label_row_of, statement_row_of, LabelRow, StatementRow};
use crate::wdrc::{SyncError, WdRc};
use crate::{ItemId, RevisionId, TextId};
use vstd::prelude::*;

verus! {

/// The part of an item that a change is about.
#[derive(Debug, Clone, Copy, PartialEq, Eq, Structural)]
pub enum ChangeSubject {
    Labels,
    Descriptions,
    Sitelinks,
    Aliases,
    Claims,
}

impl ChangeSubject {
    /// The name of the subject, which is also the key of its section in a
    /// revision document.
    pub open spec fn name(self) -> Seq<char> {
        match self {
            ChangeSubject::Labels => "labels"@,
            ChangeSubject::Descriptions => "descriptions"@,
            ChangeSubject::Aliases => "aliases"@,
            ChangeSubject::Claims => "claims"@,
            ChangeSubject::Sitelinks => "sitelinks"@,
        }
    }

    pub fn as_str(&self) -> (r: &'static str)
        ensures
            r@ == self.name(),
    {
        match self {
            ChangeSubject::Labels => "labels",
            ChangeSubject::Descriptions => "descriptions",
            ChangeSubject::Aliases => "aliases",
            ChangeSubject::Claims => "claims",
            ChangeSubject::Sitelinks => "sitelinks",
        }
    }
}

impl Default for ChangeSubject {
    fn default() -> (r: ChangeSubject)
        ensures
            r == ChangeSubject::Labels,
    {
        ChangeSubject::Labels
    }
}

/// What happened to the subject.
#[derive(Debug, Clone, Copy, PartialEq, Eq, Structural)]
pub enum ChangeType {
    Changed,
    Removed,
    Added,
}

impl ChangeType {
    /// The name of the kind of change.
    pub open spec fn name(self) -> Seq<char> {
        match self {
            ChangeType::Changed => "changed"@,
            ChangeType::Removed => "removed"@,
            ChangeType::Added => "added"@,
        }
    }

    pub fn as_str(&self) -> (r: &'static str)
        ensures
            r@ == self.name(),
    {
        match self {
            ChangeType::Changed => "changed",
            ChangeType::Removed => "removed",
            ChangeType::Added => "added",
        }
    }
}

impl Default for ChangeType {
    fn default() -> (r: ChangeType)
        ensures
            r == ChangeType::Changed,
    {
        ChangeType::Changed
    }
}

/// One change between two revisions of an item. Labels, descriptions and
/// aliases fill `language` and `text`; sitelinks fill `site` and `title`;
/// claims fill `property` and `id`. The other texts are empty.
#[derive(Debug, Clone, PartialEq)]
pub struct Change {
    pub subject: ChangeSubject,
    pub change_type: ChangeType,
    pub language: String,
    pub text: String,
    pub site: String,
    pub title: String,
    pub property: String,
    pub id: String,
    pub item_id: ItemId,
    pub revision_id: RevisionId,
    pub timestamp: String,
}

/// The mathematical value of a [`Change`].
pub struct ChangeView {
    pub subject: ChangeSubject,
    pub change_type: ChangeType,
    pub language: Seq<char>,
    pub text: Seq<char>,
    pub site: Seq<char>,
    pub title: Seq<char>,
    pub property: Seq<char>,
    pub id: Seq<char>,
    pub item_id: ItemId,
    pub revision_id: RevisionId,
    pub timestamp: Seq<char>,
}

impl View for Change {
    type V = ChangeView;

    open spec fn view(&self) -> ChangeView {
        ChangeView {
            subject: self.subject,
            change_type: self.change_type,
            language: self.language@,
            text: self.text@,
            site: self.site@,
            title: self.title@,
            property: self.property@,
            id: self.id@,
            item_id: self.item_id,
            revision_id: self.revision_id,
            timestamp: self.timestamp@,
        }
    }
}

/// The values of a list of changes.
pub open spec fn changes_view(changes: Seq<Change>) -> Seq<ChangeView> {
    Seq::new(changes.len(), |i: int| changes[i]@)
}

/// The record with nothing filled in: a change of labels, with empty texts
/// and the identifiers at zero.
pub open spec fn blank_change() -> ChangeView {
    ChangeView {
        subject: ChangeSubject::Labels,
        change_type: ChangeType::Changed,
        language: Seq::empty(),
        text: Seq::empty(),
        site: Seq::empty(),
        title: Seq::empty(),
        property: Seq::empty(),
        id: Seq::empty(),
        item_id: 0,
        revision_id: 0,
        timestamp: Seq::empty(),
    }
}

impl Default for Change {
    fn default() -> (r: Change)
        ensures
            r@ == blank_change(),
    {
        Change {
            subject: ChangeSubject::Labels,
            change_type: ChangeType::Changed,
            language: String::new(),
            text: String::new(),
            site: String::new(),
            title: String::new(),
            property: String::new(),
            id: String::new(),
            item_id: 0,
            revision_id: 0,
            timestamp: String::new(),
        }
    }
}

impl Change {
    /// The row to store for a change to a claim, or `InvalidIdentifier`
    /// where the property has no number.
    pub fn log_statement_change(&self) -> (r: Result<StatementRow, SyncError>)
        ensures
            match statement_row_of(self@) {
                Some(row) => r is Ok && r->Ok_0@ == row,
                None => r == Err::<StatementRow, SyncError>(SyncError::InvalidIdentifier),
            },
    {
        match WdRc::make_id_numeric(self.property.as_str()) {
            Ok(property) => Ok(
                StatementRow {
                    item: self.item_id,
                    revision: self.revision_id,
                    property,
                    timestamp: self.timestamp.clone(),
                    change_type: self.change_type,
                },
            ),
            Err(e) => Err(e),
        }
    }

    /// The row to store for a change to a label, a description, an alias
    /// or a sitelink.
    pub fn log_label_change(&self, text_id: TextId) -> (r: LabelRow)
        ensures
            r@ == label_row_of(self@, text_id),
    {
        LabelRow {
            item: self.item_id,
            revision: self.revision_id,
            subject: self.subject,
            timestamp: self.timestamp.clone(),
            change_type: self.change_type,
            language: text_id,
        }
    }
}

/// Appending a change to a list appends its value to the list's value.
pub proof fn lemma_changes_view_push(changes: Seq<Change>, change: Change)
    ensures
        changes_view(changes.push(change)) == changes_view(changes).push(change@),
{
    assert(changes_view(changes.push(change)) =~= changes_view(changes).push(change@));
}

/// The values of two lists of changes, one after the other, are the value
/// of the joined list.
pub proof fn lemma_changes_view_concat(a: Seq<Change>, b: Seq<Change>)
    ensures
        changes_view(a + b) == changes_view(a) + changes_view(b),
{
    assert(changes_view(a + b) =~= changes_view(a) + changes_view(b));
}

} // verus!
