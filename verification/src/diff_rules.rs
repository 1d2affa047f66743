//! What the diff of two revision documents yields, section by section.

use crate::change::{ChangeSubject, ChangeType, ChangeView};
use crate::json::{has_key, lookup, JsonView, Members};
use crate::text::distinct;
use crate::{ItemId, RevisionId};
use vstd::prelude::*;

verus! {

/// What every record of one diff carries: the item, the newer revision and
/// the time of the event.
pub struct DiffContext {
    pub item_id: ItemId,
    pub revision_id: RevisionId,
    pub timestamp: Seq<char>,
}

/// The key of the text of an entry: sitelinks keep it as their title, the
/// terms of a language as their value.
pub open spec fn text_key(sitelink: bool) -> Seq<char> {
    if sitelink {
        "title"@
    } else {
        "value"@
    }
}

/// The record of a change to the text kept under `key`. A sitelink carries
/// the key as its site and the text as its title; any other subject carries
/// them as language and text.
pub open spec fn keyed_record(
    ctx: DiffContext,
    subject: ChangeSubject,
    sitelink: bool,
    change_type: ChangeType,
    key: Seq<char>,
    text: Seq<char>,
) -> ChangeView {
    ChangeView {
        subject,
        change_type,
        language: if sitelink {
            Seq::empty()
        } else {
            key
        },
        text: if sitelink {
            Seq::empty()
        } else {
            text
        },
        site: if sitelink {
            key
        } else {
            Seq::empty()
        },
        title: if sitelink {
            text
        } else {
            Seq::empty()
        },
        property: Seq::empty(),
        id: Seq::empty(),
        item_id: ctx.item_id,
        revision_id: ctx.revision_id,
        timestamp: ctx.timestamp,
    }
}

/// What an entry of the old section yields: nothing where it has no text;
/// `Removed` with its text where the new section lacks its key; `Changed`
/// with the new text where the new section has another text under the key;
/// nothing where the new text is the same or is missing.
pub open spec fn change_of_old_entry(
    ctx: DiffContext,
    subject: ChangeSubject,
    sitelink: bool,
    entry: (Seq<char>, JsonView),
    new: Members,
) -> Option<ChangeView> {
    match entry.1.text_field(text_key(sitelink)) {
        None => None,
        Some(text) => match lookup(new, entry.0) {
            None => Some(
                keyed_record(ctx, subject, sitelink, ChangeType::Removed, entry.0, text),
            ),
            Some(other) => match other.text_field(text_key(sitelink)) {
                None => None,
                Some(new_text) => if text != new_text {
                    Some(
                        keyed_record(
                            ctx,
                            subject,
                            sitelink,
                            ChangeType::Changed,
                            entry.0,
                            new_text,
                        ),
                    )
                } else {
                    None
                },
            },
        },
    }
}

/// What an entry of the new section yields: `Added` with its text where
/// the old section lacks its key and the entry has a text, else nothing.
pub open spec fn change_of_new_entry(
    ctx: DiffContext,
    subject: ChangeSubject,
    sitelink: bool,
    entry: (Seq<char>, JsonView),
    old: Members,
) -> Option<ChangeView> {
    if has_key(old, entry.0) {
        None
    } else {
        match entry.1.text_field(text_key(sitelink)) {
            None => None,
            Some(text) => Some(
                keyed_record(ctx, subject, sitelink, ChangeType::Added, entry.0, text),
            ),
        }
    }
}

/// [`change_of_old_entry`] as a function of the entry.
pub open spec fn old_entry_rule(
    ctx: DiffContext,
    subject: ChangeSubject,
    sitelink: bool,
    new: Members,
) -> spec_fn((Seq<char>, JsonView)) -> Option<ChangeView> {
    |entry: (Seq<char>, JsonView)| change_of_old_entry(ctx, subject, sitelink, entry, new)
}

/// [`change_of_new_entry`] as a function of the entry.
pub open spec fn new_entry_rule(
    ctx: DiffContext,
    subject: ChangeSubject,
    sitelink: bool,
    old: Members,
) -> spec_fn((Seq<char>, JsonView)) -> Option<ChangeView> {
    |entry: (Seq<char>, JsonView)| change_of_new_entry(ctx, subject, sitelink, entry, old)
}

/// The changes between two sections that keep one text per key: first what
/// the old entries yield, in their order, then what the new entries yield.
pub open spec fn keyed_changes(
    ctx: DiffContext,
    subject: ChangeSubject,
    sitelink: bool,
    old: Members,
    new: Members,
) -> Seq<ChangeView> {
    old.filter_map(old_entry_rule(ctx, subject, sitelink, new)) + new.filter_map(
        new_entry_rule(ctx, subject, sitelink, old),
    )
}

/// The record of a change to a claim of a property.
pub open spec fn claim_record(
    ctx: DiffContext,
    change_type: ChangeType,
    property: Seq<char>,
    id: Seq<char>,
) -> ChangeView {
    ChangeView {
        subject: ChangeSubject::Claims,
        change_type,
        language: Seq::empty(),
        text: Seq::empty(),
        site: Seq::empty(),
        title: Seq::empty(),
        property,
        id,
        item_id: ctx.item_id,
        revision_id: ctx.revision_id,
        timestamp: ctx.timestamp,
    }
}

/// A claim together with the property that it stands under.
pub type PropertyClaim = (Seq<char>, JsonView);

/// The claims listed under one property, each with that property.
pub open spec fn claims_under(property: Seq<char>, claims: Seq<JsonView>) -> Seq<PropertyClaim> {
    Seq::new(claims.len(), |i: int| (property, claims[i]))
}

/// The claims that one member of a claims section lists: the items of its
/// array, or none where its value is no array.
pub open spec fn member_claims() -> spec_fn((Seq<char>, JsonView)) -> Seq<PropertyClaim> {
    |member: (Seq<char>, JsonView)| claims_under(member.0, member.1.items())
}

/// All claims of a claims section: property after property, and under each
/// property in the order of its list.
pub open spec fn claims_of(section: Members) -> Seq<PropertyClaim> {
    section.map_values(member_claims()).flatten()
}

/// The identifier of a claim: the string under its key `id`.
pub open spec fn claim_id(claim: JsonView) -> Option<Seq<char>> {
    claim.text_field("id"@)
}

/// The first claim with the given identifier, whatever its property.
pub open spec fn find_claim(claims: Seq<PropertyClaim>, id: Seq<char>) -> Option<JsonView>
    decreases claims.len(),
{
    if claims.len() == 0 {
        None
    } else if claim_id(claims[0].1) == Some(id) {
        Some(claims[0].1)
    } else {
        find_claim(claims.drop_first(), id)
    }
}

/// What a claim of the old revision yields: nothing where it has no
/// identifier; `Removed` where the new revision has no claim of that
/// identifier; `Changed` where the new revision's claim of that identifier
/// differs from it anywhere; nothing where the two are the same.
pub open spec fn change_of_old_claim(
    ctx: DiffContext,
    entry: PropertyClaim,
    new_claims: Seq<PropertyClaim>,
) -> Option<ChangeView> {
    match claim_id(entry.1) {
        None => None,
        Some(id) => match find_claim(new_claims, id) {
            None => Some(claim_record(ctx, ChangeType::Removed, entry.0, id)),
            Some(other) => if entry.1 != other {
                Some(claim_record(ctx, ChangeType::Changed, entry.0, id))
            } else {
                None
            },
        },
    }
}

/// What a claim of the new revision yields: `Added` where it has an
/// identifier that no claim of the old revision has, else nothing.
pub open spec fn change_of_new_claim(
    ctx: DiffContext,
    entry: PropertyClaim,
    old_claims: Seq<PropertyClaim>,
) -> Option<ChangeView> {
    match claim_id(entry.1) {
        None => None,
        Some(id) => if find_claim(old_claims, id) is None {
            Some(claim_record(ctx, ChangeType::Added, entry.0, id))
        } else {
            None
        },
    }
}

/// [`change_of_old_claim`] as a function of the claim.
pub open spec fn old_claim_rule(ctx: DiffContext, new_claims: Seq<PropertyClaim>) -> spec_fn(
    PropertyClaim,
) -> Option<ChangeView> {
    |entry: PropertyClaim| change_of_old_claim(ctx, entry, new_claims)
}

/// [`change_of_new_claim`] as a function of the claim.
pub open spec fn new_claim_rule(ctx: DiffContext, old_claims: Seq<PropertyClaim>) -> spec_fn(
    PropertyClaim,
) -> Option<ChangeView> {
    |entry: PropertyClaim| change_of_new_claim(ctx, entry, old_claims)
}

/// The changes between two claims sections: first what the old claims
/// yield, in their order, then what the new claims yield.
pub open spec fn claim_changes(ctx: DiffContext, old: Members, new: Members) -> Seq<ChangeView> {
    claims_of(old).filter_map(old_claim_rule(ctx, claims_of(new))) + claims_of(new).filter_map(
        new_claim_rule(ctx, claims_of(old)),
    )
}

/// The first claim with an identifier is the one that `find_claim` finds.
pub proof fn lemma_find_claim_found(claims: Seq<PropertyClaim>, id: Seq<char>, i: int)
    requires
        0 <= i < claims.len(),
        claim_id(claims[i].1) == Some(id),
        forall|j: int| 0 <= j < i ==> claim_id((#[trigger] claims[j]).1) != Some(id),
    ensures
        find_claim(claims, id) == Some(claims[i].1),
    decreases i,
{
    if i > 0 {
        let rest = claims.drop_first();
        assert(claim_id(claims[0].1) != Some(id));
        assert forall|j: int| 0 <= j < i - 1 implies claim_id((#[trigger] rest[j]).1) != Some(
            id,
        ) by {
            assert(rest[j] == claims[j + 1]);
        }
        lemma_find_claim_found(rest, id, i - 1);
    }
}

/// `find_claim` finds nothing where no claim has the identifier.
pub proof fn lemma_find_claim_none(claims: Seq<PropertyClaim>, id: Seq<char>)
    requires
        forall|j: int| 0 <= j < claims.len() ==> claim_id((#[trigger] claims[j]).1) != Some(id),
    ensures
        find_claim(claims, id) is None,
    decreases claims.len(),
{
    if claims.len() > 0 {
        let rest = claims.drop_first();
        assert(claim_id(claims[0].1) != Some(id));
        assert forall|j: int| 0 <= j < rest.len() implies claim_id((#[trigger] rest[j]).1)
            != Some(id) by {
            assert(rest[j] == claims[j + 1]);
        }
        lemma_find_claim_none(rest, id);
    }
}

/// The text of one entry of a list of aliases.
pub open spec fn alias_text() -> spec_fn(JsonView) -> Option<Seq<char>> {
    |entry: JsonView| entry.text_field("value"@)
}

/// The aliases of a language in an aliases section: the texts of the list
/// under the language, entries without a text left out; none where the
/// language is missing or holds no list.
pub open spec fn aliases_in(section: Members, language: Seq<char>) -> Seq<Seq<char>> {
    match lookup(section, language) {
        Some(list) => list.items().filter_map(alias_text()),
        None => Seq::empty(),
    }
}

/// The record for an alias that the other list lacks; nothing for one that
/// the other list holds anywhere.
pub open spec fn missing_alias_rule(
    ctx: DiffContext,
    change_type: ChangeType,
    language: Seq<char>,
    others: Seq<Seq<char>>,
) -> spec_fn(Seq<char>) -> Option<ChangeView> {
    |alias: Seq<char>|
        if others.contains(alias) {
            None
        } else {
            Some(keyed_record(ctx, ChangeSubject::Aliases, false, change_type, language, alias))
        }
}

/// The changes between the aliases of one language: none where the two
/// lists are the same; else `Removed` for each old alias that the new list
/// lacks, then `Added` for each new alias that the old list lacks.
pub open spec fn alias_changes_in_language(
    ctx: DiffContext,
    language: Seq<char>,
    old: Seq<Seq<char>>,
    new: Seq<Seq<char>>,
) -> Seq<ChangeView> {
    if old == new {
        Seq::empty()
    } else {
        old.filter_map(missing_alias_rule(ctx, ChangeType::Removed, language, new))
            + new.filter_map(missing_alias_rule(ctx, ChangeType::Added, language, old))
    }
}

/// The keys of a section, in order.
pub open spec fn keys_of(section: Members) -> Seq<Seq<char>> {
    Seq::new(section.len(), |i: int| section[i].0)
}

/// The languages of two aliases sections: those of the old one, then those
/// that only the new one has, each once.
pub open spec fn alias_languages(old: Members, new: Members) -> Seq<Seq<char>> {
    distinct(keys_of(old) + keys_of(new))
}

/// The changes between the aliases of a language in two sections.
pub open spec fn language_alias_rule(ctx: DiffContext, old: Members, new: Members) -> spec_fn(
    Seq<char>,
) -> Seq<ChangeView> {
    |language: Seq<char>|
        alias_changes_in_language(
            ctx,
            language,
            aliases_in(old, language),
            aliases_in(new, language),
        )
}

/// The changes between two aliases sections, language after language.
pub open spec fn alias_changes(ctx: DiffContext, old: Members, new: Members) -> Seq<ChangeView> {
    alias_languages(old, new).map_values(language_alias_rule(ctx, old, new)).flatten()
}

/// All changes between two revision documents: those of the labels, the
/// descriptions, the aliases, the claims and the sitelinks, in this order.
/// A section that a document lacks counts as empty.
pub open spec fn revision_changes(ctx: DiffContext, old: JsonView, new: JsonView) -> Seq<
    ChangeView,
> {
    keyed_changes(
        ctx,
        ChangeSubject::Labels,
        false,
        old.object_field("labels"@),
        new.object_field("labels"@),
    ) + keyed_changes(
        ctx,
        ChangeSubject::Descriptions,
        false,
        old.object_field("descriptions"@),
        new.object_field("descriptions"@),
    ) + alias_changes(ctx, old.object_field("aliases"@), new.object_field("aliases"@))
        + claim_changes(ctx, old.object_field("claims"@), new.object_field("claims"@))
        + keyed_changes(
        ctx,
        ChangeSubject::Sitelinks,
        true,
        old.object_field("sitelinks"@),
        new.object_field("sitelinks"@),
    )
}

} // verus!
