//! What the diff of two revisions says of each language, site and claim.

use crate::change::{ChangeSubject, ChangeType, ChangeView};
use crate::diff_rules::{
    alias_changes_in_language, claim_changes, claim_id, claim_record, claims_of, claims_under,
    find_claim, keyed_changes, keyed_record, member_claims, missing_alias_rule, new_claim_rule,
    new_entry_rule, old_claim_rule, old_entry_rule, text_key, DiffContext, PropertyClaim,
};
use crate::json::{
    distinct_keys, has_key, lemma_lookup_has_key, lemma_section_distinct_keys, lookup, JsonView,
    Members,
};
use vstd::prelude::*;

verus! {

/// Whether a change is about the given key: the site of a sitelink, the
/// language of any other text.
pub open spec fn about_key(sitelink: bool, key: Seq<char>) -> spec_fn(ChangeView) -> bool {
    |change: ChangeView|
        if sitelink {
            change.site == key
        } else {
            change.language == key
        }
}

/// The changes of a list that are about the given key, in their order.
pub open spec fn changes_about(changes: Seq<ChangeView>, sitelink: bool, key: Seq<char>) -> Seq<
    ChangeView,
> {
    changes.filter(about_key(sitelink, key))
}

/// The text that a section keeps under a key.
pub open spec fn text_under(members: Members, sitelink: bool, key: Seq<char>) -> Option<
    Seq<char>,
> {
    match lookup(members, key) {
        Some(entry) => entry.text_field(text_key(sitelink)),
        None => None,
    }
}

/// Nothing, or the one thing.
pub open spec fn option_seq<A>(value: Option<A>) -> Seq<A> {
    match value {
        Some(v) => seq![v],
        None => Seq::empty(),
    }
}

/// What a filter keeps of nothing and of one thing.
proof fn lemma_filter_small<A>(pred: spec_fn(A) -> bool, x: A)
    ensures
        Seq::<A>::empty().filter(pred) == Seq::<A>::empty(),
        seq![x].filter(pred) == (if pred(x) {
            seq![x]
        } else {
            Seq::<A>::empty()
        }),
{
    reveal_with_fuel(Seq::filter, 2);
    assert(seq![x].drop_last() =~= Seq::<A>::empty());
    assert(Seq::<A>::empty().push(x) =~= seq![x]);
}

/// A member at the end is found under its key where no member before it
/// has the key; under any other key the members before it decide.
proof fn lemma_lookup_push(members: Members, entry: (Seq<char>, JsonView), key: Seq<char>)
    ensures
        lookup(members.push(entry), key) == (match lookup(members, key) {
            Some(v) => Some(v),
            None => if entry.0 == key {
                Some(entry.1)
            } else {
                None
            },
        }),
    decreases members.len(),
{
    let pushed = members.push(entry);
    if members.len() == 0 {
        assert(pushed.drop_first() =~= members);
    } else {
        assert(pushed[0] == members[0]);
        if members[0].0 != key {
            assert(pushed.drop_first() =~= members.drop_first().push(entry));
            lemma_lookup_push(members.drop_first(), entry, key);
        }
    }
}

/// Of the changes that a rule makes of the members of a section with
/// distinct keys, those about a key are what the rule makes of the member
/// with that key, as long as the rule makes of a member only changes about
/// the member's key.
proof fn lemma_changes_of_key(
    members: Members,
    rule: spec_fn((Seq<char>, JsonView)) -> Option<ChangeView>,
    sitelink: bool,
    key: Seq<char>,
)
    requires
        distinct_keys(members),
        forall|entry: (Seq<char>, JsonView)|
            (#[trigger] rule(entry)) matches Some(change) ==> about_key(sitelink, entry.0)(change),
    ensures
        members.filter_map(rule).filter(about_key(sitelink, key)) == (match lookup(members, key) {
            Some(v) => option_seq(rule((key, v))),
            None => Seq::empty(),
        }),
    decreases members.len(),
{
    let pred = about_key(sitelink, key);
    if members.len() == 0 {
        lemma_filter_small(pred, arbitrary::<ChangeView>());
    } else {
        let before = members.drop_last();
        let last = members.last();
        assert(distinct_keys(before)) by {
            assert forall|i: int, j: int| 0 <= i < j < before.len() implies before[i].0
                != before[j].0 by {
                assert(before[i] == members[i]);
                assert(before[j] == members[j]);
            }
        }
        lemma_changes_of_key(before, rule, sitelink, key);
        assert(before.push(last) =~= members);
        lemma_lookup_push(before, last, key);
        let made = option_seq(rule(last));
        assert(members.filter_map(rule) =~= before.filter_map(rule) + made);
        Seq::filter_distributes_over_add(before.filter_map(rule), made, pred);
        match rule(last) {
            Some(change) => {
                lemma_filter_small(pred, change);
                assert(about_key(sitelink, last.0)(change));
            },
            None => {
                lemma_filter_small(pred, arbitrary::<ChangeView>());
            },
        }
        if last.0 == key {
            lemma_lookup_has_key(before, key);
            if has_key(before, key) {
                let i = choose|i: int| 0 <= i < before.len() && (#[trigger] before[i]).0 == key;
                assert(before[i] == members[i]);
                assert(members[i].0 != members[members.len() - 1].0);
            }
            assert(last == (key, last.1));
            assert(before.filter_map(rule).filter(pred) + made =~= made);
        } else {
            assert(made.filter(pred) =~= Seq::<ChangeView>::empty());
            assert(before.filter_map(rule).filter(pred) + Seq::<ChangeView>::empty()
                =~= before.filter_map(rule).filter(pred));
        }
    }
}

/// What the diff of two sections that keep one text per key says of a key,
/// where no key stands twice in a section:
/// - the same text under the key in both sections gives no change;
/// - another text in the new section gives one change, `Changed`, with the
///   new text;
/// - a text in the old section and no such key in the new one gives one
///   change, `Removed`, with the old text;
/// - a text in the new section and no such key in the old one gives one
///   change, `Added`, with the new text.
pub proof fn lemma_keyed_changes_about_key(
    ctx: DiffContext,
    subject: ChangeSubject,
    sitelink: bool,
    old: Members,
    new: Members,
    key: Seq<char>,
)
    requires
        distinct_keys(old),
        distinct_keys(new),
    ensures
        ({
            let about = changes_about(
                keyed_changes(ctx, subject, sitelink, old, new),
                sitelink,
                key,
            );
            let old_text = text_under(old, sitelink, key);
            let new_text = text_under(new, sitelink, key);
            &&& old_text is Some && new_text == old_text ==> about == Seq::<ChangeView>::empty()
            &&& old_text is Some && new_text is Some && new_text != old_text ==> about == seq![
                keyed_record(ctx, subject, sitelink, ChangeType::Changed, key, new_text->0),
            ]
            &&& old_text is Some && !has_key(new, key) ==> about == seq![
                keyed_record(ctx, subject, sitelink, ChangeType::Removed, key, old_text->0),
            ]
            &&& !has_key(old, key) && new_text is Some ==> about == seq![
                keyed_record(ctx, subject, sitelink, ChangeType::Added, key, new_text->0),
            ]
        }),
{
    let from_old = old_entry_rule(ctx, subject, sitelink, new);
    let from_new = new_entry_rule(ctx, subject, sitelink, old);
    let pred = about_key(sitelink, key);
    lemma_changes_of_key(old, from_old, sitelink, key);
    lemma_changes_of_key(new, from_new, sitelink, key);
    Seq::filter_distributes_over_add(old.filter_map(from_old), new.filter_map(from_new), pred);
    lemma_lookup_has_key(old, key);
    lemma_lookup_has_key(new, key);
    let about = changes_about(keyed_changes(ctx, subject, sitelink, old, new), sitelink, key);
    let a = old.filter_map(from_old).filter(pred);
    let b = new.filter_map(from_new).filter(pred);
    assert(about == a + b);
    assert(a + Seq::<ChangeView>::empty() =~= a);
    assert(Seq::<ChangeView>::empty() + b =~= b);
}

/// What the diff of the labels, or of the descriptions, of two revisions
/// says of a language, where the documents are well formed:
/// - the same text for the language in both revisions gives no change;
/// - another text in the new revision gives one change, `Changed`, with the
///   new text;
/// - a text in the old revision and no entry for the language in the new
///   one gives one change, `Removed`, with the old text;
/// - a text in the new revision and no entry for the language in the old
///   one gives one change, `Added`, with the new text.
pub proof fn lemma_term_changes_about_language(
    ctx: DiffContext,
    subject: ChangeSubject,
    old: JsonView,
    new: JsonView,
    language: Seq<char>,
)
    requires
        old.well_formed(),
        new.well_formed(),
    ensures
        ({
            let old_terms = old.object_field(subject.name());
            let new_terms = new.object_field(subject.name());
            let about = changes_about(
                keyed_changes(ctx, subject, false, old_terms, new_terms),
                false,
                language,
            );
            let old_text = text_under(old_terms, false, language);
            let new_text = text_under(new_terms, false, language);
            &&& old_text is Some && new_text == old_text ==> about == Seq::<ChangeView>::empty()
            &&& old_text is Some && new_text is Some && new_text != old_text ==> about == seq![
                keyed_record(ctx, subject, false, ChangeType::Changed, language, new_text->0),
            ]
            &&& old_text is Some && !has_key(new_terms, language) ==> about == seq![
                keyed_record(ctx, subject, false, ChangeType::Removed, language, old_text->0),
            ]
            &&& !has_key(old_terms, language) && new_text is Some ==> about == seq![
                keyed_record(ctx, subject, false, ChangeType::Added, language, new_text->0),
            ]
        }),
{
    lemma_section_distinct_keys(old, subject.name());
    lemma_section_distinct_keys(new, subject.name());
    lemma_keyed_changes_about_key(
        ctx,
        subject,
        false,
        old.object_field(subject.name()),
        new.object_field(subject.name()),
        language,
    );
}

/// What the diff of the sitelinks of two revisions says of a site, where
/// the documents are well formed: as for the text of a language, with the
/// title of the link in place of the text.
pub proof fn lemma_sitelink_changes_about_site(
    ctx: DiffContext,
    old: JsonView,
    new: JsonView,
    site: Seq<char>,
)
    requires
        old.well_formed(),
        new.well_formed(),
    ensures
        ({
            let old_links = old.object_field("sitelinks"@);
            let new_links = new.object_field("sitelinks"@);
            let subject = ChangeSubject::Sitelinks;
            let about = changes_about(
                keyed_changes(ctx, subject, true, old_links, new_links),
                true,
                site,
            );
            let old_title = text_under(old_links, true, site);
            let new_title = text_under(new_links, true, site);
            &&& old_title is Some && new_title == old_title ==> about == Seq::<ChangeView>::empty()
            &&& old_title is Some && new_title is Some && new_title != old_title ==> about == seq![
                keyed_record(ctx, subject, true, ChangeType::Changed, site, new_title->0),
            ]
            &&& old_title is Some && !has_key(new_links, site) ==> about == seq![
                keyed_record(ctx, subject, true, ChangeType::Removed, site, old_title->0),
            ]
            &&& !has_key(old_links, site) && new_title is Some ==> about == seq![
                keyed_record(ctx, subject, true, ChangeType::Added, site, new_title->0),
            ]
        }),
{
    lemma_section_distinct_keys(old, "sitelinks"@);
    lemma_section_distinct_keys(new, "sitelinks"@);
    lemma_keyed_changes_about_key(
        ctx,
        ChangeSubject::Sitelinks,
        true,
        old.object_field("sitelinks"@),
        new.object_field("sitelinks"@),
        site,
    );
}

/// What a rule makes of an item of a list stands among what it makes of
/// the list.
proof fn lemma_filter_map_holds<A, B>(items: Seq<A>, rule: spec_fn(A) -> Option<B>, i: int)
    requires
        0 <= i < items.len(),
        rule(items[i]) is Some,
    ensures
        items.filter_map(rule).contains(rule(items[i])->0),
    decreases items.len(),
{
    let before = items.drop_last();
    let made = rule(items[i])->0;
    if i == items.len() - 1 {
        let all = items.filter_map(rule);
        assert(all == before.filter_map(rule) + seq![made]);
        assert(all[all.len() - 1] == made);
    } else {
        assert(before[i] == items[i]);
        lemma_filter_map_holds(before, rule, i);
        let k = choose|k: int|
            0 <= k < before.filter_map(rule).len() && before.filter_map(rule)[k] == made;
        match rule(items.last()) {
            Some(last) => {
                assert((before.filter_map(rule) + seq![last])[k] == made);
            },
            None => {},
        }
    }
}

/// The record of a change to an alias of a language.
pub open spec fn alias_record(
    ctx: DiffContext,
    change_type: ChangeType,
    language: Seq<char>,
    alias: Seq<char>,
) -> ChangeView {
    keyed_record(ctx, ChangeSubject::Aliases, false, change_type, language, alias)
}

/// The diff of the aliases of a language is the symmetric difference of
/// the two lists, where they are not the same list: an alias is `Removed`
/// exactly where the old list holds it and the new one does not; it is
/// `Added` exactly where the new list holds it and the old one does not;
/// and there is no other change. Equal lists give no change at all.
pub proof fn lemma_alias_changes_symmetric_difference(
    ctx: DiffContext,
    language: Seq<char>,
    old: Seq<Seq<char>>,
    new: Seq<Seq<char>>,
)
    ensures
        ({
            let changes = alias_changes_in_language(ctx, language, old, new);
            &&& old == new ==> changes == Seq::<ChangeView>::empty()
            &&& forall|alias: Seq<char>|
                changes.contains(
                    #[trigger] alias_record(ctx, ChangeType::Removed, language, alias),
                ) <==> old != new && old.contains(alias) && !new.contains(alias)
            &&& forall|alias: Seq<char>|
                changes.contains(#[trigger] alias_record(ctx, ChangeType::Added, language, alias))
                    <==> old != new && new.contains(alias) && !old.contains(alias)
            &&& forall|i: int|
                0 <= i < changes.len() ==> (#[trigger] changes[i]) == alias_record(
                    ctx,
                    ChangeType::Removed,
                    language,
                    changes[i].text,
                ) || changes[i] == alias_record(
                    ctx,
                    ChangeType::Added,
                    language,
                    changes[i].text,
                )
        }),
{
    let changes = alias_changes_in_language(ctx, language, old, new);
    let removed = |alias: Seq<char>| alias_record(ctx, ChangeType::Removed, language, alias);
    let added = |alias: Seq<char>| alias_record(ctx, ChangeType::Added, language, alias);
    if old != new {
        let from_old = missing_alias_rule(ctx, ChangeType::Removed, language, new);
        let from_new = missing_alias_rule(ctx, ChangeType::Added, language, old);
        let a = old.filter_map(from_old);
        let b = new.filter_map(from_new);
        assert(changes == a + b);
        assert forall|i: int| 0 <= i < changes.len() implies (#[trigger] changes[i]) == removed(
            changes[i].text,
        ) || changes[i] == added(changes[i].text) by {
            if i < a.len() {
                assert(a.contains(a[i]));
                old.lemma_filter_map_contains(from_old, a[i]);
            } else {
                assert(b.contains(b[i - a.len()]));
                new.lemma_filter_map_contains(from_new, b[i - a.len()]);
            }
        }
        assert forall|alias: Seq<char>|
            changes.contains(
                #[trigger] alias_record(ctx, ChangeType::Removed, language, alias),
            ) <==> old.contains(alias) && !new.contains(alias) by {
            if changes.contains(removed(alias)) {
                let i = choose|i: int| 0 <= i < changes.len() && changes[i] == removed(alias);
                if i < a.len() {
                    assert(a.contains(a[i]));
                    old.lemma_filter_map_contains(from_old, a[i]);
                } else {
                    assert(b.contains(b[i - a.len()]));
                    new.lemma_filter_map_contains(from_new, b[i - a.len()]);
                }
            }
            if old.contains(alias) && !new.contains(alias) {
                let i = choose|i: int| 0 <= i < old.len() && old[i] == alias;
                lemma_filter_map_holds(old, from_old, i);
                let k = choose|k: int| 0 <= k < a.len() && a[k] == removed(alias);
                assert(changes[k] == removed(alias));
            }
        }
        assert forall|alias: Seq<char>|
            changes.contains(#[trigger] alias_record(ctx, ChangeType::Added, language, alias))
                <==> new.contains(alias) && !old.contains(alias) by {
            if changes.contains(added(alias)) {
                let i = choose|i: int| 0 <= i < changes.len() && changes[i] == added(alias);
                if i < a.len() {
                    assert(a.contains(a[i]));
                    old.lemma_filter_map_contains(from_old, a[i]);
                } else {
                    assert(b.contains(b[i - a.len()]));
                    new.lemma_filter_map_contains(from_new, b[i - a.len()]);
                }
            }
            if new.contains(alias) && !old.contains(alias) {
                let i = choose|i: int| 0 <= i < new.len() && new[i] == alias;
                lemma_filter_map_holds(new, from_new, i);
                let k = choose|k: int| 0 <= k < b.len() && b[k] == added(alias);
                assert(changes[a.len() + k] == added(alias));
            }
        }
    }
}

/// No two claims have the same identifier.
pub open spec fn distinct_claim_ids(claims: Seq<PropertyClaim>) -> bool {
    forall|i: int, j: int|
        0 <= i < claims.len() && 0 <= j < claims.len() && i != j && claim_id(claims[i].1) is Some
            ==> claim_id(claims[i].1) != claim_id(claims[j].1)
}

/// What `find_claim` finds: the first claim with the identifier, or nothing
/// where no claim has it.
pub proof fn lemma_find_claim_spec(claims: Seq<PropertyClaim>, id: Seq<char>)
    ensures
        match find_claim(claims, id) {
            Some(claim) => exists|i: int|
                0 <= i < claims.len() && (#[trigger] claims[i]).1 == claim && claim_id(claim)
                    == Some(id),
            None => forall|j: int|
                0 <= j < claims.len() ==> claim_id((#[trigger] claims[j]).1) != Some(id),
        },
    decreases claims.len(),
{
    if claims.len() > 0 {
        if claim_id(claims[0].1) == Some(id) {
            assert(claims[0].1 == find_claim(claims, id)->0);
        } else {
            let rest = claims.drop_first();
            lemma_find_claim_spec(rest, id);
            match find_claim(rest, id) {
                Some(claim) => {
                    let i = choose|i: int|
                        0 <= i < rest.len() && (#[trigger] rest[i]).1 == claim && claim_id(claim)
                            == Some(id);
                    assert(claims[i + 1] == rest[i]);
                },
                None => {
                    assert forall|j: int| 0 <= j < claims.len() implies claim_id(
                        (#[trigger] claims[j]).1,
                    ) != Some(id) by {
                        if j > 0 {
                            assert(claims[j] == rest[j - 1]);
                        }
                    }
                },
            }
        }
    }
}

/// A rule that makes nothing of any item makes nothing of the list.
proof fn lemma_filter_map_nothing<A, B>(items: Seq<A>, rule: spec_fn(A) -> Option<B>)
    requires
        forall|i: int| 0 <= i < items.len() ==> rule(#[trigger] items[i]) is None,
    ensures
        items.filter_map(rule) == Seq::<B>::empty(),
    decreases items.len(),
{
    if items.len() > 0 {
        let before = items.drop_last();
        assert forall|i: int| 0 <= i < before.len() implies rule(#[trigger] before[i]) is None by {
            assert(before[i] == items[i]);
        }
        lemma_filter_map_nothing(before, rule);
        assert(rule(items[items.len() - 1]) is None);
    }
}

/// A rule that makes something of one item only makes that one thing of
/// the list.
proof fn lemma_filter_map_one<A, B>(items: Seq<A>, rule: spec_fn(A) -> Option<B>, i: int)
    requires
        0 <= i < items.len(),
        rule(items[i]) is Some,
        forall|j: int| 0 <= j < items.len() && j != i ==> rule(#[trigger] items[j]) is None,
    ensures
        items.filter_map(rule) == seq![rule(items[i])->0],
    decreases items.len(),
{
    let before = items.drop_last();
    if i == items.len() - 1 {
        assert forall|j: int| 0 <= j < before.len() implies rule(#[trigger] before[j]) is None by {
            assert(before[j] == items[j]);
        }
        lemma_filter_map_nothing(before, rule);
        assert(Seq::<B>::empty() + seq![rule(items[i])->0] =~= seq![rule(items[i])->0]);
    } else {
        assert forall|j: int| 0 <= j < before.len() && j != i implies rule(
            #[trigger] before[j],
        ) is None by {
            assert(before[j] == items[j]);
        }
        assert(before[i] == items[i]);
        lemma_filter_map_one(before, rule, i);
        assert(rule(items[items.len() - 1]) is None);
    }
}

/// Where the new revision holds the same claims under the same properties
/// as the old one, in whatever order, and no two claims share an
/// identifier, the diff of the claims is empty: claims are matched by their
/// identifiers, not by their places.
pub proof fn lemma_same_claims_no_changes(ctx: DiffContext, old: Members, new: Members)
    requires
        claims_of(new).to_multiset() == claims_of(old).to_multiset(),
        distinct_claim_ids(claims_of(old)),
    ensures
        claim_changes(ctx, old, new) == Seq::<ChangeView>::empty(),
{
    let co = claims_of(old);
    let cn = claims_of(new);
    broadcast use vstd::seq_lib::to_multiset_contains;

    assert forall|i: int| 0 <= i < co.len() implies old_claim_rule(ctx, cn)(
        #[trigger] co[i],
    ) is None by {
        match claim_id(co[i].1) {
            Some(id) => {
                assert(co.contains(co[i]));
                assert(cn.to_multiset().count(co[i]) > 0);
                assert(cn.contains(co[i]));
                let k = choose|k: int| 0 <= k < cn.len() && cn[k] == co[i];
                lemma_find_claim_spec(cn, id);
                assert(claim_id(cn[k].1) == Some(id));
                let found = find_claim(cn, id)->0;
                let m = choose|m: int|
                    0 <= m < cn.len() && (#[trigger] cn[m]).1 == found && claim_id(found) == Some(
                        id,
                    );
                assert(cn.contains(cn[m]));
                assert(co.to_multiset().count(cn[m]) > 0);
                assert(co.contains(cn[m]));
                let j = choose|j: int| 0 <= j < co.len() && co[j] == cn[m];
                if j != i {
                    assert(claim_id(co[i].1) != claim_id(co[j].1));
                }
            },
            None => {},
        }
    }
    lemma_filter_map_nothing(co, old_claim_rule(ctx, cn));
    assert forall|k: int| 0 <= k < cn.len() implies new_claim_rule(ctx, co)(
        #[trigger] cn[k],
    ) is None by {
        match claim_id(cn[k].1) {
            Some(id) => {
                assert(cn.contains(cn[k]));
                assert(co.to_multiset().count(cn[k]) > 0);
                assert(co.contains(cn[k]));
                let j = choose|j: int| 0 <= j < co.len() && co[j] == cn[k];
                lemma_find_claim_spec(co, id);
                assert(claim_id(co[j].1) == Some(id));
            },
            None => {},
        }
    }
    lemma_filter_map_nothing(cn, new_claim_rule(ctx, co));
    assert(Seq::<ChangeView>::empty() + Seq::<ChangeView>::empty() =~= Seq::<ChangeView>::empty());
}

/// How often a claim with its property stands among the claims listed
/// under a property: as often as the claim stands in the list, where the
/// property is that one, else never.
proof fn lemma_claims_under_count(property: Seq<char>, claims: Seq<JsonView>, entry: PropertyClaim)
    ensures
        claims_under(property, claims).to_multiset().count(entry) == (if entry.0 == property {
            claims.to_multiset().count(entry.1)
        } else {
            0
        }),
    decreases claims.len(),
{
    broadcast use vstd::seq_lib::to_multiset_build;

    if claims.len() == 0 {
        claims_under(property, claims).to_multiset_ensures();
        claims.to_multiset_ensures();
        if claims_under(property, claims).to_multiset().count(entry) > 0 {
            assert(claims_under(property, claims).contains(entry));
        }
        if claims.to_multiset().count(entry.1) > 0 {
            assert(claims.contains(entry.1));
        }
    } else {
        let before = claims.drop_last();
        let last = claims.last();
        lemma_claims_under_count(property, before, entry);
        assert(before.push(last) =~= claims);
        assert(claims_under(property, before).push((property, last)) =~= claims_under(
            property,
            claims,
        ));
        assert(before.push(last).to_multiset() =~= before.to_multiset().insert(last));
        assert(claims_under(property, before).push((property, last)).to_multiset()
            =~= claims_under(property, before).to_multiset().insert((property, last)));
    }
}

/// Sections with the same properties in the same order, whose lists of
/// claims hold the same claims property by property, hold the same claims
/// altogether.
proof fn lemma_reordered_claims_same(old: Members, new: Members)
    requires
        old.len() == new.len(),
        forall|p: int| 0 <= p < old.len() ==> (#[trigger] old[p]).0 == new[p].0,
        forall|p: int|
            0 <= p < old.len() ==> (#[trigger] new[p]).1.items().to_multiset()
                == old[p].1.items().to_multiset(),
    ensures
        claims_of(new).to_multiset() == claims_of(old).to_multiset(),
    decreases old.len(),
{
    broadcast use vstd::seq_lib::lemma_multiset_commutative;

    if old.len() == 0 {
        assert(old =~= new);
    } else {
        let old_before = old.drop_last();
        let new_before = new.drop_last();
        assert forall|p: int| 0 <= p < old_before.len() implies (#[trigger] old_before[p]).0
            == new_before[p].0 by {
            assert(old_before[p] == old[p]);
            assert(new_before[p] == new[p]);
        }
        assert forall|p: int|
            0 <= p < old_before.len() implies (#[trigger] new_before[p]).1.items().to_multiset()
            == old_before[p].1.items().to_multiset() by {
            assert(old_before[p] == old[p]);
            assert(new_before[p] == new[p]);
        }
        lemma_reordered_claims_same(old_before, new_before);
        let rule = member_claims();
        assert(old.map_values(rule) =~= old_before.map_values(rule).push(rule(old.last())));
        assert(new.map_values(rule) =~= new_before.map_values(rule).push(rule(new.last())));
        old_before.map_values(rule).lemma_flatten_push(rule(old.last()));
        new_before.map_values(rule).lemma_flatten_push(rule(new.last()));
        let property = old.last().0;
        assert(new[new.len() - 1].0 == property);
        let a = claims_under(property, old.last().1.items());
        let b = claims_under(property, new.last().1.items());
        assert(b.to_multiset() =~= a.to_multiset()) by {
            assert forall|entry: PropertyClaim|
                b.to_multiset().count(entry) == a.to_multiset().count(entry) by {
                lemma_claims_under_count(property, old.last().1.items(), entry);
                lemma_claims_under_count(property, new.last().1.items(), entry);
            }
        }
        assert(claims_of(old) == claims_of(old_before) + a);
        assert(claims_of(new) == claims_of(new_before) + b);
    }
}

/// Reordering the claims within the properties, with no claim changed,
/// gives no change, where no two claims share an identifier.
pub proof fn lemma_reordered_claims_no_changes(ctx: DiffContext, old: Members, new: Members)
    requires
        old.len() == new.len(),
        forall|p: int| 0 <= p < old.len() ==> (#[trigger] old[p]).0 == new[p].0,
        forall|p: int|
            0 <= p < old.len() ==> (#[trigger] new[p]).1.items().to_multiset()
                == old[p].1.items().to_multiset(),
        distinct_claim_ids(claims_of(old)),
    ensures
        claim_changes(ctx, old, new) == Seq::<ChangeView>::empty(),
{
    lemma_reordered_claims_same(old, new);
    lemma_same_claims_no_changes(ctx, old, new);
}

/// Where the new revision differs from the old one in one claim only,
/// whose content changed under its identifier, and no two claims share an
/// identifier, the diff of the claims is one change: `Changed`, for that
/// identifier and the claim's property.
pub proof fn lemma_changed_claim_one_change(
    ctx: DiffContext,
    old: Members,
    new: Members,
    i: int,
    claim: JsonView,
)
    requires
        0 <= i < claims_of(old).len(),
        claims_of(new) == claims_of(old).update(i, (claims_of(old)[i].0, claim)),
        claim_id(claim) is Some,
        claim_id(claim) == claim_id(claims_of(old)[i].1),
        claim != claims_of(old)[i].1,
        distinct_claim_ids(claims_of(old)),
    ensures
        claim_changes(ctx, old, new) == seq![
            claim_record(ctx, ChangeType::Changed, claims_of(old)[i].0, claim_id(claim)->0),
        ],
{
    let co = claims_of(old);
    let cn = claims_of(new);
    let from_old = old_claim_rule(ctx, cn);
    let from_new = new_claim_rule(ctx, co);
    assert forall|j: int| 0 <= j < co.len() implies claim_id(#[trigger] cn[j].1) == claim_id(
        co[j].1,
    ) by {}
    assert forall|j: int| 0 <= j < co.len() implies match claim_id(co[j].1) {
        Some(id) => find_claim(cn, id) == Some(#[trigger] cn[j].1),
        None => true,
    } by {
        match claim_id(co[j].1) {
            Some(id) => {
                lemma_find_claim_spec(cn, id);
                assert(claim_id(cn[j].1) == Some(id));
                let found = find_claim(cn, id)->0;
                let m = choose|m: int|
                    0 <= m < cn.len() && (#[trigger] cn[m]).1 == found && claim_id(found) == Some(
                        id,
                    );
                assert(claim_id(cn[m].1) == claim_id(co[m].1));
                if m != j {
                    assert(claim_id(co[j].1) != claim_id(co[m].1));
                }
            },
            None => {},
        }
    }
    assert forall|j: int| 0 <= j < co.len() && j != i implies from_old(
        #[trigger] co[j],
    ) is None by {
        assert(cn[j] == co[j]);
        assert(claim_id(cn[j].1) == claim_id(co[j].1));
    }
    assert(from_old(co[i]) == Some(
        claim_record(ctx, ChangeType::Changed, co[i].0, claim_id(claim)->0),
    )) by {
        assert(cn[i].1 == claim);
        assert(claim_id(cn[i].1) == claim_id(co[i].1));
    }
    lemma_filter_map_one(co, from_old, i);
    assert forall|k: int| 0 <= k < cn.len() implies from_new(#[trigger] cn[k]) is None by {
        match claim_id(cn[k].1) {
            Some(id) => {
                lemma_find_claim_spec(co, id);
                assert(claim_id(cn[k].1) == claim_id(co[k].1));
            },
            None => {},
        }
    }
    lemma_filter_map_nothing(cn, from_new);
    assert(co.filter_map(from_old) + Seq::<ChangeView>::empty() =~= co.filter_map(from_old));
}

} // verus!
