//! Bundles: the compiled messages of one locale (or of none), merged from
//! message resources in order, the first definition of an id winning.

use crate::locale::{opt_locale_view, LocaleId, LocaleView};
use fluent::bundle::FluentBundle;
use fluent::{FluentArgs, FluentError, FluentResource};
use fluent_content::{Content, Request};
use intl_memoizer::concurrent::IntlLangMemoizer;
use std::sync::Arc;
use vstd::prelude::*;

verus! {

#[verifier::external_type_specification]
#[verifier::external_body]
#[verifier::reject_recursive_types(R)]
#[verifier::reject_recursive_types(M)]
pub struct ExFluentBundle<R, M>(FluentBundle<R, M>);

#[verifier::external_type_specification]
#[verifier::external_body]
pub struct ExFluentResource(FluentResource);

#[verifier::external_type_specification]
#[verifier::external_body]
pub struct ExIntlLangMemoizer(IntlLangMemoizer);

/// The compiled form of a bundle, safe to share between threads.
pub type Messages = FluentBundle<Arc<FluentResource>, IntlLangMemoizer>;

/// The entries of a resource, in order: the id of each message or term, and
/// `None` for every other entry (comments, junk).
pub uninterp spec fn resource_keys(r: FluentResource) -> Seq<Option<Seq<char>>>;

/// The ids registered in a compiled bundle, each with the position of its
/// resource in the bundle and of its entry in that resource.
pub uninterp spec fn message_entries(b: Messages) -> Map<Seq<char>, (nat, nat)>;

/// How many resources have been added to a compiled bundle.
pub uninterp spec fn resource_count(b: Messages) -> nat;

/// A lookup request: message id, optional attribute, and text arguments.
pub type RequestKey = (Seq<char>, Option<Seq<char>>, Seq<(Seq<char>, Seq<char>)>);

/// The text each request that the bundle can answer formats to: the value
/// of the message, or of the named attribute, with the arguments applied.
pub uninterp spec fn message_texts(b: Messages) -> Map<RequestKey, Seq<char>>;

pub open spec fn str_views(v: Seq<String>) -> Seq<Seq<char>> {
    v.map_values(|s: String| s@)
}

pub open spec fn opt_ref_view(o: Option<&str>) -> Option<Seq<char>> {
    match o {
        Some(a) => Some(a@),
        None => None,
    }
}

/// The request made of an id, an optional attribute and text arguments.
pub open spec fn request_key(id: Seq<char>, attr: Option<&str>, args: Seq<(String, String)>) -> RequestKey {
    (id, opt_ref_view(attr), args.map_values(|p: (String, String)| (p.0@, p.1@)))
}

/// The entries of a bundle with nothing merged in.
pub open spec fn no_entries() -> Map<Seq<char>, (nat, nat)> {
    Map::empty()
}

/// Merges the entries of one resource, at resource position `pos`, into
/// `entries`: an id already present keeps its entry and is reported as a
/// conflict. Returns the merged entries and the conflicting ids, in order.
pub open spec fn merge_keys(
    entries: Map<Seq<char>, (nat, nat)>,
    keys: Seq<Option<Seq<char>>>,
    pos: nat,
) -> (Map<Seq<char>, (nat, nat)>, Seq<Seq<char>>)
    decreases keys.len(),
{
    if keys.len() == 0 {
        (entries, Seq::empty())
    } else {
        let (m, c) = merge_keys(entries, keys.drop_last(), pos);
        match keys.last() {
            Some(id) => if m.contains_key(id) {
                (m, c.push(id))
            } else {
                (m.insert(id, (pos, (keys.len() - 1) as nat)), c)
            },
            None => (m, c),
        }
    }
}

/// The resource keys of a list of resources.
pub open spec fn keys_of(rs: Seq<Arc<FluentResource>>) -> Seq<Seq<Option<Seq<char>>>> {
    rs.map_values(|r: Arc<FluentResource>| resource_keys(*r))
}

/// The entries of a bundle built from resources with these keys, merged in
/// order from an empty bundle.
pub open spec fn merge_all(rs: Seq<Seq<Option<Seq<char>>>>) -> Map<Seq<char>, (nat, nat)>
    decreases rs.len(),
{
    if rs.len() == 0 {
        no_entries()
    } else {
        merge_keys(merge_all(rs.drop_last()), rs.last(), (rs.len() - 1) as nat).0
    }
}

/// The conflicting ids reported while merging resources with these keys in
/// order from an empty bundle.
pub open spec fn all_conflicts(rs: Seq<Seq<Option<Seq<char>>>>) -> Seq<Seq<char>>
    decreases rs.len(),
{
    if rs.len() == 0 {
        Seq::empty()
    } else {
        all_conflicts(rs.drop_last()) + merge_keys(
            merge_all(rs.drop_last()),
            rs.last(),
            (rs.len() - 1) as nat,
        ).1
    }
}

/// Merging keeps every entry already present unchanged and registers every
/// id of the merged resource: the first definition of an id wins.
pub proof fn merge_first_wins(
    entries: Map<Seq<char>, (nat, nat)>,
    keys: Seq<Option<Seq<char>>>,
    pos: nat,
)
    ensures
        forall|id: Seq<char>|
            #[trigger] entries.contains_key(id) ==> merge_keys(entries, keys, pos).0.contains_key(id)
                && merge_keys(entries, keys, pos).0[id] == entries[id],
        forall|i: int|
            0 <= i < keys.len() && keys[i] is Some ==> merge_keys(
                entries,
                keys,
                pos,
            ).0.contains_key(keys[i]->Some_0),
        forall|id: Seq<char>|
            merge_keys(entries, keys, pos).0.contains_key(id) ==> entries.contains_key(id) || (
            exists|i: int| 0 <= i < keys.len() && keys[i] == Some(id)),
    decreases keys.len(),
{
    if keys.len() > 0 {
        merge_first_wins(entries, keys.drop_last(), pos);
        let m = merge_keys(entries, keys.drop_last(), pos).0;
        assert forall|id: Seq<char>| entries.contains_key(id) implies merge_keys(
            entries,
            keys,
            pos,
        ).0.contains_key(id) && merge_keys(entries, keys, pos).0[id] == entries[id] by {
            assert(m.contains_key(id));
        }
        assert forall|i: int|
            0 <= i < keys.len() && keys[i] is Some implies merge_keys(
                entries,
                keys,
                pos,
            ).0.contains_key(keys[i]->Some_0) by {
            if i < keys.len() - 1 {
                assert(keys.drop_last()[i] == keys[i]);
            }
        }
        assert forall|id: Seq<char>|
            merge_keys(entries, keys, pos).0.contains_key(id) implies entries.contains_key(id) || (
            exists|i: int| 0 <= i < keys.len() && keys[i] == Some(id)) by {
            if m.contains_key(id) && !entries.contains_key(id) {
                let i = choose|i: int| 0 <= i < keys.len() - 1 && keys.drop_last()[i] == Some(id);
                assert(keys[i] == Some(id));
            }
            if !m.contains_key(id) {
                assert(keys[keys.len() - 1] == Some(id));
            }
        }
    }
}

/// Relies on `FluentBundle::new_concurrent`: a bundle with no resources and
/// no entries, for the locale the tag names.
#[verifier::external_body]
fn new_messages(tag: Option<String>) -> (r: Messages)
    requires
        tag is Some ==> crate::locale::parsed_locale(tag->Some_0@) is Some,
    ensures
        message_entries(r) == no_entries(),
        resource_count(r) == 0,
{
    FluentBundle::new_concurrent(tag.and_then(|t| t.parse().ok()).into_iter().collect())
}

/// Relies on `FluentBundle::add_resource`: each message or term id of the
/// resource is registered unless already present, in which case one
/// `FluentError::Overriding` error naming it is reported (the only error it
/// reports); the resource is appended to the bundle.
#[verifier::external_body]
fn add_to_messages(b: &mut Messages, r: Arc<FluentResource>) -> (conflicts: Vec<String>)
    ensures
        message_entries(*final(b)) == merge_keys(
            message_entries(*old(b)),
            resource_keys(*r),
            resource_count(*old(b)),
        ).0,
        str_views(conflicts@) == merge_keys(
            message_entries(*old(b)),
            resource_keys(*r),
            resource_count(*old(b)),
        ).1,
        resource_count(*final(b)) == resource_count(*old(b)) + 1,
{
    match b.add_resource(r) {
        Ok(()) => Vec::new(),
        Err(errors) => errors.into_iter().map(|e| match e {
            FluentError::Overriding { id, .. } => id,
            other => other.to_string(),
        }).collect(),
    }
}

/// Relies on `fluent_content::Content::content` for a bundle, given a
/// `Request` built field by field (so the id is taken whole): the text of the
/// message's value, or of the named attribute, formatted with the arguments;
/// `None` when the bundle has no such message (`get_message` finds only
/// registered message ids), attribute or value.
#[verifier::external_body]
fn messages_content(b: &Messages, id: &str, attr: Option<&str>, args: &Vec<(String, String)>) -> (r:
    Option<String>)
    ensures
        r is Some <==> message_texts(*b).contains_key(request_key(id@, attr, args@)),
        r is Some ==> r->Some_0@ == message_texts(*b)[request_key(id@, attr, args@)]
            && message_entries(*b).contains_key(id@),
{
    let mut fluent_args = FluentArgs::new();
    for (k, v) in args {
        fluent_args.set(k.as_str(), v.as_str());
    }
    b.content(Request { id, attr, args: Some(&fluent_args) })
}

/// A bundle for one locale, or for none (the locale-agnostic bundle).
pub struct Bundle {
    pub messages: Messages,
    pub locale: Option<LocaleId>,
    /// The ids whose later definitions were rejected, in merge order.
    pub conflicts: Vec<String>,
}

fn append_strings(dst: &mut Vec<String>, src: &Vec<String>)
    ensures
        str_views(final(dst)@) == str_views(old(dst)@) + str_views(src@),
{
    let ghost start = str_views(dst@);
    let mut i: usize = 0;
    while i < src.len()
        invariant
            i <= src.len(),
            str_views(dst@) == start + str_views(src@.take(i as int)),
        decreases src.len() - i,
    {
        let ghost before = dst@;
        dst.push(src[i].clone());
        proof {
            assert(str_views(dst@) =~= str_views(before).push(src@[i as int]@));
            assert(str_views(src@.take(i as int + 1)) =~= str_views(src@.take(i as int)).push(
                src@[i as int]@,
            ));
        }
        i += 1;
    }
    proof {
        assert(src@.take(i as int) =~= src@);
    }
}

impl Bundle {
    /// An empty bundle for the given locale.
    pub fn new(locale: Option<LocaleId>) -> (r: Bundle)
        ensures
            message_entries(r.messages) == no_entries(),
            resource_count(r.messages) == 0,
            opt_locale_view(r.locale) == opt_locale_view(locale),
            r.conflicts@ == Seq::<String>::empty(),
    {
        let tag = match &locale {
            Some(l) => Some(l.to_string()),
            None => None,
        };
        Bundle { messages: new_messages(tag), locale, conflicts: Vec::new() }
    }

    /// Merges one resource after those already added; returns its ids that
    /// were already defined (those keep their earlier definition), which are
    /// also recorded in the bundle's conflicts.
    pub fn add_resource(&mut self, r: Arc<FluentResource>) -> (conflicts: Vec<String>)
        ensures
            message_entries(final(self).messages) == merge_keys(
                message_entries(old(self).messages),
                resource_keys(*r),
                resource_count(old(self).messages),
            ).0,
            str_views(conflicts@) == merge_keys(
                message_entries(old(self).messages),
                resource_keys(*r),
                resource_count(old(self).messages),
            ).1,
            str_views(final(self).conflicts@) == str_views(old(self).conflicts@) + str_views(
                conflicts@,
            ),
            resource_count(final(self).messages) == resource_count(old(self).messages) + 1,
            opt_locale_view(final(self).locale) == opt_locale_view(old(self).locale),
    {
        let c = add_to_messages(&mut self.messages, r);
        append_strings(&mut self.conflicts, &c);
        c
    }

    /// The text of message `id` (or of its attribute `attr`) formatted with
    /// the text arguments `args`, if this bundle defines it.
    pub fn content(&self, id: &str, attr: Option<&str>, args: &Vec<(String, String)>) -> (r:
        Option<String>)
        ensures
            r is Some <==> message_texts(self.messages).contains_key(request_key(id@, attr, args@)),
            r is Some ==> r->Some_0@ == message_texts(self.messages)[request_key(id@, attr, args@)]
                && message_entries(self.messages).contains_key(id@),
    {
        messages_content(&self.messages, id, attr, args)
    }

    /// A bundle for `locale` with `resources` merged in order; the ids
    /// rejected on merging are recorded in its conflicts.
    pub fn build(locale: Option<LocaleId>, resources: &Vec<Arc<FluentResource>>) -> (r: Bundle)
        ensures
            message_entries(r.messages) == merge_all(keys_of(resources@)),
            resource_count(r.messages) == resources@.len(),
            opt_locale_view(r.locale) == opt_locale_view(locale),
            str_views(r.conflicts@) == all_conflicts(keys_of(resources@)),
    {
        let ghost ks = keys_of(resources@);
        let mut bundle = Bundle::new(locale);
        let mut i: usize = 0;
        proof {
            assert(ks.take(0) =~= Seq::<Seq<Option<Seq<char>>>>::empty());
            assert(str_views(bundle.conflicts@) =~= Seq::<Seq<char>>::empty());
        }
        while i < resources.len()
            invariant
                i <= resources.len(),
                ks == keys_of(resources@),
                message_entries(bundle.messages) == merge_all(ks.take(i as int)),
                resource_count(bundle.messages) == i,
                opt_locale_view(bundle.locale) == opt_locale_view(locale),
                str_views(bundle.conflicts@) == all_conflicts(ks.take(i as int)),
            decreases resources.len() - i,
        {
            let _ = bundle.add_resource(resources[i].clone());
            proof {
                assert(ks.take(i as int + 1).drop_last() =~= ks.take(i as int));
                assert(ks[i as int] == resource_keys(*resources@[i as int]));
            }
            i += 1;
        }
        proof {
            assert(ks.take(i as int) =~= ks);
        }
        bundle
    }

    /// The locale of the bundle; `None` for the locale-agnostic bundle.
    pub fn locale(&self) -> (r: &Option<LocaleId>)
        ensures
            r == &self.locale,
    {
        &self.locale
    }
}

} // verus!
