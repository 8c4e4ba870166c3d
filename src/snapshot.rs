//! Snapshots: the bundles of the locales served in one resolution pass,
//! keyed by locale, with the locale-agnostic bundle under `None`.

use crate::bundle::{all_conflicts, keys_of, merge_all, message_entries, str_views, Bundle};
use crate::discovery::{entry_view, keys_unique, opt_locale_equals, LocaleHandles};
use crate::locale::{opt_locale_view, LocaleId, LocaleView};
use crate::negotiate::{contains_locale, negotiate, negotiated, views};
use fluent::FluentResource;
use std::sync::Arc;
use vstd::prelude::*;

verus! {

/// The locales among the keys of the groups, in order; the locale-agnostic
/// key is left out.
pub open spec fn available_of(s: Seq<(Option<LocaleView>, Seq<u64>)>) -> Seq<LocaleView>
    decreases s.len(),
{
    if s.len() == 0 {
        Seq::empty()
    } else {
        let r = available_of(s.drop_last());
        match s.last().0 {
            Some(l) => r.push(l),
            None => r,
        }
    }
}

/// The groups that are served: the locale-agnostic one and those whose locale
/// is supported, in order.
pub open spec fn kept(s: Seq<(Option<LocaleView>, Seq<u64>)>, supported: Seq<LocaleView>) -> Seq<
    (Option<LocaleView>, Seq<u64>),
>
    decreases s.len(),
{
    if s.len() == 0 {
        Seq::empty()
    } else {
        let r = kept(s.drop_last(), supported);
        match s.last().0 {
            Some(l) => if supported.contains(l) {
                r.push(s.last())
            } else {
                r
            },
            None => r.push(s.last()),
        }
    }
}

/// The groups served for the given default locale and preference chain.
pub open spec fn served(
    s: Seq<(Option<LocaleView>, Seq<u64>)>,
    default: Option<LocaleView>,
    chain: Seq<LocaleView>,
) -> Seq<(Option<LocaleView>, Seq<u64>)> {
    kept(s, negotiated(available_of(s), default, chain))
}

/// The first record loaded under handle `h`.
pub open spec fn resolve(records: Seq<(u64, Arc<FluentResource>)>, h: u64) -> Option<
    Arc<FluentResource>,
>
    decreases records.len(),
{
    if records.len() == 0 {
        None
    } else if records[0].0 == h {
        Some(records[0].1)
    } else {
        resolve(records.drop_first(), h)
    }
}

/// Every handle has a record.
pub open spec fn all_resolved(records: Seq<(u64, Arc<FluentResource>)>, hs: Seq<u64>) -> bool {
    forall|i: int| 0 <= i < hs.len() ==> resolve(records, hs[i]) is Some
}

/// The records of the handles, in order.
pub open spec fn resolved(records: Seq<(u64, Arc<FluentResource>)>, hs: Seq<u64>) -> Seq<
    Arc<FluentResource>,
> {
    hs.map_values(|h: u64| resolve(records, h)->Some_0)
}

pub open spec fn views_of_entries(v: Seq<(Option<LocaleId>, Vec<u64>)>) -> Seq<
    (Option<LocaleView>, Seq<u64>),
> {
    v.map_values(|e: (Option<LocaleId>, Vec<u64>)| entry_view(e))
}

fn copy_opt_locale(o: &Option<LocaleId>) -> (r: Option<LocaleId>)
    ensures
        opt_locale_view(r) == opt_locale_view(*o),
{
    match o {
        Some(l) => Some(l.duplicate()),
        None => None,
    }
}

fn copy_handles(v: &Vec<u64>) -> (r: Vec<u64>)
    ensures
        r@ == v@,
{
    let mut r: Vec<u64> = Vec::new();
    let mut i: usize = 0;
    while i < v.len()
        invariant
            i <= v.len(),
            r@ == v@.take(i as int),
        decreases v.len() - i,
    {
        proof {
            assert(v@.take(i as int + 1) =~= v@.take(i as int).push(v@[i as int]));
        }
        r.push(v[i]);
        i += 1;
    }
    proof {
        assert(v@.take(i as int) =~= v@);
    }
    r
}

/// The groups that are served: those of the locales that negotiation
/// selects from the available ones, and the locale-agnostic group.
pub fn supported_entries(
    handles: &LocaleHandles,
    default: &Option<LocaleId>,
    chain: &Vec<LocaleId>,
) -> (r: Vec<(Option<LocaleId>, Vec<u64>)>)
    ensures
        views_of_entries(r@) == served(handles@, opt_locale_view(*default), views(chain@)),
{
    let ghost s = handles@;
    let n = handles.entries.len();
    let mut available: Vec<LocaleId> = Vec::new();
    let mut i: usize = 0;
    while i < n
        invariant
            i <= n,
            n == handles.entries.len(),
            s == handles@,
            views(available@) == available_of(s.take(i as int)),
        decreases n - i,
    {
        proof {
            assert(s.take(i as int + 1).drop_last() =~= s.take(i as int));
        }
        match &handles.entries[i].0 {
            Some(l) => {
                let c = l.duplicate();
                proof {
                    assert(views(available@.push(c)) =~= views(available@).push(c@));
                }
                available.push(c);
            },
            None => {},
        }
        i += 1;
    }
    proof {
        assert(s.take(i as int) =~= s);
    }
    let supported = negotiate(&available, default, chain);
    let ghost sup = views(supported@);
    let mut r: Vec<(Option<LocaleId>, Vec<u64>)> = Vec::new();
    let mut i: usize = 0;
    while i < n
        invariant
            i <= n,
            n == handles.entries.len(),
            s == handles@,
            sup == views(supported@),
            views_of_entries(r@) == kept(s.take(i as int), sup),
        decreases n - i,
    {
        proof {
            assert(s.take(i as int + 1).drop_last() =~= s.take(i as int));
            assert(s[i as int] == entry_view(handles.entries@[i as int]));
        }
        let keep = match &handles.entries[i].0 {
            Some(l) => contains_locale(&supported, l),
            None => true,
        };
        if keep {
            let e = (copy_opt_locale(&handles.entries[i].0), copy_handles(&handles.entries[i].1));
            proof {
                assert(views_of_entries(r@.push(e)) =~= views_of_entries(r@).push(entry_view(e)));
            }
            r.push(e);
        }
        i += 1;
    }
    proof {
        assert(s.take(i as int) =~= s);
    }
    r
}

proof fn lemma_kept_keys(s: Seq<(Option<LocaleView>, Seq<u64>)>, supported: Seq<LocaleView>)
    requires
        keys_unique(s),
    ensures
        keys_unique(kept(s, supported)),
        forall|k: int|
            0 <= k < kept(s, supported).len() ==> exists|j: int|
                0 <= j < s.len() && s[j].0 == #[trigger] kept(s, supported)[k].0,
    decreases s.len(),
{
    if s.len() > 0 {
        let p = s.drop_last();
        assert(keys_unique(p));
        lemma_kept_keys(p, supported);
        let r = kept(p, supported);
        let out = kept(s, supported);
        assert forall|k: int| 0 <= k < r.len() implies r[k].0 != s.last().0 by {
            let j = choose|j: int| 0 <= j < p.len() && p[j].0 == r[k].0;
            assert(s[j] == p[j]);
        }
        assert forall|k: int| 0 <= k < out.len() implies exists|j: int|
            0 <= j < s.len() && s[j].0 == #[trigger] out[k].0 by {
            if k < r.len() {
                assert(out[k] == r[k]);
                let j = choose|j: int| 0 <= j < p.len() && p[j].0 == r[k].0;
                assert(s[j] == p[j]);
            } else {
                assert(out[k] == s.last());
                assert(s[s.len() - 1] == s.last());
            }
        }
        assert forall|a: int, b: int| 0 <= a < b < out.len() implies out[a].0 != out[b].0 by {
            if b < r.len() {
                assert(out[a] == r[a] && out[b] == r[b]);
            } else {
                assert(out[a] == r[a]);
            }
        }
    }
}

proof fn lemma_served_keys_unique(
    s: Seq<(Option<LocaleView>, Seq<u64>)>,
    default: Option<LocaleView>,
    chain: Seq<LocaleView>,
)
    requires
        keys_unique(s),
    ensures
        served(s, default, chain).map_values(|e: (Option<LocaleView>, Seq<u64>)| e.0).no_duplicates(),
{
    let k = served(s, default, chain);
    lemma_kept_keys(s, negotiated(available_of(s), default, chain));
    let ks = k.map_values(|e: (Option<LocaleView>, Seq<u64>)| e.0);
    assert forall|a: int, b: int| 0 <= a < ks.len() && 0 <= b < ks.len() && a != b implies ks[a] != ks[b] by {
        if a < b {
            assert(k[a].0 != k[b].0);
        } else {
            assert(k[b].0 != k[a].0);
        }
    }
}

/// `h` belongs to one of the groups and has no record.
pub open spec fn unresolved_in(
    groups: Seq<(Option<LocaleView>, Seq<u64>)>,
    records: Seq<(u64, Arc<FluentResource>)>,
    h: u64,
) -> bool {
    &&& exists|i: int| 0 <= i < groups.len() && #[trigger] groups[i].1.contains(h)
    &&& resolve(records, h) is None
}

/// Why a snapshot could not be built.
#[derive(Clone, Copy, Debug, PartialEq, Eq)]
pub enum SnapshotError {
    /// A served group names a handle that has no loaded record.
    Unresolved(u64),
}

/// The bundles served in one resolution pass, keyed by locale.
pub struct Snapshot {
    pub bundles: Vec<(Option<LocaleId>, Bundle)>,
}

fn resolve_handle(records: &Vec<(u64, Arc<FluentResource>)>, h: u64) -> (r: Option<
    Arc<FluentResource>,
>)
    ensures
        r == resolve(records@, h),
{
    let mut i: usize = 0;
    proof {
        assert(records@.skip(0) =~= records@);
    }
    while i < records.len()
        invariant
            i <= records.len(),
            resolve(records@, h) == resolve(records@.skip(i as int), h),
        decreases records.len() - i,
    {
        proof {
            assert(records@.skip(i as int)[0] == records@[i as int]);
            assert(records@.skip(i as int).drop_first() =~= records@.skip(i as int + 1));
        }
        if records[i].0 == h {
            return Some(records[i].1.clone());
        }
        i += 1;
    }
    None
}

/// The records of the handles, or the first handle without one.
fn resolve_all(records: &Vec<(u64, Arc<FluentResource>)>, hs: &Vec<u64>) -> (r: Result<
    Vec<Arc<FluentResource>>,
    u64,
>)
    ensures
        match r {
            Ok(rs) => all_resolved(records@, hs@) && rs@ == resolved(records@, hs@),
            Err(h) => !all_resolved(records@, hs@) && hs@.contains(h) && resolve(records@, h) is None,
        },
{
    let mut out: Vec<Arc<FluentResource>> = Vec::new();
    let mut i: usize = 0;
    while i < hs.len()
        invariant
            i <= hs.len(),
            all_resolved(records@, hs@.take(i as int)),
            out@ == resolved(records@, hs@.take(i as int)),
        decreases hs.len() - i,
    {
        match resolve_handle(records, hs[i]) {
            Some(rec) => {
                proof {
                    assert(hs@.take(i as int + 1) =~= hs@.take(i as int).push(hs@[i as int]));
                    assert(resolved(records@, hs@.take(i as int + 1)) =~= resolved(
                        records@,
                        hs@.take(i as int),
                    ).push(rec));
                    assert forall|k: int| 0 <= k < i + 1 implies resolve(records@, #[trigger] hs@.take(i as int + 1)[k]) is Some by {
                        if k < i {
                            assert(hs@.take(i as int + 1)[k] == hs@.take(i as int)[k]);
                        }
                    }
                }
                out.push(rec);
            },
            None => {
                proof {
                    assert(hs@[i as int] == hs[i as int]);
                    assert(!(resolve(records@, hs@[i as int]) is Some));
                }
                return Err(hs[i]);
            },
        }
        i += 1;
    }
    proof {
        assert(hs@.take(i as int) =~= hs@);
    }
    Ok(out)
}

impl Snapshot {
    /// The locales served, in order; `None` is the locale-agnostic bundle.
    pub open spec fn keys(&self) -> Seq<Option<LocaleView>> {
        self.bundles@.map_values(|e: (Option<LocaleId>, Bundle)| opt_locale_view(e.0))
    }

    /// Builds the bundle of every served group from the loaded records. Fails
    /// on the first handle of a served group that has no record. Each locale
    /// is served at most once.
    pub fn build(
        handles: &LocaleHandles,
        default: &Option<LocaleId>,
        chain: &Vec<LocaleId>,
        records: &Vec<(u64, Arc<FluentResource>)>,
    ) -> (r: Result<Snapshot, SnapshotError>)
        requires
            handles.wf(),
        ensures
            ({
                let sv = served(handles@, opt_locale_view(*default), views(chain@));
                match r {
                    Ok(snap) => {
                        &&& forall|i: int| 0 <= i < sv.len() ==> all_resolved(records@, #[trigger] sv[i].1)
                        &&& snap.keys() == sv.map_values(|e: (Option<LocaleView>, Seq<u64>)| e.0)
                        &&& forall|i: int|
                            0 <= i < sv.len() ==> message_entries(#[trigger] snap.bundles@[i].1.messages)
                                == merge_all(keys_of(resolved(records@, sv[i].1)))
                            && opt_locale_view(snap.bundles@[i].1.locale) == sv[i].0
                            && str_views(snap.bundles@[i].1.conflicts@) == all_conflicts(
                                keys_of(resolved(records@, sv[i].1)),
                            )
                        &&& snap.keys().no_duplicates()
                    },
                    Err(SnapshotError::Unresolved(h)) => unresolved_in(sv, records@, h),
                }
            }),
    {
        let groups = supported_entries(handles, default, chain);
        let ghost sv = served(handles@, opt_locale_view(*default), views(chain@));
        let mut bundles: Vec<(Option<LocaleId>, Bundle)> = Vec::new();
        let mut i: usize = 0;
        while i < groups.len()
            invariant
                i <= groups.len(),
                views_of_entries(groups@) == sv,
                sv == served(handles@, opt_locale_view(*default), views(chain@)),
                bundles@.len() == i,
                forall|k: int| 0 <= k < i ==> all_resolved(records@, #[trigger] sv[k].1),
                forall|k: int|
                    0 <= k < i ==> opt_locale_view(#[trigger] bundles@[k].0) == sv[k].0,
                forall|k: int|
                    0 <= k < i ==> message_entries(#[trigger] bundles@[k].1.messages) == merge_all(
                        keys_of(resolved(records@, sv[k].1)),
                    ) && opt_locale_view(bundles@[k].1.locale) == sv[k].0
                        && str_views(bundles@[k].1.conflicts@) == all_conflicts(
                        keys_of(resolved(records@, sv[k].1)),
                    ),
            decreases groups.len() - i,
        {
            proof {
                assert(sv[i as int] == entry_view(groups@[i as int]));
            }
            let rs = match resolve_all(records, &groups[i].1) {
                Ok(rs) => rs,
                Err(h) => {
                    proof {
                        assert(sv[i as int].1 == groups@[i as int].1@);
                        assert(sv.len() == groups@.len());
                        assert(sv[i as int].1.contains(h));
                        assert(unresolved_in(sv, records@, h));
                    }
                    return Err(SnapshotError::Unresolved(h));
                },
            };
            let bundle = Bundle::build(copy_opt_locale(&groups[i].0), &rs);
            bundles.push((copy_opt_locale(&groups[i].0), bundle));
            i += 1;
        }
        let snap = Snapshot { bundles };
        proof {
            lemma_served_keys_unique(handles@, opt_locale_view(*default), views(chain@));
            assert(snap.keys() =~= sv.map_values(|e: (Option<LocaleView>, Seq<u64>)| e.0));
        }
        Ok(snap)
    }

    /// The locales served, in order; `None` is the locale-agnostic bundle.
    pub fn locales(&self) -> (r: Vec<Option<LocaleId>>)
        ensures
            r@.map_values(|l: Option<LocaleId>| opt_locale_view(l)) == self.keys(),
    {
        let mut r: Vec<Option<LocaleId>> = Vec::new();
        let mut i: usize = 0;
        while i < self.bundles.len()
            invariant
                i <= self.bundles.len(),
                r@.map_values(|l: Option<LocaleId>| opt_locale_view(l)) == self.keys().take(i as int),
            decreases self.bundles.len() - i,
        {
            let l = copy_opt_locale(&self.bundles[i].0);
            proof {
                assert(self.keys()[i as int] == opt_locale_view(self.bundles@[i as int].0));
                assert(self.keys().take(i as int + 1) =~= self.keys().take(i as int).push(
                    opt_locale_view(l),
                ));
                assert(r@.push(l).map_values(|l: Option<LocaleId>| opt_locale_view(l)) =~= r@.map_values(
                    |l: Option<LocaleId>| opt_locale_view(l),
                ).push(opt_locale_view(l)));
            }
            r.push(l);
            i += 1;
        }
        proof {
            assert(self.keys().take(i as int) =~= self.keys());
        }
        r
    }

    /// The bundle served for a locale, if any.
    pub fn get(&self, locale: &Option<LocaleId>) -> (r: Option<&Bundle>)
        ensures
            match r {
                Some(b) => exists|i: int|
                    0 <= i < self.bundles@.len() && self.keys()[i] == opt_locale_view(*locale)
                        && #[trigger] self.bundles@[i].1 == *b,
                None => !self.keys().contains(opt_locale_view(*locale)),
            },
    {
        let mut i: usize = 0;
        while i < self.bundles.len()
            invariant
                i <= self.bundles.len(),
                forall|k: int| 0 <= k < i ==> self.keys()[k] != opt_locale_view(*locale),
            decreases self.bundles.len() - i,
        {
            if opt_locale_equals(&self.bundles[i].0, locale) {
                return Some(&self.bundles[i].1);
            }
            i += 1;
        }
        None
    }
}

} // verus!
