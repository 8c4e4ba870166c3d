//! Negotiation of the locales to serve, by filtering the available locales
//! against an ordered list of requested ones.

use crate::locale::{opt_locale_view, LocaleId, LocaleView};
use vstd::prelude::*;

verus! {

/// The views of a sequence of locales.
pub open spec fn views(v: Seq<LocaleId>) -> Seq<LocaleView> {
    v.map_values(|l: LocaleId| l@)
}

/// The available locales that name the same language as `r`, in their order.
pub open spec fn same_language_in(avail: Seq<LocaleView>, r: LocaleView) -> Seq<LocaleView>
    decreases avail.len(),
{
    if avail.len() == 0 {
        Seq::empty()
    } else {
        let rest = same_language_in(avail.drop_last(), r);
        if avail.last().same_language(r) {
            rest.push(avail.last())
        } else {
            rest
        }
    }
}

/// What one requested locale brings in: itself when it is available exactly,
/// otherwise every available locale of the same language.
pub open spec fn candidates(avail: Seq<LocaleView>, r: LocaleView) -> Seq<LocaleView> {
    if avail.contains(r) {
        seq![r]
    } else {
        same_language_in(avail, r)
    }
}

/// The candidates of all requests, in request order.
pub open spec fn all_candidates(avail: Seq<LocaleView>, req: Seq<LocaleView>) -> Seq<LocaleView>
    decreases req.len(),
{
    if req.len() == 0 {
        Seq::empty()
    } else {
        all_candidates(avail, req.drop_last()) + candidates(avail, req.last())
    }
}

/// The first occurrence of each element, in order.
pub open spec fn dedup(s: Seq<LocaleView>) -> Seq<LocaleView>
    decreases s.len(),
{
    if s.len() == 0 {
        Seq::empty()
    } else {
        let d = dedup(s.drop_last());
        if d.contains(s.last()) {
            d
        } else {
            d.push(s.last())
        }
    }
}

/// The negotiated locales, most preferred first. The default locale is used
/// only when no request matched, and only when it is available.
pub open spec fn negotiated(
    avail: Seq<LocaleView>,
    default: Option<LocaleView>,
    req: Seq<LocaleView>,
) -> Seq<LocaleView> {
    let found = dedup(all_candidates(avail, req));
    if found.len() > 0 {
        found
    } else {
        match default {
            Some(d) => if avail.contains(d) {
                seq![d]
            } else {
                Seq::empty()
            },
            None => Seq::empty(),
        }
    }
}

proof fn lemma_views_push(v: Seq<LocaleId>, l: LocaleId)
    ensures
        views(v.push(l)) == views(v).push(l@),
{
    assert(views(v.push(l)) =~= views(v).push(l@));
}

pub(crate) fn contains_locale(v: &Vec<LocaleId>, l: &LocaleId) -> (r: bool)
    ensures
        r == views(v@).contains(l@),
{
    let mut i: usize = 0;
    while i < v.len()
        invariant
            i <= v.len(),
            forall|j: int| 0 <= j < i ==> views(v@)[j] != l@,
        decreases v.len() - i,
    {
        if v[i].equals(l) {
            proof {
                assert(views(v@)[i as int] == l@);
            }
            return true;
        }
        i += 1;
    }
    false
}

fn push_new(out: &mut Vec<LocaleId>, l: &LocaleId)
    ensures
        views(final(out)@) == if views(old(out)@).contains(l@) {
            views(old(out)@)
        } else {
            views(old(out)@).push(l@)
        },
{
    if !contains_locale(out, l) {
        let c = l.duplicate();
        proof {
            lemma_views_push(out@, c);
        }
        out.push(c);
    }
}

/// Negotiates which available locales to serve for the requested ones.
pub fn negotiate(
    available: &Vec<LocaleId>,
    default: &Option<LocaleId>,
    requested: &Vec<LocaleId>,
) -> (r: Vec<LocaleId>)
    ensures
        views(r@) == negotiated(views(available@), opt_locale_view(*default), views(requested@)),
{
    let ghost av = views(available@);
    let ghost rq = views(requested@);
    let mut out: Vec<LocaleId> = Vec::new();
    let mut i: usize = 0;
    while i < requested.len()
        invariant
            i <= requested.len(),
            av == views(available@),
            rq == views(requested@),
            views(out@) == dedup(all_candidates(av, rq.take(i as int))),
        decreases requested.len() - i,
    {
        let r = &requested[i];
        let ghost before = all_candidates(av, rq.take(i as int));
        proof {
            assert(rq.take(i as int + 1).drop_last() =~= rq.take(i as int));
            assert(rq[i as int] == r@);
        }
        if contains_locale(available, r) {
            push_new(&mut out, r);
            proof {
                assert((before + seq![r@]).drop_last() =~= before);
            }
        } else {
            let mut j: usize = 0;
            while j < available.len()
                invariant
                    j <= available.len(),
                    av == views(available@),
                    r@ == rq[i as int],
                    views(out@) == dedup(before + same_language_in(av.take(j as int), r@)),
                decreases available.len() - j,
            {
                let a = &available[j];
                let ghost s = same_language_in(av.take(j as int), r@);
                proof {
                    assert(av.take(j as int + 1).drop_last() =~= av.take(j as int));
                    assert(av[j as int] == a@);
                }
                if a.same_language(r) {
                    push_new(&mut out, a);
                    proof {
                        assert((before + s.push(a@)).drop_last() =~= before + s);
                    }
                }
                j += 1;
            }
            proof {
                assert(av.take(j as int) =~= av);
            }
        }
        i += 1;
    }
    proof {
        assert(rq.take(i as int) =~= rq);
    }
    if out.len() == 0 {
        match default {
            Some(d) => {
                if contains_locale(available, d) {
                    let c = d.duplicate();
                    proof {
                        lemma_views_push(out@, c);
                    }
                    out.push(c);
                }
            },
            None => {},
        }
    }
    out
}

proof fn lemma_dedup(s: Seq<LocaleView>)
    ensures
        forall|x: LocaleView| dedup(s).contains(x) <==> s.contains(x),
        dedup(s).no_duplicates(),
    decreases s.len(),
{
    if s.len() > 0 {
        lemma_dedup(s.drop_last());
        let d = dedup(s.drop_last());
        assert forall|x: LocaleView| dedup(s).contains(x) <==> s.contains(x) by {
            if s.contains(x) {
                let k = choose|k: int| 0 <= k < s.len() && s[k] == x;
                if k < s.len() - 1 {
                    assert(s.drop_last()[k] == x);
                }
            }
            if s.drop_last().contains(x) {
                let k = choose|k: int| 0 <= k < s.len() - 1 && s.drop_last()[k] == x;
                assert(s[k] == x);
            }
            if !d.contains(s.last()) && d.push(s.last()).contains(x) && x != s.last() {
                let k = choose|k: int| 0 <= k < d.len() + 1 && d.push(s.last())[k] == x;
                assert(d[k] == x);
            }
            if !d.contains(s.last()) && d.contains(x) {
                let k = choose|k: int| 0 <= k < d.len() && d[k] == x;
                assert(d.push(s.last())[k] == x);
            }
            if !d.contains(s.last()) {
                assert(d.push(s.last())[d.len() as int] == s.last());
            }
        }
    }
}

proof fn lemma_same_language_in(avail: Seq<LocaleView>, r: LocaleView)
    ensures
        forall|x: LocaleView|
            same_language_in(avail, r).contains(x) <==> (avail.contains(x) && x.same_language(r)),
    decreases avail.len(),
{
    if avail.len() > 0 {
        lemma_same_language_in(avail.drop_last(), r);
        let rest = same_language_in(avail.drop_last(), r);
        assert forall|x: LocaleView|
            same_language_in(avail, r).contains(x) <==> (avail.contains(x) && x.same_language(
                r,
            )) by {
            if avail.contains(x) {
                let k = choose|k: int| 0 <= k < avail.len() && avail[k] == x;
                if k < avail.len() - 1 {
                    assert(avail.drop_last()[k] == x);
                }
            }
            if avail.drop_last().contains(x) {
                let k = choose|k: int| 0 <= k < avail.len() - 1 && avail.drop_last()[k] == x;
                assert(avail[k] == x);
            }
            if avail.last().same_language(r) {
                assert(rest.push(avail.last())[rest.len() as int] == avail.last());
                if rest.push(avail.last()).contains(x) && x != avail.last() {
                    let k = choose|k: int|
                        0 <= k < rest.len() + 1 && rest.push(avail.last())[k] == x;
                    assert(rest[k] == x);
                }
                if rest.contains(x) {
                    let k = choose|k: int| 0 <= k < rest.len() && rest[k] == x;
                    assert(rest.push(avail.last())[k] == x);
                }
            }
        }
    }
}

proof fn lemma_all_candidates_available(avail: Seq<LocaleView>, req: Seq<LocaleView>)
    ensures
        forall|x: LocaleView| all_candidates(avail, req).contains(x) ==> avail.contains(x),
    decreases req.len(),
{
    if req.len() > 0 {
        lemma_all_candidates_available(avail, req.drop_last());
        lemma_same_language_in(avail, req.last());
        let a = all_candidates(avail, req.drop_last());
        let c = candidates(avail, req.last());
        assert forall|x: LocaleView| (a + c).contains(x) implies avail.contains(x) by {
            let k = choose|k: int| 0 <= k < (a + c).len() && (a + c)[k] == x;
            if k < a.len() {
                assert(a[k] == x);
            } else {
                assert(c[k - a.len()] == x);
            }
        }
    }
}

/// Every negotiated locale is available, and none is listed twice.
pub proof fn negotiated_is_available_subset(
    avail: Seq<LocaleView>,
    default: Option<LocaleView>,
    req: Seq<LocaleView>,
)
    ensures
        forall|x: LocaleView| negotiated(avail, default, req).contains(x) ==> avail.contains(x),
        negotiated(avail, default, req).no_duplicates(),
{
    lemma_dedup(all_candidates(avail, req));
    lemma_all_candidates_available(avail, req);
    let n = negotiated(avail, default, req);
    if dedup(all_candidates(avail, req)).len() == 0 {
        assert forall|x: LocaleView| n.contains(x) implies avail.contains(x) by {
            assert(n[0] == x);
        }
    }
}

/// With a single requested locale: an exact match yields just that locale; a
/// locale of the same language is served when there is no exact match; when
/// nothing of that language is available the result is the default locale if
/// it is available, and empty otherwise.
pub proof fn negotiation_single_request(
    avail: Seq<LocaleView>,
    default: Option<LocaleView>,
    l: LocaleView,
)
    ensures
        avail.contains(l) ==> negotiated(avail, default, seq![l]) == seq![l],
        forall|x: LocaleView|
            !avail.contains(l) && avail.contains(x) && x.same_language(l) ==> negotiated(
                avail,
                default,
                seq![l],
            ).contains(x),
        (forall|x: LocaleView| avail.contains(x) ==> !x.same_language(l)) ==> negotiated(
            avail,
            default,
            seq![l],
        ) == match default {
            Some(d) => if avail.contains(d) {
                seq![d]
            } else {
                Seq::<LocaleView>::empty()
            },
            None => Seq::<LocaleView>::empty(),
        },
{
    let req = seq![l];
    assert(req.drop_last() =~= Seq::<LocaleView>::empty());
    assert(all_candidates(avail, req.drop_last()) =~= Seq::<LocaleView>::empty());
    let c = candidates(avail, l);
    assert(all_candidates(avail, req) =~= c);
    lemma_dedup(c);
    lemma_same_language_in(avail, l);
    if avail.contains(l) {
        assert(c.drop_last() =~= Seq::<LocaleView>::empty());
        assert(dedup(c.drop_last()) =~= Seq::<LocaleView>::empty());
        assert(dedup(c) =~= seq![l]);
    }
    if forall|x: LocaleView| avail.contains(x) ==> !x.same_language(l) {
        assert(!avail.contains(l)) by {
            if avail.contains(l) {
                assert(l.same_language(l));
            }
        }
        if dedup(c).len() > 0 {
            let y = dedup(c)[0];
            assert(dedup(c).contains(y));
            assert(c.contains(y));
            assert(avail.contains(y) && y.same_language(l));
        }
        assert(dedup(c).len() == 0);
    }
    assert forall|x: LocaleView|
        !avail.contains(l) && avail.contains(x) && x.same_language(l) implies negotiated(
            avail,
            default,
            req,
        ).contains(x) by {
        assert(dedup(c).contains(x));
        assert(dedup(c).len() > 0);
    }
}

} // verus!
