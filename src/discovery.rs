//! Locale discovery: which locale a resource path belongs to, and the
//! grouping of resource handles by locale.

use crate::locale::{opt_locale_view, LocaleId, LocaleView};
use vstd::prelude::*;
use vstd::string::StrSliceExecFns;

verus! {

/// The extension of a message resource file.
pub open spec fn ftl_suffix() -> Seq<char> {
    seq!['.', 'f', 't', 'l']
}

/// A path segment without a trailing `.ftl`.
pub open spec fn strip_ftl(s: Seq<char>) -> Seq<char> {
    if s.len() >= 4 && s.subrange(s.len() - 4, s.len() as int) == ftl_suffix() {
        s.subrange(0, s.len() - 4)
    } else {
        s
    }
}

/// The locale a single path segment names, if any.
pub open spec fn segment_locale(s: Seq<char>) -> Option<LocaleView> {
    crate::locale::parsed_locale(strip_ftl(s))
}

/// Starting from `parent`, moves on to each following segment while it parses
/// and names the same language as the last accepted one.
pub open spec fn accumulate(parent: LocaleView, segs: Seq<Seq<char>>) -> LocaleView
    decreases segs.len(),
{
    if segs.len() == 0 {
        parent
    } else {
        match segment_locale(segs[0]) {
            Some(c) => if c.same_language(parent) {
                accumulate(c, segs.drop_first())
            } else {
                parent
            },
            None => parent,
        }
    }
}

/// The locale of a resource file under the locales root, found from its path
/// segments: the most specific of the leading segments that parse and match.
pub open spec fn implicit_locale_of(segs: Seq<Seq<char>>) -> Option<LocaleView> {
    if segs.len() == 0 {
        None
    } else {
        match segment_locale(segs[0]) {
            Some(p) => Some(accumulate(p, segs.drop_first())),
            None => None,
        }
    }
}

/// The locale of a manifest file: its parent directory's name, parsed.
pub open spec fn explicit_locale_of(segs: Seq<Seq<char>>) -> Option<LocaleView> {
    if segs.len() < 2 {
        None
    } else {
        crate::locale::parsed_locale(segs[segs.len() - 2])
    }
}

/// A locale's canonical form, used as a path segment, is discovered as that
/// locale: as a directory in explicit mode, and as a file or directory name
/// (with or without `.ftl`) in implicit mode, where a file below it whose
/// name names no locale of the same language leaves it unchanged.
pub proof fn discovery_round_trip(v: LocaleView, file: Seq<char>)
    requires
        v.canonical(),
    ensures
        implicit_locale_of(seq![v.tag()]) == Some(v),
        implicit_locale_of(seq![v.tag() + ftl_suffix()]) == Some(v),
        explicit_locale_of(seq![v.tag(), file]) == Some(v),
        segment_locale(file) is None || !segment_locale(file)->Some_0.same_language(v)
            ==> implicit_locale_of(seq![v.tag(), file]) == Some(v),
{
    let t = v.tag();
    if t.len() >= 4 && t.subrange(t.len() - 4, t.len() as int) == ftl_suffix() {
        assert(t.subrange(t.len() - 4, t.len() as int)[0] == t[t.len() - 4]);
        assert(t.contains('.'));
    }
    assert(strip_ftl(t) == t);
    let u = t + ftl_suffix();
    assert(u.subrange(u.len() - 4, u.len() as int) =~= ftl_suffix());
    assert(u.subrange(0, u.len() - 4) =~= t);
    assert(strip_ftl(u) == t);
    assert(seq![t].drop_first() =~= Seq::<Seq<char>>::empty());
    assert(seq![u].drop_first() =~= Seq::<Seq<char>>::empty());
    let w = seq![t, file];
    assert(w.drop_first() =~= seq![file]);
    assert(seq![file].drop_first() =~= Seq::<Seq<char>>::empty());
}

pub open spec fn seg_views(v: Seq<String>) -> Seq<Seq<char>> {
    v.map_values(|s: String| s@)
}

fn strip_ftl_exec(s: &str) -> (r: &str)
    ensures
        r@ == strip_ftl(s@),
{
    let n = s.unicode_len();
    if n >= 4 && s.get_char(n - 4) == '.' && s.get_char(n - 3) == 'f' && s.get_char(n - 2) == 't'
        && s.get_char(n - 1) == 'l' {
        proof {
            assert(s@.subrange(n - 4, n as int) =~= ftl_suffix());
        }
        s.substring_char(0, n - 4)
    } else {
        proof {
            if n >= 4 {
                let t = s@.subrange(n - 4, n as int);
                assert(t[0] == s@[n - 4]);
                assert(t[1] == s@[n - 3]);
                assert(t[2] == s@[n - 2]);
                assert(t[3] == s@[n - 1]);
            }
        }
        s
    }
}

fn parse_segment(s: &String) -> (r: Option<LocaleId>)
    ensures
        opt_locale_view(r) == segment_locale(s@),
{
    LocaleId::parse(strip_ftl_exec(s.as_str()))
}

/// The locale of a resource file, from its path segments below the locales
/// root (the last one being the file name). `None` when the first segment
/// names no locale: the file then belongs to the locale-agnostic bundle.
pub fn implicit_locale(segments: &Vec<String>) -> (r: Option<LocaleId>)
    ensures
        opt_locale_view(r) == implicit_locale_of(seg_views(segments@)),
{
    let ghost segs = seg_views(segments@);
    if segments.len() == 0 {
        return None;
    }
    let mut parent = match parse_segment(&segments[0]) {
        Some(p) => p,
        None => return None,
    };
    let mut i: usize = 1;
    proof {
        assert(segs.drop_first() =~= segs.skip(1));
    }
    while i < segments.len()
        invariant
            1 <= i <= segments.len(),
            segs == seg_views(segments@),
            accumulate(parent@, segs.skip(i as int)) == accumulate(
                segment_locale(segs[0])->Some_0,
                segs.drop_first(),
            ),
            segment_locale(segs[0]) is Some,
        decreases segments.len() - i,
    {
        proof {
            assert(segs.skip(i as int)[0] == segs[i as int]);
            assert(segs.skip(i as int).drop_first() =~= segs.skip(i as int + 1));
        }
        match parse_segment(&segments[i]) {
            Some(c) => {
                if c.same_language(&parent) {
                    parent = c;
                } else {
                    return Some(parent);
                }
            },
            None => return Some(parent),
        }
        i += 1;
    }
    Some(parent)
}

/// The locale of a manifest file, from its path segments below the locales
/// root: the name of the directory that holds it.
pub fn explicit_locale(segments: &Vec<String>) -> (r: Option<LocaleId>)
    ensures
        opt_locale_view(r) == explicit_locale_of(seg_views(segments@)),
{
    if segments.len() < 2 {
        return None;
    }
    LocaleId::parse(segments[segments.len() - 2].as_str())
}

/// Resource handles grouped by locale, in the order the locales were first
/// seen. `None` is the locale-agnostic group.
pub struct LocaleHandles {
    pub entries: Vec<(Option<LocaleId>, Vec<u64>)>,
}

pub open spec fn entry_view(e: (Option<LocaleId>, Vec<u64>)) -> (Option<LocaleView>, Seq<u64>) {
    (opt_locale_view(e.0), e.1@)
}

/// No locale appears twice among the keys.
pub open spec fn keys_unique(s: Seq<(Option<LocaleView>, Seq<u64>)>) -> bool {
    forall|i: int, j: int| 0 <= i < j < s.len() ==> s[i].0 != s[j].0
}

pub(crate) fn opt_locale_equals(a: &Option<LocaleId>, b: &Option<LocaleId>) -> (r: bool)
    ensures
        r == (opt_locale_view(*a) == opt_locale_view(*b)),
{
    match (a, b) {
        (Some(x), Some(y)) => x.equals(y),
        (None, None) => true,
        _ => false,
    }
}

impl View for LocaleHandles {
    type V = Seq<(Option<LocaleView>, Seq<u64>)>;

    open spec fn view(&self) -> Self::V {
        self.entries@.map_values(|e: (Option<LocaleId>, Vec<u64>)| entry_view(e))
    }
}

impl LocaleHandles {
    pub open spec fn wf(&self) -> bool {
        keys_unique(self@)
    }

    /// No locales yet.
    pub fn new() -> (r: LocaleHandles)
        ensures
            r.wf(),
            r@ == Seq::<(Option<LocaleView>, Seq<u64>)>::empty(),
    {
        let r = LocaleHandles { entries: Vec::new() };
        proof {
            assert(r@ =~= Seq::<(Option<LocaleView>, Seq<u64>)>::empty());
        }
        r
    }

    fn find(&self, locale: &Option<LocaleId>) -> (r: Option<usize>)
        requires
            self.wf(),
        ensures
            match r {
                Some(i) => i < self@.len() && self@[i as int].0 == opt_locale_view(*locale),
                None => forall|i: int|
                    0 <= i < self@.len() ==> self@[i].0 != opt_locale_view(*locale),
            },
    {
        let mut i: usize = 0;
        while i < self.entries.len()
            invariant
                i <= self.entries.len(),
                forall|j: int| 0 <= j < i ==> self@[j].0 != opt_locale_view(*locale),
            decreases self.entries.len() - i,
        {
            if opt_locale_equals(&self.entries[i].0, locale) {
                return Some(i);
            }
            i += 1;
        }
        None
    }

    /// Adds one resource handle to its locale's group, opening the group at
    /// the end when the locale is new.
    pub fn add_file(&mut self, locale: Option<LocaleId>, handle: u64)
        requires
            old(self).wf(),
        ensures
            final(self).wf(),
            forall|i: int|
                0 <= i < old(self)@.len() && old(self)@[i].0 == opt_locale_view(locale)
                    ==> final(self)@ == old(self)@.update(
                    i,
                    (old(self)@[i].0, old(self)@[i].1.push(handle)),
                ),
            (forall|i: int| 0 <= i < old(self)@.len() ==> old(self)@[i].0 != opt_locale_view(locale))
                ==> final(self)@ == old(self)@.push((opt_locale_view(locale), seq![handle])),
    {
        match self.find(&locale) {
            Some(i) => {
                let ghost before = self@;
                let mut entry = self.entries.remove(i);
                entry.1.push(handle);
                self.entries.insert(i, entry);
                proof {
                    assert(self@ =~= before.update(i as int, (before[i as int].0, before[i as int].1.push(handle))));
                }
            },
            None => {
                let ghost before = self@;
                let mut hs: Vec<u64> = Vec::new();
                hs.push(handle);
                self.entries.push((locale, hs));
                proof {
                    assert(self@ =~= before.push((opt_locale_view(locale), seq![handle])));
                }
            },
        }
    }

    /// Sets the handles of a locale, replacing the group in place when the
    /// locale is known and appending it otherwise.
    pub fn set_locale(&mut self, locale: Option<LocaleId>, handles: Vec<u64>)
        requires
            old(self).wf(),
        ensures
            final(self).wf(),
            forall|i: int|
                0 <= i < old(self)@.len() && old(self)@[i].0 == opt_locale_view(locale)
                    ==> final(self)@ == old(self)@.update(i, (old(self)@[i].0, handles@)),
            (forall|i: int| 0 <= i < old(self)@.len() ==> old(self)@[i].0 != opt_locale_view(locale))
                ==> final(self)@ == old(self)@.push((opt_locale_view(locale), handles@)),
    {
        let ghost before = self@;
        let ghost hv = handles@;
        match self.find(&locale) {
            Some(i) => {
                let entry = self.entries.remove(i);
                self.entries.insert(i, (entry.0, handles));
                proof {
                    assert(self@ =~= before.update(i as int, (before[i as int].0, hv)));
                }
            },
            None => {
                self.entries.push((locale, handles));
                proof {
                    assert(self@ =~= before.push((opt_locale_view(locale), hv)));
                }
            },
        }
    }
}

} // verus!
