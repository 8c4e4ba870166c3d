//! Locale identifiers: a language subtag with optional script, region and
//! variant subtags.

use unic_langid::LanguageIdentifier;
use vstd::prelude::*;

use vstd::string::StringExecFns;

verus! {

/// The mathematical value of a locale identifier: its subtags as text.
pub struct LocaleView {
    pub language: Seq<char>,
    pub script: Option<Seq<char>>,
    pub region: Option<Seq<char>>,
    pub variants: Seq<Seq<char>>,
}

/// A parsed locale identifier, held as plain subtag strings in their
/// canonical case. Only parsing makes one, so its canonical form always
/// parses back to it.
#[derive(Debug)]
pub struct LocaleId {
    language: String,
    script: Option<String>,
    region: Option<String>,
    variants: Vec<String>,
}

pub open spec fn opt_str_view(o: Option<String>) -> Option<Seq<char>> {
    match o {
        Some(s) => Some(s@),
        None => None,
    }
}

impl View for LocaleId {
    type V = LocaleView;

    closed spec fn view(&self) -> LocaleView {
        LocaleView {
            language: self.language@,
            script: opt_str_view(self.script),
            region: opt_str_view(self.region),
            variants: self.variants@.map_values(|v: String| v@),
        }
    }
}

/// The view of an optional locale; `None` stands for the locale-agnostic slot.
pub open spec fn opt_locale_view(o: Option<LocaleId>) -> Option<LocaleView> {
    match o {
        Some(l) => Some(l@),
        None => None,
    }
}

/// What `unic_langid` parses a text into, if the text is a well-formed
/// language identifier.
pub uninterp spec fn parsed_locale(s: Seq<char>) -> Option<LocaleView>;

/// Relies on `unic_langid::LanguageIdentifier::from_str`: whether it succeeds
/// and which subtags it yields depend on the text alone. The subtags come out
/// normalised (case fixed, variants sorted without repeats), so the canonical
/// form `tag` of the result, which is what the identifier's `Display` writes,
/// parses back to the same subtags; every subtag is ASCII alphanumeric, so
/// the form holds no `.`. The subtags are copied out as strings.
#[verifier::external_body]
fn parse_langid(s: &str) -> (r: Option<LocaleId>)
    ensures
        opt_locale_view(r) == parsed_locale(s@),
        r is Some ==> r->Some_0@.canonical(),
{
    s.parse::<LanguageIdentifier>().ok().map(|id| LocaleId {
        language: id.language.as_str().to_string(),
        script: id.script.map(|x| x.as_str().to_string()),
        region: id.region.map(|x| x.as_str().to_string()),
        variants: id.variants().map(|v| v.as_str().to_string()).collect(),
    })
}

/// `-v1-v2...`: each variant subtag preceded by a dash.
pub open spec fn variants_suffix(vs: Seq<Seq<char>>) -> Seq<char>
    decreases vs.len(),
{
    if vs.len() == 0 {
        Seq::empty()
    } else {
        variants_suffix(vs.drop_last()) + seq!['-'] + vs.last()
    }
}

pub open spec fn opt_suffix(o: Option<Seq<char>>) -> Seq<char> {
    match o {
        Some(s) => seq!['-'] + s,
        None => Seq::empty(),
    }
}

impl LocaleView {
    /// The canonical text form: subtags joined by dashes, in the order
    /// language, script, region, variants.
    pub open spec fn tag(self) -> Seq<char> {
        self.language + opt_suffix(self.script) + opt_suffix(self.region) + variants_suffix(
            self.variants,
        )
    }

    /// The canonical form parses back to these subtags and holds no `.`.
    pub open spec fn canonical(self) -> bool {
        &&& parsed_locale(self.tag()) == Some(self)
        &&& !self.tag().contains('.')
    }

    /// Relaxed match: both identifiers name the same language.
    pub open spec fn same_language(self, other: LocaleView) -> bool {
        self.language == other.language
    }
}

fn eq_opt_string(a: &Option<String>, b: &Option<String>) -> (r: bool)
    ensures
        r == (opt_str_view(*a) == opt_str_view(*b)),
{
    match (a, b) {
        (Some(x), Some(y)) => x.eq(y),
        (None, None) => true,
        _ => false,
    }
}

fn copy_opt_string(a: &Option<String>) -> (r: Option<String>)
    ensures
        opt_str_view(r) == opt_str_view(*a),
{
    match a {
        Some(x) => Some(x.clone()),
        None => None,
    }
}

impl LocaleId {
    #[verifier::type_invariant]
    spec fn wf(self) -> bool {
        self@.canonical()
    }

    /// The language subtag.
    pub fn language(&self) -> (r: &String)
        ensures
            r@ == self@.language,
    {
        &self.language
    }

    /// The script subtag, if any.
    pub fn script(&self) -> (r: &Option<String>)
        ensures
            opt_str_view(*r) == self@.script,
    {
        &self.script
    }

    /// The region subtag, if any.
    pub fn region(&self) -> (r: &Option<String>)
        ensures
            opt_str_view(*r) == self@.region,
    {
        &self.region
    }

    /// The variant subtags, sorted.
    pub fn variants(&self) -> (r: &Vec<String>)
        ensures
            r@.map_values(|v: String| v@) == self@.variants,
    {
        &self.variants
    }

    /// Parses a locale identifier; `None` when the text is malformed. The
    /// canonical form of a parsed identifier parses back to it.
    pub fn parse(s: &str) -> (r: Option<LocaleId>)
        ensures
            opt_locale_view(r) == parsed_locale(s@),
            r is Some ==> parsed_locale(r->Some_0@.tag()) == parsed_locale(s@),
            r is Some ==> r->Some_0@.canonical(),
    {
        parse_langid(s)
    }

    /// The canonical text form of the identifier.
    pub fn to_string(&self) -> (r: String)
        ensures
            r@ == self@.tag(),
            self@.canonical(),
    {
        proof {
            reveal_strlit("-");
            use_type_invariant(self);
        }
        let mut r = self.language.clone();
        match &self.script {
            Some(s) => {
                r.append("-");
                r.append(s.as_str());
            },
            None => {},
        }
        match &self.region {
            Some(s) => {
                r.append("-");
                r.append(s.as_str());
            },
            None => {},
        }
        let ghost head = r@;
        let mut i: usize = 0;
        while i < self.variants.len()
            invariant
                i <= self.variants.len(),
                head == self@.language + opt_suffix(self@.script) + opt_suffix(self@.region),
                r@ == head + variants_suffix(self@.variants.take(i as int)),
            decreases self.variants.len() - i,
        {
            let ghost before = r@;
            proof {
                reveal_strlit("-");
                assert("-"@ =~= seq!['-']);
            }
            r.append("-");
            r.append(self.variants[i].as_str());
            proof {
                let vs = self@.variants.take(i as int + 1);
                assert(vs.drop_last() =~= self@.variants.take(i as int));
                assert(vs.last() == self.variants@[i as int]@);
                assert(r@ =~= before + seq!['-'] + self.variants@[i as int]@);
                assert(r@ =~= head + variants_suffix(vs));
            }
            i += 1;
        }
        proof {
            assert(self@.variants.take(i as int) =~= self@.variants);
        }
        r
    }

    /// Exact equality of all subtags.
    pub fn equals(&self, other: &LocaleId) -> (r: bool)
        ensures
            r == (self@ == other@),
    {
        if !self.language.eq(&other.language) || !eq_opt_string(&self.script, &other.script)
            || !eq_opt_string(&self.region, &other.region) {
            return false;
        }
        if self.variants.len() != other.variants.len() {
            proof {
                assert(self@.variants.len() != other@.variants.len());
            }
            return false;
        }
        let mut i: usize = 0;
        while i < self.variants.len()
            invariant
                i <= self.variants.len(),
                self.variants.len() == other.variants.len(),
                forall|j: int| 0 <= j < i ==> self.variants@[j]@ == other.variants@[j]@,
            decreases self.variants.len() - i,
        {
            if !self.variants[i].eq(&other.variants[i]) {
                proof {
                    assert(self@.variants[i as int] != other@.variants[i as int]);
                }
                return false;
            }
            i += 1;
        }
        proof {
            assert(self@.variants =~= other@.variants);
        }
        true
    }

    /// Relaxed match: both identifiers name the same language.
    pub fn same_language(&self, other: &LocaleId) -> (r: bool)
        ensures
            r == self@.same_language(other@),
    {
        self.language == other.language
    }

    /// A copy with the same subtags.
    pub fn duplicate(&self) -> (r: LocaleId)
        ensures
            r@ == self@,
    {
        let mut variants: Vec<String> = Vec::new();
        let mut i: usize = 0;
        while i < self.variants.len()
            invariant
                i <= self.variants.len(),
                variants@.map_values(|v: String| v@) =~= self.variants@.take(i as int).map_values(
                    |v: String| v@,
                ),
            decreases self.variants.len() - i,
        {
            let v = self.variants[i].clone();
            proof {
                assert(self.variants@.take(i as int + 1) =~= self.variants@.take(i as int).push(
                    self.variants@[i as int],
                ));
            }
            let ghost prev = variants@;
            variants.push(v);
            proof {
                assert(variants@ =~= prev.push(v));
                assert(variants@.map_values(|v: String| v@) =~= prev.map_values(|v: String| v@).push(
                    v@,
                ));
            }
            i += 1;
        }
        proof {
            assert(self.variants@.take(i as int) =~= self.variants@);
            use_type_invariant(self);
        }
        LocaleId {
            language: self.language.clone(),
            script: copy_opt_string(&self.script),
            region: copy_opt_string(&self.region),
            variants,
        }
    }
}

impl Clone for LocaleId {
    fn clone(&self) -> (r: LocaleId)
        ensures
            r@ == self@,
    {
        self.duplicate()
    }
}

impl PartialEq for LocaleId {
    fn eq(&self, other: &LocaleId) -> (r: bool) {
        self.equals(other)
    }
}

impl vstd::std_specs::cmp::PartialEqSpecImpl for LocaleId {
    open spec fn obeys_eq_spec() -> bool {
        true
    }

    open spec fn eq_spec(&self, other: &LocaleId) -> bool {
        self@ == other@
    }
}

} // verus!
