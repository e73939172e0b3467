//! The route-template engine: grammar parser, renderers, fill engine,
//! capture extraction, and the deduplicating template registry.

use vstd::prelude::*;
use vstd::string::{StrSliceExecFns, StringExecFns};

use crate::Error;
use self::parser::{Expression, Parsed, ParsedV, Part, PartV, VarSpec, parsed_wf, parts_view,
    varspecs_view};
use self::render::{append_parts_re, append_parts_string, axum_canon, axum_part_canon,
    axum7_rest, axum7_vars, original_string, parsed_canon, part_canon, parts_canon,
    parts_re_names, parts_var_names, re_canon, re_names_canon, var_names_canon};

pub mod de;
pub mod fill;
pub mod parser;
pub mod render;

pub use self::de::CaptureDeserializationError;
pub use self::fill::{FillPolicy, VarsList};

verus! {

// ---------------------------------------------------------------------------
// String building blocks on top of std
// ---------------------------------------------------------------------------

/// The character-sequence views of a sequence of strings.
pub open spec fn strs_view(v: Seq<String>) -> Seq<Seq<char>> {
    Seq::new(v.len(), |i: int| v[i]@)
}

/// Relies on `String::push`: appends the given character to the end of the
/// string.
#[verifier::external_body]
pub(crate) fn push_char(s: &mut String, c: char)
    ensures
        final(s)@ == old(s)@.push(c),
{
    s.push(c);
}

/// Relies on `str`'s `PartialEq`: two string slices are equal exactly when
/// their character sequences are.
#[verifier::external_body]
pub(crate) fn str_eq(a: &str, b: &str) -> (r: bool)
    ensures
        r == (a@ == b@),
{
    a == b
}

/// Appends a string slice, in terms of the character-sequence views.
pub(crate) fn push_str(s: &mut String, t: &str)
    ensures
        final(s)@ == old(s)@ + t@,
{
    s.append(t);
}

/// The characters of a string slice, gathered into a vector.
pub(crate) fn to_chars(s: &str) -> (r: Vec<char>)
    ensures
        r@ == s@,
{
    let n = s.unicode_len();
    let mut r: Vec<char> = Vec::new();
    let mut i: usize = 0;
    while i < n
        invariant
            i <= n,
            n == s@.len(),
            r@ =~= s@.take(i as int),
        decreases n - i,
    {
        let c = s.get_char(i);
        r.push(c);
        i = i + 1;
        proof {
            assert(r@ =~= s@.take(i as int));
        }
    }
    proof {
        assert(s@.take(n as int) =~= s@);
    }
    r
}

// ---------------------------------------------------------------------------
// Deep copies of the AST (with their views preserved)
// ---------------------------------------------------------------------------

impl VarSpec {
    /// A copy with the same view.
    pub fn duplicate(&self) -> (r: VarSpec)
        ensures
            r@ == self@,
    {
        VarSpec { varname: self.varname.clone(), modifier: self.modifier }
    }
}

impl Expression {
    /// A copy with the same view.
    pub fn duplicate(&self) -> (r: Expression)
        ensures
            r@ == self@,
    {
        let mut vss: Vec<VarSpec> = Vec::new();
        let mut i: usize = 0;
        while i < self.varspecs.len()
            invariant
                i <= self.varspecs.len(),
                varspecs_view(vss@) =~= varspecs_view(self.varspecs@).take(i as int),
            decreases self.varspecs.len() - i,
        {
            let ghost prev = vss@;
            vss.push(self.varspecs[i].duplicate());
            proof {
                assert(varspecs_view(prev).len() == prev.len());
                assert forall|k: int| 0 <= k <= i implies
                    #[trigger] vss@[k]@ == self.varspecs@[k]@ by {
                    if k < i {
                        assert(vss@[k] == prev[k]);
                        assert(varspecs_view(prev)[k] == prev[k]@);
                        assert(varspecs_view(self.varspecs@).take(i as int)[k]
                            == self.varspecs@[k]@);
                    }
                }
                assert(varspecs_view(vss@) =~= varspecs_view(self.varspecs@).take(i + 1));
            }
            i = i + 1;
        }
        let r = Expression { operator: self.operator, varspecs: vss };
        proof {
            assert(varspecs_view(self.varspecs@).take(self.varspecs@.len() as int)
                =~= varspecs_view(self.varspecs@));
        }
        r
    }
}

impl Part {
    /// A copy with the same view.
    pub fn duplicate(&self) -> (r: Part)
        ensures
            r@ == self@,
    {
        match self {
            Part::Lit(s) => Part::Lit(s.clone()),
            Part::Expression(e) => Part::Expression(e.duplicate()),
            Part::SegVar(e) => Part::SegVar(e.duplicate()),
            Part::SegPathVar(e) => Part::SegPathVar(e.duplicate()),
            Part::SegRest(e) => Part::SegRest(e.duplicate()),
            Part::SegPathRest(e) => Part::SegPathRest(e.duplicate()),
        }
    }
}

/// A copy of a part list with the same views.
pub fn parts_duplicate(ps: &Vec<Part>) -> (r: Vec<Part>)
    ensures
        parts_view(r@) == parts_view(ps@),
{
    let mut r: Vec<Part> = Vec::new();
    let mut i: usize = 0;
    while i < ps.len()
        invariant
            i <= ps.len(),
            parts_view(r@) =~= parts_view(ps@).take(i as int),
        decreases ps.len() - i,
    {
        let ghost prev = r@;
        r.push(ps[i].duplicate());
        proof {
            assert(parts_view(prev).len() == prev.len());
            assert forall|k: int| 0 <= k <= i implies
                #[trigger] r@[k]@ == ps@[k]@ by {
                if k < i {
                    assert(r@[k] == prev[k]);
                    assert(parts_view(prev)[k] == prev[k]@);
                    assert(parts_view(ps@).take(i as int)[k] == ps@[k]@);
                }
            }
            assert(parts_view(r@) =~= parts_view(ps@).take(i + 1));
        }
        i = i + 1;
    }
    proof {
        assert(parts_view(ps@).take(ps@.len() as int) =~= parts_view(ps@));
    }
    r
}

impl Parsed {
    /// A copy with the same view.
    pub fn duplicate(&self) -> (r: Parsed)
        ensures
            r@ == self@,
    {
        Parsed {
            auth: match &self.auth {
                Option::Some(a) => Option::Some(parts_duplicate(a)),
                Option::None => Option::None,
            },
            path: parts_duplicate(&self.path),
            query: match &self.query {
                Option::Some(q) => Option::Some(parts_duplicate(q)),
                Option::None => Option::None,
            },
        }
    }
}

// ---------------------------------------------------------------------------
// Trusted validation of rendered strings
// ---------------------------------------------------------------------------

/// Whether a string is a valid RFC 6570 URI template; decided by the
/// outside template parser, as a function of the string alone.
pub uninterp spec fn uri_template_valid(s: Seq<char>) -> bool;

/// Relies on `iri_string::template::UriTemplateStr::new`: it accepts
/// exactly the strings that follow the RFC 6570 template grammar, and its
/// verdict depends on the string alone.
#[verifier::external_body]
fn check_uri_template(s: &str) -> (r: bool)
    ensures
        r == uri_template_valid(s@),
{
    iri_string::template::UriTemplateStr::new(s).is_ok()
}

/// Whether a string is a valid IRI reference; decided by the outside IRI
/// validator, as a function of the string alone.
pub uninterp spec fn iri_reference_valid(s: Seq<char>) -> bool;

/// Relies on `iri_string::validate::iri_reference`: it accepts exactly the
/// strings that are RFC 3987 IRI references, and its verdict depends on
/// the string alone.
#[verifier::external_body]
fn check_iri_reference(s: &str) -> (r: bool)
    ensures
        r == iri_reference_valid(s@),
{
    iri_string::validate::iri_reference::<iri_string::spec::IriSpec>(s).is_ok()
}

// ---------------------------------------------------------------------------
// A single parsed template and its derived artifacts
// ---------------------------------------------------------------------------

/// The parsed view of a template after a literal prefix was planted in
/// front of its path.
pub open spec fn prefixed_view(pv: ParsedV, pre: Seq<char>) -> ParsedV {
    ParsedV { auth: pv.auth, path: seq![PartV::Lit(pre)] + pv.path, query: pv.query }
}

/// One parsed template together with its cache of prefixed variants.
pub struct InnerSingle {
    pub parsed: Parsed,
    pub prefixes: Vec<(String, InnerSingle)>,
}

/// Every cached variant holds the parsed template of its key planted in
/// front of this template's path.
pub open spec fn inner_wf(s: InnerSingle) -> bool {
    forall|k: int| 0 <= k < s.prefixes@.len() ==> (#[trigger] s.prefixes@[k]).1.parsed@
        == prefixed_view(s.parsed@, s.prefixes@[k].0@)
}

/// The prefix cache holds an entry for this prefix string.
pub open spec fn has_prefix_variant(s: InnerSingle, pre: Seq<char>) -> bool {
    exists|k: int| 0 <= k < s.prefixes@.len() && (#[trigger] s.prefixes@[k]).0@ == pre
}

/// Prepending a literal prepends its text to the canonical part-list text.
proof fn lemma_parts_canon_prepend(pre: Seq<char>, ps: Seq<PartV>)
    ensures
        parts_canon(seq![PartV::Lit(pre)] + ps) == pre + parts_canon(ps),
    decreases ps.len(),
{
    if ps.len() == 0 {
        assert(seq![PartV::Lit(pre)] + ps =~= seq![PartV::Lit(pre)]);
        assert(seq![PartV::Lit(pre)].drop_last() =~= Seq::<PartV>::empty());
        assert(parts_canon(seq![PartV::Lit(pre)])
            == parts_canon(Seq::<PartV>::empty()) + part_canon(PartV::Lit(pre)));
        assert(pre + parts_canon(ps) =~= pre);
        assert(Seq::<char>::empty() + pre =~= pre);
    } else {
        let whole = seq![PartV::Lit(pre)] + ps;
        assert(whole.drop_last() =~= seq![PartV::Lit(pre)] + ps.drop_last());
        assert(whole.last() == ps.last());
        lemma_parts_canon_prepend(pre, ps.drop_last());
        assert(pre + parts_canon(ps.drop_last()) + part_canon(ps.last())
            =~= pre + parts_canon(ps));
    }
}

/// The canonical string of a prefixed template: the prefix text stands
/// between the authority text and the path text.
pub proof fn lemma_prefixed_canon(pv: ParsedV, pre: Seq<char>)
    ensures
        parsed_canon(prefixed_view(pv, pre)) == crate::routing::render::opt_parts_canon(pv.auth)
            + pre + parts_canon(pv.path) + crate::routing::render::opt_parts_canon(pv.query),
{
    lemma_parts_canon_prepend(pre, pv.path);
    assert(crate::routing::render::opt_parts_canon(pv.auth) + (pre + parts_canon(pv.path))
        + crate::routing::render::opt_parts_canon(pv.query)
        =~= crate::routing::render::opt_parts_canon(pv.auth) + pre + parts_canon(pv.path)
        + crate::routing::render::opt_parts_canon(pv.query));
}

impl InnerSingle {
    /// A fresh entry for a parsed template, with an empty prefix cache.
    pub fn from_parsed(parsed: Parsed) -> (r: InnerSingle)
        ensures
            r.parsed@ == parsed@,
            inner_wf(r),
    {
        InnerSingle { parsed, prefixes: Vec::new() }
    }

    /// A copy with the same parsed template and an empty prefix cache.
    /// The cache is transparent (see [`inner_wf`]), so dropping it changes
    /// no observable result.
    pub fn duplicate(&self) -> (r: InnerSingle)
        ensures
            r.parsed@ == self.parsed@,
            inner_wf(r),
    {
        InnerSingle { parsed: self.parsed.duplicate(), prefixes: Vec::new() }
    }

    /// The canonical template string, the left inverse of `parse`.
    pub fn template_string(&self) -> (r: String)
        ensures
            r@ == parsed_canon(self.parsed@),
    {
        let mut s = String::new();
        match &self.parsed.auth {
            Option::Some(a) => append_parts_string(&mut s, a),
            Option::None => {}
        }
        append_parts_string(&mut s, &self.parsed.path);
        match &self.parsed.query {
            Option::Some(q) => append_parts_string(&mut s, q),
            Option::None => {}
        }
        proof {
            assert(s@ =~= parsed_canon(self.parsed@));
        }
        s
    }

    /// The canonical template string, validated as an RFC 6570 template by
    /// the outside template parser.
    pub fn template(&self) -> (r: Result<String, Error>)
        ensures
            match r {
                Result::Ok(s) => s@ == parsed_canon(self.parsed@)
                    && uri_template_valid(s@),
                Result::Err(e) => e is IriTempate
                    && !uri_template_valid(parsed_canon(self.parsed@)),
            },
    {
        let s = self.template_string();
        if check_uri_template(s.as_str()) {
            Result::Ok(s)
        } else {
            Result::Err(Error::IriTempate(s))
        }
    }

    /// The matching regex source: authority and path fragments, then the
    /// tolerant `[?#]?.*` suffix.
    pub fn re_str(&self) -> (r: String)
        ensures
            r@ == re_canon(self.parsed@),
    {
        let mut s = String::new();
        match &self.parsed.auth {
            Option::Some(a) => append_parts_re(&mut s, a, false),
            Option::None => {}
        }
        append_parts_re(&mut s, &self.parsed.path, true);
        push_str(&mut s, "[?#]?.*");
        proof {
            assert(s@ =~= re_canon(self.parsed@));
        }
        s
    }

    /// The capture-group names of the regex, authority first, in
    /// declaration order.
    pub fn re_names(&self) -> (r: Vec<String>)
        ensures
            strs_view(r@) == re_names_canon(self.parsed@),
    {
        let mut out: Vec<String> = Vec::new();
        match &self.parsed.auth {
            Option::Some(a) => append_re_names(&mut out, a),
            Option::None => {}
        }
        append_re_names(&mut out, &self.parsed.path);
        proof {
            assert(strs_view(out@) =~= re_names_canon(self.parsed@));
        }
        out
    }

    /// The public variable names behind the capture groups, aligned with
    /// [`InnerSingle::re_names`].
    pub fn var_names(&self) -> (r: Vec<String>)
        ensures
            strs_view(r@) == var_names_canon(self.parsed@),
    {
        let mut out: Vec<String> = Vec::new();
        match &self.parsed.auth {
            Option::Some(a) => append_var_names(&mut out, a),
            Option::None => {}
        }
        append_var_names(&mut out, &self.parsed.path);
        proof {
            assert(strs_view(out@) =~= var_names_canon(self.parsed@));
        }
        out
    }

    /// The dispatch pattern of the path.
    pub fn axum_route(&self) -> (r: String)
        ensures
            r@ == axum_canon(parts_view(self.parsed.path@)),
    {
        let ghost pv = parts_view(self.parsed.path@);
        let mut s = String::new();
        let mut i: usize = 0;
        while i < self.parsed.path.len()
            invariant
                i <= self.parsed.path.len(),
                pv == parts_view(self.parsed.path@),
                pv.len() == self.parsed.path@.len(),
                s@ == axum_canon(pv.take(i as int)),
            decreases self.parsed.path.len() - i,
        {
            let frag = match &self.parsed.path[i] {
                Part::Lit(l) => l.clone(),
                Part::Expression(e) => axum7_vars(&e.varspecs),
                Part::SegVar(e) => axum7_vars(&e.varspecs),
                Part::SegPathVar(e) => axum7_vars(&e.varspecs),
                Part::SegRest(e) => axum7_rest(&e.varspecs),
                Part::SegPathRest(e) => axum7_rest(&e.varspecs),
            };
            push_str(&mut s, frag.as_str());
            proof {
                assert(frag@ == axum_part_canon(pv[i as int]));
                assert(pv.take(i as int).push(pv[i as int]) =~= pv.take(i + 1));
                assert(pv.take(i + 1).drop_last() =~= pv.take(i as int));
                assert(s@ =~= axum_canon(pv.take(i + 1)));
            }
            i = i + 1;
        }
        proof {
            assert(pv.take(pv.len() as int) =~= pv);
        }
        s
    }

    /// A hypermedia value is a plain link exactly when the template has no
    /// expressions to fill.
    pub fn hydra_type(&self) -> (r: String)
        ensures
            r@ == if has_expressions(self.parsed@) { "IriTemplate"@ } else { "Link"@ },
    {
        let mut found = false;
        match &self.parsed.auth {
            Option::Some(a) => {
                if parts_have_expression(a) {
                    found = true;
                }
            }
            Option::None => {}
        }
        if parts_have_expression(&self.parsed.path) {
            found = true;
        }
        match &self.parsed.query {
            Option::Some(q) => {
                if parts_have_expression(q) {
                    found = true;
                }
            }
            Option::None => {}
        }
        if found {
            "IriTemplate".to_owned()
        } else {
            "Link".to_owned()
        }
    }

    /// Plants a literal prefix in front of the path, memoized per prefix
    /// string: a repeated call with a cached prefix returns the cached
    /// variant and leaves the entry unchanged. The variant's canonical
    /// string is the original's with the prefix text planted between the
    /// authority and the path.
    pub fn prefixed(&mut self, prefix: &str) -> (r: InnerSingle)
        requires
            inner_wf(*old(self)),
        ensures
            inner_wf(*final(self)),
            r.parsed@ == prefixed_view(old(self).parsed@, prefix@),
            parsed_canon(r.parsed@) == crate::routing::render::opt_parts_canon(
                old(self).parsed@.auth) + prefix@ + parts_canon(old(self).parsed@.path)
                + crate::routing::render::opt_parts_canon(old(self).parsed@.query),
            inner_wf(r),
            final(self).parsed@ == old(self).parsed@,
            has_prefix_variant(*old(self), prefix@) ==> *final(self) == *old(self),
            has_prefix_variant(*final(self), prefix@),
    {
        proof {
            lemma_prefixed_canon(self.parsed@, prefix@);
        }
        let n = self.prefixes.len();
        let mut k: usize = 0;
        while k < n
            invariant
                k <= n,
                n == self.prefixes@.len(),
                inner_wf(*self),
                *self == *old(self),
                forall|m: int| 0 <= m < k ==> (#[trigger] self.prefixes@[m]).0@ != prefix@,
            decreases n - k,
        {
            if str_eq(self.prefixes[k].0.as_str(), prefix) {
                let r = self.prefixes[k].1.duplicate();
                proof {
                    assert((self.prefixes@[k as int]).0@ == prefix@);
                    assert((self.prefixes@[k as int]).1.parsed@
                        == prefixed_view(self.parsed@, prefix@));
                    assert(r.parsed@ == prefixed_view(old(self).parsed@, prefix@));
                    lemma_prefixed_canon(old(self).parsed@, prefix@);
                }
                return r;
            }
            k = k + 1;
        }
        let mut new_path: Vec<Part> = Vec::new();
        new_path.push(Part::to_lit(prefix));
        let mut path_rest = parts_duplicate(&self.parsed.path);
        new_path.append(&mut path_rest);
        let variant_parsed = Parsed {
            auth: match &self.parsed.auth {
                Option::Some(a) => Option::Some(parts_duplicate(a)),
                Option::None => Option::None,
            },
            path: new_path,
            query: match &self.parsed.query {
                Option::Some(q) => Option::Some(parts_duplicate(q)),
                Option::None => Option::None,
            },
        };
        proof {
            assert(parts_view(variant_parsed.path@)
                =~= seq![PartV::Lit(prefix@)] + parts_view(old(self).parsed.path@));
            assert(variant_parsed@ == prefixed_view(old(self).parsed@, prefix@));
        }
        let variant = InnerSingle { parsed: variant_parsed, prefixes: Vec::new() };
        let ghost before = self.prefixes@;
        self.prefixes.push((prefix.to_owned(), variant.duplicate()));
        proof {
            assert forall|m: int| 0 <= m < self.prefixes@.len() implies
                (#[trigger] self.prefixes@[m]).1.parsed@
                    == prefixed_view(self.parsed@, self.prefixes@[m].0@) by {
                if m < before.len() {
                    assert(self.prefixes@[m] == before[m]);
                }
            }
            assert((self.prefixes@[before.len() as int]).0@ == prefix@);
        }
        variant
    }
}

// ---------------------------------------------------------------------------
// Extraction: matching a concrete URI against the template's regex
// ---------------------------------------------------------------------------

/// Whether the regex engine accepts this pattern source; a function of the
/// pattern alone.
pub uninterp spec fn regex_ok(re: Seq<char>) -> bool;

/// What matching the pattern against the input yields for each requested
/// group name: no overall match, or per-name optional matched text. A
/// function of the three arguments alone.
pub uninterp spec fn re_captures_of(re: Seq<char>, input: Seq<char>, names: Seq<Seq<char>>)
    -> Option<Seq<Option<Seq<char>>>>;

/// The views of optional captured strings.
pub open spec fn opt_strs_view(v: Seq<Option<String>>) -> Seq<Option<Seq<char>>> {
    Seq::new(v.len(), |i: int| match v[i] {
        Option::Some(s) => Option::Some(s@),
        Option::None => Option::<Seq<char>>::None,
    })
}

/// Relies on `regex::Regex::new`, `Regex::captures` and `Captures::name`:
/// compilation accepts a pattern as a function of its source; a match and
/// the text of each named group are functions of the pattern and the
/// input.
#[verifier::external_body]
fn regex_captures(re: &str, input: &str, names: &Vec<String>)
    -> (r: Result<Option<Vec<Option<String>>>, String>)
    ensures
        match r {
            Result::Err(_) => !regex_ok(re@),
            Result::Ok(o) => regex_ok(re@) && match o {
                Option::None => re_captures_of(re@, input@, strs_view(names@)) is None,
                Option::Some(v) => re_captures_of(re@, input@, strs_view(names@))
                    == Option::Some(opt_strs_view(v@)) && v@.len() == names@.len(),
            },
        },
{
    let rx = match regex::Regex::new(re) {
        Ok(rx) => rx,
        Err(e) => {
            return Err(format!("{e}"));
        }
    };
    match rx.captures(input) {
        None => Ok(None),
        Some(caps) => Ok(Some(names.iter().map(|n| caps.name(n).map(|m|
            m.as_str().to_string())).collect())),
    }
}

/// What percent-decoding an input yields, where the decoded bytes form
/// UTF-8; a function of the input alone.
pub uninterp spec fn pct_decode_of(s: Seq<char>) -> Option<Seq<char>>;

/// Relies on `percent_encoding::percent_decode` and its `decode_utf8`:
/// `%XX` triples become single bytes, other bytes pass through, and the
/// result is accepted only as UTF-8; the outcome is a function of the
/// input alone.
#[verifier::external_body]
fn pct_decode(s: &str) -> (r: Option<String>)
    ensures
        match r {
            Option::Some(v) => pct_decode_of(s@) == Option::Some(v@),
            Option::None => pct_decode_of(s@) is None,
        },
{
    percent_encoding::percent_decode(s.as_bytes()).decode_utf8().ok().map(|c| c.into_owned())
}

/// The (public name, decoded value) pairs of a capture run: groups that
/// did not match, and captures whose percent-decoding fails, contribute
/// nothing.
pub open spec fn capture_pairs(names: Seq<Seq<char>>, caps: Seq<Option<Seq<char>>>)
    -> Seq<(Seq<char>, Seq<char>)>
    recommends
        names.len() == caps.len(),
    decreases caps.len(),
{
    if caps.len() == 0 {
        Seq::<(Seq<char>, Seq<char>)>::empty()
    } else {
        capture_pairs(names.drop_last(), caps.drop_last()) + match caps.last() {
            Option::Some(raw) => match pct_decode_of(raw) {
                Option::Some(val) => seq![(names.last(), val)],
                Option::None => Seq::<(Seq<char>, Seq<char>)>::empty(),
            },
            Option::None => Seq::<(Seq<char>, Seq<char>)>::empty(),
        }
    }
}

/// The two name lists of a part run are equally long.
proof fn lemma_names_lens(ps: Seq<PartV>)
    ensures
        parts_re_names(ps).len() == parts_var_names(ps).len(),
    decreases ps.len(),
{
    if ps.len() > 0 {
        lemma_names_lens(ps.drop_last());
    }
}

impl InnerSingle {
    /// Matches a URI against the template's regex and returns the ordered
    /// (public variable name, percent-decoded value) pairs of the groups
    /// that matched: authority first, then path, in declaration order.
    pub fn extract(&self, url: &str) -> (r: Result<Vec<(String, String)>, Error>)
        ensures
            match r {
                Result::Ok(pairs) => regex_ok(re_canon(self.parsed@))
                    && (re_captures_of(re_canon(self.parsed@), url@,
                        re_names_canon(self.parsed@)) matches Option::Some(caps)
                        && crate::routing::fill::pairs_view(pairs@)
                            == capture_pairs(var_names_canon(self.parsed@), caps)),
                Result::Err(e) => match e {
                    Error::RegexParse(_) => !regex_ok(re_canon(self.parsed@)),
                    Error::NoMatch(restr, u) => regex_ok(re_canon(self.parsed@))
                        && re_captures_of(re_canon(self.parsed@), url@,
                            re_names_canon(self.parsed@)) is None
                        && restr@ == re_canon(self.parsed@) && u@ == url@,
                    _ => false,
                },
            },
    {
        let restr = self.re_str();
        let names = self.re_names();
        let pub_names = self.var_names();
        proof {
            match self.parsed@.auth {
                Option::Some(a) => {
                    lemma_names_lens(a);
                }
                Option::None => {}
            }
            lemma_names_lens(self.parsed@.path);
            assert(re_names_canon(self.parsed@).len() == var_names_canon(self.parsed@).len());
        }
        match regex_captures(restr.as_str(), url, &names) {
            Result::Err(msg) => Result::Err(Error::RegexParse(msg)),
            Result::Ok(Option::None) => Result::Err(Error::NoMatch(restr, url.to_owned())),
            Result::Ok(Option::Some(caps)) => {
                let pairs = decode_captures(&pub_names, &caps);
                Result::Ok(pairs)
            }
        }
    }
}

/// Pairs each matched capture with its public name, percent-decoding the
/// value; failed decodes are dropped.
fn decode_captures(pub_names: &Vec<String>, caps: &Vec<Option<String>>)
    -> (r: Vec<(String, String)>)
    requires
        pub_names@.len() == caps@.len(),
    ensures
        crate::routing::fill::pairs_view(r@) == capture_pairs(strs_view(pub_names@),
            opt_strs_view(caps@)),
{
    let ghost pnv = strs_view(pub_names@);
    let ghost cv = opt_strs_view(caps@);
    let mut out: Vec<(String, String)> = Vec::new();
    let mut i: usize = 0;
    while i < caps.len()
        invariant
            i <= caps@.len(),
            pub_names@.len() == caps@.len(),
            pnv == strs_view(pub_names@),
            cv == opt_strs_view(caps@),
            pnv.len() == caps@.len(),
            cv.len() == caps@.len(),
            crate::routing::fill::pairs_view(out@) == capture_pairs(pnv.take(i as int),
                cv.take(i as int)),
        decreases caps@.len() - i,
    {
        proof {
            assert(pnv.take(i + 1).drop_last() =~= pnv.take(i as int));
            assert(cv.take(i + 1).drop_last() =~= cv.take(i as int));
            assert(cv.take(i + 1).last() == cv[i as int]);
            assert(pnv.take(i + 1).last() == pnv[i as int]);
            assert(pnv[i as int] == pub_names@[i as int]@);
        }
        match &caps[i] {
            Option::Some(raw) => {
                match pct_decode(raw.as_str()) {
                    Option::Some(val) => {
                        let ghost prev = out@;
                        out.push((pub_names[i].clone(), val));
                        proof {
                            assert forall|k: int| 0 <= k < out@.len() implies
                                (#[trigger] crate::routing::fill::pairs_view(out@)[k])
                                    == capture_pairs(pnv.take(i + 1), cv.take(i + 1))[k] by {
                                if k < prev.len() {
                                    assert(out@[k] == prev[k]);
                                    assert(crate::routing::fill::pairs_view(prev)[k]
                                        == (prev[k].0@, prev[k].1@));
                                }
                            }
                            assert(crate::routing::fill::pairs_view(out@)
                                =~= capture_pairs(pnv.take(i + 1), cv.take(i + 1)));
                        }
                    }
                    Option::None => {
                        proof {
                            assert(crate::routing::fill::pairs_view(out@)
                                =~= capture_pairs(pnv.take(i + 1), cv.take(i + 1)));
                        }
                    }
                }
            }
            Option::None => {
                proof {
                    assert(crate::routing::fill::pairs_view(out@)
                        =~= capture_pairs(pnv.take(i + 1), cv.take(i + 1)));
                }
            }
        }
        i = i + 1;
    }
    proof {
        assert(pnv.take(pnv.len() as int) =~= pnv);
        assert(cv.take(cv.len() as int) =~= cv);
    }
    out
}

/// The non-literal parts of a list, in order.
pub open spec fn exprs_of(ps: Seq<PartV>) -> Seq<PartV>
    decreases ps.len(),
{
    if ps.len() == 0 {
        Seq::<PartV>::empty()
    } else {
        exprs_of(ps.drop_last()) + if ps.last() is Lit {
            Seq::<PartV>::empty()
        } else {
            seq![ps.last()]
        }
    }
}

/// The non-literal parts of a vector, copied in order.
fn filter_expressions(ps: &Vec<Part>) -> (r: Vec<Part>)
    ensures
        parts_view(r@) == exprs_of(parts_view(ps@)),
{
    let ghost pv = parts_view(ps@);
    let mut out: Vec<Part> = Vec::new();
    let mut i: usize = 0;
    while i < ps.len()
        invariant
            i <= ps@.len(),
            pv == parts_view(ps@),
            pv.len() == ps@.len(),
            parts_view(out@) == exprs_of(pv.take(i as int)),
        decreases ps@.len() - i,
    {
        proof {
            assert(pv.take(i + 1).drop_last() =~= pv.take(i as int));
            assert(pv.take(i + 1).last() == pv[i as int]);
        }
        let ghost prev = parts_view(out@);
        match &ps[i] {
            Part::Lit(_) => {
                proof {
                    assert(parts_view(out@) =~= exprs_of(pv.take(i + 1)));
                }
            }
            _ => {
                out.push(ps[i].duplicate());
                proof {
                    assert forall|k: int| 0 <= k < out@.len() implies
                        #[trigger] parts_view(out@)[k] == prev.push(pv[i as int])[k] by {
                        if k < prev.len() {
                            assert(parts_view(out@)[k] == out@[k]@);
                        }
                    }
                    assert(parts_view(out@) =~= prev.push(pv[i as int]));
                    assert(parts_view(out@) =~= exprs_of(pv.take(i + 1)));
                }
            }
        }
        i = i + 1;
    }
    proof {
        assert(pv.take(pv.len() as int) =~= pv);
    }
    out
}

impl InnerSingle {
    /// The expressions of the authority section, in order.
    pub fn auth_expressions(&self) -> (r: Vec<Part>)
        ensures
            parts_view(r@) == match self.parsed@.auth {
                Option::Some(a) => exprs_of(a),
                Option::None => Seq::<PartV>::empty(),
            },
    {
        match &self.parsed.auth {
            Option::Some(parts) => filter_expressions(parts),
            Option::None => {
                let r: Vec<Part> = Vec::new();
                proof {
                    assert(parts_view(r@) =~= Seq::<PartV>::empty());
                }
                r
            }
        }
    }

    /// The expressions of the path, in order.
    pub fn path_expressions(&self) -> (r: Vec<Part>)
        ensures
            parts_view(r@) == exprs_of(parts_view(self.parsed.path@)),
    {
        filter_expressions(&self.parsed.path)
    }

    /// The expressions of the query section, in order.
    pub fn query_expressions(&self) -> (r: Vec<Part>)
        ensures
            parts_view(r@) == match self.parsed@.query {
                Option::Some(q) => exprs_of(q),
                Option::None => Seq::<PartV>::empty(),
            },
    {
        match &self.parsed.query {
            Option::Some(parts) => filter_expressions(parts),
            Option::None => {
                let r: Vec<Part> = Vec::new();
                proof {
                    assert(parts_view(r@) =~= Seq::<PartV>::empty());
                }
                r
            }
        }
    }

    /// Every expression of the template: authority, then path, then
    /// query, in order.
    pub fn expressions(&self) -> (r: Vec<Part>)
        ensures
            parts_view(r@) == (match self.parsed@.auth {
                Option::Some(a) => exprs_of(a),
                Option::None => Seq::<PartV>::empty(),
            }) + exprs_of(parts_view(self.parsed.path@)) + (match self.parsed@.query {
                Option::Some(q) => exprs_of(q),
                Option::None => Seq::<PartV>::empty(),
            }),
    {
        let mut out = self.auth_expressions();
        let from_path = self.path_expressions();
        let from_query = self.query_expressions();
        crate::routing::fill::append_parts_vec(&mut out, from_path);
        crate::routing::fill::append_parts_vec(&mut out, from_query);
        out
    }
}

/// Any part of the list is an expression (not a literal).
pub open spec fn parts_some_expression(ps: Seq<PartV>) -> bool {
    exists|i: int| 0 <= i < ps.len() && !((#[trigger] ps[i]) is Lit)
}

/// The template holds at least one expression in any of its sections.
pub open spec fn has_expressions(p: ParsedV) -> bool {
    ||| (p.auth matches Option::Some(a) && parts_some_expression(a))
    ||| parts_some_expression(p.path)
    ||| (p.query matches Option::Some(q) && parts_some_expression(q))
}

/// Whether the list holds a part that is not a literal.
fn parts_have_expression(ps: &Vec<Part>) -> (r: bool)
    ensures
        r == parts_some_expression(parts_view(ps@)),
{
    let ghost pv = parts_view(ps@);
    let mut i: usize = 0;
    while i < ps.len()
        invariant
            i <= ps.len(),
            pv == parts_view(ps@),
            pv.len() == ps@.len(),
            forall|m: int| 0 <= m < i ==> (#[trigger] pv[m]) is Lit,
        decreases ps.len() - i,
    {
        match &ps[i] {
            Part::Lit(_) => {}
            _ => {
                proof {
                    assert(!(pv[i as int] is Lit));
                }
                return true;
            }
        }
        i = i + 1;
    }
    false
}

/// Appends the capture-group names of every part.
fn append_re_names(out: &mut Vec<String>, parts: &Vec<Part>)
    ensures
        strs_view(final(out)@) == strs_view(old(out)@)
            + parts_re_names(parts_view(parts@)),
{
    let ghost pv = parts_view(parts@);
    let mut i: usize = 0;
    while i < parts.len()
        invariant
            i <= parts.len(),
            pv == parts_view(parts@),
            pv.len() == parts@.len(),
            strs_view(out@) == strs_view(old(out)@) + parts_re_names(pv.take(i as int)),
        decreases parts.len() - i,
    {
        let names = crate::routing::render::re_names(&parts[i]);
        let ghost outpre = out@;
        append_strings(out, names);
        proof {
            assert(pv.take(i as int).push(pv[i as int]) =~= pv.take(i + 1));
            assert(pv.take(i + 1).drop_last() =~= pv.take(i as int));
            assert(strs_view(out@) =~= strs_view(old(out)@) + parts_re_names(pv.take(i + 1)));
        }
        i = i + 1;
    }
    proof {
        assert(pv.take(pv.len() as int) =~= pv);
    }
}

/// Appends the public variable names of every part.
fn append_var_names(out: &mut Vec<String>, parts: &Vec<Part>)
    ensures
        strs_view(final(out)@) == strs_view(old(out)@)
            + parts_var_names(parts_view(parts@)),
{
    let ghost pv = parts_view(parts@);
    let mut i: usize = 0;
    while i < parts.len()
        invariant
            i <= parts.len(),
            pv == parts_view(parts@),
            pv.len() == parts@.len(),
            strs_view(out@) == strs_view(old(out)@) + parts_var_names(pv.take(i as int)),
        decreases parts.len() - i,
    {
        let names = part_var_names_exec(&parts[i]);
        append_strings(out, names);
        proof {
            assert(pv.take(i as int).push(pv[i as int]) =~= pv.take(i + 1));
            assert(pv.take(i + 1).drop_last() =~= pv.take(i as int));
            assert(strs_view(out@) =~= strs_view(old(out)@) + parts_var_names(pv.take(i + 1)));
        }
        i = i + 1;
    }
    proof {
        assert(pv.take(pv.len() as int) =~= pv);
    }
}

/// The public variable names of one part, in declaration order.
fn part_var_names_exec(part: &Part) -> (r: Vec<String>)
    ensures
        strs_view(r@) == crate::routing::render::part_var_names(part@),
{
    match part {
        Part::Lit(_) => {
            let r: Vec<String> = Vec::new();
            proof {
                assert(strs_view(r@)
                    =~= crate::routing::render::part_var_names(part@));
            }
            r
        }
        Part::Expression(e) => exp_var_names(e),
        Part::SegVar(e) => exp_var_names(e),
        Part::SegPathVar(e) => exp_var_names(e),
        Part::SegRest(e) => exp_var_names(e),
        Part::SegPathRest(e) => exp_var_names(e),
    }
}

/// The variable names of an expression, in order.
fn exp_var_names(e: &Expression) -> (r: Vec<String>)
    ensures
        strs_view(r@) == Seq::new(e@.varspecs.len(), |i: int| e@.varspecs[i].name),
{
    let mut r: Vec<String> = Vec::new();
    let mut i: usize = 0;
    while i < e.varspecs.len()
        invariant
            i <= e.varspecs.len(),
            strs_view(r@) =~= Seq::new(i as nat, |k: int| e@.varspecs[k].name),
        decreases e.varspecs.len() - i,
    {
        let ghost prev = r@;
        r.push(e.varspecs[i].varname.clone());
        proof {
            assert(strs_view(prev).len() == prev.len());
            assert(prev.len() == i as nat);
            assert forall|k: int| 0 <= k <= i implies
                #[trigger] r@[k]@ == e@.varspecs[k].name by {
                if k < i {
                    assert(strs_view(prev)[k] == prev[k]@);
                    assert(r@[k] == prev[k]);
                }
            }
            assert(strs_view(r@) =~= Seq::new((i + 1) as nat,
                |k: int| e@.varspecs[k].name));
        }
        i = i + 1;
    }
    r
}

// ---------------------------------------------------------------------------
// Route declarations, handles, and the registry
// ---------------------------------------------------------------------------

/// The capability a route declaration offers: its template string.
pub trait RouteTemplate: Copy {
    fn route_template(&self) -> String;
}

/// A context that can say which variable names it offers.
pub trait Listable {
    fn list_vars(&self) -> Vec<String>;
}

impl Listable for fill::VarsList {
    fn list_vars(&self) -> Vec<String> {
        fill::VarsList::list_vars(self)
    }
}

/// A handle on one registered template. Every derived artifact is a pure
/// function of the parsed template behind it.
pub struct Entry {
    pub inner: InnerSingle,
}

impl Entry {
    /// The dispatch pattern of the path.
    pub fn axum_route(&self) -> (r: String)
        ensures
            r@ == axum_canon(parts_view(self.inner.parsed.path@)),
    {
        self.inner.axum_route()
    }

    /// Fills the template, requiring a value for every declared variable.
    pub fn fill(&self, vars: &fill::VarsList) -> (r: Result<String, Error>)
        ensures
            fill::fill_result_spec(self.inner.parsed@, fill::FillPolicy::NoMissing, vars@, r),
    {
        self.inner.fill(vars)
    }

    /// Fills the template under the chosen strictness policy.
    pub fn fill_with_policy(&self, policy: fill::FillPolicy, vars: &fill::VarsList)
        -> (r: Result<String, Error>)
        ensures
            fill::fill_result_spec(self.inner.parsed@, policy, vars@, r),
    {
        self.inner.fill_uritemplate(policy, vars)
    }

    /// Substitutes the provided variables only, returning a smaller
    /// template.
    pub fn partial_fill(&self, vars: &fill::VarsList) -> (r: Result<String, Error>)
        ensures
            match r {
                Result::Ok(s) => s@ == fill::partial_fill_canon(self.inner.parsed@, vars@)
                    && uri_template_valid(s@),
                Result::Err(e) => e is IriTempate && !uri_template_valid(
                    fill::partial_fill_canon(self.inner.parsed@, vars@)),
            },
    {
        self.inner.partial_fill(vars)
    }

    /// The canonical template string, validated as an RFC 6570 template.
    pub fn template(&self) -> (r: Result<String, Error>)
        ensures
            match r {
                Result::Ok(s) => s@ == parsed_canon(self.inner.parsed@)
                    && uri_template_valid(s@),
                Result::Err(e) => e is IriTempate
                    && !uri_template_valid(parsed_canon(self.inner.parsed@)),
            },
    {
        self.inner.template()
    }

    /// The hypermedia type of the route: a plain link, or a fillable
    /// template.
    pub fn hydra_type(&self) -> (r: String)
        ensures
            r@ == if has_expressions(self.inner.parsed@) { "IriTemplate"@ } else { "Link"@ },
    {
        self.inner.hydra_type()
    }

    /// Matches a URI and returns the ordered (name, decoded value) pairs.
    pub fn extract(&self, url: &str) -> (r: Result<Vec<(String, String)>, Error>)
        ensures
            match r {
                Result::Ok(pairs) => regex_ok(re_canon(self.inner.parsed@))
                    && (re_captures_of(re_canon(self.inner.parsed@), url@,
                        re_names_canon(self.inner.parsed@)) matches Option::Some(caps)
                        && fill::pairs_view(pairs@)
                            == capture_pairs(var_names_canon(self.inner.parsed@), caps)),
                Result::Err(e) => match e {
                    Error::RegexParse(_) => !regex_ok(re_canon(self.inner.parsed@)),
                    Error::NoMatch(restr, u) => regex_ok(re_canon(self.inner.parsed@))
                        && re_captures_of(re_canon(self.inner.parsed@), url@,
                            re_names_canon(self.inner.parsed@)) is None
                        && restr@ == re_canon(self.inner.parsed@) && u@ == url@,
                    _ => false,
                },
            },
    {
        self.inner.extract(url)
    }

    /// A handle whose path carries the literal prefix, memoized per
    /// prefix string on this handle. The prefixed canonical string is the
    /// original's with the prefix planted between authority and path.
    pub fn prefixed(&mut self, prefix: &str) -> (r: Entry)
        requires
            inner_wf(old(self).inner),
        ensures
            inner_wf(final(self).inner),
            r.inner.parsed@ == prefixed_view(old(self).inner.parsed@, prefix@),
            parsed_canon(r.inner.parsed@) == crate::routing::render::opt_parts_canon(
                old(self).inner.parsed@.auth) + prefix@
                + parts_canon(old(self).inner.parsed@.path)
                + crate::routing::render::opt_parts_canon(old(self).inner.parsed@.query),
            inner_wf(r.inner),
            final(self).inner.parsed@ == old(self).inner.parsed@,
            has_prefix_variant(old(self).inner, prefix@) ==> final(self).inner
                == old(self).inner,
            has_prefix_variant(final(self).inner, prefix@),
    {
        let inner = self.inner.prefixed(prefix);
        Entry { inner }
    }
}

/// The deduplicating template registry: each distinct template string is
/// parsed once and reused.
pub struct Registry {
    pub store: Vec<(String, InnerSingle)>,
}

/// Every stored entry is the parse of its own key (and so renders back to
/// it), satisfies the parsed invariant, and keeps a sound prefix cache.
pub open spec fn registry_wf(r: Registry) -> bool {
    forall|k: int| 0 <= k < r.store@.len() ==> {
        &&& parser::parse_spec((#[trigger] r.store@[k]).0@)
            == Option::Some(r.store@[k].1.parsed@)
        &&& parsed_canon(r.store@[k].1.parsed@) == r.store@[k].0@
        &&& parsed_wf(r.store@[k].1.parsed@)
        &&& inner_wf(r.store@[k].1)
    }
}

/// The registry holds an entry for this template string.
pub open spec fn registry_has(r: Registry, t: Seq<char>) -> bool {
    exists|k: int| 0 <= k < r.store@.len() && (#[trigger] r.store@[k]).0@ == t
}

impl Registry {
    /// An empty registry, to be owned by the application's composition
    /// root.
    pub fn new() -> (r: Registry)
        ensures
            registry_wf(r),
            r.store@.len() == 0,
    {
        Registry { store: Vec::new() }
    }

    /// The entry for a route declaration: the cached one where the
    /// template string was seen before, else freshly parsed and cached.
    /// The template string itself comes through the caller-implemented
    /// trait and cannot be named here; `named_str` carries the exact
    /// contract over it.
    pub fn named<R: RouteTemplate>(&mut self, rt: &R) -> (r: Result<InnerSingle, Error>)
        requires
            registry_wf(*old(self)),
        ensures
            registry_wf(*final(self)),
            match r {
                Result::Ok(e) => parsed_wf(e.parsed@) && inner_wf(e)
                    && parser::parse_spec(parsed_canon(e.parsed@))
                        == Option::Some(e.parsed@),
                Result::Err(e) => e is Parsing && *final(self) == *old(self),
            },
    {
        let template = rt.route_template();
        self.named_str(template.as_str())
    }

    /// The entry for a template string, with the exact caching contract:
    /// a hit returns a copy of the cached parse and changes nothing; a
    /// miss parses the template, and on success appends exactly one entry
    /// while every earlier entry survives; it fails exactly when a new
    /// template falls outside the grammar.
    pub fn named_str(&mut self, template: &str) -> (r: Result<InnerSingle, Error>)
        requires
            registry_wf(*old(self)),
        ensures
            registry_wf(*final(self)),
            match r {
                Result::Ok(e) => parser::parse_spec(template@) == Option::Some(e.parsed@)
                    && parsed_canon(e.parsed@) == template@ && parsed_wf(e.parsed@)
                    && inner_wf(e) && registry_has(*final(self), template@)
                    && (registry_has(*old(self), template@) ==> *final(self) == *old(self))
                    && (!registry_has(*old(self), template@) ==> {
                        &&& final(self).store@.len() == old(self).store@.len() + 1
                        &&& final(self).store@.drop_last() == old(self).store@
                        &&& (final(self).store@.last()).0@ == template@
                        &&& (final(self).store@.last()).1.parsed@ == e.parsed@
                    }),
                Result::Err(e) => e is Parsing && *final(self) == *old(self)
                    && !registry_has(*old(self), template@)
                    && parser::parse_spec(template@) is None,
            },
    {
        let n = self.store.len();
        let mut k: usize = 0;
        while k < n
            invariant
                k <= n,
                n == self.store@.len(),
                registry_wf(*self),
                *self == *old(self),
                forall|m: int| 0 <= m < k ==> (#[trigger] self.store@[m]).0@ != template@,
            decreases n - k,
        {
            if str_eq(self.store[k].0.as_str(), template) {
                let r = self.store[k].1.duplicate();
                proof {
                    assert((self.store@[k as int]).0@ == template@);
                    assert(parser::parse_spec(template@)
                        == Option::Some((self.store@[k as int]).1.parsed@));
                }
                return Result::Ok(r);
            }
            k = k + 1;
        }
        match parser::parse(template) {
            Result::Ok(parsed) => {
                let entry = InnerSingle::from_parsed(parsed);
                let ghost before = self.store@;
                self.store.push((template.to_owned(), entry.duplicate()));
                proof {
                    assert forall|m: int| 0 <= m < self.store@.len() implies {
                        &&& parser::parse_spec((#[trigger] self.store@[m]).0@)
                            == Option::Some(self.store@[m].1.parsed@)
                        &&& parsed_canon(self.store@[m].1.parsed@) == self.store@[m].0@
                        &&& parsed_wf(self.store@[m].1.parsed@)
                        &&& inner_wf(self.store@[m].1)
                    } by {
                        if m < before.len() {
                            assert(self.store@[m] == before[m]);
                        }
                    }
                    assert((self.store@[before.len() as int]).0@ == template@);
                    assert(self.store@.drop_last() =~= before);
                    assert(self.store@.last() == self.store@[before.len() as int]);
                }
                Result::Ok(entry)
            }
            Result::Err(e) => Result::Err(e),
        }
    }
}

/// Parses (or recalls) the route declaration's template and hands back a
/// handle on it.
pub fn route_config<R: RouteTemplate>(reg: &mut Registry, rm: &R) -> (r: Result<Entry, Error>)
    requires
        registry_wf(*old(reg)),
    ensures
        registry_wf(*final(reg)),
        match r {
            Result::Ok(e) => parsed_wf(e.inner.parsed@) && inner_wf(e.inner),
            Result::Err(e) => e is Parsing,
        },
{
    match reg.named(rm) {
        Result::Ok(inner) => Result::Ok(Entry { inner }),
        Result::Err(e) => Result::Err(e),
    }
}

/// Copies every string of `more` onto the end of `out`.
fn append_strings(out: &mut Vec<String>, more: Vec<String>)
    ensures
        strs_view(final(out)@) == strs_view(old(out)@) + strs_view(more@),
{
    let ghost morev = strs_view(more@);
    let n = more.len();
    let mut i: usize = 0;
    while i < n
        invariant
            i <= n,
            n == more@.len(),
            morev == strs_view(more@),
            strs_view(out@) == strs_view(old(out)@) + morev.take(i as int),
        decreases n - i,
    {
        let s = more[i].clone();
        let ghost outprev = out@;
        out.push(s);
        proof {
            assert(s@ == morev[i as int]);
            assert(strs_view(out@) =~= strs_view(outprev).push(s@)) by {
                assert forall|k: int| 0 <= k < out@.len() implies
                    #[trigger] strs_view(out@)[k] == strs_view(outprev).push(s@)[k] by {
                    if k < outprev.len() {
                        assert(out@[k] == outprev[k]);
                        assert(strs_view(outprev)[k] == outprev[k]@);
                    }
                }
            }
            assert(strs_view(outprev).push(s@)
                =~= strs_view(old(out)@) + morev.take(i + 1));
        }
        i = i + 1;
    }
    proof {
        assert(morev.take(n as int) =~= morev);
    }
}

} // verus!
