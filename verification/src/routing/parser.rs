//! The route-template grammar: a hybrid of RFC 3986 path syntax and RFC 6570
//! URI-Template expressions, extended with path-matching conventions.
//!
//! `parse` turns a template string into a [`Parsed`] AST. Its central
//! guarantee is the round-trip law: on success, rendering the AST back to its
//! canonical string (see [`crate::routing::render`]) reproduces the input
//! exactly.

use vstd::prelude::*;

use crate::Error;
use crate::routing::render::{
    exp_canon, op_char, part_canon, parts_canon, parsed_canon, varspec_canon, varspecs_canon,
    dec_digits,
};

verus! {

/// RFC 6570 operator of an expression. Each operator fixes the prefix,
/// separator and joiner strings used by every renderer.
#[derive(Debug, Clone, Copy, PartialEq, Eq, Structural)]
pub enum Op {
    Simple,
    Reserved,
    Fragment,
    Label,
    Path,
    PathParam,
    Query,
    QueryCont,
}

/// Modifier of a single variable: truncate the expansion to a number of
/// characters, or match greedily to the next structural delimiter.
#[derive(Debug, Clone, Copy, PartialEq, Eq, Structural)]
pub enum VarMod {
    Prefix(u16),
    Explode,
    NoMod,
}

/// One variable of an expression: its name and its modifier.
#[derive(Debug, Clone, PartialEq, Eq)]
pub struct VarSpec {
    pub varname: String,
    pub modifier: VarMod,
}

/// One `{...}` substitution point: an operator and its variable list.
#[derive(Debug, Clone, PartialEq, Eq)]
pub struct Expression {
    pub operator: Op,
    pub varspecs: Vec<VarSpec>,
}

/// One part of a template: literal text or an expression. The `Seg*`
/// variants record that the expression is bound to a path segment
/// (`/{var}` and `{/var}` forms), which the dispatch-pattern and regex
/// renderers must treat differently from a mid-literal expression.
#[derive(Debug, Clone, PartialEq, Eq)]
pub enum Part {
    Lit(String),
    Expression(Expression),
    SegVar(Expression),
    SegPathVar(Expression),
    SegRest(Expression),
    SegPathRest(Expression),
}

/// The AST root: optional authority parts, the path parts (never empty),
/// and optional query parts.
#[derive(Debug, Clone, PartialEq, Eq, Default)]
pub struct Parsed {
    pub auth: Option<Vec<Part>>,
    pub path: Vec<Part>,
    pub query: Option<Vec<Part>>,
}

// ---------------------------------------------------------------------------
// Mathematical views of the AST
// ---------------------------------------------------------------------------

/// View of a [`VarSpec`]: the name as a character sequence.
pub ghost struct VarSpecV {
    pub name: Seq<char>,
    pub modifier: VarMod,
}

/// View of an [`Expression`].
pub ghost struct ExpressionV {
    pub operator: Op,
    pub varspecs: Seq<VarSpecV>,
}

/// View of a [`Part`].
pub ghost enum PartV {
    Lit(Seq<char>),
    Expression(ExpressionV),
    SegVar(ExpressionV),
    SegPathVar(ExpressionV),
    SegRest(ExpressionV),
    SegPathRest(ExpressionV),
}

/// View of a [`Parsed`].
pub ghost struct ParsedV {
    pub auth: Option<Seq<PartV>>,
    pub path: Seq<PartV>,
    pub query: Option<Seq<PartV>>,
}

impl View for VarSpec {
    type V = VarSpecV;

    open spec fn view(&self) -> VarSpecV {
        VarSpecV { name: self.varname@, modifier: self.modifier }
    }
}

impl View for Expression {
    type V = ExpressionV;

    open spec fn view(&self) -> ExpressionV {
        ExpressionV {
            operator: self.operator,
            varspecs: varspecs_view(self.varspecs@),
        }
    }
}

impl View for Part {
    type V = PartV;

    open spec fn view(&self) -> PartV {
        match self {
            Part::Lit(s) => PartV::Lit(s@),
            Part::Expression(e) => PartV::Expression(e@),
            Part::SegVar(e) => PartV::SegVar(e@),
            Part::SegPathVar(e) => PartV::SegPathVar(e@),
            Part::SegRest(e) => PartV::SegRest(e@),
            Part::SegPathRest(e) => PartV::SegPathRest(e@),
        }
    }
}

/// View of a part list.
pub open spec fn parts_view(ps: Seq<Part>) -> Seq<PartV> {
    Seq::new(ps.len(), |i: int| ps[i]@)
}

/// View of a variable list.
pub open spec fn varspecs_view(vss: Seq<VarSpec>) -> Seq<VarSpecV> {
    Seq::new(vss.len(), |i: int| vss[i]@)
}

impl View for Parsed {
    type V = ParsedV;

    open spec fn view(&self) -> ParsedV {
        ParsedV {
            auth: match self.auth {
                Option::Some(a) => Option::Some(parts_view(a@)),
                Option::None => Option::None,
            },
            path: parts_view(self.path@),
            query: match self.query {
                Option::Some(q) => Option::Some(parts_view(q@)),
                Option::None => Option::None,
            },
        }
    }
}

impl Default for Part {
    /// The default part is the empty literal.
    fn default() -> (r: Self)
        ensures
            r@ == PartV::Lit(Seq::<char>::empty()),
    {
        Part::Lit(String::new())
    }
}

impl Part {
    /// A literal part holding a copy of the given text.
    pub fn to_lit(s: &str) -> (r: Self)
        ensures
            r@ == PartV::Lit(s@),
    {
        Part::Lit(s.to_owned())
    }
}

// ---------------------------------------------------------------------------
// Well-formedness of the AST
// ---------------------------------------------------------------------------

/// An expression always carries at least one variable.
pub open spec fn exp_wf(e: ExpressionV) -> bool {
    e.varspecs.len() >= 1
}

/// A parsed part is either a non-empty literal or a well-formed expression.
pub open spec fn part_wf(p: PartV) -> bool {
    match p {
        PartV::Lit(s) => s.len() >= 1,
        PartV::Expression(e) => exp_wf(e),
        PartV::SegVar(e) => exp_wf(e),
        PartV::SegPathVar(e) => exp_wf(e),
        PartV::SegRest(e) => exp_wf(e),
        PartV::SegPathRest(e) => exp_wf(e),
    }
}

/// Every part of the list is well-formed.
pub open spec fn parts_wf(ps: Seq<PartV>) -> bool {
    forall|i: int| 0 <= i < ps.len() ==> part_wf(#[trigger] ps[i])
}

/// The invariant of every successfully parsed template: the path is never
/// empty and every part is well-formed.
pub open spec fn parsed_wf(p: ParsedV) -> bool {
    &&& p.path.len() >= 1
    &&& parts_wf(p.path)
    &&& (p.auth matches Option::Some(a) ==> parts_wf(a))
    &&& (p.query matches Option::Some(q) ==> q.len() >= 1 && parts_wf(q))
}

// ---------------------------------------------------------------------------
// Character classes
// ---------------------------------------------------------------------------

/// ASCII letter.
pub open spec fn is_alpha(c: char) -> bool {
    (97 <= c as u32 && c as u32 <= 122) || (65 <= c as u32 && c as u32 <= 90)
}

/// ASCII decimal digit.
pub open spec fn is_digit(c: char) -> bool {
    48 <= c as u32 && c as u32 <= 57
}

/// ASCII hexadecimal digit, either case.
pub open spec fn is_hexdig(c: char) -> bool {
    is_digit(c) || (65 <= c as u32 && c as u32 <= 70) || (97 <= c as u32 && c as u32 <= 102)
}

/// RFC 3986 `unreserved`.
pub open spec fn is_unreserved(c: char) -> bool {
    is_alpha(c) || is_digit(c) || c == '-' || c == '.' || c == '_' || c == '~'
}

/// RFC 3986 `sub-delims`.
pub open spec fn is_sub_delims(c: char) -> bool {
    c == '!' || c == '$' || c == '&' || c == '\'' || c == '(' || c == ')' || c == '*'
        || c == '+' || c == ',' || c == ';' || c == '='
}

/// RFC 3987 `ucschar` ranges.
pub open spec fn is_ucschar(c: char) -> bool {
    let u = c as u32;
    (0xA0 <= u && u <= 0xD7FF) || (0xF900 <= u && u <= 0xFDCF)
        || (0xFDF0 <= u && u <= 0xFFEF) || (0x10000 <= u && u <= 0x1FFFD)
        || (0x20000 <= u && u <= 0x2FFFD) || (0x30000 <= u && u <= 0x3FFFD)
        || (0x40000 <= u && u <= 0x4FFFD) || (0x50000 <= u && u <= 0x5FFFD)
        || (0x60000 <= u && u <= 0x6FFFD) || (0x70000 <= u && u <= 0x7FFFD)
        || (0x80000 <= u && u <= 0x8FFFD) || (0x90000 <= u && u <= 0x9FFFD)
        || (0xA0000 <= u && u <= 0xAFFFD) || (0xB0000 <= u && u <= 0xBFFFD)
        || (0xC0000 <= u && u <= 0xCFFFD) || (0xD0000 <= u && u <= 0xDFFFD)
        || (0xE1000 <= u && u <= 0xEFFFD)
}

/// RFC 3987 `iprivate` ranges.
pub open spec fn is_iprivate(c: char) -> bool {
    let u = c as u32;
    (0xE000 <= u && u <= 0xF8FF) || (0xF0000 <= u && u <= 0xFFFFD)
        || (0x100000 <= u && u <= 0x10FFFD)
}

/// The single-character alphabet of RFC 6570 `literals` restricted to the
/// authority and query sections (everything but `/`, braces, and the
/// characters that need percent-encoding).
pub open spec fn is_auth_lit_char(c: char) -> bool {
    let u = c as u32;
    u == 0x21 || (0x23 <= u && u <= 0x24) || u == 0x26 || (0x28 <= u && u <= 0x2E)
        || (0x30 <= u && u <= 0x3B) || u == 0x3D || (0x3F <= u && u <= 0x5B) || u == 0x5D
        || u == 0x5F || (0x61 <= u && u <= 0x7A) || u == 0x7E
        || is_ucschar(c) || is_iprivate(c)
}

/// ASCII letter, executable form.
pub fn alpha(c: char) -> (r: bool)
    ensures
        r == is_alpha(c),
{
    let u = c as u32;
    (97 <= u && u <= 122) || (65 <= u && u <= 90)
}

/// ASCII digit, executable form.
pub fn digit(c: char) -> (r: bool)
    ensures
        r == is_digit(c),
{
    let u = c as u32;
    48 <= u && u <= 57
}

/// ASCII hex digit, executable form.
pub fn hexdig(c: char) -> (r: bool)
    ensures
        r == is_hexdig(c),
{
    let u = c as u32;
    (48 <= u && u <= 57) || (65 <= u && u <= 70) || (97 <= u && u <= 102)
}

/// ASCII letter or digit, executable form.
pub fn alphanumeric(c: char) -> (r: bool)
    ensures
        r == (is_alpha(c) || is_digit(c)),
{
    alpha(c) || digit(c)
}

/// RFC 3986 `unreserved`, executable form.
pub fn unreserved(c: char) -> (r: bool)
    ensures
        r == is_unreserved(c),
{
    alphanumeric(c) || c == '-' || c == '.' || c == '_' || c == '~'
}

/// RFC 3986 `sub-delims`, executable form.
pub fn sub_delims(c: char) -> (r: bool)
    ensures
        r == is_sub_delims(c),
{
    c == '!' || c == '$' || c == '&' || c == '\'' || c == '(' || c == ')' || c == '*'
        || c == '+' || c == ',' || c == ';' || c == '='
}

/// RFC 3987 `ucschar`, executable form.
pub fn ucschar(c: char) -> (r: bool)
    ensures
        r == is_ucschar(c),
{
    let u = c as u32;
    (0xA0 <= u && u <= 0xD7FF) || (0xF900 <= u && u <= 0xFDCF)
        || (0xFDF0 <= u && u <= 0xFFEF) || (0x10000 <= u && u <= 0x1FFFD)
        || (0x20000 <= u && u <= 0x2FFFD) || (0x30000 <= u && u <= 0x3FFFD)
        || (0x40000 <= u && u <= 0x4FFFD) || (0x50000 <= u && u <= 0x5FFFD)
        || (0x60000 <= u && u <= 0x6FFFD) || (0x70000 <= u && u <= 0x7FFFD)
        || (0x80000 <= u && u <= 0x8FFFD) || (0x90000 <= u && u <= 0x9FFFD)
        || (0xA0000 <= u && u <= 0xAFFFD) || (0xB0000 <= u && u <= 0xBFFFD)
        || (0xC0000 <= u && u <= 0xCFFFD) || (0xD0000 <= u && u <= 0xDFFFD)
        || (0xE1000 <= u && u <= 0xEFFFD)
}

/// RFC 3987 `iprivate`, executable form.
pub fn iprivate(c: char) -> (r: bool)
    ensures
        r == is_iprivate(c),
{
    let u = c as u32;
    (0xE000 <= u && u <= 0xF8FF) || (0xF0000 <= u && u <= 0xFFFFD)
        || (0x100000 <= u && u <= 0x10FFFD)
}

/// Authority-section literal character, executable form.
pub fn auth_lit_char(c: char) -> (r: bool)
    ensures
        r == is_auth_lit_char(c),
{
    let u = c as u32;
    u == 0x21 || (0x23 <= u && u <= 0x24) || u == 0x26 || (0x28 <= u && u <= 0x2E)
        || (0x30 <= u && u <= 0x3B) || u == 0x3D || (0x3F <= u && u <= 0x5B) || u == 0x5D
        || u == 0x5F || (0x61 <= u && u <= 0x7A) || u == 0x7E
        || ucschar(c) || iprivate(c)
}

// ---------------------------------------------------------------------------
// Numbers from digit and hex-digit runs
// ---------------------------------------------------------------------------

/// The numeric value of one decimal digit character.
pub open spec fn digit_val(c: char) -> int {
    c as u32 - 48
}

/// The numeric value of a run of decimal digits, most significant first.
pub open spec fn digits_val(s: Seq<char>) -> int
    decreases s.len(),
{
    if s.len() == 0 {
        0
    } else {
        digits_val(s.drop_last()) * 10 + digit_val(s.last())
    }
}

/// The numeric value of one hexadecimal digit character.
pub open spec fn hex_val(c: char) -> int {
    let u = c as u32;
    if 48 <= u && u <= 57 {
        u - 48
    } else if 65 <= u && u <= 70 {
        u - 55
    } else {
        u - 87
    }
}

/// The numeric value of a run of hexadecimal digits, most significant first.
pub open spec fn hex_seq_val(s: Seq<char>) -> int
    decreases s.len(),
{
    if s.len() == 0 {
        0
    } else {
        hex_seq_val(s.drop_last()) * 16 + hex_val(s.last())
    }
}

/// Sixteen to the given power.
pub open spec fn pow16(n: nat) -> int
    decreases n,
{
    if n == 0 {
        1
    } else {
        16 * pow16((n - 1) as nat)
    }
}

/// Ten to the given power.
pub open spec fn pow10(n: nat) -> int
    decreases n,
{
    if n == 0 {
        1
    } else {
        10 * pow10((n - 1) as nat)
    }
}

proof fn lemma_pow16_pos(n: nat)
    ensures
        pow16(n) >= 1,
    decreases n,
{
    if n > 0 {
        lemma_pow16_pos((n - 1) as nat);
    }
}

proof fn lemma_pow10_pos(n: nat)
    ensures
        pow10(n) >= 1,
    decreases n,
{
    if n > 0 {
        lemma_pow10_pos((n - 1) as nat);
    }
}

/// A run of decimal digits is bounded by ten to its length.
proof fn lemma_digits_val_bound(s: Seq<char>)
    requires
        forall|k: int| 0 <= k < s.len() ==> is_digit(#[trigger] s[k]),
    ensures
        0 <= digits_val(s) < pow10(s.len()),
    decreases s.len(),
{
    if s.len() > 0 {
        lemma_digits_val_bound(s.drop_last());
        lemma_pow10_pos((s.len() - 1) as nat);
        assert(0 <= digit_val(s.last()) < 10);
    }
}

/// A digit character is determined by its numeric value.
proof fn lemma_digit_char_val(c: char)
    requires
        is_digit(c),
    ensures
        crate::routing::render::dec_digit_char(digit_val(c)) == c,
        c == '0' <==> digit_val(c) == 0,
{
    broadcast use vstd::utf8::char_u32_cast;

    let v = digit_val(c);
    let b: u8 = (48 + v) as u8;
    assert(b as u32 == c as u32);
    assert(b as char == c) by {
        assert((b as char) as u32 == b as u32);
        char_eq_from_u32(b as char, c);
    }
    assert('0' as u32 == 48);
    if c as u32 == 48 {
        char_eq_from_u32(c, '0');
    }
}

/// Two characters with the same code point are the same character.
proof fn char_eq_from_u32(a: char, b: char)
    requires
        a as u32 == b as u32,
    ensures
        a == b,
{
    broadcast use vstd::utf8::char_u32_cast;

    assert((a as u32) as char == a);
    assert((b as u32) as char == b);
}

/// A digit run has a non-negative value.
pub proof fn lemma_digits_val_nonneg(s: Seq<char>)
    requires
        forall|k: int| 0 <= k < s.len() ==> is_digit(#[trigger] s[k]),
    ensures
        digits_val(s) >= 0,
    decreases s.len(),
{
    if s.len() > 0 {
        lemma_digits_val_nonneg(s.drop_last());
        assert(0 <= digit_val(s.last()));
    }
}

/// A digit run with a non-zero leading digit has a positive value.
proof fn lemma_digits_val_pos(s: Seq<char>)
    requires
        s.len() >= 1,
        forall|k: int| 0 <= k < s.len() ==> is_digit(#[trigger] s[k]),
        s[0] != '0',
    ensures
        digits_val(s) >= 1,
    decreases s.len(),
{
    if s.len() == 1 {
        assert(s.last() == s[0]);
        assert(s.drop_last().len() == 0);
        assert(digits_val(s.drop_last()) == 0);
        lemma_digit_char_val(s[0]);
        assert(digit_val(s[0]) >= 1);
    } else {
        lemma_digits_val_pos(s.drop_last());
        assert(0 <= digit_val(s.last()));
    }
}

/// Rendering the value of a digit run reproduces the run, provided it has
/// no leading zero.
proof fn lemma_dec_digits_roundtrip(s: Seq<char>)
    requires
        s.len() >= 1,
        forall|k: int| 0 <= k < s.len() ==> is_digit(#[trigger] s[k]),
        s[0] != '0',
    ensures
        dec_digits(digits_val(s)) == s,
    decreases s.len(),
{
    if s.len() == 1 {
        assert(s.last() == s[0]);
        assert(s.drop_last().len() == 0);
        assert(digits_val(s.drop_last()) == 0);
        let v = digits_val(s);
        assert(v == digit_val(s[0]));
        assert(0 <= v < 10);
        assert(dec_digits(v) == seq![crate::routing::render::dec_digit_char(v)]);
        lemma_digit_char_val(s[0]);
        assert(dec_digits(v) =~= s);
    } else {
        let pre = s.drop_last();
        let d = digit_val(s.last());
        lemma_digits_val_pos(pre);
        lemma_dec_digits_roundtrip(pre);
        let v = digits_val(s);
        assert(v == digits_val(pre) * 10 + d);
        assert(0 <= d < 10);
        assert(v / 10 == digits_val(pre));
        assert(v % 10 == d);
        assert(v >= 10);
        assert(dec_digits(v) == dec_digits(v / 10)
            + seq![crate::routing::render::dec_digit_char(v % 10)]);
        lemma_digit_char_val(s.last());
        assert(dec_digits(v) =~= pre + seq![s.last()]);
        assert(pre + seq![s.last()] =~= s);
    }
}

/// The numeric value of a run of hexadecimal digit characters.
pub fn hex_u32(t: &Vec<char>, from: usize, to: usize) -> (r: u32)
    requires
        from <= to <= t@.len(),
        to - from <= 8,
        forall|k: int| from <= k < to ==> is_hexdig(#[trigger] t@[k]),
    ensures
        r == hex_seq_val(t@.subrange(from as int, to as int)),
{
    let mut r: u32 = 0;
    let mut k = from;
    while k < to
        invariant
            from <= k <= to <= t@.len(),
            to - from <= 8,
            forall|m: int| from <= m < to ==> is_hexdig(#[trigger] t@[m]),
            r == hex_seq_val(t@.subrange(from as int, k as int)),
            r < pow16((k - from) as nat),
        decreases to - k,
    {
        let c = t[k];
        let u = c as u32;
        let d: u32 = if u <= 57 {
            u - 48
        } else if u <= 70 {
            u - 55
        } else {
            u - 87
        };
        proof {
            assert(is_hexdig(c));
            assert(d == hex_val(c));
            lemma_pow16_mono(((k - from) + 1) as nat, 8);
            assert(pow16(((k - from) + 1) as nat) == 16 * pow16((k - from) as nat));
            assert(pow16(8) == 0x100000000) by {
                assert(pow16(0) == 1);
                assert(pow16(1) == 16);
                assert(pow16(2) == 0x100);
                assert(pow16(3) == 0x1000);
                assert(pow16(4) == 0x10000);
                assert(pow16(5) == 0x100000);
                assert(pow16(6) == 0x1000000);
                assert(pow16(7) == 0x10000000);
            }
        }
        r = r * 16 + d;
        proof {
            let sub = t@.subrange(from as int, k + 1);
            assert(sub.drop_last() =~= t@.subrange(from as int, k as int));
            assert(sub.last() == t@[k as int]);
        }
        k = k + 1;
    }
    r
}

proof fn lemma_pow16_mono(a: nat, b: nat)
    requires
        a <= b,
    ensures
        pow16(a) <= pow16(b),
    decreases b,
{
    if a < b {
        lemma_pow16_mono(a, (b - 1) as nat);
        lemma_pow16_pos((b - 1) as nat);
    }
}

// ---------------------------------------------------------------------------
// The grammar as a specification
//
// Each executable parser below is proved equal to one of these spec-level
// definitions, so `parse` accepts exactly the language they describe.
// ---------------------------------------------------------------------------

/// One varchar starting at `i`: a letter, digit or underscore, or a
/// percent triple.
pub open spec fn varchar_step_spec(t: Seq<char>, i: int) -> Option<int> {
    if 0 <= i < t.len() && (is_alpha(t[i]) || is_digit(t[i]) || t[i] == '_') {
        Option::Some(i + 1)
    } else if 0 <= i && pct_triple_at(t, i) {
        Option::Some(i + 3)
    } else {
        Option::None
    }
}

/// One pchar starting at `i`.
pub open spec fn pchar_step_spec(t: Seq<char>, i: int) -> Option<int> {
    if 0 <= i < t.len() && (is_unreserved(t[i]) || is_sub_delims(t[i]) || t[i] == ':'
        || t[i] == '@') {
        Option::Some(i + 1)
    } else if 0 <= i && pct_triple_at(t, i) {
        Option::Some(i + 3)
    } else {
        Option::None
    }
}

/// One authority or query literal character starting at `i`.
pub open spec fn auth_lit_step_spec(t: Seq<char>, i: int) -> Option<int> {
    if 0 <= i < t.len() && is_auth_lit_char(t[i]) {
        Option::Some(i + 1)
    } else if 0 <= i && pct_triple_at(t, i) {
        Option::Some(i + 3)
    } else {
        Option::None
    }
}

/// A step consumes at least one character and stays inside the input.
proof fn lemma_step_progress(t: Seq<char>, i: int)
    ensures
        varchar_step_spec(t, i) matches Option::Some(j) ==> i < j <= t.len(),
        pchar_step_spec(t, i) matches Option::Some(j) ==> i < j <= t.len(),
        auth_lit_step_spec(t, i) matches Option::Some(j) ==> i < j <= t.len(),
{
}

/// The end of the greedy varchar-or-dot run of a variable name.
pub open spec fn varname_scan(t: Seq<char>, i: int) -> int
    decreases t.len() - i,
    via varname_scan_decreases
{
    match varchar_step_spec(t, i) {
        Option::Some(j) => varname_scan(t, j),
        Option::None => if 0 <= i < t.len() && t[i] == '.' {
            varname_scan(t, i + 1)
        } else {
            i
        },
    }
}

#[via_fn]
proof fn varname_scan_decreases(t: Seq<char>, i: int) {
    lemma_step_progress(t, i);
}

/// The scan only moves forward and never leaves the input it entered.
proof fn lemma_varname_scan_bounds(t: Seq<char>, i: int)
    requires
        i <= t.len(),
    ensures
        i <= varname_scan(t, i) <= t.len(),
    decreases t.len() - i,
{
    lemma_step_progress(t, i);
    match varchar_step_spec(t, i) {
        Option::Some(j) => {
            lemma_varname_scan_bounds(t, j);
        }
        Option::None => {
            if 0 <= i < t.len() && t[i] == '.' {
                lemma_varname_scan_bounds(t, i + 1);
            }
        }
    }
}

/// A variable name starting at `i`: its end and its text.
pub open spec fn varname_spec(t: Seq<char>, i: int) -> Option<(int, Seq<char>)> {
    match varchar_step_spec(t, i) {
        Option::None => Option::None,
        Option::Some(first) => {
            let j = varname_scan(t, first);
            Option::Some((j, t.subrange(i, j)))
        }
    }
}

/// A name consumes at least one character and stays inside the input.
proof fn lemma_varname_spec_progress(t: Seq<char>, i: int)
    requires
        0 <= i <= t.len(),
    ensures
        varname_spec(t, i) matches Option::Some(js) ==> i < js.0 <= t.len(),
{
    lemma_step_progress(t, i);
    match varchar_step_spec(t, i) {
        Option::Some(first) => {
            lemma_varname_scan_bounds(t, first);
        }
        Option::None => {}
    }
}

/// The end of the run of at most three digits after the leading one.
pub open spec fn prefix_digit_scan(t: Seq<char>, i: int, stop: int) -> int
    decreases t.len() - i,
{
    if 0 <= i < t.len() && i < stop && is_digit(t[i]) {
        prefix_digit_scan(t, i + 1, stop)
    } else {
        i
    }
}

proof fn lemma_prefix_digit_scan_bounds(t: Seq<char>, i: int, stop: int)
    requires
        0 <= i <= t.len(),
    ensures
        i <= prefix_digit_scan(t, i, stop) <= t.len(),
        stop >= i ==> prefix_digit_scan(t, i, stop) <= stop,
        forall|k: int| i <= k < prefix_digit_scan(t, i, stop) ==> is_digit(#[trigger] t[k]),
    decreases t.len() - i,
{
    if 0 <= i < t.len() && i < stop && is_digit(t[i]) {
        lemma_prefix_digit_scan_bounds(t, i + 1, stop);
    }
}

/// A prefix modifier `:<n>` starting at `i`: its end and the length limit.
pub open spec fn mod_prefix_spec(t: Seq<char>, i: int) -> Option<(int, int)> {
    if 0 <= i && i + 2 <= t.len() && t[i] == ':' && is_digit(t[i + 1]) && t[i + 1] != '0' {
        let j = prefix_digit_scan(t, i + 2, i + 5);
        Option::Some((j, digits_val(t.subrange(i + 1, j))))
    } else {
        Option::None
    }
}

/// One varspec starting at `i`; `allow_explode` selects the full grammar.
pub open spec fn varspec_spec(t: Seq<char>, i: int, allow_explode: bool)
    -> Option<(int, VarSpecV)> {
    match varname_spec(t, i) {
        Option::None => Option::None,
        Option::Some((j, name)) => match mod_prefix_spec(t, j) {
            Option::Some((j2, n)) => Option::Some((j2, VarSpecV {
                name,
                modifier: VarMod::Prefix(n as u16),
            })),
            Option::None => if allow_explode && 0 <= j < t.len() && t[j] == '*' {
                Option::Some((j + 1, VarSpecV { name, modifier: VarMod::Explode }))
            } else {
                Option::Some((j, VarSpecV { name, modifier: VarMod::NoMod }))
            },
        },
    }
}

/// A varspec consumes at least one character and stays inside the input.
proof fn lemma_varspec_spec_progress(t: Seq<char>, i: int, allow_explode: bool)
    requires
        0 <= i <= t.len(),
    ensures
        varspec_spec(t, i, allow_explode) matches Option::Some(js) ==> i < js.0 <= t.len(),
{
    lemma_varname_spec_progress(t, i);
    match varname_spec(t, i) {
        Option::Some((j, name)) => {
            match mod_prefix_spec(t, j) {
                Option::Some(_) => {
                    lemma_prefix_digit_scan_bounds(t, j + 2, j + 5);
                }
                Option::None => {}
            }
        }
        Option::None => {}
    }
}

/// The rest of a comma-separated variable list after its first entry: a
/// comma followed by a varspec extends the list, anything else ends it.
pub open spec fn var_list_scan(t: Seq<char>, i: int, acc: Seq<VarSpecV>,
    allow_explode: bool) -> (int, Seq<VarSpecV>)
    decreases t.len() - i,
    via var_list_scan_decreases
{
    if 0 <= i < t.len() && t[i] == ',' {
        match varspec_spec(t, i + 1, allow_explode) {
            Option::Some((j, vs)) => var_list_scan(t, j, acc.push(vs), allow_explode),
            Option::None => (i, acc),
        }
    } else {
        (i, acc)
    }
}

#[via_fn]
proof fn var_list_scan_decreases(t: Seq<char>, i: int, acc: Seq<VarSpecV>,
    allow_explode: bool) {
    if 0 <= i < t.len() && t[i] == ',' {
        lemma_varspec_spec_progress(t, i + 1, allow_explode);
    }
}

proof fn lemma_var_list_scan_bounds(t: Seq<char>, i: int, acc: Seq<VarSpecV>,
    allow_explode: bool)
    requires
        0 <= i <= t.len(),
    ensures
        i <= var_list_scan(t, i, acc, allow_explode).0 <= t.len(),
    decreases t.len() - i,
{
    if 0 <= i < t.len() && t[i] == ',' {
        lemma_varspec_spec_progress(t, i + 1, allow_explode);
        match varspec_spec(t, i + 1, allow_explode) {
            Option::Some((j, vs)) => {
                lemma_var_list_scan_bounds(t, j, acc.push(vs), allow_explode);
            }
            Option::None => {}
        }
    }
}

/// A non-empty variable list starting at `i`.
pub open spec fn var_list_spec(t: Seq<char>, i: int, allow_explode: bool)
    -> Option<(int, Seq<VarSpecV>)> {
    match varspec_spec(t, i, allow_explode) {
        Option::None => Option::None,
        Option::Some((j, vs)) => Option::Some(var_list_scan(t, j, seq![vs], allow_explode)),
    }
}

proof fn lemma_var_list_spec_progress(t: Seq<char>, i: int, allow_explode: bool)
    requires
        0 <= i <= t.len(),
    ensures
        var_list_spec(t, i, allow_explode) matches Option::Some(js) ==> i < js.0 <= t.len(),
{
    lemma_varspec_spec_progress(t, i, allow_explode);
    match varspec_spec(t, i, allow_explode) {
        Option::Some((j, vs)) => {
            lemma_var_list_scan_bounds(t, j, seq![vs], allow_explode);
        }
        Option::None => {}
    }
}

/// The end of a greedy pchar run.
pub open spec fn pchar_scan(t: Seq<char>, i: int) -> int
    decreases t.len() - i,
    via pchar_scan_decreases
{
    match pchar_step_spec(t, i) {
        Option::Some(j) => pchar_scan(t, j),
        Option::None => i,
    }
}

#[via_fn]
proof fn pchar_scan_decreases(t: Seq<char>, i: int) {
    lemma_step_progress(t, i);
}

/// The end of a greedy authority-literal run.
pub open spec fn auth_lit_scan(t: Seq<char>, i: int) -> int
    decreases t.len() - i,
    via auth_lit_scan_decreases
{
    match auth_lit_step_spec(t, i) {
        Option::Some(j) => auth_lit_scan(t, j),
        Option::None => i,
    }
}

#[via_fn]
proof fn auth_lit_scan_decreases(t: Seq<char>, i: int) {
    lemma_step_progress(t, i);
}

proof fn lemma_lit_scan_bounds(t: Seq<char>, i: int)
    requires
        i <= t.len(),
    ensures
        i <= pchar_scan(t, i) <= t.len(),
        i <= auth_lit_scan(t, i) <= t.len(),
    decreases t.len() - i,
{
    lemma_step_progress(t, i);
    match pchar_step_spec(t, i) {
        Option::Some(j) => {
            lemma_lit_scan_bounds(t, j);
        }
        Option::None => {}
    }
    match auth_lit_step_spec(t, i) {
        Option::Some(j) => {
            lemma_lit_scan_bounds(t, j);
        }
        Option::None => {}
    }
}

/// A literal path segment: a slash and at least one pchar.
pub open spec fn segment_literal_spec(t: Seq<char>, i: int) -> Option<(int, PartV)> {
    if 0 <= i < t.len() && t[i] == '/' {
        let j = pchar_scan(t, i + 1);
        if j == i + 1 {
            Option::None
        } else {
            Option::Some((j, PartV::Lit(t.subrange(i, j))))
        }
    } else {
        Option::None
    }
}

/// An authority or query literal: a non-empty literal-character run.
pub open spec fn authority_literals_spec(t: Seq<char>, i: int) -> Option<(int, PartV)> {
    let j = auth_lit_scan(t, i);
    if 0 <= i && j == i {
        Option::None
    } else if 0 <= i {
        Option::Some((j, PartV::Lit(t.subrange(i, j))))
    } else {
        Option::None
    }
}

/// A brace expression with the full operator alphabet.
pub open spec fn expression_spec(t: Seq<char>, i: int) -> Option<(int, PartV)> {
    if 0 <= i < t.len() && t[i] == '{' {
        let hasop = i + 1 < t.len() && is_op_char(t[i + 1]);
        let k = if hasop {
            i + 2
        } else {
            i + 1
        };
        let op = if hasop {
            op_of_char(Option::Some(t[i + 1]))
        } else {
            Op::Simple
        };
        match var_list_spec(t, k, true) {
            Option::None => Option::None,
            Option::Some((j, vss)) => if j < t.len() && t[j] == '}' {
                Option::Some((j + 1, PartV::Expression(ExpressionV { operator: op,
                    varspecs: vss })))
            } else {
                Option::None
            },
        }
    } else {
        Option::None
    }
}

/// A brace expression with the authority operator alphabet.
pub open spec fn authority_expression_spec(t: Seq<char>, i: int) -> Option<(int, PartV)> {
    if 0 <= i < t.len() && t[i] == '{' {
        let hasop = i + 1 < t.len() && is_auth_op_char(t[i + 1]);
        let k = if hasop {
            i + 2
        } else {
            i + 1
        };
        let op = if hasop {
            op_of_char(Option::Some(t[i + 1]))
        } else {
            Op::Simple
        };
        match var_list_spec(t, k, true) {
            Option::None => Option::None,
            Option::Some((j, vss)) => if j < t.len() && t[j] == '}' {
                Option::Some((j + 1, PartV::Expression(ExpressionV { operator: op,
                    varspecs: vss })))
            } else {
                Option::None
            },
        }
    } else {
        Option::None
    }
}

/// A segment variable `/{vars}` or `/{+vars}`.
pub open spec fn segment_variable_spec(t: Seq<char>, i: int) -> Option<(int, PartV)> {
    if 0 <= i && i + 2 <= t.len() && t[i] == '/' && t[i + 1] == '{' {
        let hasop = i + 2 < t.len() && t[i + 2] == '+';
        let k = if hasop {
            i + 3
        } else {
            i + 2
        };
        let op = if hasop {
            Op::Reserved
        } else {
            Op::Simple
        };
        match var_list_spec(t, k, false) {
            Option::None => Option::None,
            Option::Some((j, vss)) => if j < t.len() && t[j] == '}' {
                Option::Some((j + 1, PartV::SegVar(ExpressionV { operator: op,
                    varspecs: vss })))
            } else {
                Option::None
            },
        }
    } else {
        Option::None
    }
}

/// A path-operator segment variable `{/vars}` or a bare `{vars}`.
pub open spec fn segment_pathvar_spec(t: Seq<char>, i: int) -> Option<(int, PartV)> {
    if 0 <= i < t.len() && t[i] == '{' {
        let hasop = i + 1 < t.len() && t[i + 1] == '/';
        let k = if hasop {
            i + 2
        } else {
            i + 1
        };
        let op = if hasop {
            Op::Path
        } else {
            Op::Simple
        };
        match var_list_spec(t, k, false) {
            Option::None => Option::None,
            Option::Some((j, vss)) => if j < t.len() && t[j] == '}' {
                Option::Some((j + 1, PartV::SegPathVar(ExpressionV { operator: op,
                    varspecs: vss })))
            } else {
                Option::None
            },
        }
    } else {
        Option::None
    }
}

/// A terminal rest segment `/{<op>vars}` with the tail operator alphabet.
pub open spec fn segment_rest_spec(t: Seq<char>, i: int) -> Option<(int, PartV)> {
    if 0 <= i && i + 2 <= t.len() && t[i] == '/' && t[i + 1] == '{' {
        let hasop = i + 2 < t.len() && is_tail_op_char(t[i + 2]);
        let k = if hasop {
            i + 3
        } else {
            i + 2
        };
        let op = if hasop {
            op_of_char(Option::Some(t[i + 2]))
        } else {
            Op::Simple
        };
        match var_list_spec(t, k, true) {
            Option::None => Option::None,
            Option::Some((j, vss)) => if j < t.len() && t[j] == '}' {
                Option::Some((j + 1, PartV::SegRest(ExpressionV { operator: op,
                    varspecs: vss })))
            } else {
                Option::None
            },
        }
    } else {
        Option::None
    }
}

/// A terminal path-operator rest segment `{/vars}`.
pub open spec fn segment_pathrest_spec(t: Seq<char>, i: int) -> Option<(int, PartV)> {
    if 0 <= i < t.len() && t[i] == '{' {
        let hasop = i + 1 < t.len() && t[i + 1] == '/';
        let k = if hasop {
            i + 2
        } else {
            i + 1
        };
        let op = if hasop {
            Op::Path
        } else {
            Op::Simple
        };
        match var_list_spec(t, k, true) {
            Option::None => Option::None,
            Option::Some((j, vss)) => if j < t.len() && t[j] == '}' {
                Option::Some((j + 1, PartV::SegPathRest(ExpressionV { operator: op,
                    varspecs: vss })))
            } else {
                Option::None
            },
        }
    } else {
        Option::None
    }
}

/// One path segment: the three alternatives in grammar order.
pub open spec fn segment_spec(t: Seq<char>, i: int) -> Option<(int, PartV)> {
    match segment_variable_spec(t, i) {
        Option::Some(x) => Option::Some(x),
        Option::None => match segment_pathvar_spec(t, i) {
            Option::Some(x) => Option::Some(x),
            Option::None => segment_literal_spec(t, i),
        },
    }
}

/// The optional terminal segment: the two alternatives in grammar order.
pub open spec fn tail_segment_spec(t: Seq<char>, i: int) -> Option<(int, PartV)> {
    match segment_rest_spec(t, i) {
        Option::Some(x) => Option::Some(x),
        Option::None => segment_pathrest_spec(t, i),
    }
}

/// Every part form consumes at least one character and stays inside the
/// input.
proof fn lemma_part_spec_progress(t: Seq<char>, i: int)
    requires
        0 <= i <= t.len(),
    ensures
        segment_literal_spec(t, i) matches Option::Some(jp) ==> i < jp.0 <= t.len(),
        authority_literals_spec(t, i) matches Option::Some(jp) ==> i < jp.0 <= t.len(),
        expression_spec(t, i) matches Option::Some(jp) ==> i < jp.0 <= t.len(),
        authority_expression_spec(t, i) matches Option::Some(jp) ==> i < jp.0 <= t.len(),
        segment_variable_spec(t, i) matches Option::Some(jp) ==> i < jp.0 <= t.len(),
        segment_pathvar_spec(t, i) matches Option::Some(jp) ==> i < jp.0 <= t.len(),
        segment_rest_spec(t, i) matches Option::Some(jp) ==> i < jp.0 <= t.len(),
        segment_pathrest_spec(t, i) matches Option::Some(jp) ==> i < jp.0 <= t.len(),
        segment_spec(t, i) matches Option::Some(jp) ==> i < jp.0 <= t.len(),
        tail_segment_spec(t, i) matches Option::Some(jp) ==> i < jp.0 <= t.len(),
{
    if i < t.len() {
        lemma_lit_scan_bounds(t, i + 1);
        lemma_var_list_spec_progress(t, i + 1, true);
        lemma_var_list_spec_progress(t, i + 1, false);
        if i + 2 <= t.len() {
            lemma_var_list_spec_progress(t, i + 2, true);
            lemma_var_list_spec_progress(t, i + 2, false);
        }
        if i + 3 <= t.len() {
            lemma_var_list_spec_progress(t, i + 3, true);
            lemma_var_list_spec_progress(t, i + 3, false);
        }
    }
    lemma_lit_scan_bounds(t, i);
}

/// The greedy run of path segments.
pub open spec fn segments_scan(t: Seq<char>, i: int, acc: Seq<PartV>) -> (int, Seq<PartV>)
    decreases t.len() - i,
    via segments_scan_decreases
{
    if 0 <= i <= t.len() {
        match segment_spec(t, i) {
            Option::Some((j, p)) => segments_scan(t, j, acc.push(p)),
            Option::None => (i, acc),
        }
    } else {
        (i, acc)
    }
}

#[via_fn]
proof fn segments_scan_decreases(t: Seq<char>, i: int, acc: Seq<PartV>) {
    if 0 <= i <= t.len() {
        lemma_part_spec_progress(t, i);
    }
}

proof fn lemma_segments_scan_bounds(t: Seq<char>, i: int, acc: Seq<PartV>)
    requires
        0 <= i <= t.len(),
    ensures
        i <= segments_scan(t, i, acc).0 <= t.len(),
    decreases t.len() - i,
{
    lemma_part_spec_progress(t, i);
    match segment_spec(t, i) {
        Option::Some((j, p)) => {
            lemma_segments_scan_bounds(t, j, acc.push(p));
        }
        Option::None => {}
    }
}

/// The path: one or more segments with an optional terminal rest segment,
/// or the bare root slash.
pub open spec fn path_spec(t: Seq<char>, i: int) -> Option<(int, Seq<PartV>)> {
    let (j, segs) = segments_scan(t, i, Seq::<PartV>::empty());
    if segs.len() == 0 {
        if 0 <= i < t.len() && t[i] == '/' {
            Option::Some((i + 1, seq![PartV::Lit("/"@)]))
        } else {
            Option::None
        }
    } else {
        match tail_segment_spec(t, j) {
            Option::Some((j2, p)) => Option::Some((j2, segs.push(p))),
            Option::None => Option::Some((j, segs)),
        }
    }
}

/// The greedy run of literals and expressions in the authority and query
/// sections; the leading run of the authority part uses the full operator
/// alphabet instead.
pub open spec fn alt_scan(t: Seq<char>, i: int, acc: Seq<PartV>, full_ops: bool)
    -> (int, Seq<PartV>)
    decreases t.len() - i,
    via alt_scan_decreases
{
    if 0 <= i <= t.len() {
        match authority_literals_spec(t, i) {
            Option::Some((j, p)) => alt_scan(t, j, acc.push(p), full_ops),
            Option::None => {
                let e = if full_ops {
                    expression_spec(t, i)
                } else {
                    authority_expression_spec(t, i)
                };
                match e {
                    Option::Some((j, p)) => alt_scan(t, j, acc.push(p), full_ops),
                    Option::None => (i, acc),
                }
            }
        }
    } else {
        (i, acc)
    }
}

#[via_fn]
proof fn alt_scan_decreases(t: Seq<char>, i: int, acc: Seq<PartV>, full_ops: bool) {
    if 0 <= i <= t.len() {
        lemma_part_spec_progress(t, i);
    }
}

proof fn lemma_alt_scan_bounds(t: Seq<char>, i: int, acc: Seq<PartV>, full_ops: bool)
    requires
        0 <= i <= t.len(),
    ensures
        i <= alt_scan(t, i, acc, full_ops).0 <= t.len(),
    decreases t.len() - i,
{
    lemma_part_spec_progress(t, i);
    match authority_literals_spec(t, i) {
        Option::Some((j, p)) => {
            lemma_alt_scan_bounds(t, j, acc.push(p), full_ops);
        }
        Option::None => {
            let e = if full_ops {
                expression_spec(t, i)
            } else {
                authority_expression_spec(t, i)
            };
            match e {
                Option::Some((j, p)) => {
                    lemma_alt_scan_bounds(t, j, acc.push(p), full_ops);
                }
                Option::None => {}
            }
        }
    }
}

/// The authority part: a leading run, the `//` marker, and the authority
/// body.
pub open spec fn authority_part_spec(t: Seq<char>, i: int) -> Option<(int, Seq<PartV>)> {
    let (j, pre) = alt_scan(t, i, Seq::<PartV>::empty(), true);
    if j + 2 <= t.len() && t[j] == '/' && t[j + 1] == '/' {
        Option::Some(alt_scan(t, j + 2, pre.push(PartV::Lit("//"@)), false))
    } else {
        Option::None
    }
}

/// The query part: a non-empty run of literals and expressions.
pub open spec fn query_part_spec(t: Seq<char>, i: int) -> Option<(int, Seq<PartV>)> {
    let (j, parts) = alt_scan(t, i, Seq::<PartV>::empty(), false);
    if parts.len() == 0 {
        Option::None
    } else {
        Option::Some((j, parts))
    }
}

/// The whole grammar: an optional authority part, the path, an optional
/// query part, and nothing after them. This is the language `parse`
/// accepts, and the tree it returns.
pub open spec fn parse_spec(t: Seq<char>) -> Option<ParsedV> {
    let auth_r = authority_part_spec(t, 0);
    let a_end = match auth_r {
        Option::Some((j, ps)) => j,
        Option::None => 0,
    };
    let auth = match auth_r {
        Option::Some((j, ps)) => Option::Some(ps),
        Option::None => Option::<Seq<PartV>>::None,
    };
    match path_spec(t, a_end) {
        Option::None => Option::None,
        Option::Some((p_end, path)) => if p_end == t.len() {
            Option::Some(ParsedV { auth, path, query: Option::None })
        } else {
            match query_part_spec(t, p_end) {
                Option::Some((j, q)) => if j == t.len() {
                    Option::Some(ParsedV { auth, path, query: Option::Some(q) })
                } else {
                    Option::None
                },
                Option::None => Option::None,
            }
        },
    }
}

// ---------------------------------------------------------------------------
// Token-level parsers
// ---------------------------------------------------------------------------

/// A percent-encoded triple `%XX` starts at position `i`.
pub open spec fn pct_triple_at(t: Seq<char>, i: int) -> bool {
    &&& i + 3 <= t.len()
    &&& t[i] == '%'
    &&& is_hexdig(t[i + 1])
    &&& is_hexdig(t[i + 2])
}

/// The character denoted by the percent-encoded triple at `i`.
pub open spec fn pct_char_at(t: Seq<char>, i: int) -> char {
    (((hex_val(t[i + 1]) * 16 + hex_val(t[i + 2])) as u8) as char)
}

/// A `varchar` (name character) starts at position `i`.
pub open spec fn varchar_at(t: Seq<char>, i: int) -> bool {
    (i < t.len() && (is_alpha(t[i]) || is_digit(t[i]) || t[i] == '_')) || pct_triple_at(t, i)
}

/// A `pchar` (path-segment character) starts at position `i`.
pub open spec fn pchar_at(t: Seq<char>, i: int) -> bool {
    (i < t.len() && (is_unreserved(t[i]) || is_sub_delims(t[i]) || t[i] == ':' || t[i] == '@'))
        || pct_triple_at(t, i)
}

/// An authority or query literal character starts at position `i`.
pub open spec fn auth_lit_at(t: Seq<char>, i: int) -> bool {
    (i < t.len() && is_auth_lit_char(t[i])) || pct_triple_at(t, i)
}

/// Consumes one percent-encoded triple, returning the position after it and
/// the character it denotes.
pub fn pct_encoded(t: &Vec<char>, i: usize) -> (r: Option<(usize, char)>)
    requires
        i <= t@.len(),
    ensures
        match r {
            Option::Some((j, c)) => j == i + 3 && j <= t@.len() && pct_triple_at(t@, i as int)
                && c == pct_char_at(t@, i as int),
            Option::None => !pct_triple_at(t@, i as int),
        },
{
    if t.len() - i >= 3 && t[i] == '%' && hexdig(t[i + 1]) && hexdig(t[i + 2]) {
        let v = hex_u32(t, i + 1, i + 3);
        proof {
            let sub = t@.subrange(i + 1, i + 3);
            assert(sub.len() == 2);
            assert(sub.drop_last() =~= t@.subrange(i + 1, i + 2));
            assert(sub.drop_last().drop_last() =~= t@.subrange(i + 1, i + 1));
            assert(sub.drop_last().drop_last().len() == 0);
            assert(hex_seq_val(sub.drop_last().drop_last()) == 0);
            assert(sub.last() == t@[i + 2]);
            assert(sub.drop_last().last() == t@[i + 1]);
            assert(hex_seq_val(sub) == hex_seq_val(sub.drop_last()) * 16 + hex_val(sub.last()));
            assert(hex_seq_val(sub.drop_last()) == hex_seq_val(sub.drop_last().drop_last()) * 16
                + hex_val(sub.drop_last().last()));
            assert(v == hex_val(t@[i + 1]) * 16 + hex_val(t@[i + 2]));
            assert(0 <= hex_val(t@[i + 1]) < 16 && 0 <= hex_val(t@[i + 2]) < 16);
        }
        let c = (v as u8) as char;
        Option::Some((i + 3, c))
    } else {
        Option::None
    }
}

/// Consumes one varchar: a letter, digit or underscore, or a
/// percent-encoded triple.
fn varchar_step(t: &Vec<char>, i: usize) -> (r: Option<usize>)
    requires
        i <= t@.len(),
    ensures
        match r {
            Option::Some(j) => i < j <= t@.len() && varchar_at(t@, i as int)
                && varchar_step_spec(t@, i as int) == Option::Some(j as int),
            Option::None => !varchar_at(t@, i as int)
                && varchar_step_spec(t@, i as int) is None,
        },
{
    if i < t.len() && (alpha(t[i]) || digit(t[i]) || t[i] == '_') {
        Option::Some(i + 1)
    } else if i < t.len() && t[i] == '%' {
        match pct_encoded(t, i) {
            Option::Some((j, _c)) => Option::Some(j),
            Option::None => Option::None,
        }
    } else {
        Option::None
    }
}

/// Consumes one pchar.
fn pchar_step(t: &Vec<char>, i: usize) -> (r: Option<usize>)
    requires
        i <= t@.len(),
    ensures
        match r {
            Option::Some(j) => i < j <= t@.len() && pchar_at(t@, i as int)
                && pchar_step_spec(t@, i as int) == Option::Some(j as int),
            Option::None => !pchar_at(t@, i as int)
                && pchar_step_spec(t@, i as int) is None,
        },
{
    if i < t.len() && (unreserved(t[i]) || sub_delims(t[i]) || t[i] == ':' || t[i] == '@') {
        Option::Some(i + 1)
    } else if i < t.len() && t[i] == '%' {
        match pct_encoded(t, i) {
            Option::Some((j, _c)) => Option::Some(j),
            Option::None => Option::None,
        }
    } else {
        Option::None
    }
}

/// Consumes one authority or query literal character.
fn auth_lit_step(t: &Vec<char>, i: usize) -> (r: Option<usize>)
    requires
        i <= t@.len(),
    ensures
        match r {
            Option::Some(j) => i < j <= t@.len() && auth_lit_at(t@, i as int)
                && auth_lit_step_spec(t@, i as int) == Option::Some(j as int),
            Option::None => !auth_lit_at(t@, i as int)
                && auth_lit_step_spec(t@, i as int) is None,
        },
{
    if i < t.len() && auth_lit_char(t[i]) {
        Option::Some(i + 1)
    } else if i < t.len() && t[i] == '%' {
        match pct_encoded(t, i) {
            Option::Some((j, _c)) => Option::Some(j),
            Option::None => Option::None,
        }
    } else {
        Option::None
    }
}

/// Appends the characters of `t[from..to]` to `s`.
fn push_range(s: &mut String, t: &Vec<char>, from: usize, to: usize)
    requires
        from <= to <= t@.len(),
    ensures
        final(s)@ == old(s)@ + t@.subrange(from as int, to as int),
{
    let mut k = from;
    while k < to
        invariant
            from <= k <= to <= t@.len(),
            s@ == old(s)@ + t@.subrange(from as int, k as int),
        decreases to - k,
    {
        crate::routing::push_char(s, t[k]);
        proof {
            assert(old(s)@ + t@.subrange(from as int, k as int) + seq![t@[k as int]]
                =~= old(s)@ + t@.subrange(from as int, k + 1));
        }
        k = k + 1;
    }
    proof {
        assert(old(s)@ + t@.subrange(from as int, from as int) =~= old(s)@);
    }
}

/// Parses a variable name: one varchar, then any run of varchars and dots.
/// Returns the end position and the name exactly as written.
pub fn varname(t: &Vec<char>, i: usize) -> (r: Option<(usize, String)>)
    requires
        i <= t@.len(),
    ensures
        match r {
            Option::Some((j, s)) => i < j <= t@.len()
                && s@ == t@.subrange(i as int, j as int)
                && varname_spec(t@, i as int) == Option::Some((j as int, s@)),
            Option::None => !varchar_at(t@, i as int)
                && varname_spec(t@, i as int) is None,
        },
{
    let first = match varchar_step(t, i) {
        Option::Some(j) => j,
        Option::None => {
            return Option::None;
        }
    };
    let mut j = first;
    let mut go = true;
    while go
        invariant
            i < j <= t@.len(),
            varname_scan(t@, first as int) == varname_scan(t@, j as int),
            !go ==> varname_scan(t@, j as int) == j as int,
        decreases t@.len() - j + if go { 1int } else { 0int },
    {
        match varchar_step(t, j) {
            Option::Some(j2) => {
                j = j2;
            }
            Option::None => {
                if j < t.len() && t[j] == '.' {
                    j = j + 1;
                } else {
                    go = false;
                }
            }
        }
    }
    let mut s = String::new();
    push_range(&mut s, t, i, j);
    Option::Some((j, s))
}

/// Parses a prefix modifier `:<max-length>`: a colon, a non-zero digit,
/// then up to three more digits.
pub fn mod_prefix(t: &Vec<char>, i: usize) -> (r: Option<(usize, u16)>)
    requires
        i <= t@.len(),
    ensures
        match r {
            Option::Some((j, n)) => i < j <= t@.len() && 1 <= n <= 9999
                && seq![':'] + dec_digits(n as int) == t@.subrange(i as int, j as int)
                && mod_prefix_spec(t@, i as int) == Option::Some((j as int, n as int)),
            Option::None => !(i + 2 <= t@.len() && t@[i as int] == ':'
                && is_digit(t@[i + 1]) && t@[i + 1] != '0')
                && mod_prefix_spec(t@, i as int) is None,
        },
{
    if t.len() - i >= 2 && t[i] == ':' && digit(t[i + 1]) && t[i + 1] != '0' {
        let mut n: u16 = (t[i + 1] as u32 - 48) as u16;
        let mut j = i + 2;
        proof {
            let ds = t@.subrange(i + 1, i + 2);
            assert(ds.len() == 1);
            assert(ds.last() == t@[i + 1]);
            assert(ds.drop_last().len() == 0);
            assert(digits_val(ds.drop_last()) == 0);
            assert(n == digits_val(ds));
        }
        while j < t.len() && j - i < 5 && digit(t[j])
            invariant
                i + 2 <= j <= t@.len(),
                j - i <= 5,
                prefix_digit_scan(t@, i + 2, i + 5) == prefix_digit_scan(t@, j as int, i + 5),
                n == digits_val(t@.subrange(i + 1, j as int)),
                forall|k: int| i + 1 <= k < j ==> is_digit(#[trigger] t@[k]),
                t@[i + 1] != '0',
                is_digit(t@[i + 1]),
                n <= 9999,
            decreases t@.len() - j,
        {
            proof {
                let ds = t@.subrange(i + 1, j as int);
                lemma_digits_val_bound(ds);
                assert(pow10(0) == 1);
                assert(pow10(1) == 10);
                assert(pow10(2) == 100);
                assert(pow10(3) == 1000);
                assert(ds.len() <= 3);
                assert(n <= 999);
            }
            let d: u16 = (t[j] as u32 - 48) as u16;
            n = n * 10 + d;
            proof {
                let ds2 = t@.subrange(i + 1, j + 1);
                assert(ds2.drop_last() =~= t@.subrange(i + 1, j as int));
                assert(ds2.last() == t@[j as int]);
            }
            j = j + 1;
        }
        proof {
            let ds = t@.subrange(i + 1, j as int);
            assert(ds[0] == t@[i + 1]);
            lemma_digits_val_pos(ds);
            lemma_dec_digits_roundtrip(ds);
            assert(seq![':'] + dec_digits(n as int) =~= t@.subrange(i as int, j as int));
            assert(prefix_digit_scan(t@, j as int, i + 5) == j as int);
        }
        Option::Some((j, n))
    } else {
        Option::None
    }
}

/// Parses an explode modifier `*`.
pub fn mod_explode(t: &Vec<char>, i: usize) -> (r: Option<usize>)
    requires
        i <= t@.len(),
    ensures
        match r {
            Option::Some(j) => j == i + 1 && j <= t@.len() && t@[i as int] == '*',
            Option::None => !(i < t@.len() && t@[i as int] == '*'),
        },
{
    if i < t.len() && t[i] == '*' {
        Option::Some(i + 1)
    } else {
        Option::None
    }
}

// ---------------------------------------------------------------------------
// Operators
// ---------------------------------------------------------------------------

/// The operator characters this grammar accepts.
pub open spec fn is_op_char(c: char) -> bool {
    c == '+' || c == '#' || c == '.' || c == '/' || c == ';' || c == '?' || c == '&'
}

/// Operator characters allowed in a terminal rest segment: everything that
/// cannot be confused with the `/ ? #` structure of a URI.
pub open spec fn is_tail_op_char(c: char) -> bool {
    c == '+' || c == '.' || c == ';' || c == '&'
}

/// Operator characters allowed in the authority and query sections:
/// everything but `/`.
pub open spec fn is_auth_op_char(c: char) -> bool {
    c == '+' || c == '#' || c == '.' || c == ';' || c == '?' || c == '&'
}

/// The operator named by an optional operator character.
pub open spec fn op_of_char(ch: Option<char>) -> Op {
    match ch {
        Option::None => Op::Simple,
        Option::Some(c) => if c == '+' {
            Op::Reserved
        } else if c == '#' {
            Op::Fragment
        } else if c == '.' {
            Op::Label
        } else if c == '/' {
            Op::Path
        } else if c == ';' {
            Op::PathParam
        } else if c == '?' {
            Op::Query
        } else {
            Op::QueryCont
        },
    }
}

impl Op {
    /// The operator for an optional parsed operator character; no character
    /// means the simple (default) operator.
    pub fn from_optchar(ch: Option<char>) -> (r: Op)
        requires
            ch matches Option::Some(c) ==> is_op_char(c),
        ensures
            r == op_of_char(ch),
            match ch {
                Option::Some(c) => op_char(r) == seq![c],
                Option::None => op_char(r) == Seq::<char>::empty(),
            },
    {
        match ch {
            Option::None => Op::Simple,
            Option::Some(c) => {
                if c == '+' {
                    Op::Reserved
                } else if c == '#' {
                    Op::Fragment
                } else if c == '.' {
                    Op::Label
                } else if c == '/' {
                    Op::Path
                } else if c == ';' {
                    Op::PathParam
                } else if c == '?' {
                    Op::Query
                } else {
                    Op::QueryCont
                }
            }
        }
    }
}

impl Expression {
    /// Assembles an expression from an optional operator character and a
    /// variable list.
    pub fn from_pair(ch: Option<char>, varspecs: Vec<VarSpec>) -> (r: Expression)
        requires
            ch matches Option::Some(c) ==> is_op_char(c),
        ensures
            r@ == (ExpressionV {
                operator: op_of_char(ch),
                varspecs: varspecs_view(varspecs@),
            }),
    {
        Expression { operator: Op::from_optchar(ch), varspecs }
    }
}

/// Parses one operator character at `i` (full alphabet).
fn operator(t: &Vec<char>, i: usize) -> (r: Option<(usize, char)>)
    requires
        i <= t@.len(),
    ensures
        match r {
            Option::Some((j, c)) => j == i + 1 && j <= t@.len() && c == t@[i as int]
                && is_op_char(c),
            Option::None => !(i < t@.len() && is_op_char(t@[i as int])),
        },
{
    if i < t.len() {
        let c = t[i];
        if c == '+' || c == '#' || c == '.' || c == '/' || c == ';' || c == '?' || c == '&' {
            return Option::Some((i + 1, c));
        }
    }
    Option::None
}

/// Parses one operator character allowed in a terminal rest segment.
fn tail_operator(t: &Vec<char>, i: usize) -> (r: Option<(usize, char)>)
    requires
        i <= t@.len(),
    ensures
        match r {
            Option::Some((j, c)) => j == i + 1 && j <= t@.len() && c == t@[i as int]
                && is_tail_op_char(c) && is_op_char(c),
            Option::None => !(i < t@.len() && is_tail_op_char(t@[i as int])),
        },
{
    if i < t.len() {
        let c = t[i];
        if c == '+' || c == '.' || c == ';' || c == '&' {
            return Option::Some((i + 1, c));
        }
    }
    Option::None
}

/// Parses one operator character allowed in the authority or query section.
fn authority_operator(t: &Vec<char>, i: usize) -> (r: Option<(usize, char)>)
    requires
        i <= t@.len(),
    ensures
        match r {
            Option::Some((j, c)) => j == i + 1 && j <= t@.len() && c == t@[i as int]
                && is_auth_op_char(c) && is_op_char(c),
            Option::None => !(i < t@.len() && is_auth_op_char(t@[i as int])),
        },
{
    if i < t.len() {
        let c = t[i];
        if c == '+' || c == '#' || c == '.' || c == ';' || c == '?' || c == '&' {
            return Option::Some((i + 1, c));
        }
    }
    Option::None
}

// ---------------------------------------------------------------------------
// Variable specifications and lists
// ---------------------------------------------------------------------------

/// Parses a varspec: a name with an optional prefix or explode modifier.
pub fn varspec(t: &Vec<char>, i: usize) -> (r: Option<(usize, VarSpec)>)
    requires
        i <= t@.len(),
    ensures
        match r {
            Option::Some((j, vs)) => i < j <= t@.len()
                && varspec_canon(vs@) == t@.subrange(i as int, j as int)
                && varspec_spec(t@, i as int, true) == Option::Some((j as int, vs@)),
            Option::None => !varchar_at(t@, i as int)
                && varspec_spec(t@, i as int, true) is None,
        },
{
    let (j, name) = match varname(t, i) {
        Option::Some(x) => x,
        Option::None => {
            return Option::None;
        }
    };
    match mod_prefix(t, j) {
        Option::Some((j2, n)) => {
            let vs = VarSpec { varname: name, modifier: VarMod::Prefix(n) };
            proof {
                assert(t@.subrange(i as int, j as int) + t@.subrange(j as int, j2 as int)
                    =~= t@.subrange(i as int, j2 as int));
                assert(varspec_canon(vs@) =~= t@.subrange(i as int, j2 as int));
            }
            Option::Some((j2, vs))
        }
        Option::None => {
            match mod_explode(t, j) {
                Option::Some(j2) => {
                    let vs = VarSpec { varname: name, modifier: VarMod::Explode };
                    proof {
                        assert(t@.subrange(j as int, j2 as int) =~= seq!['*']);
                        assert(t@.subrange(i as int, j as int) + t@.subrange(j as int, j2 as int)
                            =~= t@.subrange(i as int, j2 as int));
                        assert(varspec_canon(vs@) =~= t@.subrange(i as int, j2 as int));
                    }
                    Option::Some((j2, vs))
                }
                Option::None => {
                    let vs = VarSpec { varname: name, modifier: VarMod::NoMod };
                    proof {
                        assert(varspec_canon(vs@) =~= t@.subrange(i as int, j as int));
                    }
                    Option::Some((j, vs))
                }
            }
        }
    }
}

/// Parses a segment varspec: a name with an optional prefix modifier only.
pub fn segment_varspec(t: &Vec<char>, i: usize) -> (r: Option<(usize, VarSpec)>)
    requires
        i <= t@.len(),
    ensures
        match r {
            Option::Some((j, vs)) => i < j <= t@.len()
                && varspec_canon(vs@) == t@.subrange(i as int, j as int)
                && varspec_spec(t@, i as int, false) == Option::Some((j as int, vs@)),
            Option::None => !varchar_at(t@, i as int)
                && varspec_spec(t@, i as int, false) is None,
        },
{
    let (j, name) = match varname(t, i) {
        Option::Some(x) => x,
        Option::None => {
            return Option::None;
        }
    };
    match mod_prefix(t, j) {
        Option::Some((j2, n)) => {
            let vs = VarSpec { varname: name, modifier: VarMod::Prefix(n) };
            proof {
                assert(t@.subrange(i as int, j as int) + t@.subrange(j as int, j2 as int)
                    =~= t@.subrange(i as int, j2 as int));
                assert(varspec_canon(vs@) =~= t@.subrange(i as int, j2 as int));
            }
            Option::Some((j2, vs))
        }
        Option::None => {
            let vs = VarSpec { varname: name, modifier: VarMod::NoMod };
            proof {
                assert(varspec_canon(vs@) =~= t@.subrange(i as int, j as int));
            }
            Option::Some((j, vs))
        }
    }
}

/// Parses a non-empty comma-separated variable list; a comma not followed
/// by a varspec is left unconsumed.
pub fn variable_list(t: &Vec<char>, i: usize) -> (r: Option<(usize, Vec<VarSpec>)>)
    requires
        i <= t@.len(),
    ensures
        match r {
            Option::Some((j, vss)) => i < j <= t@.len() && vss@.len() >= 1
                && varspecs_canon(varspecs_view(vss@)) == t@.subrange(i as int, j as int)
                && var_list_spec(t@, i as int, true)
                    == Option::Some((j as int, varspecs_view(vss@))),
            Option::None => !varchar_at(t@, i as int)
                && var_list_spec(t@, i as int, true) is None,
        },
{
    var_list_common(t, i, true)
}

/// Parses a non-empty variable list of segment varspecs.
pub fn segment_var_list(t: &Vec<char>, i: usize) -> (r: Option<(usize, Vec<VarSpec>)>)
    requires
        i <= t@.len(),
    ensures
        match r {
            Option::Some((j, vss)) => i < j <= t@.len() && vss@.len() >= 1
                && varspecs_canon(varspecs_view(vss@)) == t@.subrange(i as int, j as int)
                && var_list_spec(t@, i as int, false)
                    == Option::Some((j as int, varspecs_view(vss@))),
            Option::None => !varchar_at(t@, i as int)
                && var_list_spec(t@, i as int, false) is None,
        },
{
    var_list_common(t, i, false)
}

/// Shared worker for the two variable-list forms; `allow_explode` selects
/// the full varspec grammar.
fn var_list_common(t: &Vec<char>, i: usize, allow_explode: bool) -> (r: Option<(usize,
    Vec<VarSpec>)>)
    requires
        i <= t@.len(),
    ensures
        match r {
            Option::Some((j, vss)) => i < j <= t@.len() && vss@.len() >= 1
                && varspecs_canon(varspecs_view(vss@)) == t@.subrange(i as int, j as int)
                && var_list_spec(t@, i as int, allow_explode)
                    == Option::Some((j as int, varspecs_view(vss@))),
            Option::None => !varchar_at(t@, i as int)
                && var_list_spec(t@, i as int, allow_explode) is None,
        },
{
    let first = if allow_explode {
        varspec(t, i)
    } else {
        segment_varspec(t, i)
    };
    let (mut j, vs0) = match first {
        Option::Some(x) => x,
        Option::None => {
            return Option::None;
        }
    };
    let mut vss: Vec<VarSpec> = Vec::new();
    proof {
        assert(varspecs_view(vss@) =~= Seq::<VarSpecV>::empty());
    }
    vss.push(vs0);
    proof {
        assert(varspecs_view(vss@) =~= Seq::<VarSpecV>::empty().push(vss@[0]@));
        crate::routing::render::lemma_varspecs_canon_push(Seq::<VarSpecV>::empty(), vss@[0]@);
        assert(varspecs_canon(varspecs_view(vss@)) == t@.subrange(i as int, j as int));
        assert(varspecs_view(vss@) =~= seq![vss@[0]@]);
    }
    let mut go = true;
    while go
        invariant
            i < j <= t@.len(),
            vss@.len() >= 1,
            varspecs_canon(varspecs_view(vss@)) == t@.subrange(i as int, j as int),
            var_list_spec(t@, i as int, allow_explode)
                == Option::Some(var_list_scan(t@, j as int, varspecs_view(vss@),
                    allow_explode)),
            !go ==> var_list_scan(t@, j as int, varspecs_view(vss@), allow_explode)
                == (j as int, varspecs_view(vss@)),
        decreases t@.len() - j + if go { 1int } else { 0int },
    {
        let mut stepped = false;
        if j < t.len() && t[j] == ',' {
            let next = if allow_explode {
                varspec(t, j + 1)
            } else {
                segment_varspec(t, j + 1)
            };
            match next {
                Option::Some((j2, vs)) => {
                    let ghost prev = varspecs_view(vss@);
                    let ghost vsv = vs@;
                    vss.push(vs);
                    proof {
                        assert(varspecs_view(vss@) =~= prev.push(vsv));
                        crate::routing::render::lemma_varspecs_canon_push(prev, vsv);
                        assert(t@.subrange(j as int, j + 1) =~= seq![',']);
                        assert(t@.subrange(i as int, j as int) + t@.subrange(j as int, j + 1)
                            + t@.subrange(j + 1, j2 as int)
                            =~= t@.subrange(i as int, j2 as int));
                        assert(var_list_scan(t@, j as int, prev, allow_explode)
                            == var_list_scan(t@, j2 as int, prev.push(vsv), allow_explode));
                    }
                    j = j2;
                    stepped = true;
                }
                Option::None => {
                    proof {
                        assert(var_list_scan(t@, j as int, varspecs_view(vss@),
                            allow_explode) == (j as int, varspecs_view(vss@)));
                    }
                }
            }
        }
        if !stepped {
            go = false;
        }
    }
    proof {
        assert(var_list_spec(t@, i as int, allow_explode)
            == Option::Some((j as int, varspecs_view(vss@))));
    }
    Option::Some((j, vss))
}

// ---------------------------------------------------------------------------
// Expressions and segments
// ---------------------------------------------------------------------------

/// Canonical decomposition of a brace expression: `{`, the operator
/// character, the variable list, `}`.
proof fn lemma_exp_consumed(t: Seq<char>, i: int, k: int, j: int, e: ExpressionV,
    ch: Option<char>)
    requires
        0 <= i < k <= j < t.len(),
        t[i] == '{',
        t[j] == '}',
        e.operator == op_of_char(ch),
        match ch {
            Option::Some(c) => k == i + 2 && t[i + 1] == c && op_char(e.operator) == seq![c],
            Option::None => k == i + 1 && op_char(e.operator) == Seq::<char>::empty(),
        },
        varspecs_canon(e.varspecs) == t.subrange(k, j),
    ensures
        exp_canon(e) == t.subrange(i, j + 1),
{
    assert(t.subrange(i, i + 1) =~= seq!['{']);
    assert(t.subrange(j, j + 1) =~= seq!['}']);
    match ch {
        Option::Some(c) => {
            assert(t.subrange(i + 1, k) =~= seq![c]);
        }
        Option::None => {
            assert(t.subrange(i + 1, k) =~= Seq::<char>::empty());
        }
    }
    assert(exp_canon(e) =~= t.subrange(i, i + 1) + t.subrange(i + 1, k) + t.subrange(k, j)
        + t.subrange(j, j + 1));
    assert(t.subrange(i, i + 1) + t.subrange(i + 1, k) + t.subrange(k, j) + t.subrange(j, j + 1)
        =~= t.subrange(i, j + 1));
}

/// Parses a mid-path or mid-query expression `{<op>vars}` with the full
/// operator alphabet.
pub fn expression(t: &Vec<char>, i: usize) -> (r: Option<(usize, Part)>)
    requires
        i <= t@.len(),
    ensures
        match r {
            Option::Some((j, p)) => i < j <= t@.len() && p@ is Expression && part_wf(p@)
                && part_canon(p@) == t@.subrange(i as int, j as int)
                && expression_spec(t@, i as int) == Option::Some((j as int, p@)),
            Option::None => expression_spec(t@, i as int) is None,
        },
{
    if !(i < t.len() && t[i] == '{') {
        return Option::None;
    }
    let (k, optch) = match operator(t, i + 1) {
        Option::Some((k2, c)) => (k2, Option::Some(c)),
        Option::None => (i + 1, Option::<char>::None),
    };
    match variable_list(t, k) {
        Option::Some((j, vss)) => {
            if j < t.len() && t[j] == '}' {
                let ghost vssv = varspecs_view(vss@);
                let e = Expression::from_pair(optch, vss);
                let p = Part::Expression(e);
                proof {
                    lemma_exp_consumed(t@, i as int, k as int, j as int, e@, optch);
                }
                Option::Some((j + 1, p))
            } else {
                Option::None
            }
        }
        Option::None => Option::None,
    }
}

/// Parses an authority or query expression: the operator alphabet excludes
/// `/`.
pub fn authority_expression(t: &Vec<char>, i: usize) -> (r: Option<(usize, Part)>)
    requires
        i <= t@.len(),
    ensures
        match r {
            Option::Some((j, p)) => i < j <= t@.len() && p@ is Expression && part_wf(p@)
                && part_canon(p@) == t@.subrange(i as int, j as int)
                && authority_expression_spec(t@, i as int) == Option::Some((j as int, p@)),
            Option::None => authority_expression_spec(t@, i as int) is None,
        },
{
    if !(i < t.len() && t[i] == '{') {
        return Option::None;
    }
    let (k, optch) = match authority_operator(t, i + 1) {
        Option::Some((k2, c)) => (k2, Option::Some(c)),
        Option::None => (i + 1, Option::<char>::None),
    };
    match variable_list(t, k) {
        Option::Some((j, vss)) => {
            if j < t.len() && t[j] == '}' {
                let e = Expression::from_pair(optch, vss);
                let p = Part::Expression(e);
                proof {
                    lemma_exp_consumed(t@, i as int, k as int, j as int, e@, optch);
                }
                Option::Some((j + 1, p))
            } else {
                Option::None
            }
        }
        Option::None => Option::None,
    }
}

/// Parses a segment variable `/{vars}` or `/{+vars}`: a whole path segment
/// bound to the expression, prefix modifiers only.
pub fn segment_variable(t: &Vec<char>, i: usize) -> (r: Option<(usize, Part)>)
    requires
        i <= t@.len(),
    ensures
        match r {
            Option::Some((j, p)) => i < j <= t@.len() && p@ is SegVar && part_wf(p@)
                && part_canon(p@) == t@.subrange(i as int, j as int)
                && segment_variable_spec(t@, i as int) == Option::Some((j as int, p@)),
            Option::None => segment_variable_spec(t@, i as int) is None,
        },
{
    if !(t.len() - i >= 2 && t[i] == '/' && t[i + 1] == '{') {
        return Option::None;
    }
    let brace = i + 1;
    let (k, optch) = if brace + 1 < t.len() && t[brace + 1] == '+' {
        (brace + 2, Option::Some('+'))
    } else {
        (brace + 1, Option::<char>::None)
    };
    match segment_var_list(t, k) {
        Option::Some((j, vss)) => {
            if j < t.len() && t[j] == '}' {
                let e = Expression::from_pair(optch, vss);
                let p = Part::SegVar(e);
                proof {
                    lemma_exp_consumed(t@, brace as int, k as int, j as int, e@, optch);
                    assert(t@.subrange(i as int, brace as int) =~= seq!['/']);
                    assert(t@.subrange(i as int, brace as int)
                        + t@.subrange(brace as int, j + 1) =~= t@.subrange(i as int, j + 1));
                    assert(part_canon(p@) == seq!['/'] + exp_canon(e@));
                }
                Option::Some((j + 1, p))
            } else {
                Option::None
            }
        }
        Option::None => Option::None,
    }
}

/// Parses a path-operator segment variable `{/vars}` (or a bare `{vars}`
/// standing in a path position), prefix modifiers only.
pub fn segment_pathvar(t: &Vec<char>, i: usize) -> (r: Option<(usize, Part)>)
    requires
        i <= t@.len(),
    ensures
        match r {
            Option::Some((j, p)) => i < j <= t@.len() && p@ is SegPathVar && part_wf(p@)
                && part_canon(p@) == t@.subrange(i as int, j as int)
                && segment_pathvar_spec(t@, i as int) == Option::Some((j as int, p@)),
            Option::None => segment_pathvar_spec(t@, i as int) is None,
        },
{
    if !(i < t.len() && t[i] == '{') {
        return Option::None;
    }
    let (k, optch) = if i + 1 < t.len() && t[i + 1] == '/' {
        (i + 2, Option::Some('/'))
    } else {
        (i + 1, Option::<char>::None)
    };
    match segment_var_list(t, k) {
        Option::Some((j, vss)) => {
            if j < t.len() && t[j] == '}' {
                let e = Expression::from_pair(optch, vss);
                let p = Part::SegPathVar(e);
                proof {
                    lemma_exp_consumed(t@, i as int, k as int, j as int, e@, optch);
                }
                Option::Some((j + 1, p))
            } else {
                Option::None
            }
        }
        Option::None => Option::None,
    }
}

/// Parses a terminal rest segment `/{<op>vars}` with explode modifiers and
/// the tail operator alphabet.
pub fn segment_rest(t: &Vec<char>, i: usize) -> (r: Option<(usize, Part)>)
    requires
        i <= t@.len(),
    ensures
        match r {
            Option::Some((j, p)) => i < j <= t@.len() && p@ is SegRest && part_wf(p@)
                && part_canon(p@) == t@.subrange(i as int, j as int)
                && segment_rest_spec(t@, i as int) == Option::Some((j as int, p@)),
            Option::None => segment_rest_spec(t@, i as int) is None,
        },
{
    if !(t.len() - i >= 2 && t[i] == '/' && t[i + 1] == '{') {
        return Option::None;
    }
    let brace = i + 1;
    let (k, optch) = match tail_operator(t, brace + 1) {
        Option::Some((k2, c)) => (k2, Option::Some(c)),
        Option::None => (brace + 1, Option::<char>::None),
    };
    match variable_list(t, k) {
        Option::Some((j, vss)) => {
            if j < t.len() && t[j] == '}' {
                let e = Expression::from_pair(optch, vss);
                let p = Part::SegRest(e);
                proof {
                    lemma_exp_consumed(t@, brace as int, k as int, j as int, e@, optch);
                    assert(t@.subrange(i as int, brace as int) =~= seq!['/']);
                    assert(t@.subrange(i as int, brace as int)
                        + t@.subrange(brace as int, j + 1) =~= t@.subrange(i as int, j + 1));
                    assert(part_canon(p@) == seq!['/'] + exp_canon(e@));
                }
                Option::Some((j + 1, p))
            } else {
                Option::None
            }
        }
        Option::None => Option::None,
    }
}

/// Parses a terminal path-operator rest segment `{/vars}` with explode
/// modifiers.
pub fn segment_pathrest(t: &Vec<char>, i: usize) -> (r: Option<(usize, Part)>)
    requires
        i <= t@.len(),
    ensures
        match r {
            Option::Some((j, p)) => i < j <= t@.len() && p@ is SegPathRest && part_wf(p@)
                && part_canon(p@) == t@.subrange(i as int, j as int)
                && segment_pathrest_spec(t@, i as int) == Option::Some((j as int, p@)),
            Option::None => segment_pathrest_spec(t@, i as int) is None,
        },
{
    if !(i < t.len() && t[i] == '{') {
        return Option::None;
    }
    let (k, optch) = if i + 1 < t.len() && t[i + 1] == '/' {
        (i + 2, Option::Some('/'))
    } else {
        (i + 1, Option::<char>::None)
    };
    match variable_list(t, k) {
        Option::Some((j, vss)) => {
            if j < t.len() && t[j] == '}' {
                let e = Expression::from_pair(optch, vss);
                let p = Part::SegPathRest(e);
                proof {
                    lemma_exp_consumed(t@, i as int, k as int, j as int, e@, optch);
                }
                Option::Some((j + 1, p))
            } else {
                Option::None
            }
        }
        Option::None => Option::None,
    }
}

/// Parses a literal path segment: a slash followed by at least one pchar.
pub fn segment_literal(t: &Vec<char>, i: usize) -> (r: Option<(usize, Part)>)
    requires
        i <= t@.len(),
    ensures
        match r {
            Option::Some((j, p)) => i < j <= t@.len() && p@ is Lit && part_wf(p@)
                && part_canon(p@) == t@.subrange(i as int, j as int)
                && segment_literal_spec(t@, i as int) == Option::Some((j as int, p@)),
            Option::None => !(i < t@.len() && t@[i as int] == '/'
                && pchar_at(t@, i + 1))
                && segment_literal_spec(t@, i as int) is None,
        },
{
    if !(i < t.len() && t[i] == '/') {
        return Option::None;
    }
    let mut j = i + 1;
    let mut go = true;
    while go
        invariant
            i + 1 <= j <= t@.len(),
            pchar_scan(t@, i + 1) == pchar_scan(t@, j as int),
            !go ==> !pchar_at(t@, j as int),
            !go ==> pchar_scan(t@, j as int) == j as int,
        decreases t@.len() - j + if go { 1int } else { 0int },
    {
        match pchar_step(t, j) {
            Option::Some(j2) => {
                j = j2;
            }
            Option::None => {
                go = false;
            }
        }
    }
    if j == i + 1 {
        return Option::None;
    }
    let mut s = String::new();
    push_range(&mut s, t, i, j);
    let p = Part::Lit(s);
    Option::Some((j, p))
}

/// Parses an authority or query literal: a non-empty run of literal
/// characters.
pub fn authority_literals(t: &Vec<char>, i: usize) -> (r: Option<(usize, Part)>)
    requires
        i <= t@.len(),
    ensures
        match r {
            Option::Some((j, p)) => i < j <= t@.len() && p@ is Lit && part_wf(p@)
                && part_canon(p@) == t@.subrange(i as int, j as int)
                && authority_literals_spec(t@, i as int) == Option::Some((j as int, p@)),
            Option::None => !auth_lit_at(t@, i as int)
                && authority_literals_spec(t@, i as int) is None,
        },
{
    let mut j = i;
    let mut go = true;
    while go
        invariant
            i <= j <= t@.len(),
            auth_lit_scan(t@, i as int) == auth_lit_scan(t@, j as int),
            !go ==> !auth_lit_at(t@, j as int),
            !go ==> auth_lit_scan(t@, j as int) == j as int,
        decreases t@.len() - j + if go { 1int } else { 0int },
    {
        match auth_lit_step(t, j) {
            Option::Some(j2) => {
                j = j2;
            }
            Option::None => {
                go = false;
            }
        }
    }
    if j == i {
        return Option::None;
    }
    let mut s = String::new();
    push_range(&mut s, t, i, j);
    let p = Part::Lit(s);
    Option::Some((j, p))
}

/// Parses one path segment: a segment variable, a path-operator segment
/// variable, or a literal segment, tried in that order.
pub fn segment(t: &Vec<char>, i: usize) -> (r: Option<(usize, Part)>)
    requires
        i <= t@.len(),
    ensures
        match r {
            Option::Some((j, p)) => i < j <= t@.len() && part_wf(p@)
                && part_canon(p@) == t@.subrange(i as int, j as int)
                && segment_spec(t@, i as int) == Option::Some((j as int, p@)),
            Option::None => segment_spec(t@, i as int) is None,
        },
{
    match segment_variable(t, i) {
        Option::Some(x) => Option::Some(x),
        Option::None => match segment_pathvar(t, i) {
            Option::Some(x) => Option::Some(x),
            Option::None => segment_literal(t, i),
        },
    }
}

/// Parses the optional terminal segment: a rest segment or a path-operator
/// rest segment, tried in that order.
pub fn tail_segment(t: &Vec<char>, i: usize) -> (r: Option<(usize, Part)>)
    requires
        i <= t@.len(),
    ensures
        match r {
            Option::Some((j, p)) => i < j <= t@.len() && part_wf(p@)
                && part_canon(p@) == t@.subrange(i as int, j as int)
                && tail_segment_spec(t@, i as int) == Option::Some((j as int, p@)),
            Option::None => tail_segment_spec(t@, i as int) is None,
        },
{
    match segment_rest(t, i) {
        Option::Some(x) => Option::Some(x),
        Option::None => segment_pathrest(t, i),
    }
}

// ---------------------------------------------------------------------------
// Sections: path, authority, query
// ---------------------------------------------------------------------------

/// Appending a part to a parsed run keeps the consumed-text invariant.
proof fn lemma_parts_append(t: Seq<char>, i: int, j: int, j2: int, ps: Seq<Part>, p: Part)
    requires
        0 <= i <= j <= j2 <= t.len(),
        parts_canon(parts_view(ps)) == t.subrange(i, j),
        part_canon(p@) == t.subrange(j, j2),
        parts_wf(parts_view(ps)),
        part_wf(p@),
    ensures
        parts_canon(parts_view(ps.push(p))) == t.subrange(i, j2),
        parts_wf(parts_view(ps.push(p))),
{
    assert(parts_view(ps.push(p)) =~= parts_view(ps).push(p@));
    crate::routing::render::lemma_parts_canon_push(parts_view(ps), p@);
    assert(t.subrange(i, j) + t.subrange(j, j2) =~= t.subrange(i, j2));
    assert forall|k: int| 0 <= k < parts_view(ps.push(p)).len() implies
        part_wf(#[trigger] parts_view(ps.push(p))[k]) by {
        if k < ps.len() {
            assert(parts_view(ps)[k] == parts_view(ps.push(p))[k]);
        }
    }
}

/// Parses the path: one or more segments with an optional terminal rest
/// segment, or the bare root `/`.
#[verifier::rlimit(100)]
#[verifier::spinoff_prover]
pub fn path(t: &Vec<char>, i: usize) -> (r: Option<(usize, Vec<Part>)>)
    requires
        i <= t@.len(),
    ensures
        match r {
            Option::Some((j, ps)) => i < j <= t@.len() && ps@.len() >= 1
                && parts_wf(parts_view(ps@))
                && parts_canon(parts_view(ps@)) == t@.subrange(i as int, j as int)
                && path_spec(t@, i as int) == Option::Some((j as int, parts_view(ps@))),
            Option::None => path_spec(t@, i as int) is None,
        },
{
    let mut parts: Vec<Part> = Vec::new();
    let mut j = i;
    proof {
        assert(parts_view(parts@) =~= Seq::<PartV>::empty());
        assert(t@.subrange(i as int, i as int) =~= Seq::<char>::empty());
    }
    let mut go = true;
    while go
        invariant
            i <= j <= t@.len(),
            parts_wf(parts_view(parts@)),
            parts_canon(parts_view(parts@)) == t@.subrange(i as int, j as int),
            parts@.len() == 0 ==> j == i,
            segments_scan(t@, i as int, Seq::<PartV>::empty())
                == segments_scan(t@, j as int, parts_view(parts@)),
            !go ==> segments_scan(t@, j as int, parts_view(parts@))
                == (j as int, parts_view(parts@)),
        decreases t@.len() - j + if go { 1int } else { 0int },
    {
        match segment(t, j) {
            Option::Some((j2, p)) => {
                proof {
                    lemma_parts_append(t@, i as int, j as int, j2 as int, parts@, p);
                    assert(segments_scan(t@, j as int, parts_view(parts@))
                        == segments_scan(t@, j2 as int, parts_view(parts@).push(p@)));
                    assert(parts_view(parts@.push(p)) =~= parts_view(parts@).push(p@));
                }
                parts.push(p);
                j = j2;
            }
            Option::None => {
                go = false;
            }
        }
    }
    if parts.len() == 0 {
        if i < t.len() && t[i] == '/' {
            let p = Part::to_lit("/");
            proof {
                reveal_strlit("/");
                assert("/"@ =~= seq!['/']);
                assert(t@.subrange(i as int, i + 1) =~= seq!['/']);
                lemma_parts_append(t@, i as int, i as int, i + 1, parts@, p);
            }
            let mut ps = parts;
            ps.push(p);
            proof {
                assert(parts_view(ps@) =~= seq![PartV::Lit("/"@)]);
            }
            return Option::Some((i + 1, ps));
        } else {
            return Option::None;
        }
    }
    match tail_segment(t, j) {
        Option::Some((j2, p)) => {
            proof {
                lemma_parts_append(t@, i as int, j as int, j2 as int, parts@, p);
                assert(parts_view(parts@.push(p)) =~= parts_view(parts@).push(p@));
            }
            parts.push(p);
            Option::Some((j2, parts))
        }
        Option::None => Option::Some((j, parts)),
    }
}

/// Parses the authority part: any run of literals and expressions, the
/// `//` marker, then the authority body of literals and expressions with
/// the authority operator alphabet. Fails without consuming when no `//`
/// follows the leading run.
#[verifier::rlimit(60)]
pub fn authority_part(t: &Vec<char>, i: usize) -> (r: Option<(usize, Vec<Part>)>)
    requires
        i <= t@.len(),
    ensures
        match r {
            Option::Some((j, ps)) => i < j <= t@.len()
                && parts_wf(parts_view(ps@))
                && parts_canon(parts_view(ps@)) == t@.subrange(i as int, j as int)
                && authority_part_spec(t@, i as int)
                    == Option::Some((j as int, parts_view(ps@))),
            Option::None => authority_part_spec(t@, i as int) is None,
        },
{
    let mut parts: Vec<Part> = Vec::new();
    let mut j = i;
    proof {
        assert(parts_view(parts@) =~= Seq::<PartV>::empty());
        assert(t@.subrange(i as int, i as int) =~= Seq::<char>::empty());
    }
    let mut go = true;
    while go
        invariant
            i <= j <= t@.len(),
            parts_wf(parts_view(parts@)),
            parts_canon(parts_view(parts@)) == t@.subrange(i as int, j as int),
            alt_scan(t@, i as int, Seq::<PartV>::empty(), true)
                == alt_scan(t@, j as int, parts_view(parts@), true),
            !go ==> alt_scan(t@, j as int, parts_view(parts@), true)
                == (j as int, parts_view(parts@)),
        decreases t@.len() - j + if go { 1int } else { 0int },
    {
        match authority_literals(t, j) {
            Option::Some((j2, p)) => {
                proof {
                    lemma_parts_append(t@, i as int, j as int, j2 as int, parts@, p);
                    assert(alt_scan(t@, j as int, parts_view(parts@), true)
                        == alt_scan(t@, j2 as int, parts_view(parts@).push(p@), true));
                    assert(parts_view(parts@.push(p)) =~= parts_view(parts@).push(p@));
                }
                parts.push(p);
                j = j2;
            }
            Option::None => {
                match expression(t, j) {
                    Option::Some((j2, p)) => {
                        proof {
                            lemma_parts_append(t@, i as int, j as int, j2 as int, parts@, p);
                            assert(alt_scan(t@, j as int, parts_view(parts@), true)
                                == alt_scan(t@, j2 as int, parts_view(parts@).push(p@),
                                    true));
                            assert(parts_view(parts@.push(p))
                                =~= parts_view(parts@).push(p@));
                        }
                        parts.push(p);
                        j = j2;
                    }
                    Option::None => {
                        go = false;
                    }
                }
            }
        }
    }
    let ghost pre_end = j as int;
    let ghost pre = parts_view(parts@);
    if !(t.len() - j >= 2 && t[j] == '/' && t[j + 1] == '/') {
        return Option::None;
    }
    let p = Part::to_lit("//");
    proof {
        reveal_strlit("//");
        assert("//"@ =~= seq!['/', '/']);
        assert(t@.subrange(j as int, j + 2) =~= seq!['/', '/']);
        lemma_parts_append(t@, i as int, j as int, j + 2, parts@, p);
        assert(parts_view(parts@.push(p)) =~= pre.push(PartV::Lit("//"@)));
    }
    parts.push(p);
    let mut j = j + 2;
    let mut go = true;
    while go
        invariant
            i < j <= t@.len(),
            parts_wf(parts_view(parts@)),
            parts_canon(parts_view(parts@)) == t@.subrange(i as int, j as int),
            alt_scan(t@, pre_end + 2, pre.push(PartV::Lit("//"@)), false)
                == alt_scan(t@, j as int, parts_view(parts@), false),
            authority_part_spec(t@, i as int)
                == Option::Some(alt_scan(t@, j as int, parts_view(parts@), false)),
            !go ==> alt_scan(t@, j as int, parts_view(parts@), false)
                == (j as int, parts_view(parts@)),
        decreases t@.len() - j + if go { 1int } else { 0int },
    {
        match authority_literals(t, j) {
            Option::Some((j2, p)) => {
                proof {
                    lemma_parts_append(t@, i as int, j as int, j2 as int, parts@, p);
                    assert(alt_scan(t@, j as int, parts_view(parts@), false)
                        == alt_scan(t@, j2 as int, parts_view(parts@).push(p@), false));
                    assert(parts_view(parts@.push(p)) =~= parts_view(parts@).push(p@));
                }
                parts.push(p);
                j = j2;
            }
            Option::None => {
                match authority_expression(t, j) {
                    Option::Some((j2, p)) => {
                        proof {
                            lemma_parts_append(t@, i as int, j as int, j2 as int, parts@, p);
                            assert(alt_scan(t@, j as int, parts_view(parts@), false)
                                == alt_scan(t@, j2 as int, parts_view(parts@).push(p@),
                                    false));
                            assert(parts_view(parts@.push(p))
                                =~= parts_view(parts@).push(p@));
                        }
                        parts.push(p);
                        j = j2;
                    }
                    Option::None => {
                        go = false;
                    }
                }
            }
        }
    }
    Option::Some((j, parts))
}

/// Parses the query part: a non-empty run of literals and expressions with
/// the authority operator alphabet.
#[verifier::rlimit(60)]
pub fn query_part(t: &Vec<char>, i: usize) -> (r: Option<(usize, Vec<Part>)>)
    requires
        i <= t@.len(),
    ensures
        match r {
            Option::Some((j, ps)) => i < j <= t@.len() && ps@.len() >= 1
                && parts_wf(parts_view(ps@))
                && parts_canon(parts_view(ps@)) == t@.subrange(i as int, j as int)
                && query_part_spec(t@, i as int) == Option::Some((j as int, parts_view(ps@))),
            Option::None => query_part_spec(t@, i as int) is None,
        },
{
    let mut parts: Vec<Part> = Vec::new();
    let mut j = i;
    proof {
        assert(parts_view(parts@) =~= Seq::<PartV>::empty());
        assert(t@.subrange(i as int, i as int) =~= Seq::<char>::empty());
    }
    let mut go = true;
    while go
        invariant
            i <= j <= t@.len(),
            parts_wf(parts_view(parts@)),
            parts_canon(parts_view(parts@)) == t@.subrange(i as int, j as int),
            parts@.len() == 0 ==> j == i,
            alt_scan(t@, i as int, Seq::<PartV>::empty(), false)
                == alt_scan(t@, j as int, parts_view(parts@), false),
            !go ==> alt_scan(t@, j as int, parts_view(parts@), false)
                == (j as int, parts_view(parts@)),
        decreases t@.len() - j + if go { 1int } else { 0int },
    {
        match authority_literals(t, j) {
            Option::Some((j2, p)) => {
                proof {
                    lemma_parts_append(t@, i as int, j as int, j2 as int, parts@, p);
                    assert(alt_scan(t@, j as int, parts_view(parts@), false)
                        == alt_scan(t@, j2 as int, parts_view(parts@).push(p@), false));
                    assert(parts_view(parts@.push(p)) =~= parts_view(parts@).push(p@));
                }
                parts.push(p);
                j = j2;
            }
            Option::None => {
                match authority_expression(t, j) {
                    Option::Some((j2, p)) => {
                        proof {
                            lemma_parts_append(t@, i as int, j as int, j2 as int, parts@, p);
                            assert(alt_scan(t@, j as int, parts_view(parts@), false)
                                == alt_scan(t@, j2 as int, parts_view(parts@).push(p@),
                                    false));
                            assert(parts_view(parts@.push(p))
                                =~= parts_view(parts@).push(p@));
                        }
                        parts.push(p);
                        j = j2;
                    }
                    Option::None => {
                        go = false;
                    }
                }
            }
        }
    }
    if parts.len() == 0 {
        Option::None
    } else {
        Option::Some((j, parts))
    }
}

// ---------------------------------------------------------------------------
// The entry point
// ---------------------------------------------------------------------------

/// Parses a route template.
///
/// The round-trip guarantee: on success, the canonical rendering of the
/// returned AST is exactly the input string, and the AST satisfies
/// [`parsed_wf`]. A template with stray input after its query part, an
/// empty path, or any other grammar violation is rejected.
pub fn parse(base: &str) -> (r: Result<Parsed, Error>)
    ensures
        match r {
            Result::Ok(p) => parsed_canon(p@) == base@ && parsed_wf(p@)
                && parse_spec(base@) == Option::Some(p@),
            Result::Err(e) => e is Parsing && parse_spec(base@) is None,
        },
{
    let t = crate::routing::to_chars(base);
    let (auth_end, auth): (usize, Option<Vec<Part>>) = match authority_part(&t, 0) {
        Option::Some((j, ps)) => (j, Option::Some(ps)),
        Option::None => (0, Option::<Vec<Part>>::None),
    };
    let ghost authv = match &auth {
        Option::Some(ps) => Option::Some(parts_view(ps@)),
        Option::None => Option::<Seq<PartV>>::None,
    };
    let (path_end, path_parts) = match path(&t, auth_end) {
        Option::Some(x) => x,
        Option::None => {
            return Result::Err(Error::Parsing(rejection_note()));
        }
    };
    let ghost pathv = parts_view(path_parts@);
    if path_end == t.len() {
        let parsed = Parsed { auth, path: path_parts, query: Option::None };
        proof {
            assert(parsed@.path == pathv);
            assert(parsed@.auth == authv);
            lemma_parse_assembled(t@, auth_end as int, path_end as int, t@.len() as int,
                parsed@);
        }
        Result::Ok(parsed)
    } else {
        match query_part(&t, path_end) {
            Option::Some((j, q)) => {
                if j == t.len() {
                    let ghost qv = parts_view(q@);
                    let parsed = Parsed { auth, path: path_parts, query: Option::Some(q) };
                    proof {
                        assert(parsed@.path == pathv);
                        assert(parsed@.auth == authv);
                        assert(parsed@.query == Option::Some(qv));
                        lemma_parse_assembled(t@, auth_end as int, path_end as int, j as int,
                            parsed@);
                    }
                    Result::Ok(parsed)
                } else {
                    Result::Err(Error::Parsing(rejection_note()))
                }
            }
            Option::None => Result::Err(Error::Parsing(rejection_note())),
        }
    }
}

/// The stitched sections cover the whole input.
proof fn lemma_parse_assembled(t: Seq<char>, auth_end: int, path_end: int, qend: int,
    p: ParsedV)
    requires
        0 <= auth_end <= path_end <= qend == t.len(),
        match p.auth {
            Option::Some(a) => parts_canon(a) == t.subrange(0, auth_end),
            Option::None => auth_end == 0,
        },
        parts_canon(p.path) == t.subrange(auth_end, path_end),
        match p.query {
            Option::Some(q) => parts_canon(q) == t.subrange(path_end, qend),
            Option::None => path_end == qend,
        },
    ensures
        parsed_canon(p) == t,
{
    match p.auth {
        Option::Some(a) => {}
        Option::None => {
            assert(t.subrange(0, 0) =~= Seq::<char>::empty());
        }
    }
    match p.query {
        Option::Some(q) => {}
        Option::None => {
            assert(t.subrange(path_end, qend) =~= Seq::<char>::empty());
        }
    }
    assert(t.subrange(0, auth_end) + t.subrange(auth_end, path_end)
        + t.subrange(path_end, qend) =~= t);
}

/// The message attached to every grammar rejection.
fn rejection_note() -> String {
    "the string does not follow the route-template grammar".to_owned()
}

} // verus!
