//! The fill engine: RFC 6570 value substitution over the parsed AST, with
//! a selectable strictness policy, and partial fills that substitute only
//! the provided variables and keep the rest as a smaller template.

use vstd::prelude::*;

use crate::Error;
use crate::routing::parser::{Expression, ExpressionV, Op, Parsed, ParsedV, Part, PartV, VarMod,
    VarSpec, VarSpecV, is_digit, is_hexdig, is_iprivate, is_sub_delims, is_ucschar,
    is_unreserved, varspecs_view, parts_view};
use crate::routing::render::{dec_digit_char, op_joiner, op_prefix, op_separator,
    parts_var_names};
use crate::routing::{InnerSingle, push_char, push_str, str_eq, strs_view, to_chars};

verus! {

// ---------------------------------------------------------------------------
// The variable context
// ---------------------------------------------------------------------------

/// A plain variable context: name and value pairs, looked up by name, the
/// first match winning.
#[derive(Debug, Clone)]
pub struct VarsList(pub Vec<(String, String)>);

/// The view of a pair list.
pub open spec fn pairs_view(v: Seq<(String, String)>) -> Seq<(Seq<char>, Seq<char>)> {
    Seq::new(v.len(), |i: int| (v[i].0@, v[i].1@))
}

impl View for VarsList {
    type V = Seq<(Seq<char>, Seq<char>)>;

    open spec fn view(&self) -> Seq<(Seq<char>, Seq<char>)> {
        pairs_view(self.0@)
    }
}

/// The value bound to a name: the first pair that carries it.
pub open spec fn lookup_pairs(ctx: Seq<(Seq<char>, Seq<char>)>, name: Seq<char>)
    -> Option<Seq<char>>
    decreases ctx.len(),
{
    if ctx.len() == 0 {
        Option::None
    } else if ctx[0].0 == name {
        Option::Some(ctx[0].1)
    } else {
        lookup_pairs(ctx.drop_first(), name)
    }
}

/// The context offers a value for this name.
pub open spec fn has_name(ctx: Seq<(Seq<char>, Seq<char>)>, name: Seq<char>) -> bool {
    lookup_pairs(ctx, name) is Some
}

/// The bound value, or the empty string where none is bound.
pub open spec fn value_of(ctx: Seq<(Seq<char>, Seq<char>)>, name: Seq<char>) -> Seq<char> {
    match lookup_pairs(ctx, name) {
        Option::Some(v) => v,
        Option::None => Seq::<char>::empty(),
    }
}

impl VarsList {
    /// Looks a name up, returning a copy of the first bound value.
    pub fn lookup(&self, name: &str) -> (r: Option<String>)
        ensures
            match r {
                Option::Some(v) => lookup_pairs(self@, name@) == Option::Some(v@),
                Option::None => lookup_pairs(self@, name@) is None,
            },
    {
        let n = self.0.len();
        proof {
            assert(self@.skip(0) =~= self@);
        }
        let mut i: usize = 0;
        while i < n
            invariant
                i <= n,
                n == self.0@.len(),
                lookup_pairs(self@, name@) == lookup_pairs(self@.skip(i as int), name@),
            decreases n - i,
        {
            proof {
                assert(self@.skip(i as int).len() == n - i);
                assert(self@.skip(i as int)[0] == self@[i as int]);
                assert(self@.skip(i as int).drop_first() =~= self@.skip(i + 1));
            }
            if str_eq(self.0[i].0.as_str(), name) {
                return Option::Some(self.0[i].1.clone());
            }
            i = i + 1;
        }
        proof {
            assert(self@.skip(n as int).len() == 0);
        }
        Option::None
    }

    /// The names the context offers, in order, duplicates included.
    pub fn list_vars(&self) -> (r: Vec<String>)
        ensures
            strs_view(r@) == Seq::new(self@.len(), |i: int| self@[i].0),
    {
        let mut r: Vec<String> = Vec::new();
        let mut i: usize = 0;
        while i < self.0.len()
            invariant
                i <= self.0@.len(),
                strs_view(r@) =~= Seq::new(i as nat, |k: int| self@[k].0),
            decreases self.0.len() - i,
        {
            let ghost prev = r@;
            r.push(self.0[i].0.clone());
            proof {
                assert(strs_view(prev).len() == prev.len());
                assert(prev.len() == i as nat);
                assert forall|k: int| 0 <= k <= i implies
                    #[trigger] r@[k]@ == self@[k].0 by {
                    if k < i {
                        assert(r@[k] == prev[k]);
                        assert(strs_view(prev)[k] == prev[k]@);
                    }
                }
                assert(strs_view(r@) =~= Seq::new((i + 1) as nat, |k: int| self@[k].0));
            }
            i = i + 1;
        }
        r
    }
}

// ---------------------------------------------------------------------------
// Percent-encoding of expanded values
// ---------------------------------------------------------------------------

/// Which characters an expansion may emit unencoded.
#[derive(Debug, Clone, Copy, PartialEq, Eq, Structural)]
pub enum EncodeSet {
    /// Unreserved characters only.
    Normal,
    /// Unreserved and reserved characters, with percent triples in the
    /// value passed through.
    Allow,
}

/// RFC 3986 `reserved`: `gen-delims` and `sub-delims`.
pub open spec fn is_reserved_char(c: char) -> bool {
    c == ':' || c == '/' || c == '?' || c == '#' || c == '[' || c == ']' || c == '@'
        || is_sub_delims(c)
}

/// The uppercase hexadecimal digit character of a value below sixteen.
pub open spec fn hex_digit_char(d: int) -> char {
    if d < 10 {
        dec_digit_char(d)
    } else {
        ((55 + d) as u8) as char
    }
}

/// The percent-encoded form of one byte.
pub open spec fn pct_byte(b: u8) -> Seq<char> {
    seq!['%', hex_digit_char(b as int / 16), hex_digit_char(b as int % 16)]
}

/// The UTF-8 bytes of one character.
pub open spec fn utf8_bytes(c: char) -> Seq<u8> {
    let u = c as u32;
    if u < 0x80 {
        seq![u as u8]
    } else if u < 0x800 {
        seq![(0xC0 + u / 64) as u8, (0x80 + u % 64) as u8]
    } else if u < 0x10000 {
        seq![(0xE0 + u / 4096) as u8, (0x80 + (u / 64) % 64) as u8, (0x80 + u % 64) as u8]
    } else {
        seq![
            (0xF0 + u / 262144) as u8,
            (0x80 + (u / 4096) % 64) as u8,
            (0x80 + (u / 64) % 64) as u8,
            (0x80 + u % 64) as u8,
        ]
    }
}

/// The percent-encoded form of one character: each UTF-8 byte encoded.
pub open spec fn pct_char(c: char) -> Seq<char> {
    pct_bytes(utf8_bytes(c))
}

/// The percent-encoded form of a byte run.
pub open spec fn pct_bytes(bs: Seq<u8>) -> Seq<char>
    decreases bs.len(),
{
    if bs.len() == 0 {
        Seq::<char>::empty()
    } else {
        pct_byte(bs[0]) + pct_bytes(bs.drop_first())
    }
}

/// A character that the given set and spec allow to pass unencoded.
/// Internationalized output additionally passes the RFC 3987 ranges.
pub open spec fn char_allowed(set: EncodeSet, iri: bool, c: char) -> bool {
    is_unreserved(c) || (iri && (is_ucschar(c) || is_iprivate(c)))
        || (set == EncodeSet::Allow && is_reserved_char(c))
}

/// The encoded form of a value: allowed characters pass, percent triples
/// pass under [`EncodeSet::Allow`], and everything else is encoded
/// byte-wise.
pub open spec fn encode_value(set: EncodeSet, iri: bool, s: Seq<char>) -> Seq<char>
    decreases s.len(),
{
    if s.len() == 0 {
        Seq::<char>::empty()
    } else if set == EncodeSet::Allow && s.len() >= 3 && s[0] == '%' && is_hexdig(s[1])
        && is_hexdig(s[2]) {
        seq![s[0], s[1], s[2]] + encode_value(set, iri, s.skip(3))
    } else if char_allowed(set, iri, s[0]) {
        seq![s[0]] + encode_value(set, iri, s.drop_first())
    } else {
        pct_char(s[0]) + encode_value(set, iri, s.drop_first())
    }
}

/// Appends the percent-encoded form of one byte.
fn push_pct_byte(s: &mut String, b: u8)
    ensures
        final(s)@ == old(s)@ + pct_byte(b),
{
    push_char(s, '%');
    let hi = b / 16;
    let lo = b % 16;
    let hc = if hi < 10 {
        (48 + hi) as char
    } else {
        (55 + hi) as char
    };
    let lc = if lo < 10 {
        (48 + lo) as char
    } else {
        (55 + lo) as char
    };
    push_char(s, hc);
    push_char(s, lc);
    proof {
        assert(old(s)@.push('%').push(hc).push(lc) =~= old(s)@ + pct_byte(b));
    }
}

/// Appends the percent-encoded form of one character.
fn push_pct_char(s: &mut String, c: char)
    ensures
        final(s)@ == old(s)@ + pct_char(c),
{
    broadcast use vstd::utf8::char_is_scalar;

    let u = c as u32;
    if u < 0x80 {
        push_pct_byte(s, u as u8);
        proof {
            let bs = utf8_bytes(c);
            assert(bs[0] == u as u8);
            assert(bs.drop_first().len() == 0);
            assert(pct_bytes(bs.drop_first()) == Seq::<char>::empty());
            assert(pct_char(c) =~= pct_byte((u as u8)));
        }
    } else if u < 0x800 {
        let b0 = (0xC0 + u / 64) as u8;
        let b1 = (0x80 + u % 64) as u8;
        push_pct_byte(s, b0);
        push_pct_byte(s, b1);
        proof {
            let bs = utf8_bytes(c);
            assert(bs[0] == b0 && bs.drop_first()[0] == b1);
            assert(bs.drop_first().drop_first().len() == 0);
            assert(pct_bytes(bs.drop_first().drop_first()) == Seq::<char>::empty());
            assert(pct_bytes(bs.drop_first()) == pct_byte(b1)
                + pct_bytes(bs.drop_first().drop_first()));
            assert(pct_bytes(bs) == pct_byte(b0) + pct_bytes(bs.drop_first()));
            assert(pct_char(c) =~= pct_byte(b0) + pct_byte(b1));
            assert(old(s)@ + pct_byte(b0) + pct_byte(b1) =~= old(s)@ + pct_char(c));
        }
    } else if u < 0x10000 {
        let b0 = (0xE0 + u / 4096) as u8;
        let b1 = (0x80 + (u / 64) % 64) as u8;
        let b2 = (0x80 + u % 64) as u8;
        push_pct_byte(s, b0);
        push_pct_byte(s, b1);
        push_pct_byte(s, b2);
        proof {
            let bs = utf8_bytes(c);
            assert(bs[0] == b0 && bs.drop_first()[0] == b1 && bs.drop_first().drop_first()[0]
                == b2);
            assert(bs.drop_first().drop_first().drop_first().len() == 0);
            assert(pct_bytes(bs.drop_first().drop_first().drop_first())
                == Seq::<char>::empty());
            assert(pct_bytes(bs.drop_first().drop_first()) == pct_byte(b2)
                + pct_bytes(bs.drop_first().drop_first().drop_first()));
            assert(pct_bytes(bs.drop_first()) == pct_byte(b1)
                + pct_bytes(bs.drop_first().drop_first()));
            assert(pct_bytes(bs) == pct_byte(b0) + pct_bytes(bs.drop_first()));
            assert(pct_char(c) =~= pct_byte(b0) + pct_byte(b1) + pct_byte(b2));
            assert(old(s)@ + pct_byte(b0) + pct_byte(b1) + pct_byte(b2)
                =~= old(s)@ + pct_char(c));
        }
    } else {
        proof {
            assert(u <= 0x10FFFF);
        }
        let b0 = (0xF0 + u / 262144) as u8;
        let b1 = (0x80 + (u / 4096) % 64) as u8;
        let b2 = (0x80 + (u / 64) % 64) as u8;
        let b3 = (0x80 + u % 64) as u8;
        push_pct_byte(s, b0);
        push_pct_byte(s, b1);
        push_pct_byte(s, b2);
        push_pct_byte(s, b3);
        proof {
            let bs = utf8_bytes(c);
            assert(bs[0] == b0 && bs.drop_first()[0] == b1 && bs.drop_first().drop_first()[0]
                == b2 && bs.drop_first().drop_first().drop_first()[0] == b3);
            assert(bs.drop_first().drop_first().drop_first().drop_first().len() == 0);
            assert(pct_bytes(bs.drop_first().drop_first().drop_first().drop_first())
                == Seq::<char>::empty());
            assert(pct_bytes(bs.drop_first().drop_first().drop_first()) == pct_byte(b3)
                + pct_bytes(bs.drop_first().drop_first().drop_first().drop_first()));
            assert(pct_bytes(bs.drop_first().drop_first()) == pct_byte(b2)
                + pct_bytes(bs.drop_first().drop_first().drop_first()));
            assert(pct_bytes(bs.drop_first()) == pct_byte(b1)
                + pct_bytes(bs.drop_first().drop_first()));
            assert(pct_bytes(bs) == pct_byte(b0) + pct_bytes(bs.drop_first()));
            assert(pct_char(c) =~= pct_byte(b0) + pct_byte(b1) + pct_byte(b2) + pct_byte(b3));
            assert(old(s)@ + pct_byte(b0) + pct_byte(b1) + pct_byte(b2) + pct_byte(b3)
                =~= old(s)@ + pct_char(c));
        }
    }
}

/// Whether the set and spec allow the character to pass unencoded.
fn char_allowed_exec(set: EncodeSet, iri: bool, c: char) -> (r: bool)
    ensures
        r == char_allowed(set, iri, c),
{
    if crate::routing::parser::unreserved(c) {
        return true;
    }
    if iri && (crate::routing::parser::ucschar(c) || crate::routing::parser::iprivate(c)) {
        return true;
    }
    if matches!(set, EncodeSet::Allow) {
        c == ':' || c == '/' || c == '?' || c == '#' || c == '[' || c == ']' || c == '@'
            || crate::routing::parser::sub_delims(c)
    } else {
        false
    }
}

/// Appends the encoded form of the value characters.
fn push_encoded(s: &mut String, v: &Vec<char>, from: usize, set: EncodeSet, iri: bool)
    requires
        from <= v@.len(),
    ensures
        final(s)@ == old(s)@ + encode_value(set, iri, v@.skip(from as int)),
{
    let mut i = from;
    while i < v.len()
        invariant
            from <= i <= v@.len(),
            old(s)@ + encode_value(set, iri, v@.skip(from as int))
                == s@ + encode_value(set, iri, v@.skip(i as int)),
        decreases v@.len() - i,
    {
        let ghost rest = v@.skip(i as int);
        proof {
            assert(rest.len() == v@.len() - i);
            assert(rest[0] == v@[i as int]);
            assert(rest.drop_first() =~= v@.skip(i + 1));
        }
        let c = v[i];
        let mut next = i + 1;
        if matches!(set, EncodeSet::Allow) && c == '%' && v.len() - i >= 3
            && crate::routing::parser::hexdig(v[i + 1]) && crate::routing::parser::hexdig(
            v[i + 2]) {
            proof {
                assert(rest.len() >= 3);
                assert(rest[1] == v@[i + 1] && rest[2] == v@[i + 2]);
                assert(rest.skip(3) =~= v@.skip(i + 3));
            }
            push_char(s, c);
            push_char(s, v[i + 1]);
            push_char(s, v[i + 2]);
            next = i + 3;
            proof {
                assert(encode_value(set, iri, rest) == seq![rest[0], rest[1], rest[2]]
                    + encode_value(set, iri, rest.skip(3)));
                assert(s@ + encode_value(set, iri, v@.skip(next as int))
                    =~= old(s)@ + encode_value(set, iri, v@.skip(from as int)));
            }
        } else if char_allowed_exec(set, iri, c) {
            push_char(s, c);
            proof {
                assert(encode_value(set, iri, rest) == seq![rest[0]]
                    + encode_value(set, iri, rest.drop_first()));
                assert(s@ + encode_value(set, iri, v@.skip(next as int))
                    =~= old(s)@ + encode_value(set, iri, v@.skip(from as int)));
            }
        } else {
            push_pct_char(s, c);
            proof {
                assert(encode_value(set, iri, rest) == pct_char(rest[0])
                    + encode_value(set, iri, rest.drop_first()));
                assert(s@ + encode_value(set, iri, v@.skip(next as int))
                    =~= old(s)@ + encode_value(set, iri, v@.skip(from as int)));
            }
        }
        i = next;
    }
    proof {
        assert(encode_value(set, iri, v@.skip(v@.len() as int)) == Seq::<char>::empty());
        assert(s@ + Seq::<char>::empty() =~= s@);
        assert(old(s)@ + encode_value(set, iri, v@.skip(from as int)) =~= s@);
    }
}

// ---------------------------------------------------------------------------
// RFC 6570 expansion
// ---------------------------------------------------------------------------

/// The first `n` truncation units of a value under the reserved-passing
/// operators: a valid percent triple counts as one unit, any other
/// character (a stray `%` included) as one unit.
pub open spec fn take_units(s: Seq<char>, n: int) -> Seq<char>
    decreases s.len(),
{
    if n <= 0 || s.len() == 0 {
        Seq::<char>::empty()
    } else if s.len() >= 3 && s[0] == '%' && is_hexdig(s[1]) && is_hexdig(s[2]) {
        seq![s[0], s[1], s[2]] + take_units(s.skip(3), n - 1)
    } else {
        seq![s[0]] + take_units(s.drop_first(), n - 1)
    }
}

/// The value after a prefix modifier: at most the first `n` characters,
/// where under the reserved-passing operators a percent-encoded triple in
/// the value counts as one character.
pub open spec fn truncated(set: EncodeSet, value: Seq<char>, md: VarMod) -> Seq<char> {
    match md {
        VarMod::Prefix(n) => if set == EncodeSet::Allow {
            take_units(value, n as int)
        } else if value.len() > n {
            value.take(n as int)
        } else {
            value
        },
        VarMod::Explode => value,
        VarMod::NoMod => value,
    }
}

/// The encode set of an operator: the reserved-passing operators keep
/// reserved characters and percent triples.
pub open spec fn enc_set_of(op: Op) -> EncodeSet {
    match op {
        Op::Reserved => EncodeSet::Allow,
        Op::Fragment => EncodeSet::Allow,
        _ => EncodeSet::Normal,
    }
}

/// The expansion of one defined variable: its (truncated, encoded) value,
/// preceded by `name=` for the joined operators; a path-parameter with an
/// empty value prints its name alone.
pub open spec fn var_expansion(op: Op, vs: VarSpecV, ctx: Seq<(Seq<char>, Seq<char>)>,
    iri: bool) -> Seq<char> {
    let v = truncated(enc_set_of(op), value_of(ctx, vs.name), vs.modifier);
    let ev = encode_value(enc_set_of(op), iri, v);
    if op_joiner(op).len() == 0 {
        ev
    } else if op == Op::PathParam && v.len() == 0 {
        vs.name
    } else {
        vs.name + op_joiner(op) + ev
    }
}

/// The variables of the list that the context defines, in order.
pub open spec fn filter_defined(vss: Seq<VarSpecV>, ctx: Seq<(Seq<char>, Seq<char>)>)
    -> Seq<VarSpecV>
    decreases vss.len(),
{
    if vss.len() == 0 {
        Seq::<VarSpecV>::empty()
    } else {
        let pre = filter_defined(vss.drop_last(), ctx);
        if has_name(ctx, vss.last().name) {
            pre.push(vss.last())
        } else {
            pre
        }
    }
}

/// The expansions of the defined variables, joined by the operator's
/// separator.
pub open spec fn join_expansions(op: Op, ds: Seq<VarSpecV>, ctx: Seq<(Seq<char>, Seq<char>)>,
    iri: bool) -> Seq<char>
    decreases ds.len(),
{
    if ds.len() == 0 {
        Seq::<char>::empty()
    } else if ds.len() == 1 {
        var_expansion(op, ds[0], ctx, iri)
    } else {
        join_expansions(op, ds.drop_last(), ctx, iri) + op_separator(op)
            + var_expansion(op, ds.last(), ctx, iri)
    }
}

/// Appending a defined variable extends the joined expansion, with the
/// separator where the run was non-empty.
proof fn lemma_join_push(op: Op, ds: Seq<VarSpecV>, d: VarSpecV,
    ctx: Seq<(Seq<char>, Seq<char>)>, iri: bool)
    ensures
        join_expansions(op, ds.push(d), ctx, iri) == if ds.len() == 0 {
            var_expansion(op, d, ctx, iri)
        } else {
            join_expansions(op, ds, ctx, iri) + op_separator(op) + var_expansion(op, d, ctx,
                iri)
        },
{
    assert(ds.push(d).drop_last() =~= ds);
    assert(ds.push(d).last() == d);
}

/// The expansion of a whole expression: empty when no variable is
/// defined, else the operator prefix and the joined expansions.
pub open spec fn expand_exp(e: ExpressionV, ctx: Seq<(Seq<char>, Seq<char>)>, iri: bool)
    -> Seq<char> {
    let ds = filter_defined(e.varspecs, ctx);
    if ds.len() == 0 {
        Seq::<char>::empty()
    } else {
        op_prefix(e.operator) + join_expansions(e.operator, ds, ctx, iri)
    }
}

/// The expansion of one part: literals pass through; the segment-bound
/// forms carry their leading slash.
pub open spec fn expand_part(p: PartV, ctx: Seq<(Seq<char>, Seq<char>)>, iri: bool)
    -> Seq<char> {
    match p {
        PartV::Lit(s) => s,
        PartV::Expression(e) => expand_exp(e, ctx, iri),
        PartV::SegPathVar(e) => expand_exp(e, ctx, iri),
        PartV::SegPathRest(e) => expand_exp(e, ctx, iri),
        PartV::SegVar(e) => seq!['/'] + expand_exp(e, ctx, iri),
        PartV::SegRest(e) => seq!['/'] + expand_exp(e, ctx, iri),
    }
}

/// The expansion of a part list.
pub open spec fn expand_parts(ps: Seq<PartV>, ctx: Seq<(Seq<char>, Seq<char>)>, iri: bool)
    -> Seq<char>
    decreases ps.len(),
{
    if ps.len() == 0 {
        Seq::<char>::empty()
    } else {
        expand_parts(ps.drop_last(), ctx, iri) + expand_part(ps.last(), ctx, iri)
    }
}

/// The expansion of a whole template under the internationalized spec.
pub open spec fn expand_parsed(p: ParsedV, ctx: Seq<(Seq<char>, Seq<char>)>) -> Seq<char> {
    (match p.auth {
        Option::Some(a) => expand_parts(a, ctx, true),
        Option::None => Seq::<char>::empty(),
    }) + expand_parts(p.path, ctx, true) + (match p.query {
        Option::Some(q) => expand_parts(q, ctx, true),
        Option::None => Seq::<char>::empty(),
    })
}

/// The first `n` truncation units of the vector: percent triples whole.
fn take_units_exec(v: &Vec<char>, n: usize) -> (r: Vec<char>)
    ensures
        r@ == take_units(v@, n as int),
{
    let mut r: Vec<char> = Vec::new();
    let mut i: usize = 0;
    let mut left = n;
    proof {
        assert(v@.skip(0) =~= v@);
    }
    while i < v.len() && left > 0
        invariant
            i <= v@.len(),
            left <= n,
            take_units(v@, n as int) == r@ + take_units(v@.skip(i as int), left as int),
        decreases v@.len() - i,
    {
        let ghost rest = v@.skip(i as int);
        proof {
            assert(rest.len() == v@.len() - i);
            assert(rest[0] == v@[i as int]);
            assert(rest.drop_first() =~= v@.skip(i + 1));
        }
        if v[i] == '%' && v.len() - i >= 3 && crate::routing::parser::hexdig(v[i + 1])
            && crate::routing::parser::hexdig(v[i + 2]) {
            proof {
                assert(rest.len() >= 3);
                assert(rest[1] == v@[i + 1] && rest[2] == v@[i + 2]);
                assert(rest.skip(3) =~= v@.skip(i + 3));
                assert(take_units(rest, left as int) == seq![rest[0], rest[1], rest[2]]
                    + take_units(rest.skip(3), left - 1));
            }
            r.push(v[i]);
            r.push(v[i + 1]);
            r.push(v[i + 2]);
            proof {
                assert(take_units(v@, n as int)
                    =~= r@ + take_units(v@.skip(i + 3), left - 1));
            }
            i = i + 3;
        } else {
            proof {
                assert(take_units(rest, left as int) == seq![rest[0]]
                    + take_units(rest.drop_first(), left - 1));
            }
            r.push(v[i]);
            proof {
                assert(take_units(v@, n as int)
                    =~= r@ + take_units(v@.skip(i + 1), left - 1));
            }
            i = i + 1;
        }
        left = left - 1;
    }
    proof {
        if i == v@.len() {
            assert(v@.skip(i as int).len() == 0);
        }
        assert(take_units(v@.skip(i as int), left as int) == Seq::<char>::empty());
        assert(r@ + Seq::<char>::empty() =~= r@);
        assert(take_units(v@, n as int) =~= r@);
    }
    r
}

/// The first `n` characters of the vector.
fn take_chars(v: &Vec<char>, n: usize) -> (r: Vec<char>)
    requires
        n <= v@.len(),
    ensures
        r@ == v@.take(n as int),
{
    let mut r: Vec<char> = Vec::new();
    let mut i: usize = 0;
    while i < n
        invariant
            i <= n <= v@.len(),
            r@ =~= v@.take(i as int),
        decreases n - i,
    {
        r.push(v[i]);
        proof {
            assert(r@ =~= v@.take(i + 1));
        }
        i = i + 1;
    }
    r
}

/// Appends the expansion of one defined variable.
fn push_var_expansion(s: &mut String, op: Op, vs: &VarSpec, ctx: &VarsList, iri: bool)
    ensures
        final(s)@ == old(s)@ + var_expansion(op, vs@, ctx@, iri),
{
    let value = match ctx.lookup(vs.varname.as_str()) {
        Option::Some(v) => v,
        Option::None => String::new(),
    };
    proof {
        assert(value@ == value_of(ctx@, vs@.name));
    }
    let vchars = to_chars(value.as_str());
    let set = match op {
        Op::Reserved => EncodeSet::Allow,
        Op::Fragment => EncodeSet::Allow,
        _ => EncodeSet::Normal,
    };
    proof {
        assert(set == enc_set_of(op));
    }
    let tv = match vs.modifier {
        VarMod::Prefix(n) => {
            if matches!(set, EncodeSet::Allow) {
                take_units_exec(&vchars, n as usize)
            } else if vchars.len() > n as usize {
                take_chars(&vchars, n as usize)
            } else {
                take_chars(&vchars, vchars.len())
            }
        }
        VarMod::Explode => take_chars(&vchars, vchars.len()),
        VarMod::NoMod => take_chars(&vchars, vchars.len()),
    };
    proof {
        assert(vchars@.take(vchars@.len() as int) =~= vchars@);
        assert(tv@ == truncated(set, value_of(ctx@, vs@.name), vs@.modifier));
    }
    let joined = matches!(op, Op::PathParam | Op::Query | Op::QueryCont);
    proof {
        assert(joined <==> op_joiner(op).len() != 0);
        assert(tv@.skip(0) =~= tv@);
    }
    if !joined {
        push_encoded(s, &tv, 0, set, iri);
    } else if matches!(op, Op::PathParam) && tv.len() == 0 {
        push_str(s, vs.varname.as_str());
    } else {
        push_str(s, vs.varname.as_str());
        push_str(s, op.joiner());
        push_encoded(s, &tv, 0, set, iri);
        proof {
            assert(old(s)@ + vs@.name + op_joiner(op)
                + encode_value(set, iri, tv@)
                =~= old(s)@ + var_expansion(op, vs@, ctx@, iri));
        }
    }
}

/// Appends the expansion of an expression.
#[verifier::rlimit(60)]
fn push_exp_expansion(s: &mut String, e: &Expression, ctx: &VarsList, iri: bool)
    ensures
        final(s)@ == old(s)@ + expand_exp(e@, ctx@, iri),
{
    let ghost vss = e@.varspecs;
    let mut count: usize = 0;
    let mut i: usize = 0;
    while i < e.varspecs.len()
        invariant
            i <= e.varspecs.len(),
            vss == e@.varspecs,
            vss.len() == e.varspecs@.len(),
            count == filter_defined(vss.take(i as int), ctx@).len(),
            count <= i,
            s@ == old(s)@ + ({
                let ds = filter_defined(vss.take(i as int), ctx@);
                if ds.len() == 0 {
                    Seq::<char>::empty()
                } else {
                    op_prefix(e.operator) + join_expansions(e.operator, ds, ctx@, iri)
                }
            }),
        decreases e.varspecs.len() - i,
    {
        let ghost ds = filter_defined(vss.take(i as int), ctx@);
        proof {
            assert(vss.take(i + 1).drop_last() =~= vss.take(i as int));
            assert(vss.take(i + 1).last() == vss[i as int]);
        }
        let vs = &e.varspecs[i];
        let defined = match ctx.lookup(vs.varname.as_str()) {
            Option::Some(_) => true,
            Option::None => false,
        };
        proof {
            assert(defined == has_name(ctx@, vss[i as int].name));
        }
        if defined {
            if count == 0 {
                push_str(s, e.operator.prefix());
            } else {
                push_str(s, e.operator.separator());
            }
            push_var_expansion(s, e.operator, vs, ctx, iri);
            proof {
                assert(filter_defined(vss.take(i + 1), ctx@) == ds.push(vss[i as int]));
                lemma_join_push(e.operator, ds, vss[i as int], ctx@, iri);
                if ds.len() == 0 {
                    assert(s@ =~= old(s)@ + op_prefix(e.operator)
                        + join_expansions(e.operator, ds.push(vss[i as int]), ctx@, iri));
                } else {
                    assert(s@ =~= old(s)@ + op_prefix(e.operator)
                        + join_expansions(e.operator, ds.push(vss[i as int]), ctx@, iri));
                }
            }
            count = count + 1;
        } else {
            proof {
                assert(filter_defined(vss.take(i + 1), ctx@) == ds);
            }
        }
        i = i + 1;
    }
    proof {
        assert(vss.take(vss.len() as int) =~= vss);
    }
}

/// Appends the expansion of one part.
fn push_part_expansion(s: &mut String, p: &Part, ctx: &VarsList, iri: bool)
    ensures
        final(s)@ == old(s)@ + expand_part(p@, ctx@, iri),
{
    match p {
        Part::Lit(l) => {
            push_str(s, l.as_str());
        }
        Part::Expression(e) => push_exp_expansion(s, e, ctx, iri),
        Part::SegPathVar(e) => push_exp_expansion(s, e, ctx, iri),
        Part::SegPathRest(e) => push_exp_expansion(s, e, ctx, iri),
        Part::SegVar(e) => {
            push_char(s, '/');
            push_exp_expansion(s, e, ctx, iri);
            proof {
                assert(old(s)@.push('/') + expand_exp(e@, ctx@, iri)
                    =~= old(s)@ + expand_part(p@, ctx@, iri));
            }
        }
        Part::SegRest(e) => {
            push_char(s, '/');
            push_exp_expansion(s, e, ctx, iri);
            proof {
                assert(old(s)@.push('/') + expand_exp(e@, ctx@, iri)
                    =~= old(s)@ + expand_part(p@, ctx@, iri));
            }
        }
    }
}

/// Appending a part extends a part-list expansion by its own expansion.
proof fn lemma_expand_parts_push(ps: Seq<PartV>, p: PartV, ctx: Seq<(Seq<char>, Seq<char>)>,
    iri: bool)
    ensures
        expand_parts(ps.push(p), ctx, iri) == expand_parts(ps, ctx, iri)
            + expand_part(p, ctx, iri),
{
    assert(ps.push(p).drop_last() =~= ps);
    assert(ps.push(p).last() == p);
}

/// Appends the expansion of every part in the list.
fn push_parts_expansion(s: &mut String, ps: &Vec<Part>, ctx: &VarsList, iri: bool)
    ensures
        final(s)@ == old(s)@ + expand_parts(parts_view(ps@), ctx@, iri),
{
    let ghost pv = parts_view(ps@);
    let mut i: usize = 0;
    while i < ps.len()
        invariant
            i <= ps.len(),
            pv == parts_view(ps@),
            pv.len() == ps@.len(),
            s@ == old(s)@ + expand_parts(pv.take(i as int), ctx@, iri),
        decreases ps.len() - i,
    {
        push_part_expansion(s, &ps[i], ctx, iri);
        proof {
            assert(pv.take(i as int).push(pv[i as int]) =~= pv.take(i + 1));
            lemma_expand_parts_push(pv.take(i as int), pv[i as int], ctx@, iri);
            assert(s@ =~= old(s)@ + expand_parts(pv.take(i + 1), ctx@, iri));
        }
        i = i + 1;
    }
    proof {
        assert(pv.take(pv.len() as int) =~= pv);
    }
}

// ---------------------------------------------------------------------------
// Fill policies
// ---------------------------------------------------------------------------

/// How strictly a fill holds the context against the template's variables.
#[derive(Debug, Clone, Copy, PartialEq, Eq, Structural)]
pub enum FillPolicy {
    /// Expand and return regardless of missing or extra variables.
    Relaxed,
    /// Fail when a template variable lacks a value.
    NoMissing,
    /// Fail when the context offers values the template never uses.
    NoExtra,
    /// Both checks.
    Strict,
}

/// The policy rejects missing template variables.
pub open spec fn policy_checks_missing(p: FillPolicy) -> bool {
    p == FillPolicy::NoMissing || p == FillPolicy::Strict
}

/// The policy rejects extra context variables.
pub open spec fn policy_checks_extra(p: FillPolicy) -> bool {
    p == FillPolicy::NoExtra || p == FillPolicy::Strict
}

/// Every variable name declared anywhere in the template, in order,
/// duplicates included.
pub open spec fn all_var_names(p: ParsedV) -> Seq<Seq<char>> {
    (match p.auth {
        Option::Some(a) => parts_var_names(a),
        Option::None => Seq::<Seq<char>>::empty(),
    }) + parts_var_names(p.path) + (match p.query {
        Option::Some(q) => parts_var_names(q),
        Option::None => Seq::<Seq<char>>::empty(),
    })
}

/// The names with later duplicates removed, first occurrences in order.
pub open spec fn dedup_names(s: Seq<Seq<char>>) -> Seq<Seq<char>>
    decreases s.len(),
{
    if s.len() == 0 {
        Seq::<Seq<char>>::empty()
    } else {
        let d = dedup_names(s.drop_last());
        if d.contains(s.last()) {
            d
        } else {
            d.push(s.last())
        }
    }
}

/// The names for which the context offers no value.
pub open spec fn filter_not_has(names: Seq<Seq<char>>, ctx: Seq<(Seq<char>, Seq<char>)>)
    -> Seq<Seq<char>>
    decreases names.len(),
{
    if names.len() == 0 {
        Seq::<Seq<char>>::empty()
    } else {
        let pre = filter_not_has(names.drop_last(), ctx);
        if !has_name(ctx, names.last()) {
            pre.push(names.last())
        } else {
            pre
        }
    }
}

/// The names that do not occur in the template's name list.
pub open spec fn filter_not_in(names: Seq<Seq<char>>, tnames: Seq<Seq<char>>)
    -> Seq<Seq<char>>
    decreases names.len(),
{
    if names.len() == 0 {
        Seq::<Seq<char>>::empty()
    } else {
        let pre = filter_not_in(names.drop_last(), tnames);
        if !tnames.contains(names.last()) {
            pre.push(names.last())
        } else {
            pre
        }
    }
}

/// The names the context offers, in order.
pub open spec fn ctx_names(ctx: Seq<(Seq<char>, Seq<char>)>) -> Seq<Seq<char>> {
    Seq::new(ctx.len(), |i: int| ctx[i].0)
}

/// The template variables the context leaves without a value.
pub open spec fn missing_of(p: ParsedV, ctx: Seq<(Seq<char>, Seq<char>)>) -> Seq<Seq<char>> {
    filter_not_has(dedup_names(all_var_names(p)), ctx)
}

/// The context variables the template never mentions.
pub open spec fn extra_of(p: ParsedV, ctx: Seq<(Seq<char>, Seq<char>)>) -> Seq<Seq<char>> {
    filter_not_in(dedup_names(ctx_names(ctx)), all_var_names(p))
}

/// What a fill returns: policy violations first (missing before extra),
/// then the expansion, validated as an IRI reference.
pub open spec fn fill_result_spec(p: ParsedV, policy: FillPolicy,
    ctx: Seq<(Seq<char>, Seq<char>)>, r: Result<String, Error>) -> bool {
    let missing = missing_of(p, ctx);
    let extra = extra_of(p, ctx);
    let expanded = expand_parsed(p, ctx);
    let missing_err = policy_checks_missing(policy) && missing.len() > 0;
    let extra_err = policy_checks_extra(policy) && extra.len() > 0;
    match r {
        Result::Err(Error::MissingCaptures(ns)) => missing_err && strs_view(ns@) == missing,
        Result::Err(Error::ExtraCaptures(ns)) => !missing_err && extra_err
            && strs_view(ns@) == extra,
        Result::Err(Error::CreateString(s)) => !missing_err && !extra_err
            && !crate::routing::iri_reference_valid(expanded) && s@ == expanded,
        Result::Ok(s) => !missing_err && !extra_err
            && crate::routing::iri_reference_valid(expanded) && s@ == expanded,
        _ => false,
    }
}

/// Whether any of the strings equals the given one.
fn names_contain(v: &Vec<String>, name: &str) -> (r: bool)
    ensures
        r == strs_view(v@).contains(name@),
{
    let mut i: usize = 0;
    while i < v.len()
        invariant
            i <= v@.len(),
            forall|k: int| 0 <= k < i ==> #[trigger] v@[k]@ != name@,
        decreases v@.len() - i,
    {
        if str_eq(v[i].as_str(), name) {
            proof {
                assert(strs_view(v@)[i as int] == name@);
            }
            return true;
        }
        i = i + 1;
    }
    proof {
        assert forall|k: int| 0 <= k < strs_view(v@).len() implies
            #[trigger] strs_view(v@)[k] != name@ by {
            assert(strs_view(v@)[k] == v@[k]@);
        }
    }
    false
}

/// Removes later duplicates, keeping first occurrences in order.
fn dedup_strings(v: &Vec<String>) -> (r: Vec<String>)
    ensures
        strs_view(r@) == dedup_names(strs_view(v@)),
{
    let ghost sv = strs_view(v@);
    let mut r: Vec<String> = Vec::new();
    let mut i: usize = 0;
    while i < v.len()
        invariant
            i <= v@.len(),
            sv == strs_view(v@),
            sv.len() == v@.len(),
            strs_view(r@) == dedup_names(sv.take(i as int)),
        decreases v@.len() - i,
    {
        proof {
            assert(sv.take(i + 1).drop_last() =~= sv.take(i as int));
            assert(sv.take(i + 1).last() == sv[i as int]);
            assert(sv[i as int] == v@[i as int]@);
        }
        let present = names_contain(&r, v[i].as_str());
        if !present {
            let ghost prev = r@;
            r.push(v[i].clone());
            proof {
                assert(strs_view(prev).len() == prev.len());
                assert forall|k: int| 0 <= k < r@.len() implies
                    #[trigger] strs_view(r@)[k] == strs_view(prev).push(sv[i as int])[k] by {
                    if k < prev.len() {
                        assert(r@[k] == prev[k]);
                        assert(strs_view(prev)[k] == prev[k]@);
                    }
                }
                assert(strs_view(r@) =~= strs_view(prev).push(sv[i as int]));
            }
        }
        i = i + 1;
    }
    proof {
        assert(sv.take(sv.len() as int) =~= sv);
    }
    r
}

impl InnerSingle {
    /// Every variable name the template declares, deduplicated, first
    /// occurrences in order.
    pub fn vars(&self) -> (r: Vec<String>)
        ensures
            strs_view(r@) == dedup_names(all_var_names(self.parsed@)),
    {
        let all = self.all_names();
        dedup_strings(&all)
    }

    /// Every variable name, in order, duplicates included.
    fn all_names(&self) -> (r: Vec<String>)
        ensures
            strs_view(r@) == all_var_names(self.parsed@),
    {
        let mut names: Vec<String> = Vec::new();
        match &self.parsed.auth {
            Option::Some(a) => crate::routing::append_var_names(&mut names, a),
            Option::None => {}
        }
        crate::routing::append_var_names(&mut names, &self.parsed.path);
        match &self.parsed.query {
            Option::Some(q) => crate::routing::append_var_names(&mut names, q),
            Option::None => {}
        }
        proof {
            assert(strs_view(names@) =~= all_var_names(self.parsed@));
        }
        names
    }

    /// The template variables the context leaves without a value.
    fn missing_names(&self, ctx: &VarsList) -> (r: Vec<String>)
        ensures
            strs_view(r@) == missing_of(self.parsed@, ctx@),
    {
        let declared = self.vars();
        let ghost dv = strs_view(declared@);
        let mut r: Vec<String> = Vec::new();
        let mut i: usize = 0;
        while i < declared.len()
            invariant
                i <= declared@.len(),
                dv == strs_view(declared@),
                dv.len() == declared@.len(),
                strs_view(r@) == filter_not_has(dv.take(i as int), ctx@),
            decreases declared@.len() - i,
        {
            proof {
                assert(dv.take(i + 1).drop_last() =~= dv.take(i as int));
                assert(dv.take(i + 1).last() == dv[i as int]);
                assert(dv[i as int] == declared@[i as int]@);
            }
            let bound = match ctx.lookup(declared[i].as_str()) {
                Option::Some(_) => true,
                Option::None => false,
            };
            if !bound {
                let ghost prev = r@;
                r.push(declared[i].clone());
                proof {
                    assert(strs_view(prev).len() == prev.len());
                    assert forall|k: int| 0 <= k < r@.len() implies
                        #[trigger] strs_view(r@)[k]
                            == strs_view(prev).push(dv[i as int])[k] by {
                        if k < prev.len() {
                            assert(r@[k] == prev[k]);
                            assert(strs_view(prev)[k] == prev[k]@);
                        }
                    }
                    assert(strs_view(r@) =~= strs_view(prev).push(dv[i as int]));
                }
            }
            i = i + 1;
        }
        proof {
            assert(dv.take(dv.len() as int) =~= dv);
        }
        r
    }

    /// The context variables the template never mentions.
    fn extra_names(&self, ctx: &VarsList) -> (r: Vec<String>)
        ensures
            strs_view(r@) == extra_of(self.parsed@, ctx@),
    {
        let offered_all = ctx.list_vars();
        proof {
            assert(strs_view(offered_all@) =~= ctx_names(ctx@));
        }
        let offered = dedup_strings(&offered_all);
        let tnames = self.all_names();
        let ghost ov = strs_view(offered@);
        let mut r: Vec<String> = Vec::new();
        let mut i: usize = 0;
        while i < offered.len()
            invariant
                i <= offered@.len(),
                ov == strs_view(offered@),
                ov.len() == offered@.len(),
                strs_view(tnames@) == all_var_names(self.parsed@),
                strs_view(r@) == filter_not_in(ov.take(i as int),
                    all_var_names(self.parsed@)),
            decreases offered@.len() - i,
        {
            proof {
                assert(ov.take(i + 1).drop_last() =~= ov.take(i as int));
                assert(ov.take(i + 1).last() == ov[i as int]);
                assert(ov[i as int] == offered@[i as int]@);
            }
            let used = names_contain(&tnames, offered[i].as_str());
            if !used {
                let ghost prev = r@;
                r.push(offered[i].clone());
                proof {
                    assert(strs_view(prev).len() == prev.len());
                    assert forall|k: int| 0 <= k < r@.len() implies
                        #[trigger] strs_view(r@)[k]
                            == strs_view(prev).push(ov[i as int])[k] by {
                        if k < prev.len() {
                            assert(r@[k] == prev[k]);
                            assert(strs_view(prev)[k] == prev[k]@);
                        }
                    }
                    assert(strs_view(r@) =~= strs_view(prev).push(ov[i as int]));
                }
            }
            i = i + 1;
        }
        proof {
            assert(ov.take(ov.len() as int) =~= ov);
        }
        r
    }

    /// The full expansion of the template under the context, every
    /// undefined variable contributing nothing.
    pub fn expand_all(&self, vars: &VarsList) -> (r: String)
        ensures
            r@ == expand_parsed(self.parsed@, vars@),
    {
        let mut s = String::new();
        match &self.parsed.auth {
            Option::Some(a) => push_parts_expansion(&mut s, a, vars, true),
            Option::None => {}
        }
        push_parts_expansion(&mut s, &self.parsed.path, vars, true);
        match &self.parsed.query {
            Option::Some(q) => push_parts_expansion(&mut s, q, vars, true),
            Option::None => {}
        }
        proof {
            assert(s@ =~= expand_parsed(self.parsed@, vars@));
        }
        s
    }

    /// Fills the template under a policy: policy violations are checked
    /// after a full expansion pass, missing variables reported before
    /// extra ones, and the successful expansion is validated as an IRI
    /// reference.
    pub fn fill_uritemplate(&self, policy: FillPolicy, vars: &VarsList)
        -> (r: Result<String, Error>)
        ensures
            fill_result_spec(self.parsed@, policy, vars@, r),
    {
        let expanded = self.expand_all(vars);
        let checks_missing = matches!(policy, FillPolicy::NoMissing | FillPolicy::Strict);
        let checks_extra = matches!(policy, FillPolicy::NoExtra | FillPolicy::Strict);
        if checks_missing {
            let missing = self.missing_names(vars);
            if missing.len() > 0 {
                proof {
                    assert(strs_view(missing@).len() == missing@.len());
                }
                return Result::Err(Error::MissingCaptures(missing));
            }
            proof {
                assert(strs_view(missing@).len() == missing@.len());
            }
        }
        if checks_extra {
            let extra = self.extra_names(vars);
            if extra.len() > 0 {
                proof {
                    assert(strs_view(extra@).len() == extra@.len());
                }
                return Result::Err(Error::ExtraCaptures(extra));
            }
            proof {
                assert(strs_view(extra@).len() == extra@.len());
            }
        }
        if crate::routing::check_iri_reference(expanded.as_str()) {
            Result::Ok(expanded)
        } else {
            Result::Err(Error::CreateString(expanded))
        }
    }

    /// Fills the template, requiring a value for every declared variable.
    pub fn fill(&self, vars: &VarsList) -> (r: Result<String, Error>)
        ensures
            fill_result_spec(self.parsed@, FillPolicy::NoMissing, vars@, r),
    {
        self.fill_uritemplate(FillPolicy::NoMissing, vars)
    }

    /// A partial fill: expands the provided variables into literal text,
    /// keeps the rest as smaller expressions of the same shape, and
    /// renders the outcome as a smaller template, validated by the
    /// outside template parser.
    pub fn partial_fill(&self, vars: &VarsList) -> (r: Result<String, Error>)
        ensures
            match r {
                Result::Ok(s) => s@ == partial_fill_canon(self.parsed@, vars@)
                    && crate::routing::uri_template_valid(s@),
                Result::Err(e) => e is IriTempate
                    && !crate::routing::uri_template_valid(partial_fill_canon(self.parsed@,
                        vars@)),
            },
    {
        let mut s = String::new();
        match &self.parsed.auth {
            Option::Some(a) => {
                let filled = fill_parts(a, vars);
                crate::routing::render::append_parts_string(&mut s, &filled);
            }
            Option::None => {}
        }
        let filled_path = fill_parts(&self.parsed.path, vars);
        crate::routing::render::append_parts_string(&mut s, &filled_path);
        match &self.parsed.query {
            Option::Some(q) => {
                let filled = fill_parts(q, vars);
                crate::routing::render::append_parts_string(&mut s, &filled);
            }
            Option::None => {}
        }
        proof {
            assert(s@ =~= partial_fill_canon(self.parsed@, vars@));
        }
        if crate::routing::check_uri_template(s.as_str()) {
            Result::Ok(s)
        } else {
            Result::Err(Error::IriTempate(s))
        }
    }
}

// ---------------------------------------------------------------------------
// Partial fill: splitting an expression along provided variables
// ---------------------------------------------------------------------------

/// Law: a relaxed fill never fails on account of missing or extra
/// variables; its only failure is an expansion rejected as an IRI
/// reference.
pub proof fn lemma_relaxed_never_policy_fails(p: ParsedV, ctx: Seq<(Seq<char>, Seq<char>)>,
    r: Result<String, Error>)
    requires
        fill_result_spec(p, FillPolicy::Relaxed, ctx, r),
    ensures
        !(r matches Result::Err(Error::MissingCaptures(_))),
        !(r matches Result::Err(Error::ExtraCaptures(_))),
{
}

/// Law: a fill that forbids missing variables fails with exactly the
/// unprovided declared names when there is any, and never reports missing
/// names otherwise.
pub proof fn lemma_no_missing_fails_iff(p: ParsedV, ctx: Seq<(Seq<char>, Seq<char>)>,
    r: Result<String, Error>)
    requires
        fill_result_spec(p, FillPolicy::NoMissing, ctx, r),
    ensures
        missing_of(p, ctx).len() > 0 <==> (r matches Result::Err(Error::MissingCaptures(_))),
        r matches Result::Err(Error::MissingCaptures(ns)) ==> strs_view(ns@)
            == missing_of(p, ctx),
{
}

/// A part of the same shape as `kind`, carrying the given expression.
pub open spec fn mk_like(kind: PartV, e: ExpressionV) -> PartV {
    match kind {
        PartV::Lit(s) => PartV::Lit(s),
        PartV::Expression(_) => PartV::Expression(e),
        PartV::SegVar(_) => PartV::SegVar(e),
        PartV::SegPathVar(_) => PartV::SegPathVar(e),
        PartV::SegRest(_) => PartV::SegRest(e),
        PartV::SegPathRest(_) => PartV::SegPathRest(e),
    }
}

/// The part shapes whose canonical text carries a leading slash.
pub open spec fn kind_slash(kind: PartV) -> bool {
    kind is SegVar || kind is SegRest
}

/// The literal text of a fully provided run: the expansion of a
/// same-shaped part holding just that run, under the plain URI spec.
pub open spec fn lit_of_run(kind: PartV, op: Op, run: Seq<VarSpecV>,
    ctx: Seq<(Seq<char>, Seq<char>)>) -> Seq<char> {
    (if kind_slash(kind) {
        seq!['/']
    } else {
        Seq::<char>::empty()
    }) + expand_exp(ExpressionV { operator: op, varspecs: run }, ctx, false)
}

/// The length of the maximal leading run of provided variables.
pub open spec fn run_given_len(vss: Seq<VarSpecV>, ctx: Seq<(Seq<char>, Seq<char>)>) -> int
    decreases vss.len(),
{
    if vss.len() == 0 || !has_name(ctx, vss[0].name) {
        0
    } else {
        1 + run_given_len(vss.drop_first(), ctx)
    }
}

/// The length of the maximal leading run of unprovided variables.
pub open spec fn run_open_len(vss: Seq<VarSpecV>, ctx: Seq<(Seq<char>, Seq<char>)>) -> int
    decreases vss.len(),
{
    if vss.len() == 0 || has_name(ctx, vss[0].name) {
        0
    } else {
        1 + run_open_len(vss.drop_first(), ctx)
    }
}

/// Both run lengths stay within the list.
proof fn lemma_run_bounds(vss: Seq<VarSpecV>, ctx: Seq<(Seq<char>, Seq<char>)>)
    ensures
        0 <= run_given_len(vss, ctx) <= vss.len(),
        0 <= run_open_len(vss, ctx) <= vss.len(),
    decreases vss.len(),
{
    if vss.len() > 0 {
        lemma_run_bounds(vss.drop_first(), ctx);
    }
}

/// A run length is pinned by its contents: every variable before it of
/// one providedness, and the one after it (if any) of the other.
proof fn lemma_run_given_val(vss: Seq<VarSpecV>, ctx: Seq<(Seq<char>, Seq<char>)>, m: int)
    requires
        0 <= m <= vss.len(),
        forall|k: int| 0 <= k < m ==> has_name(ctx, (#[trigger] vss[k]).name),
        m == vss.len() || !has_name(ctx, vss[m].name),
    ensures
        run_given_len(vss, ctx) == m,
    decreases m,
{
    if m == 0 {
    } else {
        assert(has_name(ctx, vss[0].name));
        lemma_run_given_val(vss.drop_first(), ctx, m - 1);
    }
}

proof fn lemma_run_open_val(vss: Seq<VarSpecV>, ctx: Seq<(Seq<char>, Seq<char>)>, m: int)
    requires
        0 <= m <= vss.len(),
        forall|k: int| 0 <= k < m ==> !has_name(ctx, (#[trigger] vss[k]).name),
        m == vss.len() || has_name(ctx, vss[m].name),
    ensures
        run_open_len(vss, ctx) == m,
    decreases m,
{
    if m == 0 {
    } else {
        assert(!has_name(ctx, vss[0].name));
        lemma_run_open_val(vss.drop_first(), ctx, m - 1);
    }
}

/// The alternating split of an expression's variables: each maximal run
/// of provided variables becomes a literal, each run of unprovided ones a
/// smaller expression of the same shape.
pub open spec fn split_expansion(kind: PartV, op: Op, vss: Seq<VarSpecV>,
    ctx: Seq<(Seq<char>, Seq<char>)>) -> Seq<PartV>
    decreases vss.len(),
    via split_expansion_decreases
{
    if vss.len() == 0 {
        Seq::<PartV>::empty()
    } else if has_name(ctx, vss[0].name) {
        let g = run_given_len(vss, ctx);
        seq![PartV::Lit(lit_of_run(kind, op, vss.take(g), ctx))]
            + split_expansion(kind, op, vss.skip(g), ctx)
    } else {
        let o = run_open_len(vss, ctx);
        seq![mk_like(kind, ExpressionV { operator: op, varspecs: vss.take(o) })]
            + split_expansion(kind, op, vss.skip(o), ctx)
    }
}

#[via_fn]
proof fn split_expansion_decreases(kind: PartV, op: Op, vss: Seq<VarSpecV>,
    ctx: Seq<(Seq<char>, Seq<char>)>) {
    lemma_run_bounds(vss, ctx);
    if vss.len() > 0 {
        lemma_run_bounds(vss.drop_first(), ctx);
        if has_name(ctx, vss[0].name) {
            assert(run_given_len(vss, ctx) >= 1);
        } else {
            assert(run_open_len(vss, ctx) >= 1);
        }
    }
}

/// The split of one part: literals stay whole; an expression part splits
/// along its provided variables.
pub open spec fn fill_part_spec(p: PartV, ctx: Seq<(Seq<char>, Seq<char>)>) -> Seq<PartV> {
    match p {
        PartV::Lit(s) => seq![PartV::Lit(s)],
        PartV::Expression(e) => split_expansion(p, e.operator, e.varspecs, ctx),
        PartV::SegVar(e) => split_expansion(p, e.operator, e.varspecs, ctx),
        PartV::SegPathVar(e) => split_expansion(p, e.operator, e.varspecs, ctx),
        PartV::SegRest(e) => split_expansion(p, e.operator, e.varspecs, ctx),
        PartV::SegPathRest(e) => split_expansion(p, e.operator, e.varspecs, ctx),
    }
}

/// The split of a part list: each part's split, in order.
pub open spec fn fill_parts_spec(ps: Seq<PartV>, ctx: Seq<(Seq<char>, Seq<char>)>)
    -> Seq<PartV>
    decreases ps.len(),
{
    if ps.len() == 0 {
        Seq::<PartV>::empty()
    } else {
        fill_parts_spec(ps.drop_last(), ctx) + fill_part_spec(ps.last(), ctx)
    }
}

/// The canonical text of the partially filled template.
pub open spec fn partial_fill_canon(p: ParsedV, ctx: Seq<(Seq<char>, Seq<char>)>)
    -> Seq<char> {
    (match p.auth {
        Option::Some(a) => crate::routing::render::parts_canon(fill_parts_spec(a, ctx)),
        Option::None => Seq::<char>::empty(),
    }) + crate::routing::render::parts_canon(fill_parts_spec(p.path, ctx)) + (match p.query {
        Option::Some(q) => crate::routing::render::parts_canon(fill_parts_spec(q, ctx)),
        Option::None => Seq::<char>::empty(),
    })
}

/// A copy of the variable slice `v[from..to]`.
fn varspecs_slice(v: &Vec<VarSpec>, from: usize, to: usize) -> (r: Vec<VarSpec>)
    requires
        from <= to <= v@.len(),
    ensures
        varspecs_view(r@) == varspecs_view(v@).subrange(from as int, to as int),
{
    let mut r: Vec<VarSpec> = Vec::new();
    let mut i = from;
    while i < to
        invariant
            from <= i <= to <= v@.len(),
            varspecs_view(r@) =~= varspecs_view(v@).subrange(from as int, i as int),
        decreases to - i,
    {
        let ghost prev = r@;
        r.push(v[i].duplicate());
        proof {
            assert(varspecs_view(prev).len() == prev.len());
            assert forall|k: int| 0 <= k < r@.len() implies
                #[trigger] r@[k]@ == v@[from + k]@ by {
                if k < prev.len() {
                    assert(r@[k] == prev[k]);
                    assert(varspecs_view(prev)[k] == prev[k]@);
                    assert(varspecs_view(v@).subrange(from as int, i as int)[k]
                        == v@[from + k]@);
                }
            }
            assert(varspecs_view(r@) =~= varspecs_view(v@).subrange(from as int, i + 1));
        }
        i = i + 1;
    }
    r
}

/// A part of the same shape as `kind`, carrying the given expression.
fn mk_like_part(kind: &Part, e: Expression) -> (r: Part)
    requires
        !(kind@ is Lit),
    ensures
        r@ == mk_like(kind@, e@),
{
    match kind {
        Part::Lit(_) => Part::Expression(e),
        Part::Expression(_) => Part::Expression(e),
        Part::SegVar(_) => Part::SegVar(e),
        Part::SegPathVar(_) => Part::SegPathVar(e),
        Part::SegRest(_) => Part::SegRest(e),
        Part::SegPathRest(_) => Part::SegPathRest(e),
    }
}

/// Splits one expression along the provided variables, producing the
/// alternating literal and residual-expression parts.
pub fn fill_part(exp: &Expression, vars: &VarsList, kind: &Part) -> (r: Vec<Part>)
    requires
        !(kind@ is Lit),
    ensures
        parts_view(r@) == split_expansion(kind@, exp@.operator, exp@.varspecs, vars@),
{
    let ghost vss = exp@.varspecs;
    let ghost ctx = vars@;
    let op = exp.operator;
    let mut out: Vec<Part> = Vec::new();
    let mut i: usize = 0;
    proof {
        assert(vss.skip(0) =~= vss);
        assert(parts_view(out@) =~= Seq::<PartV>::empty());
    }
    while i < exp.varspecs.len()
        invariant
            i <= exp.varspecs@.len(),
            vss == exp@.varspecs,
            op == exp.operator,
            ctx == vars@,
            vss.len() == exp.varspecs@.len(),
            !(kind@ is Lit),
            split_expansion(kind@, op, vss, ctx) == parts_view(out@)
                + split_expansion(kind@, op, vss.skip(i as int), ctx),
        decreases exp.varspecs@.len() - i,
    {
        let head_defined = match vars.lookup(exp.varspecs[i].varname.as_str()) {
            Option::Some(_) => true,
            Option::None => false,
        };
        proof {
            assert(head_defined == has_name(ctx, vss[i as int].name));
        }
        let mut j = i + 1;
        let mut scanning = true;
        while scanning
            invariant
                i < j <= vss.len(),
                vss == exp@.varspecs,
                ctx == vars@,
                vss.len() == exp.varspecs@.len(),
                forall|k: int| i <= k < j ==> has_name(ctx, (#[trigger] vss[k]).name)
                    == head_defined,
                !scanning ==> j == vss.len()
                    || has_name(ctx, vss[j as int].name) != head_defined,
            decreases vss.len() - j + if scanning { 1int } else { 0int },
        {
            if j < exp.varspecs.len() {
                let d = match vars.lookup(exp.varspecs[j].varname.as_str()) {
                    Option::Some(_) => true,
                    Option::None => false,
                };
                if d == head_defined {
                    j = j + 1;
                } else {
                    scanning = false;
                }
            } else {
                scanning = false;
            }
        }
        proof {
            assert(j == vss.len() || has_name(ctx, vss[j as int].name) != head_defined);
        }
        let run = varspecs_slice(&exp.varspecs, i, j);
        let sub = Expression { operator: op, varspecs: run };
        let ghost rest = vss.skip(i as int);
        proof {
            assert(rest.len() == vss.len() - i);
            assert forall|k: int| 0 <= k < rest.len() implies rest[k] == vss[i + k] by {}
            assert(sub@.varspecs =~= rest.take(j - i));
            if head_defined {
                lemma_run_given_val(rest, ctx, j - i);
            } else {
                lemma_run_open_val(rest, ctx, j - i);
            }
            assert(rest.skip(j - i) =~= vss.skip(j as int));
        }
        if head_defined {
            let mut ls = String::new();
            if matches!(kind, Part::SegVar(_) | Part::SegRest(_)) {
                push_char(&mut ls, '/');
            }
            push_exp_expansion(&mut ls, &sub, vars, false);
            proof {
                if kind_slash(kind@) {
                    assert(Seq::<char>::empty().push('/') =~= seq!['/']);
                    assert(ls@ =~= lit_of_run(kind@, op, rest.take(j - i), ctx));
                } else {
                    assert(Seq::<char>::empty() + expand_exp(sub@, ctx, false)
                        =~= expand_exp(sub@, ctx, false));
                    assert(ls@ =~= lit_of_run(kind@, op, rest.take(j - i), ctx));
                }
            }
            let ghost prevout = parts_view(out@);
            out.push(Part::Lit(ls));
            proof {
                assert(parts_view(out@) =~= prevout.push(
                    PartV::Lit(lit_of_run(kind@, op, rest.take(j - i), ctx))));
                assert(split_expansion(kind@, op, rest, ctx)
                    == seq![PartV::Lit(lit_of_run(kind@, op, rest.take(j - i), ctx))]
                        + split_expansion(kind@, op, rest.skip(j - i), ctx));
                assert(parts_view(out@) + split_expansion(kind@, op, vss.skip(j as int), ctx)
                    =~= prevout + split_expansion(kind@, op, rest, ctx));
            }
        } else {
            let ghost subv = sub@;
            let newp = mk_like_part(kind, sub);
            let ghost prevout = parts_view(out@);
            out.push(newp);
            proof {
                assert(parts_view(out@) =~= prevout.push(mk_like(kind@, subv)));
                assert(split_expansion(kind@, op, rest, ctx)
                    == seq![mk_like(kind@, ExpressionV { operator: op,
                        varspecs: rest.take(j - i) })]
                        + split_expansion(kind@, op, rest.skip(j - i), ctx));
                assert(parts_view(out@) + split_expansion(kind@, op, vss.skip(j as int), ctx)
                    =~= prevout + split_expansion(kind@, op, rest, ctx));
            }
        }
        i = j;
    }
    proof {
        assert(vss.skip(vss.len() as int).len() == 0);
        assert(split_expansion(kind@, op, vss.skip(vss.len() as int), ctx)
            == Seq::<PartV>::empty());
        assert(parts_view(out@) + Seq::<PartV>::empty() =~= parts_view(out@));
    }
    out
}

/// Splits every part of the list, literals passing through whole.
pub fn fill_parts(parts: &Vec<Part>, vars: &VarsList) -> (r: Vec<Part>)
    ensures
        parts_view(r@) == fill_parts_spec(parts_view(parts@), vars@),
{
    let ghost pv = parts_view(parts@);
    let mut out: Vec<Part> = Vec::new();
    let mut i: usize = 0;
    while i < parts.len()
        invariant
            i <= parts@.len(),
            pv == parts_view(parts@),
            pv.len() == parts@.len(),
            parts_view(out@) == fill_parts_spec(pv.take(i as int), vars@),
        decreases parts@.len() - i,
    {
        proof {
            assert(pv.take(i + 1).drop_last() =~= pv.take(i as int));
            assert(pv.take(i + 1).last() == pv[i as int]);
        }
        let ghost prevout = parts_view(out@);
        match &parts[i] {
            Part::Lit(_) => {
                out.push(parts[i].duplicate());
                proof {
                    assert(fill_part_spec(pv[i as int], vars@)
                        =~= seq![pv[i as int]]);
                    assert(parts_view(out@) =~= prevout + fill_part_spec(pv[i as int],
                        vars@));
                }
            }
            Part::Expression(e) => {
                let pieces = fill_part(e, vars, &parts[i]);
                append_parts_vec(&mut out, pieces);
                proof {
                    assert(parts_view(out@) =~= prevout + fill_part_spec(pv[i as int],
                        vars@));
                }
            }
            Part::SegVar(e) => {
                let pieces = fill_part(e, vars, &parts[i]);
                append_parts_vec(&mut out, pieces);
                proof {
                    assert(parts_view(out@) =~= prevout + fill_part_spec(pv[i as int],
                        vars@));
                }
            }
            Part::SegPathVar(e) => {
                let pieces = fill_part(e, vars, &parts[i]);
                append_parts_vec(&mut out, pieces);
                proof {
                    assert(parts_view(out@) =~= prevout + fill_part_spec(pv[i as int],
                        vars@));
                }
            }
            Part::SegRest(e) => {
                let pieces = fill_part(e, vars, &parts[i]);
                append_parts_vec(&mut out, pieces);
                proof {
                    assert(parts_view(out@) =~= prevout + fill_part_spec(pv[i as int],
                        vars@));
                }
            }
            Part::SegPathRest(e) => {
                let pieces = fill_part(e, vars, &parts[i]);
                append_parts_vec(&mut out, pieces);
                proof {
                    assert(parts_view(out@) =~= prevout + fill_part_spec(pv[i as int],
                        vars@));
                }
            }
        }
        i = i + 1;
    }
    proof {
        assert(pv.take(pv.len() as int) =~= pv);
    }
    out
}

/// Moves every part of `more` onto the end of `out`.
pub(crate) fn append_parts_vec(out: &mut Vec<Part>, more: Vec<Part>)
    ensures
        parts_view(final(out)@) == parts_view(old(out)@) + parts_view(more@),
{
    let ghost morev = parts_view(more@);
    let n = more.len();
    let mut i: usize = 0;
    while i < n
        invariant
            i <= n,
            n == more@.len(),
            morev == parts_view(more@),
            parts_view(out@) == parts_view(old(out)@) + morev.take(i as int),
        decreases n - i,
    {
        let ghost prev = parts_view(out@);
        out.push(more[i].duplicate());
        proof {
            assert(morev[i as int] == more@[i as int]@);
            assert(parts_view(out@) =~= prev.push(morev[i as int])) by {
                assert forall|k: int| 0 <= k < out@.len() implies
                    #[trigger] parts_view(out@)[k] == prev.push(morev[i as int])[k] by {
                    if k < prev.len() {
                        assert(parts_view(out@)[k] == out@[k]@);
                    }
                }
            }
            assert(prev.push(morev[i as int])
                =~= parts_view(old(out)@) + morev.take(i + 1));
        }
        i = i + 1;
    }
    proof {
        assert(morev.take(n as int) =~= morev);
    }
}

} // verus!
