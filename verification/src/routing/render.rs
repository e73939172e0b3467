//! Renderers over the parsed AST: the canonical template string, the
//! capture regex source, and the router dispatch pattern. Each renderer has
//! a spec-level definition over the AST views; the executable renderers are
//! proved to produce exactly those strings.

use vstd::prelude::*;

use crate::routing::parser::{Expression, ExpressionV, Op, Parsed, ParsedV, Part, PartV, VarMod,
    VarSpec, VarSpecV, parts_view};

verus! {

// ---------------------------------------------------------------------------
// Decimal digits
// ---------------------------------------------------------------------------

/// The character for one decimal digit value.
pub open spec fn dec_digit_char(d: int) -> char {
    ((48 + d) as u8) as char
}

/// The decimal digit string of a non-negative number, most significant first.
pub open spec fn dec_digits(n: int) -> Seq<char>
    decreases n,
{
    if n < 10 {
        seq![dec_digit_char(n)]
    } else {
        dec_digits(n / 10) + seq![dec_digit_char(n % 10)]
    }
}

/// Appends the decimal digits of `n` to `s`.
pub fn push_dec_digits(s: &mut String, n: u16)
    ensures
        final(s)@ == old(s)@ + dec_digits(n as int),
    decreases n,
{
    if n < 10 {
        let c = (48 + (n as u8)) as char;
        crate::routing::push_char(s, c);
    } else {
        push_dec_digits(s, n / 10);
        let c = (48 + ((n % 10) as u8)) as char;
        crate::routing::push_char(s, c);
        proof {
            assert(old(s)@ + dec_digits((n / 10) as int) + seq![dec_digit_char((n % 10) as int)]
                =~= old(s)@ + dec_digits(n as int));
        }
    }
}

// ---------------------------------------------------------------------------
// Operator attributes
// ---------------------------------------------------------------------------

/// The canonical operator character, printed right after the opening brace.
pub open spec fn op_char(op: Op) -> Seq<char> {
    match op {
        Op::Simple => Seq::<char>::empty(),
        Op::Reserved => seq!['+'],
        Op::Fragment => seq!['#'],
        Op::Label => seq!['.'],
        Op::Path => seq!['/'],
        Op::PathParam => seq![';'],
        Op::Query => seq!['?'],
        Op::QueryCont => seq!['&'],
    }
}

/// The expansion prefix, printed once before the first defined variable.
pub open spec fn op_prefix(op: Op) -> Seq<char> {
    match op {
        Op::Simple => Seq::<char>::empty(),
        Op::Reserved => Seq::<char>::empty(),
        Op::Fragment => seq!['#'],
        Op::Label => seq!['.'],
        Op::Path => seq!['/'],
        Op::PathParam => seq![';'],
        Op::Query => seq!['?'],
        Op::QueryCont => seq!['&'],
    }
}

/// The separator printed between two defined variables.
pub open spec fn op_separator(op: Op) -> Seq<char> {
    match op {
        Op::Simple => seq![','],
        Op::Reserved => seq![','],
        Op::Fragment => seq![','],
        Op::Label => seq!['.'],
        Op::Path => seq!['/'],
        Op::PathParam => seq![';'],
        Op::Query => seq!['&'],
        Op::QueryCont => seq!['&'],
    }
}

/// The joiner between a variable's name and its value: empty for all
/// operators except the `=`-joined forms.
pub open spec fn op_joiner(op: Op) -> Seq<char> {
    match op {
        Op::Simple => Seq::<char>::empty(),
        Op::Reserved => Seq::<char>::empty(),
        Op::Fragment => Seq::<char>::empty(),
        Op::Label => Seq::<char>::empty(),
        Op::Path => Seq::<char>::empty(),
        Op::PathParam => seq!['='],
        Op::Query => seq!['='],
        Op::QueryCont => seq!['='],
    }
}

impl Op {
    /// The canonical operator character as a string.
    pub fn to_string(self) -> (r: &'static str)
        ensures
            r@ == op_char(self),
    {
        proof {
            reveal_strlit("");
            reveal_strlit("+");
            reveal_strlit("#");
            reveal_strlit(".");
            reveal_strlit("/");
            reveal_strlit(";");
            reveal_strlit("?");
            reveal_strlit("&");
        }
        match self {
            Op::Simple => "",
            Op::Reserved => "+",
            Op::Fragment => "#",
            Op::Label => ".",
            Op::Path => "/",
            Op::PathParam => ";",
            Op::Query => "?",
            Op::QueryCont => "&",
        }
    }

    /// The expansion prefix string.
    pub fn prefix(&self) -> (r: &'static str)
        ensures
            r@ == op_prefix(*self),
    {
        proof {
            reveal_strlit("");
            reveal_strlit("#");
            reveal_strlit(".");
            reveal_strlit("/");
            reveal_strlit(";");
            reveal_strlit("?");
            reveal_strlit("&");
        }
        match self {
            Op::Simple => "",
            Op::Reserved => "",
            Op::Fragment => "#",
            Op::Label => ".",
            Op::Path => "/",
            Op::PathParam => ";",
            Op::Query => "?",
            Op::QueryCont => "&",
        }
    }

    /// The separator string.
    pub fn separator(&self) -> (r: &'static str)
        ensures
            r@ == op_separator(*self),
    {
        proof {
            reveal_strlit(",");
            reveal_strlit(".");
            reveal_strlit("/");
            reveal_strlit(";");
            reveal_strlit("&");
        }
        match self {
            Op::Simple => ",",
            Op::Reserved => ",",
            Op::Fragment => ",",
            Op::Label => ".",
            Op::Path => "/",
            Op::PathParam => ";",
            Op::Query => "&",
            Op::QueryCont => "&",
        }
    }

    /// The name-to-value joiner string.
    pub fn joiner(&self) -> (r: &'static str)
        ensures
            r@ == op_joiner(*self),
    {
        proof {
            reveal_strlit("");
            reveal_strlit("=");
        }
        match self {
            Op::Simple => "",
            Op::Reserved => "",
            Op::Fragment => "",
            Op::Label => "",
            Op::Path => "",
            Op::PathParam => "=",
            Op::Query => "=",
            Op::QueryCont => "=",
        }
    }
}

// ---------------------------------------------------------------------------
// Canonical template string
// ---------------------------------------------------------------------------

/// Canonical text of one variable: name, then `:<n>` or `*` for a modifier.
pub open spec fn varspec_canon(vs: VarSpecV) -> Seq<char> {
    vs.name + match vs.modifier {
        VarMod::Prefix(n) => seq![':'] + dec_digits(n as int),
        VarMod::Explode => seq!['*'],
        VarMod::NoMod => Seq::<char>::empty(),
    }
}

/// Canonical text of a variable list, comma separated.
pub open spec fn varspecs_canon(vss: Seq<VarSpecV>) -> Seq<char>
    decreases vss.len(),
{
    if vss.len() == 0 {
        Seq::<char>::empty()
    } else if vss.len() == 1 {
        varspec_canon(vss[0])
    } else {
        varspecs_canon(vss.drop_last()) + seq![','] + varspec_canon(vss.last())
    }
}

/// Canonical text of an expression: `{<op><var>,<var>,...}`.
pub open spec fn exp_canon(e: ExpressionV) -> Seq<char> {
    seq!['{'] + op_char(e.operator) + varspecs_canon(e.varspecs) + seq!['}']
}

/// Canonical text of one part. The segment-bound forms carry the leading
/// slash that the grammar consumed before their expression.
pub open spec fn part_canon(p: PartV) -> Seq<char> {
    match p {
        PartV::Lit(s) => s,
        PartV::Expression(e) => exp_canon(e),
        PartV::SegPathVar(e) => exp_canon(e),
        PartV::SegPathRest(e) => exp_canon(e),
        PartV::SegVar(e) => seq!['/'] + exp_canon(e),
        PartV::SegRest(e) => seq!['/'] + exp_canon(e),
    }
}

/// Canonical text of a part list.
pub open spec fn parts_canon(ps: Seq<PartV>) -> Seq<char>
    decreases ps.len(),
{
    if ps.len() == 0 {
        Seq::<char>::empty()
    } else {
        parts_canon(ps.drop_last()) + part_canon(ps.last())
    }
}

/// Canonical text of an optional part list.
pub open spec fn opt_parts_canon(ps: Option<Seq<PartV>>) -> Seq<char> {
    match ps {
        Option::Some(s) => parts_canon(s),
        Option::None => Seq::<char>::empty(),
    }
}

/// The canonical template string of a whole parsed template.
pub open spec fn parsed_canon(p: ParsedV) -> Seq<char> {
    opt_parts_canon(p.auth) + parts_canon(p.path) + opt_parts_canon(p.query)
}

/// Appending a part extends the canonical text by that part's text.
pub broadcast proof fn lemma_parts_canon_push(ps: Seq<PartV>, p: PartV)
    ensures
        #[trigger] parts_canon(ps.push(p)) == parts_canon(ps) + part_canon(p),
{
    assert(ps.push(p).drop_last() =~= ps);
    assert(ps.push(p).last() == p);
}

/// Appending a variable extends the canonical list text, with a comma
/// where the list was non-empty.
pub broadcast proof fn lemma_varspecs_canon_push(vss: Seq<VarSpecV>, vs: VarSpecV)
    ensures
        #[trigger] varspecs_canon(vss.push(vs)) == if vss.len() == 0 {
            varspec_canon(vs)
        } else {
            varspecs_canon(vss) + seq![','] + varspec_canon(vs)
        },
{
    assert(vss.push(vs).drop_last() =~= vss);
    assert(vss.push(vs).last() == vs);
}

// ---------------------------------------------------------------------------
// Executable canonical renderers
// ---------------------------------------------------------------------------

/// Canonical text of one variable.
pub fn varspec_string(vs: &VarSpec) -> (r: String)
    ensures
        r@ == varspec_canon(vs@),
{
    let mut s = vs.varname.clone();
    match vs.modifier {
        VarMod::Prefix(n) => {
            crate::routing::push_char(&mut s, ':');
            push_dec_digits(&mut s, n);
            proof {
                assert(s@ =~= varspec_canon(vs@));
            }
        }
        VarMod::Explode => {
            crate::routing::push_char(&mut s, '*');
            proof {
                assert(s@ =~= varspec_canon(vs@));
            }
        }
        VarMod::NoMod => {
            proof {
                assert(s@ =~= varspec_canon(vs@));
            }
        }
    }
    s
}

/// Canonical text of an expression.
pub fn exp_string(e: &Expression) -> (r: String)
    ensures
        r@ == exp_canon(e@),
{
    let ghost vss = e@.varspecs;
    let mut s = String::new();
    crate::routing::push_char(&mut s, '{');
    crate::routing::push_str(&mut s, e.operator.to_string());
    let mut i: usize = 0;
    while i < e.varspecs.len()
        invariant
            i <= e.varspecs.len(),
            vss == e@.varspecs,
            vss.len() == e.varspecs@.len(),
            s@ == seq!['{'] + op_char(e.operator) + varspecs_canon(vss.take(i as int)),
        decreases e.varspecs.len() - i,
    {
        if i > 0 {
            crate::routing::push_char(&mut s, ',');
        }
        let vstr = varspec_string(&e.varspecs[i]);
        crate::routing::push_str(&mut s, vstr.as_str());
        proof {
            lemma_varspecs_canon_push(vss.take(i as int), vss[i as int]);
            assert(vss.take(i as int).push(vss[i as int]) =~= vss.take(i + 1));
            assert(s@ =~= seq!['{'] + op_char(e.operator) + varspecs_canon(vss.take(i + 1)));
        }
        i = i + 1;
    }
    crate::routing::push_char(&mut s, '}');
    proof {
        assert(vss.take(vss.len() as int) =~= vss);
        assert(s@ =~= exp_canon(e@));
    }
    s
}

/// Canonical text of one part, exactly as the grammar consumed it.
pub fn original_string(part: &Part) -> (r: String)
    ensures
        r@ == part_canon(part@),
{
    match part {
        Part::Lit(s) => s.clone(),
        Part::Expression(e) => exp_string(e),
        Part::SegPathVar(e) => exp_string(e),
        Part::SegPathRest(e) => exp_string(e),
        Part::SegVar(e) => {
            let mut s = String::new();
            crate::routing::push_char(&mut s, '/');
            let es = exp_string(e);
            crate::routing::push_str(&mut s, es.as_str());
            proof {
                assert(s@ =~= part_canon(part@));
            }
            s
        }
        Part::SegRest(e) => {
            let mut s = String::new();
            crate::routing::push_char(&mut s, '/');
            let es = exp_string(e);
            crate::routing::push_str(&mut s, es.as_str());
            proof {
                assert(s@ =~= part_canon(part@));
            }
            s
        }
    }
}

/// Appends the canonical text of every part in the list.
pub fn append_parts_string(s: &mut String, parts: &Vec<Part>)
    ensures
        final(s)@ == old(s)@ + parts_canon(parts_view(parts@)),
{
    let ghost pv = parts_view(parts@);
    let mut i: usize = 0;
    while i < parts.len()
        invariant
            i <= parts.len(),
            pv == parts_view(parts@),
            pv.len() == parts@.len(),
            s@ == old(s)@ + parts_canon(pv.take(i as int)),
        decreases parts.len() - i,
    {
        let pstr = original_string(&parts[i]);
        crate::routing::push_str(s, pstr.as_str());
        proof {
            lemma_parts_canon_push(pv.take(i as int), pv[i as int]);
            assert(pv.take(i as int).push(pv[i as int]) =~= pv.take(i + 1));
            assert(s@ =~= old(s)@ + parts_canon(pv.take(i + 1)));
        }
        i = i + 1;
    }
    proof {
        assert(pv.take(pv.len() as int) =~= pv);
    }
}

// ---------------------------------------------------------------------------
// Capture regex
// ---------------------------------------------------------------------------

/// The regex capture-group name of one variable. A prefix-modified variable
/// gets a `_p<n>` suffix so that the same name under different prefix
/// lengths stays unambiguous.
pub open spec fn re_name(vs: VarSpecV) -> Seq<char> {
    match vs.modifier {
        VarMod::Prefix(n) => vs.name + "_p"@ + dec_digits(n as int),
        VarMod::Explode => vs.name,
        VarMod::NoMod => vs.name,
    }
}

/// The regex fragment matching one variable. `here` holds the enclosing
/// punctuation of the current section and `nxt` the characters that open
/// the following section.
pub open spec fn var_re_canon(op: Op, vs: VarSpecV, here: Seq<char>, nxt: Seq<char>) -> Seq<char> {
    let name = vs.name;
    let sep = op_separator(op);
    let join = op_joiner(op);
    match vs.modifier {
        VarMod::NoMod => if op == Op::PathParam {
            "(?<"@ + name + ">"@ + name + join + "[^"@ + here + nxt + sep + "]*)"@
        } else {
            "(?<"@ + name + ">"@ + "[^"@ + here + nxt + sep + "]*)"@
        },
        VarMod::Prefix(n) => if op == Op::PathParam {
            "(?<"@ + name + "_p"@ + dec_digits(n as int) + ">"@ + name + join + "(?:[^"@ + here
                + nxt + "%"@ + sep + "]|%[A-Fa-f0-9]{2}|%%){0,"@ + dec_digits(n as int) + "})"@
        } else {
            "(?<"@ + name + "_p"@ + dec_digits(n as int) + ">"@ + "(?:[^"@ + here + nxt + "%"@
                + sep + "]|%[A-Fa-f0-9]{2}|%%){0,"@ + dec_digits(n as int) + "})"@
        },
        VarMod::Explode => "(?<"@ + name + ">"@ + "[^"@ + nxt + "]*)"@,
    }
}

/// The regex fragments of a variable list, joined by the operator's
/// separator.
pub open spec fn vars_re_canon(op: Op, vss: Seq<VarSpecV>, here: Seq<char>, nxt: Seq<char>)
    -> Seq<char>
    decreases vss.len(),
{
    if vss.len() == 0 {
        Seq::<char>::empty()
    } else if vss.len() == 1 {
        var_re_canon(op, vss[0], here, nxt)
    } else {
        vars_re_canon(op, vss.drop_last(), here, nxt) + op_separator(op)
            + var_re_canon(op, vss.last(), here, nxt)
    }
}

/// The regex fragment of a whole expression.
pub open spec fn exp_re_canon(e: ExpressionV, here: Seq<char>, nxt: Seq<char>) -> Seq<char> {
    op_prefix(e.operator) + vars_re_canon(e.operator, e.varspecs, here, nxt)
}

/// The regex fragment of one authority or query part.
pub open spec fn part_re_auth(p: PartV) -> Seq<char> {
    match p {
        PartV::Lit(s) => s,
        PartV::Expression(e) => exp_re_canon(e, ""@, "/"@),
        PartV::SegPathVar(e) => exp_re_canon(e, ""@, "/"@),
        PartV::SegPathRest(e) => exp_re_canon(e, ""@, "/"@),
        PartV::SegVar(e) => exp_re_canon(e, ""@, "/"@),
        PartV::SegRest(e) => exp_re_canon(e, ""@, "/"@),
    }
}

/// The regex fragment of one path part. Segment-bound expressions carry
/// their leading slash.
pub open spec fn part_re_path(p: PartV) -> Seq<char> {
    match p {
        PartV::Lit(s) => s,
        PartV::Expression(e) => exp_re_canon(e, "/"@, "?#"@),
        PartV::SegPathVar(e) => exp_re_canon(e, "/"@, "?#"@),
        PartV::SegPathRest(e) => exp_re_canon(e, "/"@, "?#"@),
        PartV::SegVar(e) => "/"@ + exp_re_canon(e, "/"@, "?#"@),
        PartV::SegRest(e) => "/"@ + exp_re_canon(e, "/"@, "?#"@),
    }
}

/// Folds a part list through one of the per-part regex renderings.
pub open spec fn parts_re(ps: Seq<PartV>, in_path: bool) -> Seq<char>
    decreases ps.len(),
{
    if ps.len() == 0 {
        Seq::<char>::empty()
    } else {
        parts_re(ps.drop_last(), in_path) + if in_path {
            part_re_path(ps.last())
        } else {
            part_re_auth(ps.last())
        }
    }
}

/// The full matching regex of a template: authority and path fragments,
/// then an unconstrained query or fragment suffix.
pub open spec fn re_canon(p: ParsedV) -> Seq<char> {
    (match p.auth {
        Option::Some(a) => parts_re(a, false),
        Option::None => Seq::<char>::empty(),
    }) + parts_re(p.path, true) + "[?#]?.*"@
}

/// The capture-group names of one part, in declaration order.
pub open spec fn part_re_names(p: PartV) -> Seq<Seq<char>> {
    match p {
        PartV::Lit(s) => Seq::<Seq<char>>::empty(),
        PartV::Expression(e) => Seq::new(e.varspecs.len(), |i: int| re_name(e.varspecs[i])),
        PartV::SegPathVar(e) => Seq::new(e.varspecs.len(), |i: int| re_name(e.varspecs[i])),
        PartV::SegPathRest(e) => Seq::new(e.varspecs.len(), |i: int| re_name(e.varspecs[i])),
        PartV::SegVar(e) => Seq::new(e.varspecs.len(), |i: int| re_name(e.varspecs[i])),
        PartV::SegRest(e) => Seq::new(e.varspecs.len(), |i: int| re_name(e.varspecs[i])),
    }
}

/// The public variable names of one part, in declaration order.
pub open spec fn part_var_names(p: PartV) -> Seq<Seq<char>> {
    match p {
        PartV::Lit(s) => Seq::<Seq<char>>::empty(),
        PartV::Expression(e) => Seq::new(e.varspecs.len(), |i: int| e.varspecs[i].name),
        PartV::SegPathVar(e) => Seq::new(e.varspecs.len(), |i: int| e.varspecs[i].name),
        PartV::SegPathRest(e) => Seq::new(e.varspecs.len(), |i: int| e.varspecs[i].name),
        PartV::SegVar(e) => Seq::new(e.varspecs.len(), |i: int| e.varspecs[i].name),
        PartV::SegRest(e) => Seq::new(e.varspecs.len(), |i: int| e.varspecs[i].name),
    }
}

/// Concatenated capture-group names of a part list.
pub open spec fn parts_re_names(ps: Seq<PartV>) -> Seq<Seq<char>>
    decreases ps.len(),
{
    if ps.len() == 0 {
        Seq::<Seq<char>>::empty()
    } else {
        parts_re_names(ps.drop_last()) + part_re_names(ps.last())
    }
}

/// Concatenated public variable names of a part list.
pub open spec fn parts_var_names(ps: Seq<PartV>) -> Seq<Seq<char>>
    decreases ps.len(),
{
    if ps.len() == 0 {
        Seq::<Seq<char>>::empty()
    } else {
        parts_var_names(ps.drop_last()) + part_var_names(ps.last())
    }
}

/// All capture-group names of a template: authority then path, in order.
/// Query expressions are not captured.
pub open spec fn re_names_canon(p: ParsedV) -> Seq<Seq<char>> {
    (match p.auth {
        Option::Some(a) => parts_re_names(a),
        Option::None => Seq::<Seq<char>>::empty(),
    }) + parts_re_names(p.path)
}

/// All public variable names behind the capture groups, aligned with
/// [`re_names_canon`].
pub open spec fn var_names_canon(p: ParsedV) -> Seq<Seq<char>> {
    (match p.auth {
        Option::Some(a) => parts_var_names(a),
        Option::None => Seq::<Seq<char>>::empty(),
    }) + parts_var_names(p.path)
}

/// The regex fragment matching one variable.
pub fn var_re(op: Op, vs: &VarSpec, here: &str, nxt: &str) -> (r: String)
    ensures
        r@ == var_re_canon(op, vs@, here@, nxt@),
{
    let mut s = String::new();
    crate::routing::push_str(&mut s, "(?<");
    match vs.modifier {
        VarMod::NoMod => {
            crate::routing::push_str(&mut s, vs.varname.as_str());
            crate::routing::push_str(&mut s, ">");
            if matches!(op, Op::PathParam) {
                crate::routing::push_str(&mut s, vs.varname.as_str());
                crate::routing::push_str(&mut s, op.joiner());
            }
            crate::routing::push_str(&mut s, "[^");
            crate::routing::push_str(&mut s, here);
            crate::routing::push_str(&mut s, nxt);
            crate::routing::push_str(&mut s, op.separator());
            crate::routing::push_str(&mut s, "]*)");
        }
        VarMod::Prefix(n) => {
            crate::routing::push_str(&mut s, vs.varname.as_str());
            crate::routing::push_str(&mut s, "_p");
            push_dec_digits(&mut s, n);
            crate::routing::push_str(&mut s, ">");
            if matches!(op, Op::PathParam) {
                crate::routing::push_str(&mut s, vs.varname.as_str());
                crate::routing::push_str(&mut s, op.joiner());
            }
            crate::routing::push_str(&mut s, "(?:[^");
            crate::routing::push_str(&mut s, here);
            crate::routing::push_str(&mut s, nxt);
            crate::routing::push_str(&mut s, "%");
            crate::routing::push_str(&mut s, op.separator());
            crate::routing::push_str(&mut s, "]|%[A-Fa-f0-9]{2}|%%){0,");
            push_dec_digits(&mut s, n);
            crate::routing::push_str(&mut s, "})");
        }
        VarMod::Explode => {
            crate::routing::push_str(&mut s, vs.varname.as_str());
            crate::routing::push_str(&mut s, ">");
            crate::routing::push_str(&mut s, "[^");
            crate::routing::push_str(&mut s, nxt);
            crate::routing::push_str(&mut s, "]*)");
        }
    }
    proof {
        assert(s@ =~= var_re_canon(op, vs@, here@, nxt@));
    }
    s
}

/// The regex fragment of an expression: prefix, then separated variables.
pub fn exp_re(exp: &Expression, here: &str, nxt: &str) -> (r: String)
    ensures
        r@ == exp_re_canon(exp@, here@, nxt@),
{
    let ghost vss = exp@.varspecs;
    let mut s = String::new();
    crate::routing::push_str(&mut s, exp.operator.prefix());
    let mut i: usize = 0;
    while i < exp.varspecs.len()
        invariant
            i <= exp.varspecs.len(),
            vss == exp@.varspecs,
            vss.len() == exp.varspecs@.len(),
            s@ == op_prefix(exp.operator) + vars_re_canon(exp.operator, vss.take(i as int),
                here@, nxt@),
        decreases exp.varspecs.len() - i,
    {
        if i > 0 {
            crate::routing::push_str(&mut s, exp.operator.separator());
        }
        let vstr = var_re(exp.operator, &exp.varspecs[i], here, nxt);
        crate::routing::push_str(&mut s, vstr.as_str());
        proof {
            let pre = vss.take(i as int);
            assert(pre.push(vss[i as int]) =~= vss.take(i + 1));
            assert(vss.take(i + 1).drop_last() =~= pre);
            assert(s@ =~= op_prefix(exp.operator) + vars_re_canon(exp.operator, vss.take(i + 1),
                here@, nxt@));
        }
        i = i + 1;
    }
    proof {
        assert(vss.take(vss.len() as int) =~= vss);
    }
    s
}

/// The regex fragment of an authority or query part.
pub fn auth_re_string(part: &Part) -> (r: String)
    ensures
        r@ == part_re_auth(part@),
{
    match part {
        Part::Lit(s) => s.clone(),
        Part::Expression(e) => exp_re(e, "", "/"),
        Part::SegPathVar(e) => exp_re(e, "", "/"),
        Part::SegPathRest(e) => exp_re(e, "", "/"),
        Part::SegVar(e) => exp_re(e, "", "/"),
        Part::SegRest(e) => exp_re(e, "", "/"),
    }
}

/// The regex fragment of a path part.
pub fn path_re_string(part: &Part) -> (r: String)
    ensures
        r@ == part_re_path(part@),
{
    match part {
        Part::Lit(s) => s.clone(),
        Part::Expression(e) => exp_re(e, "/", "?#"),
        Part::SegPathVar(e) => exp_re(e, "/", "?#"),
        Part::SegPathRest(e) => exp_re(e, "/", "?#"),
        Part::SegVar(e) => {
            let mut s = String::new();
            crate::routing::push_str(&mut s, "/");
            let es = exp_re(e, "/", "?#");
            crate::routing::push_str(&mut s, es.as_str());
            proof {
                assert(s@ =~= part_re_path(part@));
            }
            s
        }
        Part::SegRest(e) => {
            let mut s = String::new();
            crate::routing::push_str(&mut s, "/");
            let es = exp_re(e, "/", "?#");
            crate::routing::push_str(&mut s, es.as_str());
            proof {
                assert(s@ =~= part_re_path(part@));
            }
            s
        }
    }
}

/// Appends the regex fragments of every part in the list.
pub fn append_parts_re(s: &mut String, parts: &Vec<Part>, in_path: bool)
    ensures
        final(s)@ == old(s)@ + parts_re(parts_view(parts@), in_path),
{
    let ghost pv = parts_view(parts@);
    let mut i: usize = 0;
    while i < parts.len()
        invariant
            i <= parts.len(),
            pv == parts_view(parts@),
            pv.len() == parts@.len(),
            s@ == old(s)@ + parts_re(pv.take(i as int), in_path),
        decreases parts.len() - i,
    {
        let pstr = if in_path {
            path_re_string(&parts[i])
        } else {
            auth_re_string(&parts[i])
        };
        crate::routing::push_str(s, pstr.as_str());
        proof {
            let pre = pv.take(i as int);
            assert(pre.push(pv[i as int]) =~= pv.take(i + 1));
            assert(pv.take(i + 1).drop_last() =~= pre);
            assert(s@ =~= old(s)@ + parts_re(pv.take(i + 1), in_path));
        }
        i = i + 1;
    }
    proof {
        assert(pv.take(pv.len() as int) =~= pv);
    }
}

/// The capture-group names of one part.
pub fn re_names(part: &Part) -> (r: Vec<String>)
    ensures
        crate::routing::strs_view(r@) =~= part_re_names(part@),
{
    match part {
        Part::Lit(_) => {
            let r: Vec<String> = Vec::new();
            proof {
                assert(crate::routing::strs_view(r@) =~= part_re_names(part@));
            }
            r
        }
        Part::Expression(e) => exp_re_names(e),
        Part::SegPathVar(e) => exp_re_names(e),
        Part::SegPathRest(e) => exp_re_names(e),
        Part::SegVar(e) => exp_re_names(e),
        Part::SegRest(e) => exp_re_names(e),
    }
}

/// The capture-group names of an expression's variables, in order.
pub fn exp_re_names(exp: &Expression) -> (r: Vec<String>)
    ensures
        crate::routing::strs_view(r@) =~= Seq::new(exp@.varspecs.len(),
            |i: int| re_name(exp@.varspecs[i])),
{
    let mut r: Vec<String> = Vec::new();
    let mut i: usize = 0;
    while i < exp.varspecs.len()
        invariant
            i <= exp.varspecs.len(),
            crate::routing::strs_view(r@) =~= Seq::new(i as nat,
                |k: int| re_name(exp@.varspecs[k])),
        decreases exp.varspecs.len() - i,
    {
        let vs = &exp.varspecs[i];
        let mut name = vs.varname.clone();
        match vs.modifier {
            VarMod::Prefix(n) => {
                crate::routing::push_str(&mut name, "_p");
                push_dec_digits(&mut name, n);
            }
            VarMod::Explode => {}
            VarMod::NoMod => {}
        }
        proof {
            assert(name@ =~= re_name(exp@.varspecs[i as int]));
        }
        let ghost prev = r@;
        r.push(name);
        proof {
            assert(crate::routing::strs_view(prev).len() == prev.len());
            assert(prev.len() == i as nat);
            assert forall|k: int| 0 <= k <= i implies
                #[trigger] r@[k]@ == re_name(exp@.varspecs[k]) by {
                if k < i {
                    assert(crate::routing::strs_view(prev)[k] == prev[k]@);
                    assert(r@[k] == prev[k]);
                }
            }
            assert(crate::routing::strs_view(r@) =~= Seq::new((i + 1) as nat,
                |k: int| re_name(exp@.varspecs[k])));
        }
        i = i + 1;
    }
    r
}

// ---------------------------------------------------------------------------
// Dispatch pattern
// ---------------------------------------------------------------------------

/// The concatenated names of a variable list, with no separator.
pub open spec fn names_concat(vss: Seq<VarSpecV>) -> Seq<char>
    decreases vss.len(),
{
    if vss.len() == 0 {
        Seq::<char>::empty()
    } else {
        names_concat(vss.drop_last()) + vss.last().name
    }
}

/// The dispatch fragment of a segment-bound expression: `/:name1name2...`.
pub open spec fn axum_vars_canon(vss: Seq<VarSpecV>) -> Seq<char> {
    "/:"@ + names_concat(vss)
}

/// The dispatch fragment of a terminal rest expression: `/*name1name2...`.
pub open spec fn axum_rest_canon(vss: Seq<VarSpecV>) -> Seq<char> {
    "/*"@ + names_concat(vss)
}

/// The dispatch fragment of one path part.
pub open spec fn axum_part_canon(p: PartV) -> Seq<char> {
    match p {
        PartV::Lit(s) => s,
        PartV::Expression(e) => axum_vars_canon(e.varspecs),
        PartV::SegVar(e) => axum_vars_canon(e.varspecs),
        PartV::SegPathVar(e) => axum_vars_canon(e.varspecs),
        PartV::SegRest(e) => axum_rest_canon(e.varspecs),
        PartV::SegPathRest(e) => axum_rest_canon(e.varspecs),
    }
}

/// The dispatch pattern of a whole path.
pub open spec fn axum_canon(ps: Seq<PartV>) -> Seq<char>
    decreases ps.len(),
{
    if ps.len() == 0 {
        Seq::<char>::empty()
    } else {
        axum_canon(ps.drop_last()) + axum_part_canon(ps.last())
    }
}

/// Appends the concatenated variable names.
fn push_names_concat(s: &mut String, vars: &Vec<VarSpec>)
    ensures
        final(s)@ == old(s)@ + names_concat(Seq::new(vars@.len(), |i: int| vars@[i]@)),
{
    let ghost vss = Seq::new(vars@.len(), |i: int| vars@[i]@);
    let mut i: usize = 0;
    while i < vars.len()
        invariant
            i <= vars.len(),
            vss == Seq::new(vars@.len(), |k: int| vars@[k]@),
            vss.len() == vars@.len(),
            s@ == old(s)@ + names_concat(vss.take(i as int)),
        decreases vars.len() - i,
    {
        crate::routing::push_str(s, vars[i].varname.as_str());
        proof {
            let pre = vss.take(i as int);
            assert(pre.push(vss[i as int]) =~= vss.take(i + 1));
            assert(vss.take(i + 1).drop_last() =~= pre);
            assert(s@ =~= old(s)@ + names_concat(vss.take(i + 1)));
        }
        i = i + 1;
    }
    proof {
        assert(vss.take(vss.len() as int) =~= vss);
    }
}

/// The dispatch fragment `/:name1name2...` of a variable list.
pub fn axum7_vars(vars: &Vec<VarSpec>) -> (r: String)
    ensures
        r@ == axum_vars_canon(Seq::new(vars@.len(), |i: int| vars@[i]@)),
{
    let mut s = String::new();
    crate::routing::push_str(&mut s, "/:");
    push_names_concat(&mut s, vars);
    s
}

/// The dispatch fragment `/*name1name2...` of a rest variable list.
pub fn axum7_rest(vars: &Vec<VarSpec>) -> (r: String)
    ensures
        r@ == axum_rest_canon(Seq::new(vars@.len(), |i: int| vars@[i]@)),
{
    let mut s = String::new();
    crate::routing::push_str(&mut s, "/*");
    push_names_concat(&mut s, vars);
    s
}

} // verus!
