//! The wire shape of one protocol line: a flat JSON object whose fields are
//! scalars or arrays of scalars, written without insignificant whitespace,
//! as the player's compact encoder produces it.
//!
//! The grammar is stated twice: once as spec-level render and parse
//! functions over character sequences, and once as executable code proved
//! equal to them. Nested objects or arrays inside a field are outside the
//! grammar; a line using them is reported as unparseable and dropped, which
//! the protocol allows.

use vstd::prelude::*;

use crate::text::all_digits;
use crate::text::digit_val;
use crate::text::is_digit;

verus! {

/// A scalar field value, at the level contracts speak of. Numbers keep
/// their decimal lexeme: the protocol core never does arithmetic on them,
/// and the lexeme form is exact where a binary float would not be.
pub enum ValS {
    Null,
    Bool(bool),
    Num(Seq<char>),
    Str(Seq<char>),
}

/// One field of the line object: a scalar or an array of scalars.
pub enum FieldS {
    Val(ValS),
    Arr(Seq<ValS>),
}

/// A scalar field value. `Num` holds the decimal lexeme of the number.
#[derive(Debug, PartialEq)]
pub enum Value {
    Null,
    Bool(bool),
    Num(String),
    Str(String),
}

/// One field of the line object.
#[derive(Debug, PartialEq)]
pub enum Field {
    Val(Value),
    Arr(Vec<Value>),
}

impl View for Value {
    type V = ValS;

    open spec fn view(&self) -> ValS {
        match self {
            Value::Null => ValS::Null,
            Value::Bool(b) => ValS::Bool(*b),
            Value::Num(s) => ValS::Num(s@),
            Value::Str(s) => ValS::Str(s@),
        }
    }
}

impl Value {
    /// A copy with the same view.
    pub fn clone_value(&self) -> (r: Value)
        ensures
            r@ == self@,
    {
        match self {
            Value::Null => Value::Null,
            Value::Bool(b) => Value::Bool(*b),
            Value::Num(s) => Value::Num(s.clone()),
            Value::Str(s) => Value::Str(s.clone()),
        }
    }
}

pub open spec fn vals_view(v: Seq<Value>) -> Seq<ValS> {
    Seq::new(v.len(), |i: int| v[i]@)
}

impl View for Field {
    type V = FieldS;

    open spec fn view(&self) -> FieldS {
        match self {
            Field::Val(v) => FieldS::Val(v@),
            Field::Arr(a) => FieldS::Arr(vals_view(a@)),
        }
    }
}

/// The object a line denotes: its fields in order of appearance.
pub open spec fn pairs_view(p: Seq<(String, Field)>) -> Seq<(Seq<char>, FieldS)> {
    Seq::new(p.len(), |i: int| (p[i].0@, p[i].1@))
}

// ---------------------------------------------------------------------
// well-formedness
// ---------------------------------------------------------------------
/// Characters a number lexeme may contain.
pub open spec fn is_num_char(c: char) -> bool {
    is_digit(c) || c == '.' || c == '-' || c == '+' || c == 'e' || c == 'E'
}

/// A renderable number lexeme: nonempty, over the number alphabet, and
/// starting as a number must, so the parser dispatches it as one.
pub open spec fn wf_num(s: Seq<char>) -> bool {
    &&& s.len() > 0
    &&& (s[0] == '-' || is_digit(s[0]))
    &&& forall|i: int| 0 <= i < s.len() ==> is_num_char(#[trigger] s[i])
}

pub open spec fn wf_val(v: ValS) -> bool {
    match v {
        ValS::Num(s) => wf_num(s),
        _ => true,
    }
}

pub open spec fn wf_field(f: FieldS) -> bool {
    match f {
        FieldS::Val(v) => wf_val(v),
        FieldS::Arr(a) => forall|i: int| 0 <= i < a.len() ==> wf_val(#[trigger] a[i]),
    }
}

pub open spec fn wf_pairs(p: Seq<(Seq<char>, FieldS)>) -> bool {
    forall|i: int| 0 <= i < p.len() ==> wf_field(#[trigger] p[i].1)
}

// ---------------------------------------------------------------------
// rendering, spec level
// ---------------------------------------------------------------------
/// Lower-case hexadecimal digit.
pub open spec fn hex_digit(d: int) -> char {
    if d < 10 {
        crate::text::digit_char(d)
    } else if d == 10 {
        'a'
    } else if d == 11 {
        'b'
    } else if d == 12 {
        'c'
    } else if d == 13 {
        'd'
    } else if d == 14 {
        'e'
    } else {
        'f'
    }
}

pub open spec fn is_hex(c: char) -> bool {
    is_digit(c) || ('a' <= c <= 'f') || ('A' <= c <= 'F')
}

pub open spec fn hex_val(c: char) -> int {
    if is_digit(c) {
        digit_val(c)
    } else if 'a' <= c <= 'f' {
        c as int - 'a' as int + 10
    } else {
        c as int - 'A' as int + 10
    }
}

/// How one character appears inside a rendered string: itself, a short
/// escape, or a `\u00XX` escape for the remaining control characters.
pub open spec fn esc_char(c: char) -> Seq<char> {
    if c == '"' {
        seq!['\\', '"']
    } else if c == '\\' {
        seq!['\\', '\\']
    } else if c == '\n' {
        seq!['\\', 'n']
    } else if c == '\r' {
        seq!['\\', 'r']
    } else if c == '\t' {
        seq!['\\', 't']
    } else if (c as u32) < 32 {
        seq!['\\', 'u', '0', '0', hex_digit((c as u32) as int / 16), hex_digit((c as u32) as int % 16)]
    } else {
        seq![c]
    }
}

/// The rendered body of a string, from index `k` on.
pub open spec fn sr_str_body(s: Seq<char>, k: int) -> Seq<char>
    decreases s.len() - k,
{
    if k < 0 || k >= s.len() {
        Seq::empty()
    } else {
        esc_char(s[k]) + sr_str_body(s, k + 1)
    }
}

/// A rendered string: quoted and escaped.
pub open spec fn sr_string(s: Seq<char>) -> Seq<char> {
    seq!['"'] + sr_str_body(s, 0) + seq!['"']
}

pub open spec fn lit_null() -> Seq<char> {
    seq!['n', 'u', 'l', 'l']
}

pub open spec fn lit_true() -> Seq<char> {
    seq!['t', 'r', 'u', 'e']
}

pub open spec fn lit_false() -> Seq<char> {
    seq!['f', 'a', 'l', 's', 'e']
}

pub open spec fn sr_value(v: ValS) -> Seq<char> {
    match v {
        ValS::Null => lit_null(),
        ValS::Bool(b) => if b {
            lit_true()
        } else {
            lit_false()
        },
        ValS::Num(s) => s,
        ValS::Str(s) => sr_string(s),
    }
}

/// The tail of a rendered array: `,v` for each item from `k` on.
pub open spec fn sr_arr_rest(items: Seq<ValS>, k: int) -> Seq<char>
    decreases items.len() - k,
{
    if k < 0 || k >= items.len() {
        Seq::empty()
    } else {
        seq![','] + sr_value(items[k]) + sr_arr_rest(items, k + 1)
    }
}

pub open spec fn sr_array(items: Seq<ValS>) -> Seq<char> {
    if items.len() == 0 {
        seq!['[', ']']
    } else {
        seq!['['] + sr_value(items[0]) + sr_arr_rest(items, 1) + seq![']']
    }
}

pub open spec fn sr_field(f: FieldS) -> Seq<char> {
    match f {
        FieldS::Val(v) => sr_value(v),
        FieldS::Arr(a) => sr_array(a),
    }
}

pub open spec fn sr_pair(p: (Seq<char>, FieldS)) -> Seq<char> {
    sr_string(p.0) + seq![':'] + sr_field(p.1)
}

/// The tail of a rendered object: `,"k":f` for each pair from `k` on.
pub open spec fn sr_obj_rest(pairs: Seq<(Seq<char>, FieldS)>, k: int) -> Seq<char>
    decreases pairs.len() - k,
{
    if k < 0 || k >= pairs.len() {
        Seq::empty()
    } else {
        seq![','] + sr_pair(pairs[k]) + sr_obj_rest(pairs, k + 1)
    }
}

/// The whole rendered line (without the trailing newline).
pub open spec fn sr_obj(pairs: Seq<(Seq<char>, FieldS)>) -> Seq<char> {
    if pairs.len() == 0 {
        seq!['{', '}']
    } else {
        seq!['{'] + sr_pair(pairs[0]) + sr_obj_rest(pairs, 1) + seq!['}']
    }
}

// ---------------------------------------------------------------------
// parsing, spec level
// ---------------------------------------------------------------------
/// Prepends one decoded character to a string-body parse result.
pub open spec fn cons_char(c: char, r: Option<(Seq<char>, int)>) -> Option<(Seq<char>, int)> {
    match r {
        Some((cs, j)) => Some((seq![c] + cs, j)),
        None => None,
    }
}

/// The control character with the given code.
pub open spec fn ctl_char(code: int) -> char {
    (code as u32) as char
}

/// Parses a string body starting after the opening quote; yields the
/// decoded characters and the position after the closing quote.
pub open spec fn sp_str_body(s: Seq<char>, i: int) -> Option<(Seq<char>, int)>
    decreases s.len() - i,
    when 0 <= i
{
    if i >= s.len() {
        None
    } else {
        let c = s[i];
        if c == '"' {
            Some((Seq::empty(), i + 1))
        } else if c == '\\' {
            if i + 1 < s.len() {
                let e = s[i + 1];
                if e == '"' || e == '\\' || e == '/' {
                    cons_char(e, sp_str_body(s, i + 2))
                } else if e == 'n' {
                    cons_char('\n', sp_str_body(s, i + 2))
                } else if e == 'r' {
                    cons_char('\r', sp_str_body(s, i + 2))
                } else if e == 't' {
                    cons_char('\t', sp_str_body(s, i + 2))
                } else if e == 'b' {
                    cons_char(ctl_char(8), sp_str_body(s, i + 2))
                } else if e == 'f' {
                    cons_char(ctl_char(12), sp_str_body(s, i + 2))
                } else if e == 'u' {
                    if i + 5 < s.len() && s[i + 2] == '0' && s[i + 3] == '0' && is_hex(s[i + 4])
                        && is_hex(s[i + 5]) {
                        cons_char(
                            ctl_char(hex_val(s[i + 4]) * 16 + hex_val(s[i + 5])),
                            sp_str_body(s, i + 6),
                        )
                    } else {
                        None
                    }
                } else {
                    None
                }
            } else {
                None
            }
        } else if (c as u32) < 32 {
            None
        } else {
            cons_char(c, sp_str_body(s, i + 1))
        }
    }
}

/// Parses a quoted string at `i`.
pub open spec fn sp_string(s: Seq<char>, i: int) -> Option<(Seq<char>, int)> {
    if 0 <= i < s.len() && s[i] == '"' {
        sp_str_body(s, i + 1)
    } else {
        None
    }
}

/// The end of the maximal run of number characters from `i`.
pub open spec fn num_end(s: Seq<char>, i: int) -> int
    decreases s.len() - i,
    when 0 <= i
{
    if i >= s.len() || !is_num_char(s[i]) {
        i
    } else {
        num_end(s, i + 1)
    }
}

/// Parses a scalar value at `i`.
pub open spec fn sp_value(s: Seq<char>, i: int) -> Option<(ValS, int)> {
    if 0 <= i < s.len() {
        let c = s[i];
        if c == '"' {
            match sp_string(s, i) {
                Some((cs, j)) => Some((ValS::Str(cs), j)),
                None => None,
            }
        } else if c == 'n' {
            if i + 4 <= s.len() && s.subrange(i, i + 4) == lit_null() {
                Some((ValS::Null, i + 4))
            } else {
                None
            }
        } else if c == 't' {
            if i + 4 <= s.len() && s.subrange(i, i + 4) == lit_true() {
                Some((ValS::Bool(true), i + 4))
            } else {
                None
            }
        } else if c == 'f' {
            if i + 5 <= s.len() && s.subrange(i, i + 5) == lit_false() {
                Some((ValS::Bool(false), i + 5))
            } else {
                None
            }
        } else if c == '-' || is_digit(c) {
            let j = num_end(s, i);
            Some((ValS::Num(s.subrange(i, j)), j))
        } else {
            None
        }
    } else {
        None
    }
}

pub proof fn lemma_sp_str_body_bounds(s: Seq<char>, i: int)
    requires
        0 <= i,
        sp_str_body(s, i) is Some,
    ensures
        i < sp_str_body(s, i)->Some_0.1 <= s.len(),
    decreases s.len() - i,
{
    if i < s.len() {
        let c = s[i];
        if c == '"' {
        } else if c == '\\' {
            let e = s[i + 1];
            if e == 'u' {
                lemma_sp_str_body_bounds(s, i + 6);
            } else {
                lemma_sp_str_body_bounds(s, i + 2);
            }
        } else {
            lemma_sp_str_body_bounds(s, i + 1);
        }
    }
}

pub proof fn lemma_num_end_bounds(s: Seq<char>, i: int)
    requires
        0 <= i <= s.len(),
    ensures
        i <= num_end(s, i) <= s.len(),
        i < s.len() && is_num_char(s[i]) ==> i < num_end(s, i),
    decreases s.len() - i,
{
    if i < s.len() && is_num_char(s[i]) {
        lemma_num_end_bounds(s, i + 1);
    }
}

pub proof fn lemma_sp_value_bounds(s: Seq<char>, i: int)
    requires
        0 <= i <= s.len(),
        sp_value(s, i) is Some,
    ensures
        i < sp_value(s, i)->Some_0.1 <= s.len(),
{
    let c = s[i];
    if c == '"' {
        lemma_sp_str_body_bounds(s, i + 1);
    } else if c == '-' || is_digit(c) {
        lemma_num_end_bounds(s, i);
    }
}

/// Prepends one parsed item to an item-list parse result.
pub open spec fn cons_item(v: ValS, r: Option<(Seq<ValS>, int)>) -> Option<(Seq<ValS>, int)> {
    match r {
        Some((vs, j)) => Some((seq![v] + vs, j)),
        None => None,
    }
}

/// Parses `value (',' value)* ']'` starting at `i` (after `[` or a comma);
/// yields the items and the position after the closing bracket.
pub open spec fn sp_arr_items(s: Seq<char>, i: int) -> Option<(Seq<ValS>, int)>
    decreases s.len() - i,
    when 0 <= i <= s.len()
{
    match sp_value(s, i) {
        None => None,
        Some((v, j)) => {
            if j < s.len() && s[j] == ']' {
                Some((seq![v], j + 1))
            } else if j < s.len() && s[j] == ',' {
                proof {
                    lemma_sp_value_bounds(s, i);
                }
                cons_item(v, sp_arr_items(s, j + 1))
            } else {
                None
            }
        },
    }
}

/// Parses an array at `i`.
pub open spec fn sp_array(s: Seq<char>, i: int) -> Option<(Seq<ValS>, int)> {
    if 0 <= i < s.len() && s[i] == '[' {
        if i + 1 < s.len() && s[i + 1] == ']' {
            Some((Seq::empty(), i + 2))
        } else {
            sp_arr_items(s, i + 1)
        }
    } else {
        None
    }
}

pub proof fn lemma_sp_arr_items_bounds(s: Seq<char>, i: int)
    requires
        0 <= i <= s.len(),
        sp_arr_items(s, i) is Some,
    ensures
        i < sp_arr_items(s, i)->Some_0.1 <= s.len(),
    decreases s.len() - i,
{
    let (v, j) = sp_value(s, i)->Some_0;
    lemma_sp_value_bounds(s, i);
    if j < s.len() && s[j] == ']' {
    } else {
        lemma_sp_arr_items_bounds(s, j + 1);
    }
}

/// Parses a field: an array or a scalar.
pub open spec fn sp_field(s: Seq<char>, i: int) -> Option<(FieldS, int)> {
    if 0 <= i < s.len() && s[i] == '[' {
        match sp_array(s, i) {
            Some((a, j)) => Some((FieldS::Arr(a), j)),
            None => None,
        }
    } else {
        match sp_value(s, i) {
            Some((v, j)) => Some((FieldS::Val(v), j)),
            None => None,
        }
    }
}

pub proof fn lemma_sp_field_bounds(s: Seq<char>, i: int)
    requires
        0 <= i <= s.len(),
        sp_field(s, i) is Some,
    ensures
        i < sp_field(s, i)->Some_0.1 <= s.len(),
{
    if s[i] == '[' {
        if !(i + 1 < s.len() && s[i + 1] == ']') {
            lemma_sp_arr_items_bounds(s, i + 1);
        }
    } else {
        lemma_sp_value_bounds(s, i);
    }
}

/// Parses one `"key":field` pair at `i`.
pub open spec fn sp_pair(s: Seq<char>, i: int) -> Option<((Seq<char>, FieldS), int)> {
    match sp_string(s, i) {
        None => None,
        Some((k, j)) => {
            if j < s.len() && s[j] == ':' {
                match sp_field(s, j + 1) {
                    Some((f, j2)) => Some(((k, f), j2)),
                    None => None,
                }
            } else {
                None
            }
        },
    }
}

pub proof fn lemma_sp_pair_bounds(s: Seq<char>, i: int)
    requires
        0 <= i <= s.len(),
        sp_pair(s, i) is Some,
    ensures
        i < sp_pair(s, i)->Some_0.1 <= s.len(),
{
    let (k, j) = sp_string(s, i)->Some_0;
    lemma_sp_str_body_bounds(s, i + 1);
    lemma_sp_field_bounds(s, j + 1);
}

/// Prepends one parsed pair to a pair-list parse result.
pub open spec fn cons_pair(
    p: (Seq<char>, FieldS),
    r: Option<(Seq<(Seq<char>, FieldS)>, int)>,
) -> Option<(Seq<(Seq<char>, FieldS)>, int)> {
    match r {
        Some((ps, j)) => Some((seq![p] + ps, j)),
        None => None,
    }
}

/// Parses `pair (',' pair)* '}'` starting at `i` (after `{` or a comma);
/// yields the pairs and the position after the closing brace.
pub open spec fn sp_obj_items(s: Seq<char>, i: int) -> Option<(Seq<(Seq<char>, FieldS)>, int)>
    decreases s.len() - i,
    when 0 <= i <= s.len()
{
    match sp_pair(s, i) {
        None => None,
        Some((p, j)) => {
            if j < s.len() && s[j] == '}' {
                Some((seq![p], j + 1))
            } else if j < s.len() && s[j] == ',' {
                proof {
                    lemma_sp_pair_bounds(s, i);
                }
                cons_pair(p, sp_obj_items(s, j + 1))
            } else {
                None
            }
        },
    }
}

pub proof fn lemma_sp_obj_items_bounds(s: Seq<char>, i: int)
    requires
        0 <= i <= s.len(),
        sp_obj_items(s, i) is Some,
    ensures
        i < sp_obj_items(s, i)->Some_0.1 <= s.len(),
    decreases s.len() - i,
{
    let (p, j) = sp_pair(s, i)->Some_0;
    lemma_sp_pair_bounds(s, i);
    if j < s.len() && s[j] == '}' {
    } else {
        lemma_sp_obj_items_bounds(s, j + 1);
    }
}

// ---------------------------------------------------------------------
// round trip: parsing a rendered line gives back what was rendered
// ---------------------------------------------------------------------
/// One character of an embedded segment, read off the enclosing sequence.
pub proof fn lemma_embed(s: Seq<char>, i: int, r: Seq<char>, j: int)
    requires
        0 <= i,
        i + r.len() <= s.len(),
        s.subrange(i, i + r.len() as int) == r,
        0 <= j < r.len(),
    ensures
        s[i + j] == r[j],
{
    assert(s.subrange(i, i + r.len() as int)[j] == s[i + j]);
}

pub proof fn lemma_ctl_char_rt(c: char)
    requires
        (c as u32) < 32,
    ensures
        ctl_char((c as u32) as int) == c,
{
    vstd::utf8::char_u32_cast(c, c as u32);
    assert((((c as u32) as int) as u32) == c as u32);
}

pub proof fn lemma_hex_rt(d: int)
    requires
        0 <= d < 16,
    ensures
        is_hex(hex_digit(d)),
        hex_val(hex_digit(d)) == d,
{
}

/// Parsing the rendered body of `orig` from index `k`, followed by the
/// closing quote, gives back exactly the remaining characters of `orig`.
pub proof fn lemma_str_body_rt(orig: Seq<char>, k: int, s: Seq<char>, i: int)
    requires
        0 <= k <= orig.len(),
        0 <= i,
        i + sr_str_body(orig, k).len() < s.len(),
        s.subrange(i, i + sr_str_body(orig, k).len()) == sr_str_body(orig, k),
        s[i + sr_str_body(orig, k).len()] == '"',
    ensures
        sp_str_body(s, i) == Some(
            (orig.subrange(k, orig.len() as int), i + sr_str_body(orig, k).len() + 1),
        ),
    decreases orig.len() - k,
{
    let body = sr_str_body(orig, k);
    if k == orig.len() {
        assert(body =~= Seq::<char>::empty());
        assert(s[i] == '"');
        assert(orig.subrange(k, orig.len() as int) =~= Seq::<char>::empty());
    } else {
        let c = orig[k];
        let e = esc_char(c);
        let rest = sr_str_body(orig, k + 1);
        assert(body == e + rest);
        let i2 = i + e.len();
        assert forall|j: int| 0 <= j < e.len() implies s[i + j] == e[j] by {
            lemma_embed(s, i, body, j);
            assert(body[j] == (e + rest)[j]);
        }
        assert(s.subrange(i2 as int, i2 + rest.len() as int) =~= rest) by {
            assert forall|j: int|
                0 <= j < rest.len() implies s.subrange(i2 as int, i2 + rest.len() as int)[j]
                == rest[j] by {
                lemma_embed(s, i, body, e.len() + j);
                assert(body[e.len() + j] == (e + rest)[e.len() + j]);
            }
        }
        lemma_str_body_rt(orig, k + 1, s, i2 as int);
        assert(s[i] == e[0]) by {
            lemma_embed(s, i, body, 0);
            assert(body[0] == (e + rest)[0]);
        }
        if e.len() >= 2 {
            assert(s[i + 1] == e[1]) by {
                lemma_embed(s, i, body, 1);
                assert(body[1] == (e + rest)[1]);
            }
        }
        if e.len() == 6 {
            assert forall|j: int| 0 <= j < 6 implies s[i + j] == e[j] by {
                lemma_embed(s, i, body, j);
                assert(body[j] == (e + rest)[j]);
            }
        }
        assert(seq![c] + orig.subrange(k + 1, orig.len() as int) =~= orig.subrange(
            k,
            orig.len() as int,
        ));
        if c == '"' {
            assert(s[i] == '\\' && s[i + 1] == '"');
            assert(sp_str_body(s, i) == cons_char('"', sp_str_body(s, i + 2)));
        } else if c == '\\' {
            assert(s[i] == '\\' && s[i + 1] == '\\');
        } else if c == '\n' {
            assert(s[i] == '\\' && s[i + 1] == 'n');
        } else if c == '\r' {
            assert(s[i] == '\\' && s[i + 1] == 'r');
        } else if c == '\t' {
            assert(s[i] == '\\' && s[i + 1] == 't');
        } else if (c as u32) < 32 {
            let code = (c as u32) as int;
            let hi = code / 16;
            let lo = code % 16;
            assert(s[i] == '\\' && s[i + 1] == 'u' && s[i + 2] == '0' && s[i + 3] == '0');
            assert(s[i + 4] == hex_digit(hi) && s[i + 5] == hex_digit(lo));
            lemma_hex_rt(hi);
            lemma_hex_rt(lo);
            assert(hex_val(s[i + 4]) * 16 + hex_val(s[i + 5]) == code);
            lemma_ctl_char_rt(c);
        } else {
            assert(s[i] == c);
            assert(c != '"' && c != '\\' && !((c as u32) < 32));
        }
    }
}

/// Parsing a rendered string gives back the string.
pub proof fn lemma_string_rt(orig: Seq<char>, s: Seq<char>, i: int)
    requires
        0 <= i,
        i + sr_string(orig).len() <= s.len(),
        s.subrange(i, i + sr_string(orig).len()) == sr_string(orig),
    ensures
        sp_string(s, i) == Some((orig, i + sr_string(orig).len())),
{
    let body = sr_str_body(orig, 0);
    let r = sr_string(orig);
    assert(s[i] == '"') by {
        lemma_embed(s, i, r, 0);
        assert(r[0] == (seq!['"'] + body + seq!['"'])[0]);
    }
    assert(s.subrange(i + 1, i + 1 + body.len() as int) =~= body) by {
        assert forall|j: int|
            0 <= j < body.len() implies s.subrange(i + 1, i + 1 + body.len() as int)[j]
            == body[j] by {
            lemma_embed(s, i, r, 1 + j);
            assert(r[1 + j] == (seq!['"'] + body + seq!['"'])[1 + j]);
        }
    }
    assert(s[i + 1 + body.len()] == '"') by {
        lemma_embed(s, i, r, 1 + body.len() as int);
        assert(r[1 + body.len() as int] == (seq!['"'] + body + seq!['"'])[1 + body.len() as int]);
    }
    lemma_str_body_rt(orig, 0, s, i + 1);
    assert(orig.subrange(0, orig.len() as int) =~= orig);
}

/// A maximal run of number characters ends exactly where the run ends.
pub proof fn lemma_num_end_fix(s: Seq<char>, i: int, j: int)
    requires
        0 <= i <= j <= s.len(),
        forall|k: int| i <= k < j ==> is_num_char(#[trigger] s[k]),
        j == s.len() || !is_num_char(s[j]),
    ensures
        num_end(s, i) == j,
    decreases j - i,
{
    if i < j {
        lemma_num_end_fix(s, i + 1, j);
    }
}

/// Parsing a rendered scalar gives back the scalar. A number must be
/// followed by something that cannot extend it, which every position
/// inside a rendered object provides.
pub proof fn lemma_value_rt(v: ValS, s: Seq<char>, i: int)
    requires
        wf_val(v),
        0 <= i,
        i + sr_value(v).len() <= s.len(),
        s.subrange(i, i + sr_value(v).len()) == sr_value(v),
        v is Num ==> i + sr_value(v).len() == s.len() || !is_num_char(s[i + sr_value(v).len()]),
    ensures
        sp_value(s, i) == Some((v, i + sr_value(v).len())),
{
    let r = sr_value(v);
    match v {
        ValS::Null => {
            assert(s[i] == 'n') by {
                lemma_embed(s, i, r, 0);
            }
            assert(s.subrange(i, i + 4) =~= lit_null());
        },
        ValS::Bool(b) => {
            if b {
                assert(s[i] == 't') by {
                    lemma_embed(s, i, r, 0);
                }
                assert(s.subrange(i, i + 4) =~= lit_true());
            } else {
                assert(s[i] == 'f') by {
                    lemma_embed(s, i, r, 0);
                }
                assert(s.subrange(i, i + 5) =~= lit_false());
            }
        },
        ValS::Num(lex) => {
            assert(s[i] == lex[0]) by {
                lemma_embed(s, i, r, 0);
            }
            assert forall|k: int| i <= k < i + lex.len() implies is_num_char(#[trigger] s[k]) by {
                lemma_embed(s, i, r, k - i);
                assert(s[i + (k - i)] == lex[k - i]);
            }
            lemma_num_end_fix(s, i, i + lex.len());
            assert(s.subrange(i, i + lex.len() as int) =~= lex);
        },
        ValS::Str(cs) => {
            assert(s[i] == '"') by {
                lemma_embed(s, i, r, 0);
                assert(r[0] == (seq!['"'] + sr_str_body(cs, 0) + seq!['"'])[0]);
            }
            lemma_string_rt(cs, s, i);
        },
    }
}

/// Parses a whole line: one object covering every character.
pub open spec fn sp_line(s: Seq<char>) -> Option<Seq<(Seq<char>, FieldS)>> {
    if s.len() >= 1 && s[0] == '{' {
        if s.len() == 2 && s[1] == '}' {
            Some(Seq::empty())
        } else {
            match sp_obj_items(s, 1) {
                Some((ps, j)) => if j == s.len() {
                    Some(ps)
                } else {
                    None
                },
                None => None,
            }
        }
    } else {
        None
    }
}

/// A rendered scalar starts with a character that identifies it, never
/// with a structural character.
pub proof fn lemma_sr_value_first(v: ValS)
    requires
        wf_val(v),
    ensures
        sr_value(v).len() >= 1,
        ({
            let c = sr_value(v)[0];
            c == '"' || c == 'n' || c == 't' || c == 'f' || c == '-' || is_digit(c)
        }),
{
    match v {
        ValS::Null => {
            assert(sr_value(v)[0] == 'n');
        },
        ValS::Bool(b) => {
            if b {
                assert(sr_value(v)[0] == 't');
            } else {
                assert(sr_value(v)[0] == 'f');
            }
        },
        ValS::Num(lex) => {
        },
        ValS::Str(cs) => {
            assert(sr_value(v)[0] == (seq!['"'] + sr_str_body(cs, 0) + seq!['"'])[0]);
        },
    }
}

pub proof fn lemma_sr_field_len(f: FieldS)
    requires
        wf_field(f),
    ensures
        sr_field(f).len() >= 1,
{
    match f {
        FieldS::Val(v) => {
            lemma_sr_value_first(v);
        },
        FieldS::Arr(a) => {
            if a.len() > 0 {
                lemma_sr_value_first(a[0]);
            }
        },
    }
}

/// The item list rendered from index `k` on, with its closing bracket:
/// what `sp_arr_items` is meant to read back.
pub open spec fn sr_items_tail(items: Seq<ValS>, k: int) -> Seq<char> {
    sr_value(items[k]) + sr_arr_rest(items, k + 1) + seq![']']
}

pub proof fn lemma_arr_items_rt(items: Seq<ValS>, k: int, s: Seq<char>, i: int)
    requires
        0 <= k < items.len(),
        forall|m: int| 0 <= m < items.len() ==> wf_val(#[trigger] items[m]),
        0 <= i,
        i + sr_items_tail(items, k).len() <= s.len(),
        s.subrange(i, i + sr_items_tail(items, k).len() as int) == sr_items_tail(items, k),
    ensures
        sp_arr_items(s, i) == Some(
            (items.subrange(k, items.len() as int), i + sr_items_tail(items, k).len()),
        ),
    decreases items.len() - k,
{
    let t = sr_items_tail(items, k);
    let v = sr_value(items[k]);
    let j = i + v.len();
    assert(s.subrange(i, j as int) =~= v) by {
        assert forall|m: int| 0 <= m < v.len() implies s.subrange(i, j as int)[m] == v[m] by {
            lemma_embed(s, i, t, m);
            assert(t[m] == (sr_value(items[k]) + sr_arr_rest(items, k + 1) + seq![']'])[m]);
        }
    }
    assert(s[j] == t[v.len() as int]) by {
        lemma_embed(s, i, t, v.len() as int);
    }
    if k == items.len() - 1 {
        assert(sr_arr_rest(items, k + 1) =~= Seq::<char>::empty());
        assert(t[v.len() as int] == ']');
        lemma_value_rt(items[k], s, i);
        assert(sp_arr_items(s, i) == Some((seq![items[k]], j + 1)));
        assert(items.subrange(k, items.len() as int) =~= seq![items[k]]);
    } else {
        let t2 = sr_items_tail(items, k + 1);
        assert(t =~= v + seq![','] + t2);
        assert(t[v.len() as int] == ',');
        lemma_value_rt(items[k], s, i);
        assert(s.subrange(j + 1, j + 1 + t2.len() as int) =~= t2) by {
            assert forall|m: int|
                0 <= m < t2.len() implies s.subrange(j + 1, j + 1 + t2.len() as int)[m]
                == t2[m] by {
                lemma_embed(s, i, t, v.len() + 1 + m);
                assert(t[v.len() + 1 + m] == (v + seq![','] + t2)[v.len() + 1 + m]);
            }
        }
        lemma_arr_items_rt(items, k + 1, s, j + 1);
        assert(sp_arr_items(s, i) == cons_item(items[k], sp_arr_items(s, j + 1)));
        assert(seq![items[k]] + items.subrange(k + 1, items.len() as int) =~= items.subrange(
            k,
            items.len() as int,
        ));
    }
}

pub proof fn lemma_field_rt(f: FieldS, s: Seq<char>, i: int)
    requires
        wf_field(f),
        0 <= i,
        i + sr_field(f).len() <= s.len(),
        s.subrange(i, i + sr_field(f).len() as int) == sr_field(f),
        f matches FieldS::Val(v) && v is Num ==> i + sr_field(f).len() == s.len() || !is_num_char(
            s[i + sr_field(f).len()],
        ),
    ensures
        sp_field(s, i) == Some((f, i + sr_field(f).len())),
{
    let r = sr_field(f);
    match f {
        FieldS::Val(v) => {
            lemma_sr_value_first(v);
            assert(s[i] == r[0]) by {
                lemma_embed(s, i, r, 0);
            }
            assert(s[i] != '[');
            lemma_value_rt(v, s, i);
        },
        FieldS::Arr(a) => {
            assert(s[i] == r[0]) by {
                lemma_embed(s, i, r, 0);
            }
            if a.len() == 0 {
                assert(r =~= seq!['[', ']']);
                assert(s[i] == '[');
                assert(s[i + 1] == ']') by {
                    lemma_embed(s, i, r, 1);
                }
                assert(sp_field(s, i) == Some((FieldS::Arr(Seq::<ValS>::empty()), i + 2)));
                assert(a =~= Seq::<ValS>::empty());
            } else {
                let t = sr_items_tail(a, 0);
                assert(r =~= seq!['['] + t);
                assert(s[i] == '[');
                lemma_sr_value_first(a[0]);
                assert(s[i + 1] == t[0]) by {
                    lemma_embed(s, i, r, 1);
                    assert(r[1] == (seq!['['] + t)[1]);
                    assert(t[0] == (sr_value(a[0]) + sr_arr_rest(a, 1) + seq![']'])[0]);
                }
                assert(s[i + 1] != ']');
                assert(s.subrange(i + 1, i + 1 + t.len() as int) =~= t) by {
                    assert forall|m: int|
                        0 <= m < t.len() implies s.subrange(i + 1, i + 1 + t.len() as int)[m]
                        == t[m] by {
                        lemma_embed(s, i, r, 1 + m);
                        assert(r[1 + m] == (seq!['['] + t)[1 + m]);
                    }
                }
                lemma_arr_items_rt(a, 0, s, i + 1);
                assert(a.subrange(0, a.len() as int) =~= a);
            }
        },
    }
}

pub proof fn lemma_pair_rt(p: (Seq<char>, FieldS), s: Seq<char>, i: int)
    requires
        wf_field(p.1),
        0 <= i,
        i + sr_pair(p).len() <= s.len(),
        s.subrange(i, i + sr_pair(p).len() as int) == sr_pair(p),
        p.1 matches FieldS::Val(v) && v is Num ==> i + sr_pair(p).len() == s.len()
            || !is_num_char(s[i + sr_pair(p).len()]),
    ensures
        sp_pair(s, i) == Some((p, i + sr_pair(p).len())),
{
    let r = sr_pair(p);
    let ks = sr_string(p.0);
    let fs = sr_field(p.1);
    assert(r == ks + seq![':'] + fs);
    let j = i + ks.len();
    assert(s.subrange(i, j as int) =~= ks) by {
        assert forall|m: int| 0 <= m < ks.len() implies s.subrange(i, j as int)[m] == ks[m] by {
            lemma_embed(s, i, r, m);
            assert(r[m] == (ks + seq![':'] + fs)[m]);
        }
    }
    lemma_string_rt(p.0, s, i);
    assert(s[j] == ':') by {
        lemma_embed(s, i, r, ks.len() as int);
        assert(r[ks.len() as int] == (ks + seq![':'] + fs)[ks.len() as int]);
    }
    assert(s.subrange(j + 1, j + 1 + fs.len() as int) =~= fs) by {
        assert forall|m: int|
            0 <= m < fs.len() implies s.subrange(j + 1, j + 1 + fs.len() as int)[m] == fs[m] by {
            lemma_embed(s, i, r, ks.len() + 1 + m);
            assert(r[ks.len() + 1 + m] == (ks + seq![':'] + fs)[ks.len() + 1 + m]);
        }
    }
    lemma_field_rt(p.1, s, j + 1);
    assert(sp_pair(s, i) == Some(((p.0, p.1), i + r.len())));
    assert((p.0, p.1) == p);
}

/// The pair list rendered from index `k` on, with its closing brace:
/// what `sp_obj_items` is meant to read back.
pub open spec fn sr_pairs_tail(pairs: Seq<(Seq<char>, FieldS)>, k: int) -> Seq<char> {
    sr_pair(pairs[k]) + sr_obj_rest(pairs, k + 1) + seq!['}']
}

pub proof fn lemma_obj_items_rt(pairs: Seq<(Seq<char>, FieldS)>, k: int, s: Seq<char>, i: int)
    requires
        0 <= k < pairs.len(),
        wf_pairs(pairs),
        0 <= i,
        i + sr_pairs_tail(pairs, k).len() <= s.len(),
        s.subrange(i, i + sr_pairs_tail(pairs, k).len() as int) == sr_pairs_tail(pairs, k),
    ensures
        sp_obj_items(s, i) == Some(
            (pairs.subrange(k, pairs.len() as int), i + sr_pairs_tail(pairs, k).len()),
        ),
    decreases pairs.len() - k,
{
    let t = sr_pairs_tail(pairs, k);
    let v = sr_pair(pairs[k]);
    let j = i + v.len();
    assert(s.subrange(i, j as int) =~= v) by {
        assert forall|m: int| 0 <= m < v.len() implies s.subrange(i, j as int)[m] == v[m] by {
            lemma_embed(s, i, t, m);
            assert(t[m] == (sr_pair(pairs[k]) + sr_obj_rest(pairs, k + 1) + seq!['}'])[m]);
        }
    }
    assert(s[j] == t[v.len() as int]) by {
        lemma_embed(s, i, t, v.len() as int);
    }
    if k == pairs.len() - 1 {
        assert(sr_obj_rest(pairs, k + 1) =~= Seq::<char>::empty());
        assert(t[v.len() as int] == '}');
        lemma_pair_rt(pairs[k], s, i);
        assert(sp_obj_items(s, i) == Some((seq![pairs[k]], j + 1)));
        assert(pairs.subrange(k, pairs.len() as int) =~= seq![pairs[k]]);
    } else {
        let t2 = sr_pairs_tail(pairs, k + 1);
        assert(t =~= v + seq![','] + t2);
        assert(t[v.len() as int] == ',');
        lemma_pair_rt(pairs[k], s, i);
        assert(s.subrange(j + 1, j + 1 + t2.len() as int) =~= t2) by {
            assert forall|m: int|
                0 <= m < t2.len() implies s.subrange(j + 1, j + 1 + t2.len() as int)[m]
                == t2[m] by {
                lemma_embed(s, i, t, v.len() + 1 + m);
                assert(t[v.len() + 1 + m] == (v + seq![','] + t2)[v.len() + 1 + m]);
            }
        }
        lemma_obj_items_rt(pairs, k + 1, s, j + 1);
        assert(sp_obj_items(s, i) == cons_pair(pairs[k], sp_obj_items(s, j + 1)));
        assert(seq![pairs[k]] + pairs.subrange(k + 1, pairs.len() as int) =~= pairs.subrange(
            k,
            pairs.len() as int,
        ));
    }
}

/// Round trip: parsing a rendered line gives back exactly the fields that
/// were rendered.
pub proof fn lemma_line_rt(pairs: Seq<(Seq<char>, FieldS)>)
    requires
        wf_pairs(pairs),
    ensures
        sp_line(sr_obj(pairs)) == Some(pairs),
{
    let s = sr_obj(pairs);
    if pairs.len() == 0 {
        assert(s == seq!['{', '}']);
        assert(s[0] == '{' && s[1] == '}' && s.len() == 2);
        assert(pairs =~= Seq::<(Seq<char>, FieldS)>::empty());
    } else {
        let t = sr_pairs_tail(pairs, 0);
        assert(s =~= seq!['{'] + t);
        assert(s[0] == '{');
        lemma_sr_field_len(pairs[0].1);
        assert(sr_pair(pairs[0]).len() >= 4);
        assert(s.len() >= 6);
        assert(s.subrange(1, 1 + t.len() as int) =~= t) by {
            assert forall|m: int| 0 <= m < t.len() implies s.subrange(1, 1 + t.len() as int)[m]
                == t[m] by {
                assert(s[1 + m] == (seq!['{'] + t)[1 + m]);
            }
        }
        lemma_obj_items_rt(pairs, 0, s, 1);
        assert(pairs.subrange(0, pairs.len() as int) =~= pairs);
    }
}

// ---------------------------------------------------------------------
// rendering, executable
// ---------------------------------------------------------------------
fn hex_digit_of(d: u8) -> (c: char)
    requires
        d < 16,
    ensures
        c == hex_digit(d as int),
{
    if d == 0 {
        '0'
    } else if d == 1 {
        '1'
    } else if d == 2 {
        '2'
    } else if d == 3 {
        '3'
    } else if d == 4 {
        '4'
    } else if d == 5 {
        '5'
    } else if d == 6 {
        '6'
    } else if d == 7 {
        '7'
    } else if d == 8 {
        '8'
    } else if d == 9 {
        '9'
    } else if d == 10 {
        'a'
    } else if d == 11 {
        'b'
    } else if d == 12 {
        'c'
    } else if d == 13 {
        'd'
    } else if d == 14 {
        'e'
    } else {
        'f'
    }
}

fn push_esc(out: &mut String, c: char)
    ensures
        final(out)@ == old(out)@ + esc_char(c),
{
    if c == '"' {
        out.push('\\');
        out.push('"');
    } else if c == '\\' {
        out.push('\\');
        out.push('\\');
    } else if c == '\n' {
        out.push('\\');
        out.push('n');
    } else if c == '\r' {
        out.push('\\');
        out.push('r');
    } else if c == '\t' {
        out.push('\\');
        out.push('t');
    } else if (c as u32) < 32 {
        let code: u32 = c as u32;
        out.push('\\');
        out.push('u');
        out.push('0');
        out.push('0');
        out.push(hex_digit_of((code / 16) as u8));
        out.push(hex_digit_of((code % 16) as u8));
    } else {
        out.push(c);
    }
    proof {
        assert(final(out)@ =~= old(out)@ + esc_char(c));
    }
}

fn push_quoted(out: &mut String, s: &str)
    ensures
        final(out)@ == old(out)@ + sr_string(s@),
{
    out.push('"');
    let n = s.unicode_len();
    let mut i: usize = 0;
    while i < n
        invariant
            i <= n,
            n == s@.len(),
            out@ + sr_str_body(s@, i as int) == old(out)@ + seq!['"'] + sr_str_body(s@, 0),
        decreases n - i,
    {
        let c = s.get_char(i);
        let ghost before = out@;
        push_esc(out, c);
        proof {
            assert(before + sr_str_body(s@, i as int) =~= before + esc_char(c) + sr_str_body(
                s@,
                i + 1,
            ));
        }
        i = i + 1;
    }
    proof {
        assert(sr_str_body(s@, n as int) =~= Seq::<char>::empty());
        assert(out@ + sr_str_body(s@, n as int) =~= out@);
    }
    out.push('"');
    proof {
        assert(final(out)@ =~= old(out)@ + sr_string(s@));
    }
}

fn push_value(out: &mut String, v: &Value)
    ensures
        final(out)@ == old(out)@ + sr_value(v@),
{
    match v {
        Value::Null => {
            out.push('n');
            out.push('u');
            out.push('l');
            out.push('l');
            proof {
                assert(final(out)@ =~= old(out)@ + lit_null());
            }
        },
        Value::Bool(b) => {
            if *b {
                out.push('t');
                out.push('r');
                out.push('u');
                out.push('e');
                proof {
                    assert(final(out)@ =~= old(out)@ + lit_true());
                }
            } else {
                out.push('f');
                out.push('a');
                out.push('l');
                out.push('s');
                out.push('e');
                proof {
                    assert(final(out)@ =~= old(out)@ + lit_false());
                }
            }
        },
        Value::Num(s) => {
            out.append(s.as_str());
        },
        Value::Str(s) => {
            push_quoted(out, s.as_str());
        },
    }
}

fn push_array(out: &mut String, items: &Vec<Value>)
    ensures
        final(out)@ == old(out)@ + sr_array(vals_view(items@)),
{
    let ghost va = vals_view(items@);
    out.push('[');
    if items.len() == 0 {
        out.push(']');
        proof {
            assert(final(out)@ =~= old(out)@ + sr_array(va));
        }
        return ;
    }
    push_value(out, &items[0]);
    proof {
        assert(va[0] == items@[0]@);
    }
    let mut k: usize = 1;
    while k < items.len()
        invariant
            1 <= k <= items@.len(),
            va == vals_view(items@),
            va.len() == items@.len(),
            out@ + sr_arr_rest(va, k as int) == old(out)@ + seq!['['] + sr_value(va[0])
                + sr_arr_rest(va, 1),
        decreases items@.len() - k,
    {
        let ghost before = out@;
        out.push(',');
        push_value(out, &items[k]);
        proof {
            assert(va[k as int] == items@[k as int]@);
            assert(before + sr_arr_rest(va, k as int) =~= before + seq![','] + sr_value(
                va[k as int],
            ) + sr_arr_rest(va, k + 1));
        }
        k = k + 1;
    }
    proof {
        assert(sr_arr_rest(va, items@.len() as int) =~= Seq::<char>::empty());
        assert(out@ + sr_arr_rest(va, items@.len() as int) =~= out@);
    }
    out.push(']');
    proof {
        assert(final(out)@ =~= old(out)@ + sr_array(va));
    }
}

fn push_field(out: &mut String, f: &Field)
    ensures
        final(out)@ == old(out)@ + sr_field(f@),
{
    match f {
        Field::Val(v) => {
            push_value(out, v);
        },
        Field::Arr(a) => {
            push_array(out, a);
        },
    }
}

/// Renders the fields as one compact line object.
pub fn render_obj(pairs: &Vec<(String, Field)>) -> (r: String)
    ensures
        r@ == sr_obj(pairs_view(pairs@)),
{
    let ghost pv = pairs_view(pairs@);
    let mut out = String::new();
    out.push('{');
    if pairs.len() == 0 {
        out.push('}');
        proof {
            assert(out@ =~= sr_obj(pv));
        }
        return out;
    }
    proof {
        assert(pv[0] == (pairs@[0].0@, pairs@[0].1@));
    }
    push_quoted(&mut out, pairs[0].0.as_str());
    out.push(':');
    push_field(&mut out, &pairs[0].1);
    proof {
        assert(out@ =~= seq!['{'] + sr_pair(pv[0]));
    }
    let mut k: usize = 1;
    while k < pairs.len()
        invariant
            1 <= k <= pairs@.len(),
            pv == pairs_view(pairs@),
            pv.len() == pairs@.len(),
            out@ + sr_obj_rest(pv, k as int) == seq!['{'] + sr_pair(pv[0]) + sr_obj_rest(pv, 1),
        decreases pairs@.len() - k,
    {
        let ghost before = out@;
        out.push(',');
        push_quoted(&mut out, pairs[k].0.as_str());
        out.push(':');
        push_field(&mut out, &pairs[k].1);
        proof {
            assert(pv[k as int] == (pairs@[k as int].0@, pairs@[k as int].1@));
            assert(before + sr_obj_rest(pv, k as int) =~= before + seq![','] + sr_pair(
                pv[k as int],
            ) + sr_obj_rest(pv, k + 1));
            assert(out@ =~= before + seq![','] + sr_pair(pv[k as int]));
        }
        k = k + 1;
    }
    proof {
        assert(sr_obj_rest(pv, pairs@.len() as int) =~= Seq::<char>::empty());
        assert(out@ + sr_obj_rest(pv, pairs@.len() as int) =~= out@);
    }
    out.push('}');
    proof {
        assert(out@ =~= sr_obj(pv));
    }
    out
}

// ---------------------------------------------------------------------
// parsing, executable
// ---------------------------------------------------------------------
fn is_num_char_exec(c: char) -> (r: bool)
    ensures
        r == is_num_char(c),
{
    crate::text::is_digit_exec(c) || c == '.' || c == '-' || c == '+' || c == 'e' || c == 'E'
}

fn is_hex_exec(c: char) -> (r: bool)
    ensures
        r == is_hex(c),
{
    crate::text::is_digit_exec(c) || ('a' <= c && c <= 'f') || ('A' <= c && c <= 'F')
}

fn hex_val_exec(c: char) -> (d: u8)
    requires
        is_hex(c),
    ensures
        d == hex_val(c),
{
    if c == '0' {
        0
    } else if c == '1' {
        1
    } else if c == '2' {
        2
    } else if c == '3' {
        3
    } else if c == '4' {
        4
    } else if c == '5' {
        5
    } else if c == '6' {
        6
    } else if c == '7' {
        7
    } else if c == '8' {
        8
    } else if c == '9' {
        9
    } else if c == 'a' || c == 'A' {
        10
    } else if c == 'b' || c == 'B' {
        11
    } else if c == 'c' || c == 'C' {
        12
    } else if c == 'd' || c == 'D' {
        13
    } else if c == 'e' || c == 'E' {
        14
    } else {
        15
    }
}

pub open spec fn opt_prepend_chars(pre: Seq<char>, r: Option<(Seq<char>, int)>) -> Option<
    (Seq<char>, int),
> {
    match r {
        Some((cs, j)) => Some((pre + cs, j)),
        None => None,
    }
}

proof fn lemma_prepend_chars_cons(pre: Seq<char>, c: char, r: Option<(Seq<char>, int)>)
    ensures
        opt_prepend_chars(pre, cons_char(c, r)) == opt_prepend_chars(pre.push(c), r),
{
    match r {
        Some((cs, j)) => {
            assert(pre + (seq![c] + cs) =~= pre.push(c) + cs);
        },
        None => {},
    }
}

fn p_str_body(s: &Vec<char>, i: usize) -> (r: Option<(String, usize)>)
    requires
        i <= s@.len(),
    ensures
        match r {
            Some((cs, j)) => sp_str_body(s@, i as int) == Some((cs@, j as int)) && i < j
                <= s@.len(),
            None => sp_str_body(s@, i as int) is None,
        },
{
    let mut acc = String::new();
    let mut pos: usize = i;
    loop
        invariant
            i <= pos <= s@.len(),
            sp_str_body(s@, i as int) == opt_prepend_chars(acc@, sp_str_body(s@, pos as int)),
        decreases s@.len() - pos,
    {
        if pos >= s.len() {
            return None;
        }
        let c = s[pos];
        if c == '"' {
            proof {
                assert(acc@ + Seq::<char>::empty() =~= acc@);
            }
            return Some((acc, pos + 1));
        } else if c == '\\' {
            let rem = s.len() - pos;
            if rem < 2 {
                return None;
            }
            let e = s[pos + 1];
            if e == '"' || e == '\\' || e == '/' {
                proof {
                    lemma_prepend_chars_cons(acc@, e, sp_str_body(s@, pos + 2));
                }
                acc.push(e);
                pos = pos + 2;
            } else if e == 'n' {
                proof {
                    lemma_prepend_chars_cons(acc@, '\n', sp_str_body(s@, pos + 2));
                }
                acc.push('\n');
                pos = pos + 2;
            } else if e == 'r' {
                proof {
                    lemma_prepend_chars_cons(acc@, '\r', sp_str_body(s@, pos + 2));
                }
                acc.push('\r');
                pos = pos + 2;
            } else if e == 't' {
                proof {
                    lemma_prepend_chars_cons(acc@, '\t', sp_str_body(s@, pos + 2));
                }
                acc.push('\t');
                pos = pos + 2;
            } else if e == 'b' {
                let d: char = (8u8) as char;
                proof {
                    assert(d == ctl_char(8));
                    lemma_prepend_chars_cons(acc@, d, sp_str_body(s@, pos + 2));
                }
                acc.push(d);
                pos = pos + 2;
            } else if e == 'f' {
                let d: char = (12u8) as char;
                proof {
                    assert(d == ctl_char(12));
                    lemma_prepend_chars_cons(acc@, d, sp_str_body(s@, pos + 2));
                }
                acc.push(d);
                pos = pos + 2;
            } else if e == 'u' {
                if rem < 6 {
                    return None;
                }
                if !(s[pos + 2] == '0' && s[pos + 3] == '0' && is_hex_exec(s[pos + 4])
                    && is_hex_exec(s[pos + 5])) {
                    return None;
                }
                let code: u8 = hex_val_exec(s[pos + 4]) * 16 + hex_val_exec(s[pos + 5]);
                let d: char = code as char;
                proof {
                    assert(d == ctl_char(
                        hex_val(s@[pos + 4]) * 16 + hex_val(s@[pos + 5]),
                    ));
                    lemma_prepend_chars_cons(acc@, d, sp_str_body(s@, pos + 6));
                }
                acc.push(d);
                pos = pos + 6;
            } else {
                return None;
            }
        } else if (c as u32) < 32 {
            return None;
        } else {
            proof {
                lemma_prepend_chars_cons(acc@, c, sp_str_body(s@, pos + 1));
            }
            acc.push(c);
            pos = pos + 1;
        }
    }
}

fn p_value(s: &Vec<char>, i: usize) -> (r: Option<(Value, usize)>)
    requires
        i <= s@.len(),
    ensures
        match r {
            Some((v, j)) => sp_value(s@, i as int) == Some((v@, j as int)) && i < j <= s@.len(),
            None => sp_value(s@, i as int) is None,
        },
{
    if i >= s.len() {
        return None;
    }
    let c = s[i];
    if c == '"' {
        match p_str_body(s, i + 1) {
            Some((cs, j)) => Some((Value::Str(cs), j)),
            None => None,
        }
    } else if c == 'n' {
        if s.len() - i >= 4 && s[i + 1] == 'u' && s[i + 2] == 'l' && s[i + 3] == 'l' {
            proof {
                assert(s@.subrange(i as int, i + 4) =~= lit_null());
            }
            Some((Value::Null, i + 4))
        } else {
            proof {
                if i + 4 <= s@.len() {
                    assert(s@.subrange(i as int, i + 4)[1] == s@[i + 1]);
                    assert(s@.subrange(i as int, i + 4)[2] == s@[i + 2]);
                    assert(s@.subrange(i as int, i + 4)[3] == s@[i + 3]);
                }
            }
            None
        }
    } else if c == 't' {
        if s.len() - i >= 4 && s[i + 1] == 'r' && s[i + 2] == 'u' && s[i + 3] == 'e' {
            proof {
                assert(s@.subrange(i as int, i + 4) =~= lit_true());
            }
            Some((Value::Bool(true), i + 4))
        } else {
            proof {
                if i + 4 <= s@.len() {
                    assert(s@.subrange(i as int, i + 4)[1] == s@[i + 1]);
                    assert(s@.subrange(i as int, i + 4)[2] == s@[i + 2]);
                    assert(s@.subrange(i as int, i + 4)[3] == s@[i + 3]);
                }
            }
            None
        }
    } else if c == 'f' {
        if s.len() - i >= 5 && s[i + 1] == 'a' && s[i + 2] == 'l' && s[i + 3] == 's' && s[i + 4]
            == 'e' {
            proof {
                assert(s@.subrange(i as int, i + 5) =~= lit_false());
            }
            Some((Value::Bool(false), i + 5))
        } else {
            proof {
                if i + 5 <= s@.len() {
                    assert(s@.subrange(i as int, i + 5)[1] == s@[i + 1]);
                    assert(s@.subrange(i as int, i + 5)[2] == s@[i + 2]);
                    assert(s@.subrange(i as int, i + 5)[3] == s@[i + 3]);
                    assert(s@.subrange(i as int, i + 5)[4] == s@[i + 4]);
                }
            }
            None
        }
    } else if c == '-' || crate::text::is_digit_exec(c) {
        let mut j: usize = i;
        while j < s.len() && is_num_char_exec(s[j])
            invariant
                i <= j <= s@.len(),
                num_end(s@, i as int) == num_end(s@, j as int),
            decreases s@.len() - j,
        {
            j = j + 1;
        }
        proof {
            assert(num_end(s@, j as int) == j);
            assert(is_num_char(s@[i as int]));
        }
        let lex = crate::text::chars_to_string(s, i, j);
        Some((Value::Num(lex), j))
    } else {
        None
    }
}

pub open spec fn opt_prepend_items(pre: Seq<ValS>, r: Option<(Seq<ValS>, int)>) -> Option<
    (Seq<ValS>, int),
> {
    match r {
        Some((vs, j)) => Some((pre + vs, j)),
        None => None,
    }
}

proof fn lemma_prepend_items_cons(pre: Seq<ValS>, v: ValS, r: Option<(Seq<ValS>, int)>)
    ensures
        opt_prepend_items(pre, cons_item(v, r)) == opt_prepend_items(pre.push(v), r),
{
    match r {
        Some((vs, j)) => {
            assert(pre + (seq![v] + vs) =~= pre.push(v) + vs);
        },
        None => {},
    }
}

fn p_arr_items(s: &Vec<char>, i: usize) -> (r: Option<(Vec<Value>, usize)>)
    requires
        i <= s@.len(),
    ensures
        match r {
            Some((a, j)) => sp_arr_items(s@, i as int) == Some((vals_view(a@), j as int)) && i < j
                <= s@.len(),
            None => sp_arr_items(s@, i as int) is None,
        },
{
    let mut acc: Vec<Value> = Vec::new();
    let mut pos: usize = i;
    loop
        invariant
            i <= pos <= s@.len(),
            sp_arr_items(s@, i as int) == opt_prepend_items(
                vals_view(acc@),
                sp_arr_items(s@, pos as int),
            ),
        decreases s@.len() - pos,
    {
        match p_value(s, pos) {
            None => {
                return None;
            },
            Some((v, j)) => {
                if j < s.len() && s[j] == ']' {
                    let ghost pre = vals_view(acc@);
                    acc.push(v);
                    proof {
                        assert(vals_view(acc@) =~= pre.push(v@));
                        assert(pre + seq![v@] =~= pre.push(v@));
                    }
                    return Some((acc, j + 1));
                } else if j < s.len() && s[j] == ',' {
                    let ghost pre = vals_view(acc@);
                    proof {
                        lemma_prepend_items_cons(pre, v@, sp_arr_items(s@, j + 1));
                        assert(sp_arr_items(s@, pos as int) == cons_item(
                            v@,
                            sp_arr_items(s@, j + 1),
                        ));
                    }
                    acc.push(v);
                    proof {
                        assert(vals_view(acc@) =~= pre.push(v@));
                    }
                    pos = j + 1;
                } else {
                    return None;
                }
            },
        }
    }
}

fn p_field(s: &Vec<char>, i: usize) -> (r: Option<(Field, usize)>)
    requires
        i <= s@.len(),
    ensures
        match r {
            Some((f, j)) => sp_field(s@, i as int) == Some((f@, j as int)) && i < j <= s@.len(),
            None => sp_field(s@, i as int) is None,
        },
{
    if i < s.len() && s[i] == '[' {
        if i + 1 < s.len() && s[i + 1] == ']' {
            let a: Vec<Value> = Vec::new();
            proof {
                assert(vals_view(a@) =~= Seq::<ValS>::empty());
            }
            Some((Field::Arr(a), i + 2))
        } else {
            match p_arr_items(s, i + 1) {
                Some((a, j)) => Some((Field::Arr(a), j)),
                None => None,
            }
        }
    } else {
        match p_value(s, i) {
            Some((v, j)) => Some((Field::Val(v), j)),
            None => None,
        }
    }
}

fn p_pair(s: &Vec<char>, i: usize) -> (r: Option<((String, Field), usize)>)
    requires
        i <= s@.len(),
    ensures
        match r {
            Some((p, j)) => sp_pair(s@, i as int) == Some(((p.0@, p.1@), j as int)) && i < j
                <= s@.len(),
            None => sp_pair(s@, i as int) is None,
        },
{
    if i >= s.len() || s[i] != '"' {
        return None;
    }
    match p_str_body(s, i + 1) {
        None => None,
        Some((k, j)) => {
            if j < s.len() && s[j] == ':' {
                match p_field(s, j + 1) {
                    Some((f, j2)) => Some(((k, f), j2)),
                    None => None,
                }
            } else {
                None
            }
        },
    }
}

pub open spec fn opt_prepend_pairs(
    pre: Seq<(Seq<char>, FieldS)>,
    r: Option<(Seq<(Seq<char>, FieldS)>, int)>,
) -> Option<(Seq<(Seq<char>, FieldS)>, int)> {
    match r {
        Some((ps, j)) => Some((pre + ps, j)),
        None => None,
    }
}

proof fn lemma_prepend_pairs_cons(
    pre: Seq<(Seq<char>, FieldS)>,
    p: (Seq<char>, FieldS),
    r: Option<(Seq<(Seq<char>, FieldS)>, int)>,
)
    ensures
        opt_prepend_pairs(pre, cons_pair(p, r)) == opt_prepend_pairs(pre.push(p), r),
{
    match r {
        Some((ps, j)) => {
            assert(pre + (seq![p] + ps) =~= pre.push(p) + ps);
        },
        None => {},
    }
}

fn p_obj_items(s: &Vec<char>, i: usize) -> (r: Option<(Vec<(String, Field)>, usize)>)
    requires
        i <= s@.len(),
    ensures
        match r {
            Some((ps, j)) => sp_obj_items(s@, i as int) == Some((pairs_view(ps@), j as int)) && i
                < j <= s@.len(),
            None => sp_obj_items(s@, i as int) is None,
        },
{
    let mut acc: Vec<(String, Field)> = Vec::new();
    let mut pos: usize = i;
    loop
        invariant
            i <= pos <= s@.len(),
            sp_obj_items(s@, i as int) == opt_prepend_pairs(
                pairs_view(acc@),
                sp_obj_items(s@, pos as int),
            ),
        decreases s@.len() - pos,
    {
        match p_pair(s, pos) {
            None => {
                return None;
            },
            Some((p, j)) => {
                if j < s.len() && s[j] == '}' {
                    let ghost pre = pairs_view(acc@);
                    let ghost pv = (p.0@, p.1@);
                    acc.push(p);
                    proof {
                        assert(pairs_view(acc@) =~= pre.push(pv));
                        assert(pre + seq![pv] =~= pre.push(pv));
                    }
                    return Some((acc, j + 1));
                } else if j < s.len() && s[j] == ',' {
                    let ghost pre = pairs_view(acc@);
                    let ghost pv = (p.0@, p.1@);
                    proof {
                        lemma_prepend_pairs_cons(pre, pv, sp_obj_items(s@, j + 1));
                        assert(sp_obj_items(s@, pos as int) == cons_pair(
                            pv,
                            sp_obj_items(s@, j + 1),
                        ));
                    }
                    acc.push(p);
                    proof {
                        assert(pairs_view(acc@) =~= pre.push(pv));
                    }
                    pos = j + 1;
                } else {
                    return None;
                }
            },
        }
    }
}

/// Parses one whole line into its fields. `None` means the line is not an
/// object of the grammar; the caller treats that as a protocol error.
pub fn parse_obj(s: &Vec<char>) -> (r: Option<Vec<(String, Field)>>)
    ensures
        match r {
            Some(ps) => sp_line(s@) == Some(pairs_view(ps@)),
            None => sp_line(s@) is None,
        },
{
    if s.len() == 0 || s[0] != '{' {
        return None;
    }
    if s.len() == 2 && s[1] == '}' {
        let ps: Vec<(String, Field)> = Vec::new();
        proof {
            assert(pairs_view(ps@) =~= Seq::<(Seq<char>, FieldS)>::empty());
        }
        return Some(ps);
    }
    match p_obj_items(s, 1) {
        Some((ps, j)) => {
            if j == s.len() {
                Some(ps)
            } else {
                None
            }
        },
        None => None,
    }
}

} // verus!
