//! Structured (JSON) values: the engine's own model of request and response
//! bodies, with a verified serializer and parser. Numbers are carried as
//! validated decimal literals, so no floating point is involved.

use vstd::prelude::*;

use crate::text::dec_str;

verus! {

broadcast use {vstd::std_specs::vec::group_vec_axioms, vstd::seq::group_seq_axioms};

/// A structured value, as carried in request and response bodies.
#[derive(Debug)]
pub enum JsonValue {
    Null,
    Bool(bool),
    /// A number, kept as its decimal literal.
    Num(String),
    Str(String),
    Arr(Vec<JsonValue>),
    Obj(Vec<(String, JsonValue)>),
}

/// The mathematical model of a structured value.
pub enum JsonVal {
    Null,
    Bool(bool),
    Num(Seq<char>),
    Str(Seq<char>),
    Arr(Seq<JsonVal>),
    Obj(Seq<(Seq<char>, JsonVal)>),
}

/// The model of an executable structured value.
pub open spec fn jv(v: JsonValue) -> JsonVal
    decreases v,
{
    match v {
        JsonValue::Null => JsonVal::Null,
        JsonValue::Bool(b) => JsonVal::Bool(b),
        JsonValue::Num(s) => JsonVal::Num(s@),
        JsonValue::Str(s) => JsonVal::Str(s@),
        JsonValue::Arr(elts) => JsonVal::Arr(jv_seq(elts@)),
        JsonValue::Obj(ms) => JsonVal::Obj(jv_pairs(ms@)),
    }
}

/// The models of a sequence of executable values.
pub open spec fn jv_seq(elts: Seq<JsonValue>) -> Seq<JsonVal>
    decreases elts,
{
    if elts.len() == 0 {
        Seq::empty()
    } else {
        seq![jv(elts[0])] + jv_seq(elts.drop_first())
    }
}

/// The models of a sequence of executable members.
pub open spec fn jv_pairs(ms: Seq<(String, JsonValue)>) -> Seq<(Seq<char>, JsonVal)>
    decreases ms,
{
    if ms.len() == 0 {
        Seq::empty()
    } else {
        seq![(ms[0].0@, jv(ms[0].1))] + jv_pairs(ms.drop_first())
    }
}

/// `jv_seq` maps element-wise.
pub proof fn lemma_jv_seq(elts: Seq<JsonValue>)
    ensures
        jv_seq(elts).len() == elts.len(),
        forall|i: int| 0 <= i < elts.len() ==> jv_seq(elts)[i] == jv(elts[i]),
    decreases elts.len(),
{
    if elts.len() > 0 {
        lemma_jv_seq(elts.drop_first());
    }
}

/// `jv_pairs` maps member-wise.
pub proof fn lemma_jv_pairs(ms: Seq<(String, JsonValue)>)
    ensures
        jv_pairs(ms).len() == ms.len(),
        forall|i: int| 0 <= i < ms.len() ==> jv_pairs(ms)[i] == (ms[i].0@, jv(ms[i].1)),
    decreases ms.len(),
{
    if ms.len() > 0 {
        lemma_jv_pairs(ms.drop_first());
    }
}

impl View for JsonValue {
    type V = JsonVal;

    open spec fn view(&self) -> JsonVal {
        jv(*self)
    }
}

impl Clone for JsonValue {
    /// A deep copy with the same model.
    #[verifier::loop_isolation(false)]
    fn clone(&self) -> (res: Self)
        ensures
            res@ == self@,
        decreases self,
    {
        match self {
            JsonValue::Null => JsonValue::Null,
            JsonValue::Bool(b) => JsonValue::Bool(*b),
            JsonValue::Num(s) => JsonValue::Num(s.clone()),
            JsonValue::Str(s) => JsonValue::Str(s.clone()),
            JsonValue::Arr(es) => {
                let n = es.len();
                let mut out: Vec<JsonValue> = Vec::new();
                let mut i: usize = 0;
                while i < n
                    invariant
                        i <= n,
                        out@.len() == i,
                        forall|k: int| 0 <= k < i ==> jv(out@[k]) == jv(es@[k]),
                    decreases n - i,
                {
                    proof {
                        assert(decreases_to!(*es => es@[i as int]));
                    }
                    out.push(es[i].clone());
                    i = i + 1;
                }
                proof {
                    lemma_jv_seq(out@);
                    lemma_jv_seq(es@);
                    assert(jv_seq(out@) =~= jv_seq(es@));
                }
                JsonValue::Arr(out)
            },
            JsonValue::Obj(ms) => {
                let n = ms.len();
                let mut out: Vec<(String, JsonValue)> = Vec::new();
                let mut i: usize = 0;
                while i < n
                    invariant
                        i <= n,
                        out@.len() == i,
                        forall|k: int| 0 <= k < i ==> out@[k].0@ == ms@[k].0@ && jv(out@[k].1)
                            == jv(ms@[k].1),
                    decreases n - i,
                {
                    proof {
                        assert(decreases_to!(*ms => ms@[i as int]));
                        assert(decreases_to!(ms@[i as int] => ms@[i as int].1));
                    }
                    let key = ms[i].0.clone();
                    let val = ms[i].1.clone();
                    out.push((key, val));
                    i = i + 1;
                }
                proof {
                    lemma_jv_pairs(out@);
                    lemma_jv_pairs(ms@);
                    assert(jv_pairs(out@) =~= jv_pairs(ms@));
                }
                JsonValue::Obj(out)
            },
        }
    }
}

/// How one character appears inside a serialized string.
pub open spec fn escape_char(c: char) -> Seq<char> {
    if c == '"' {
        seq!['\\', '"']
    } else if c == '\\' {
        seq!['\\', '\\']
    } else if c == '\n' {
        seq!['\\', 'n']
    } else if c == '\r' {
        seq!['\\', 'r']
    } else if c == '\t' {
        seq!['\\', 't']
    } else if c == '\u{8}' {
        seq!['\\', 'b']
    } else if c == '\u{c}' {
        seq!['\\', 'f']
    } else {
        seq![c]
    }
}

/// The escaped form of a whole string.
pub open spec fn escape(s: Seq<char>) -> Seq<char>
    decreases s.len(),
{
    if s.len() == 0 {
        Seq::empty()
    } else {
        escape_char(s[0]) + escape(s.drop_first())
    }
}

/// The serialized text of a structured value.
pub open spec fn json_text(v: JsonVal) -> Seq<char>
    decreases v,
{
    match v {
        JsonVal::Null => seq!['n', 'u', 'l', 'l'],
        JsonVal::Bool(b) => if b {
            seq!['t', 'r', 'u', 'e']
        } else {
            seq!['f', 'a', 'l', 's', 'e']
        },
        JsonVal::Num(lit) => lit,
        JsonVal::Str(s) => seq!['"'] + escape(s) + seq!['"'],
        JsonVal::Arr(elts) => seq!['['] + json_text_elts(elts) + seq![']'],
        JsonVal::Obj(ms) => seq!['{'] + json_text_members(ms) + seq!['}'],
    }
}

/// The comma-separated serialized text of array elements.
pub open spec fn json_text_elts(elts: Seq<JsonVal>) -> Seq<char>
    decreases elts,
{
    if elts.len() == 0 {
        Seq::empty()
    } else if elts.len() == 1 {
        json_text(elts[0])
    } else {
        json_text(elts[0]) + seq![','] + json_text_elts(elts.drop_first())
    }
}

/// The comma-separated serialized text of object members.
pub open spec fn json_text_members(ms: Seq<(Seq<char>, JsonVal)>) -> Seq<char>
    decreases ms,
{
    if ms.len() == 0 {
        Seq::empty()
    } else {
        let head = seq!['"'] + escape(ms[0].0) + seq!['"', ':'] + json_text(ms[0].1);
        if ms.len() == 1 {
            head
        } else {
            head + seq![','] + json_text_members(ms.drop_first())
        }
    }
}

/// Appending one element extends the serialized element list by a comma and
/// the element's own text.
proof fn lemma_elts_snoc(s: Seq<JsonVal>, x: JsonVal)
    ensures
        json_text_elts(s.push(x)) == if s.len() == 0 {
            json_text(x)
        } else {
            json_text_elts(s) + seq![','] + json_text(x)
        },
    decreases s.len(),
{
    if s.len() == 0 {
        assert(s.push(x) =~= seq![x]);
    } else {
        lemma_elts_snoc(s.drop_first(), x);
        assert(s.push(x).drop_first() =~= s.drop_first().push(x));
        assert(s.push(x)[0] == s[0]);
        assert(s.push(x).len() == s.len() + 1);
        assert(json_text_elts(s.push(x)) =~= json_text_elts(s) + seq![','] + json_text(x));
    }
}

/// Appending one member extends the serialized member list accordingly.
proof fn lemma_members_snoc(s: Seq<(Seq<char>, JsonVal)>, k: Seq<char>, x: JsonVal)
    ensures
        json_text_members(s.push((k, x))) == if s.len() == 0 {
            seq!['"'] + escape(k) + seq!['"', ':'] + json_text(x)
        } else {
            json_text_members(s) + seq![','] + seq!['"'] + escape(k) + seq!['"', ':']
                + json_text(x)
        },
    decreases s.len(),
{
    if s.len() == 0 {
        assert(s.push((k, x)) =~= seq![(k, x)]);
    } else {
        lemma_members_snoc(s.drop_first(), k, x);
        assert(s.push((k, x)).drop_first() =~= s.drop_first().push((k, x)));
        assert(s.push((k, x))[0] == s[0]);
        assert(json_text_members(s.push((k, x))) =~= json_text_members(s) + seq![','] + seq!['"']
            + escape(k) + seq!['"', ':'] + json_text(x));
    }
}

/// Extending a string extends its escaped form.
proof fn lemma_escape_snoc(s: Seq<char>, c: char)
    ensures
        escape(s.push(c)) == escape(s) + escape_char(c),
    decreases s.len(),
{
    if s.len() == 0 {
        assert(s.push(c) =~= seq![c]);
        assert(seq![c].drop_first() =~= Seq::<char>::empty());
        assert(escape(seq![c]) == escape_char(c) + escape(Seq::<char>::empty()));
        assert(escape(s.push(c)) =~= escape_char(c));
        assert(escape(s) + escape_char(c) =~= escape_char(c));
    } else {
        lemma_escape_snoc(s.drop_first(), c);
        assert(s.push(c).drop_first() =~= s.drop_first().push(c));
        assert(s.push(c)[0] == s[0]);
        assert(escape(s.push(c)) =~= escape(s) + escape_char(c));
    }
}

/// Writes the escaped form of `s` at the end of `out`.
fn write_escaped(s: &str, out: &mut String)
    ensures
        final(out)@ == old(out)@ + escape(s@),
{
    let n = s.unicode_len();
    let mut i: usize = 0;
    while i < n
        invariant
            n == s@.len(),
            i <= n,
            out@ == old(out)@ + escape(s@.subrange(0, i as int)),
        decreases n - i,
    {
        let c = s.get_char(i);
        if c == '"' {
            crate::text::push_char(out, '\\');
            crate::text::push_char(out, '"');
        } else if c == '\\' {
            crate::text::push_char(out, '\\');
            crate::text::push_char(out, '\\');
        } else if c == '\n' {
            crate::text::push_char(out, '\\');
            crate::text::push_char(out, 'n');
        } else if c == '\r' {
            crate::text::push_char(out, '\\');
            crate::text::push_char(out, 'r');
        } else if c == '\t' {
            crate::text::push_char(out, '\\');
            crate::text::push_char(out, 't');
        } else if c == '\u{8}' {
            crate::text::push_char(out, '\\');
            crate::text::push_char(out, 'b');
        } else if c == '\u{c}' {
            crate::text::push_char(out, '\\');
            crate::text::push_char(out, 'f');
        } else {
            crate::text::push_char(out, c);
        }
        proof {
            lemma_escape_snoc(s@.subrange(0, i as int), s@[i as int]);
            assert(s@.subrange(0, i + 1 as int) =~= s@.subrange(0, i as int).push(s@[i as int]));
            assert(out@ =~= old(out)@ + escape(s@.subrange(0, i + 1 as int)));
        }
        i = i + 1;
    }
    proof {
        assert(s@.subrange(0, n as int) =~= s@);
    }
}

/// Writes the serialized text of `v` at the end of `out`.
#[verifier::loop_isolation(false)]
#[verifier::rlimit(50)]
fn write_json(v: &JsonValue, out: &mut String)
    ensures
        final(out)@ == old(out)@ + json_text(v@),
    decreases v,
{
    match v {
        JsonValue::Null => {
            proof {
                reveal_strlit("null");
                assert("null"@ =~= seq!['n', 'u', 'l', 'l']);
            }
            out.append("null");
        },
        JsonValue::Bool(b) => {
            if *b {
                proof {
                    reveal_strlit("true");
                    assert("true"@ =~= seq!['t', 'r', 'u', 'e']);
                }
                out.append("true");
            } else {
                proof {
                    reveal_strlit("false");
                    assert("false"@ =~= seq!['f', 'a', 'l', 's', 'e']);
                }
                out.append("false");
            }
        },
        JsonValue::Num(lit) => {
            out.append(lit.as_str());
        },
        JsonValue::Str(s) => {
            crate::text::push_char(out, '"');
            write_escaped(s.as_str(), out);
            crate::text::push_char(out, '"');
            proof {
                assert(out@ =~= old(out)@ + json_text(v@));
            }
        },
        JsonValue::Arr(elts) => {
            crate::text::push_char(out, '[');
            let ghost base = out@;
            let ghost model = jv(*v)->Arr_0;
            proof {
                lemma_jv_seq(elts@);
            }
            let n = elts.len();
            let mut i: usize = 0;
            while i < n
                invariant
                    n == elts@.len(),
                    i <= n,
                    model == jv_seq(elts@),
                    model.len() == n,
                    forall|k: int| 0 <= k < n ==> model[k] == jv(elts@[k]),
                    out@ == base + json_text_elts(model.subrange(0, i as int)),
                decreases n - i,
            {
                if i > 0 {
                    crate::text::push_char(out, ',');
                }
                proof {
                    assert(decreases_to!(*elts => elts@[i as int]));
                }
                write_json(&elts[i], out);
                proof {
                    lemma_elts_snoc(model.subrange(0, i as int), model[i as int]);
                    assert(model.subrange(0, i + 1 as int) =~= model.subrange(0, i as int).push(
                        model[i as int],
                    ));
                    assert(out@ =~= base + json_text_elts(model.subrange(0, i + 1 as int)));
                }
                i = i + 1;
            }
            crate::text::push_char(out, ']');
            proof {
                assert(model.subrange(0, n as int) =~= model);
                assert(out@ =~= old(out)@ + json_text(v@));
            }
        },
        JsonValue::Obj(ms) => {
            crate::text::push_char(out, '{');
            let ghost base = out@;
            let ghost model = jv(*v)->Obj_0;
            proof {
                lemma_jv_pairs(ms@);
            }
            let n = ms.len();
            let mut i: usize = 0;
            while i < n
                invariant
                    n == ms@.len(),
                    i <= n,
                    model == jv_pairs(ms@),
                    model.len() == n,
                    forall|k: int| 0 <= k < n ==> model[k] == (ms@[k].0@, jv(ms@[k].1)),
                    out@ == base + json_text_members(model.subrange(0, i as int)),
                decreases n - i,
            {
                if i > 0 {
                    crate::text::push_char(out, ',');
                }
                crate::text::push_char(out, '"');
                write_escaped(ms[i].0.as_str(), out);
                crate::text::push_char(out, '"');
                crate::text::push_char(out, ':');
                proof {
                    assert(decreases_to!(*ms => ms@[i as int]));
                    assert(decreases_to!(ms@[i as int] => ms@[i as int].1));
                }
                write_json(&ms[i].1, out);
                proof {
                    lemma_members_snoc(
                        model.subrange(0, i as int),
                        model[i as int].0,
                        model[i as int].1,
                    );
                    assert(model.subrange(0, i + 1 as int) =~= model.subrange(0, i as int).push(
                        model[i as int],
                    ));
                    assert(model[i as int] == (model[i as int].0, model[i as int].1));
                    assert(out@ =~= base + json_text_members(model.subrange(0, i + 1 as int)));
                }
                i = i + 1;
            }
            crate::text::push_char(out, '}');
            proof {
                assert(model.subrange(0, n as int) =~= model);
                assert(out@ =~= old(out)@ + json_text(v@));
            }
        },
    }
}

/// The serialized text of a structured value, as a string.
pub fn to_json_text(v: &JsonValue) -> (r: String)
    ensures
        r@ == json_text(v@),
{
    let mut out = String::new();
    write_json(v, &mut out);
    out
}

/// A whitespace character, as the parser skips it.
pub open spec fn is_ws(c: char) -> bool {
    c == ' ' || c == '\n' || c == '\r' || c == '\t'
}

/// A decimal digit.
pub open spec fn is_digit(c: char) -> bool {
    '0' <= c && c <= '9'
}

/// The first position at or after `i` holding a non-whitespace character.
pub open spec fn skip_ws(s: Seq<char>, i: int) -> int
    decreases s.len() - i,
    when 0 <= i <= s.len()
{
    if i < s.len() && is_ws(s[i]) {
        skip_ws(s, i + 1)
    } else {
        i
    }
}

/// The first position at or after `i` holding a non-digit character.
pub open spec fn skip_digits(s: Seq<char>, i: int) -> int
    decreases s.len() - i,
    when 0 <= i <= s.len()
{
    if i < s.len() && is_digit(s[i]) {
        skip_digits(s, i + 1)
    } else {
        i
    }
}

/// The character denoted by a backslash escape, if the escape is recognized.
pub open spec fn unescape_char(c: char) -> Option<char> {
    if c == '"' {
        Some('"')
    } else if c == '\\' {
        Some('\\')
    } else if c == '/' {
        Some('/')
    } else if c == 'n' {
        Some('\n')
    } else if c == 'r' {
        Some('\r')
    } else if c == 't' {
        Some('\t')
    } else if c == 'b' {
        Some('\u{8}')
    } else if c == 'f' {
        Some('\u{c}')
    } else {
        None
    }
}

/// Parses the interior of a string literal starting at `i` (just after the
/// opening quote); on success yields the contents and the position after the
/// closing quote.
pub open spec fn spec_parse_string_body(s: Seq<char>, i: int) -> Option<(Seq<char>, int)>
    decreases s.len() - i, 0int,
    when 0 <= i <= s.len()
{
    if i >= s.len() {
        None
    } else if s[i] == '"' {
        Some((Seq::empty(), i + 1))
    } else if s[i] == '\\' {
        if i + 1 < s.len() {
            match unescape_char(s[i + 1]) {
                Some(c) => match spec_parse_string_body(s, i + 2) {
                    Some((t, j)) => Some((seq![c] + t, j)),
                    None => None,
                },
                None => None,
            }
        } else {
            None
        }
    } else {
        match spec_parse_string_body(s, i + 1) {
            Some((t, j)) => Some((seq![s[i]] + t, j)),
            None => None,
        }
    }
}

/// The position just after a number literal starting at `i`, if one is there.
pub open spec fn spec_number_end(s: Seq<char>, i: int) -> Option<int>
    recommends
        0 <= i <= s.len(),
{
    let a = if i < s.len() && s[i] == '-' {
        i + 1
    } else {
        i
    };
    if a > s.len() {
        None
    } else {
        let b = skip_digits(s, a);
        if b == a {
            None
        } else {
            let c = if b < s.len() && s[b] == '.' {
                let d = skip_digits(s, b + 1);
                if d == b + 1 {
                    -1
                } else {
                    d
                }
            } else {
                b
            };
            if c < 0 {
                None
            } else {
                let e = if c < s.len() && (s[c] == 'e' || s[c] == 'E') {
                    let f = if c + 1 < s.len() && (s[c + 1] == '+' || s[c + 1] == '-') {
                        c + 2
                    } else {
                        c + 1
                    };
                    if f > s.len() {
                        -1
                    } else {
                        let g = skip_digits(s, f);
                        if g == f {
                            -1
                        } else {
                            g
                        }
                    }
                } else {
                    c
                };
                if e < 0 {
                    None
                } else {
                    Some(e)
                }
            }
        }
    }
}

/// `s` is, in full, one valid number literal.
pub open spec fn is_number_lit(s: Seq<char>) -> bool {
    spec_number_end(s, 0) == Some(s.len() as int)
}

/// Parses one structured value starting at `i` (leading whitespace allowed);
/// on success yields the value and the position just after it.
pub open spec fn spec_parse_value(s: Seq<char>, i: int) -> Option<(JsonVal, int)>
    decreases s.len() - i, 1int,
    when 0 <= i <= s.len()
{
    let j = skip_ws(s, i);
    if j < i || j >= s.len() {
        None
    } else {
        let c = s[j];
        if c == 'n' {
            if j + 4 <= s.len() && s.subrange(j, j + 4) == seq!['n', 'u', 'l', 'l'] {
                Some((JsonVal::Null, j + 4))
            } else {
                None
            }
        } else if c == 't' {
            if j + 4 <= s.len() && s.subrange(j, j + 4) == seq!['t', 'r', 'u', 'e'] {
                Some((JsonVal::Bool(true), j + 4))
            } else {
                None
            }
        } else if c == 'f' {
            if j + 5 <= s.len() && s.subrange(j, j + 5) == seq!['f', 'a', 'l', 's', 'e'] {
                Some((JsonVal::Bool(false), j + 5))
            } else {
                None
            }
        } else if c == '"' {
            match spec_parse_string_body(s, j + 1) {
                Some((t, k)) => if j + 1 <= k <= s.len() {
                    Some((JsonVal::Str(t), k))
                } else {
                    None
                },
                None => None,
            }
        } else if c == '[' {
            match spec_parse_elements(s, j + 1) {
                Some((es, k)) => Some((JsonVal::Arr(es), k)),
                None => None,
            }
        } else if c == '{' {
            match spec_parse_members(s, j + 1) {
                Some((ms, k)) => Some((JsonVal::Obj(ms), k)),
                None => None,
            }
        } else {
            match spec_number_end(s, j) {
                Some(k) => if j < k <= s.len() {
                    Some((JsonVal::Num(s.subrange(j, k)), k))
                } else {
                    None
                },
                None => None,
            }
        }
    }
}

/// Parses the elements of an array starting at `i` (just after `[`);
/// on success yields the elements and the position after the closing bracket.
pub open spec fn spec_parse_elements(s: Seq<char>, i: int) -> Option<(Seq<JsonVal>, int)>
    decreases s.len() - i, 2int,
    when 0 <= i <= s.len()
{
    let j = skip_ws(s, i);
    if j < i || j >= s.len() {
        None
    } else if s[j] == ']' {
        Some((Seq::empty(), j + 1))
    } else {
        match spec_parse_value(s, j) {
            Some((v, k)) => if k <= j || k > s.len() {
                None
            } else {
                match spec_parse_elements_rest(s, k) {
                    Some((vs, m)) => Some((seq![v] + vs, m)),
                    None => None,
                }
            },
            None => None,
        }
    }
}

/// Parses `, value`* `]` after one array element.
pub open spec fn spec_parse_elements_rest(s: Seq<char>, i: int) -> Option<(Seq<JsonVal>, int)>
    decreases s.len() - i, 2int,
    when 0 <= i <= s.len()
{
    let j = skip_ws(s, i);
    if j < i || j >= s.len() {
        None
    } else if s[j] == ']' {
        Some((Seq::empty(), j + 1))
    } else if s[j] == ',' {
        match spec_parse_value(s, j + 1) {
            Some((v, k)) => if k <= j + 1 || k > s.len() {
                None
            } else {
                match spec_parse_elements_rest(s, k) {
                    Some((vs, m)) => Some((seq![v] + vs, m)),
                    None => None,
                }
            },
            None => None,
        }
    } else {
        None
    }
}

/// Parses one `"key": value` member starting at `i` (leading whitespace
/// allowed); on success yields the member and the position just after it.
pub open spec fn spec_parse_member(s: Seq<char>, i: int) -> Option<((Seq<char>, JsonVal), int)>
    decreases s.len() - i, 1int,
    when 0 <= i <= s.len()
{
    let j = skip_ws(s, i);
    if j < i || j >= s.len() {
        None
    } else if s[j] != '"' {
        None
    } else {
        match spec_parse_string_body(s, j + 1) {
            Some((key, k)) => if k <= j + 1 || k > s.len() {
                None
            } else {
                let m = skip_ws(s, k);
                if m < k || m >= s.len() || s[m] != ':' {
                    None
                } else {
                    match spec_parse_value(s, m + 1) {
                        Some((v, p)) => if p <= m + 1 || p > s.len() {
                            None
                        } else {
                            Some(((key, v), p))
                        },
                        None => None,
                    }
                }
            },
            None => None,
        }
    }
}

/// Parses the members of an object starting at `i` (just after `{`);
/// on success yields the members and the position after the closing brace.
pub open spec fn spec_parse_members(s: Seq<char>, i: int) -> Option<
    (Seq<(Seq<char>, JsonVal)>, int),
>
    decreases s.len() - i, 2int,
    when 0 <= i <= s.len()
{
    let j = skip_ws(s, i);
    if j < i || j >= s.len() {
        None
    } else if s[j] == '}' {
        Some((Seq::empty(), j + 1))
    } else {
        match spec_parse_member(s, j) {
            Some((kv, p)) => if p <= j || p > s.len() {
                None
            } else {
                match spec_parse_members_rest(s, p) {
                    Some((ms, m)) => Some((seq![kv] + ms, m)),
                    None => None,
                }
            },
            None => None,
        }
    }
}

/// Parses `, "key": value`* `}` after one object member.
pub open spec fn spec_parse_members_rest(s: Seq<char>, i: int) -> Option<
    (Seq<(Seq<char>, JsonVal)>, int),
>
    decreases s.len() - i, 2int,
    when 0 <= i <= s.len()
{
    let j = skip_ws(s, i);
    if j < i || j >= s.len() {
        None
    } else if s[j] == '}' {
        Some((Seq::empty(), j + 1))
    } else if s[j] == ',' {
        match spec_parse_member(s, j + 1) {
            Some((kv, p)) => if p <= j + 1 || p > s.len() {
                None
            } else {
                match spec_parse_members_rest(s, p) {
                    Some((ms, m)) => Some((seq![kv] + ms, m)),
                    None => None,
                }
            },
            None => None,
        }
    } else {
        None
    }
}

/// Parses a whole text as one structured value: one value, with nothing but
/// whitespace after it.
pub open spec fn spec_parse_json(s: Seq<char>) -> Option<JsonVal> {
    match spec_parse_value(s, 0) {
        Some((v, k)) => if 0 <= k <= s.len() && skip_ws(s, k) == s.len() {
            Some(v)
        } else {
            None
        },
        None => None,
    }
}

/// Exec mirror of `skip_ws`.
pub(crate) fn skip_ws_exec(s: &Vec<char>, i: usize) -> (r: usize)
    requires
        i <= s@.len(),
    ensures
        r == skip_ws(s@, i as int),
        i <= r <= s@.len(),
{
    let n = s.len();
    let mut j = i;
    loop
        invariant
            i <= j <= n,
            n == s@.len(),
            skip_ws(s@, i as int) == skip_ws(s@, j as int),
        ensures
            j == skip_ws(s@, i as int),
        decreases n - j,
    {
        if j == n {
            break;
        }
        let c = s[j];
        if !(c == ' ' || c == '\n' || c == '\r' || c == '\t') {
            break;
        }
        j = j + 1;
    }
    j
}

/// Exec mirror of `skip_digits`.
fn skip_digits_exec(s: &Vec<char>, i: usize) -> (r: usize)
    requires
        i <= s@.len(),
    ensures
        r == skip_digits(s@, i as int),
        i <= r <= s@.len(),
{
    let n = s.len();
    let mut j = i;
    loop
        invariant
            i <= j <= n,
            n == s@.len(),
            skip_digits(s@, i as int) == skip_digits(s@, j as int),
        ensures
            j == skip_digits(s@, i as int),
        decreases n - j,
    {
        if j == n {
            break;
        }
        let c = s[j];
        if !('0' <= c && c <= '9') {
            break;
        }
        j = j + 1;
    }
    j
}

/// Exec mirror of `unescape_char`.
fn unescape_exec(c: char) -> (r: Option<char>)
    ensures
        r == unescape_char(c),
{
    if c == '"' {
        Some('"')
    } else if c == '\\' {
        Some('\\')
    } else if c == '/' {
        Some('/')
    } else if c == 'n' {
        Some('\n')
    } else if c == 'r' {
        Some('\r')
    } else if c == 't' {
        Some('\t')
    } else if c == 'b' {
        Some('\u{8}')
    } else if c == 'f' {
        Some('\u{c}')
    } else {
        None
    }
}

/// Exec mirror of `spec_parse_string_body`.
fn parse_string_body(s: &Vec<char>, i: usize) -> (r: Option<(Vec<char>, usize)>)
    requires
        i <= s@.len(),
    ensures
        match r {
            Some(p) => spec_parse_string_body(s@, i as int) == Some((p.0@, p.1 as int)) && i
                <= p.1 <= s@.len(),
            None => spec_parse_string_body(s@, i as int) is None,
        },
    decreases s@.len() - i, 0int,
{
    let n = s.len();
    if i >= n {
        return None;
    }
    let c = s[i];
    if c == '"' {
        let empty: Vec<char> = Vec::new();
        assert(empty@ =~= Seq::<char>::empty());
        Some((empty, i + 1))
    } else if c == '\\' {
        if i + 1 < n {
            match unescape_exec(s[i + 1]) {
                Some(u) => match parse_string_body(s, i + 2) {
                    Some((mut t, j)) => {
                        let ghost tail = t@;
                        t.insert(0, u);
                        assert(t@ =~= seq![u] + tail);
                        Some((t, j))
                    },
                    None => None,
                },
                None => None,
            }
        } else {
            None
        }
    } else {
        match parse_string_body(s, i + 1) {
            Some((mut t, j)) => {
                let ghost tail = t@;
                t.insert(0, c);
                assert(t@ =~= seq![c] + tail);
                Some((t, j))
            },
            None => None,
        }
    }
}

/// Exec mirror of `spec_number_end`.
fn number_end(s: &Vec<char>, i: usize) -> (r: Option<usize>)
    requires
        i <= s@.len(),
    ensures
        match r {
            Some(k) => spec_number_end(s@, i as int) == Some(k as int) && k <= s@.len(),
            None => spec_number_end(s@, i as int) is None,
        },
{
    let n = s.len();
    let a = if i < n && s[i] == '-' {
        i + 1
    } else {
        i
    };
    let b = skip_digits_exec(s, a);
    if b == a {
        return None;
    }
    let c_opt: Option<usize> = if b < n && s[b] == '.' {
        let d = skip_digits_exec(s, b + 1);
        if d == b + 1 {
            None
        } else {
            Some(d)
        }
    } else {
        Some(b)
    };
    match c_opt {
        None => None,
        Some(c) => {
            if c < n && (s[c] == 'e' || s[c] == 'E') {
                let f = if c + 1 < n && (s[c + 1] == '+' || s[c + 1] == '-') {
                    c + 2
                } else {
                    c + 1
                };
                let g = skip_digits_exec(s, f);
                if g == f {
                    None
                } else {
                    Some(g)
                }
            } else {
                Some(c)
            }
        },
    }
}

/// Exec mirror of `spec_parse_value`.
fn parse_value_at(s: &Vec<char>, i: usize) -> (r: Option<(JsonValue, usize)>)
    requires
        i <= s@.len(),
    ensures
        match r {
            Some(p) => spec_parse_value(s@, i as int) == Some((p.0@, p.1 as int)) && p.1
                <= s@.len(),
            None => spec_parse_value(s@, i as int) is None,
        },
    decreases s@.len() - i, 1int,
{
    let n = s.len();
    let j = skip_ws_exec(s, i);
    if j >= n {
        return None;
    }
    let c = s[j];
    if c == 'n' {
        let pat = vec!['n', 'u', 'l', 'l'];
        if n - j >= 4 && crate::text::matches_at(s, &pat, j) {
            proof {
                assert(s@.subrange(j as int, j + 4 as int) == pat@);
                assert(pat@ =~= seq!['n', 'u', 'l', 'l']);
            }
            Some((JsonValue::Null, j + 4))
        } else {
            proof {
                if j + 4 <= n {
                    assert(pat@ =~= seq!['n', 'u', 'l', 'l']);
                }
            }
            None
        }
    } else if c == 't' {
        let pat = vec!['t', 'r', 'u', 'e'];
        if n - j >= 4 && crate::text::matches_at(s, &pat, j) {
            proof {
                assert(s@.subrange(j as int, j + 4 as int) == pat@);
                assert(pat@ =~= seq!['t', 'r', 'u', 'e']);
            }
            Some((JsonValue::Bool(true), j + 4))
        } else {
            proof {
                if j + 4 <= n {
                    assert(pat@ =~= seq!['t', 'r', 'u', 'e']);
                }
            }
            None
        }
    } else if c == 'f' {
        let pat = vec!['f', 'a', 'l', 's', 'e'];
        if n - j >= 5 && crate::text::matches_at(s, &pat, j) {
            proof {
                assert(s@.subrange(j as int, j + 5 as int) == pat@);
                assert(pat@ =~= seq!['f', 'a', 'l', 's', 'e']);
            }
            Some((JsonValue::Bool(false), j + 5))
        } else {
            proof {
                if j + 5 <= n {
                    assert(pat@ =~= seq!['f', 'a', 'l', 's', 'e']);
                }
            }
            None
        }
    } else if c == '"' {
        match parse_string_body(s, j + 1) {
            Some((t, k)) => {
                let text = crate::text::chars_to_string(&t);
                Some((JsonValue::Str(text), k))
            },
            None => None,
        }
    } else if c == '[' {
        match parse_elements_at(s, j + 1) {
            Some((es, k)) => Some((JsonValue::Arr(es), k)),
            None => None,
        }
    } else if c == '{' {
        match parse_members_at(s, j + 1) {
            Some((ms, k)) => Some((JsonValue::Obj(ms), k)),
            None => None,
        }
    } else {
        match number_end(s, j) {
            Some(k) => {
                if j < k {
                    let lit = crate::text::chars_range_to_string(s, j, k);
                    Some((JsonValue::Num(lit), k))
                } else {
                    None
                }
            },
            None => None,
        }
    }
}

/// Exec mirror of `spec_parse_elements`.
fn parse_elements_at(s: &Vec<char>, i: usize) -> (r: Option<(Vec<JsonValue>, usize)>)
    requires
        i <= s@.len(),
    ensures
        match r {
            Some(p) => spec_parse_elements(s@, i as int) == Some((jv_seq(p.0@), p.1 as int))
                && p.1 <= s@.len(),
            None => spec_parse_elements(s@, i as int) is None,
        },
    decreases s@.len() - i, 2int,
{
    let n = s.len();
    let j = skip_ws_exec(s, i);
    if j >= n {
        return None;
    }
    if s[j] == ']' {
        let empty: Vec<JsonValue> = Vec::new();
        proof {
            assert(jv_seq(empty@) =~= Seq::<JsonVal>::empty());
        }
        return Some((empty, j + 1));
    }
    match parse_value_at(s, j) {
        Some((v, k)) => {
            if k <= j {
                return None;
            }
            match parse_elements_rest_at(s, k) {
                Some((mut vs, m)) => {
                    let ghost tail = vs@;
                    vs.insert(0, v);
                    proof {
                        assert(vs@ =~= seq![v] + tail);
                        lemma_jv_seq_cons(v, tail);
                    }
                    Some((vs, m))
                },
                None => None,
            }
        },
        None => None,
    }
}

/// Exec mirror of `spec_parse_elements_rest`.
fn parse_elements_rest_at(s: &Vec<char>, i: usize) -> (r: Option<(Vec<JsonValue>, usize)>)
    requires
        i <= s@.len(),
    ensures
        match r {
            Some(p) => spec_parse_elements_rest(s@, i as int) == Some(
                (jv_seq(p.0@), p.1 as int),
            ) && p.1 <= s@.len(),
            None => spec_parse_elements_rest(s@, i as int) is None,
        },
    decreases s@.len() - i, 2int,
{
    let n = s.len();
    let j = skip_ws_exec(s, i);
    if j >= n {
        return None;
    }
    if s[j] == ']' {
        let empty: Vec<JsonValue> = Vec::new();
        proof {
            assert(jv_seq(empty@) =~= Seq::<JsonVal>::empty());
        }
        return Some((empty, j + 1));
    }
    if s[j] != ',' {
        return None;
    }
    match parse_value_at(s, j + 1) {
        Some((v, k)) => {
            if k <= j + 1 {
                return None;
            }
            match parse_elements_rest_at(s, k) {
                Some((mut vs, m)) => {
                    let ghost tail = vs@;
                    vs.insert(0, v);
                    proof {
                        assert(vs@ =~= seq![v] + tail);
                        lemma_jv_seq_cons(v, tail);
                    }
                    Some((vs, m))
                },
                None => None,
            }
        },
        None => None,
    }
}

/// Exec mirror of `spec_parse_member`.
fn parse_member_at(s: &Vec<char>, i: usize) -> (r: Option<((String, JsonValue), usize)>)
    requires
        i <= s@.len(),
    ensures
        match r {
            Some(p) => spec_parse_member(s@, i as int) == Some(
                ((p.0.0@, p.0.1@), p.1 as int),
            ) && p.1 <= s@.len(),
            None => spec_parse_member(s@, i as int) is None,
        },
    decreases s@.len() - i, 1int,
{
    let n = s.len();
    let j = skip_ws_exec(s, i);
    if j >= n {
        return None;
    }
    if s[j] != '"' {
        return None;
    }
    match parse_string_body(s, j + 1) {
        Some((kt, k)) => {
            if k <= j + 1 {
                return None;
            }
            let m = skip_ws_exec(s, k);
            if m >= n {
                return None;
            }
            if s[m] != ':' {
                return None;
            }
            match parse_value_at(s, m + 1) {
                Some((v, p)) => {
                    if p <= m + 1 {
                        return None;
                    }
                    let key = crate::text::chars_to_string(&kt);
                    Some(((key, v), p))
                },
                None => None,
            }
        },
        None => None,
    }
}

/// Exec mirror of `spec_parse_members`.
fn parse_members_at(s: &Vec<char>, i: usize) -> (r: Option<(Vec<(String, JsonValue)>, usize)>)
    requires
        i <= s@.len(),
    ensures
        match r {
            Some(p) => spec_parse_members(s@, i as int) == Some((jv_pairs(p.0@), p.1 as int))
                && p.1 <= s@.len(),
            None => spec_parse_members(s@, i as int) is None,
        },
    decreases s@.len() - i, 2int,
{
    let n = s.len();
    let j = skip_ws_exec(s, i);
    if j >= n {
        return None;
    }
    if s[j] == '}' {
        let empty: Vec<(String, JsonValue)> = Vec::new();
        proof {
            assert(jv_pairs(empty@) =~= Seq::<(Seq<char>, JsonVal)>::empty());
        }
        return Some((empty, j + 1));
    }
    match parse_member_at(s, j) {
        Some((kv, p)) => {
            if p <= j {
                return None;
            }
            match parse_members_rest_at(s, p) {
                Some((mut ms, m)) => {
                    let ghost tail = ms@;
                    ms.insert(0, kv);
                    proof {
                        assert(ms@ =~= seq![(ms@[0].0, ms@[0].1)] + tail);
                        lemma_jv_pairs_cons(ms@[0], tail);
                    }
                    Some((ms, m))
                },
                None => None,
            }
        },
        None => None,
    }
}

/// Exec mirror of `spec_parse_members_rest`.
fn parse_members_rest_at(s: &Vec<char>, i: usize) -> (r: Option<
    (Vec<(String, JsonValue)>, usize),
>)
    requires
        i <= s@.len(),
    ensures
        match r {
            Some(p) => spec_parse_members_rest(s@, i as int) == Some(
                (jv_pairs(p.0@), p.1 as int),
            ) && p.1 <= s@.len(),
            None => spec_parse_members_rest(s@, i as int) is None,
        },
    decreases s@.len() - i, 2int,
{
    let n = s.len();
    let j = skip_ws_exec(s, i);
    if j >= n {
        return None;
    }
    if s[j] == '}' {
        let empty: Vec<(String, JsonValue)> = Vec::new();
        proof {
            assert(jv_pairs(empty@) =~= Seq::<(Seq<char>, JsonVal)>::empty());
        }
        return Some((empty, j + 1));
    }
    if s[j] != ',' {
        return None;
    }
    match parse_member_at(s, j + 1) {
        Some((kv, p)) => {
            if p <= j + 1 {
                return None;
            }
            match parse_members_rest_at(s, p) {
                Some((mut ms, m)) => {
                    let ghost tail = ms@;
                    ms.insert(0, kv);
                    proof {
                        assert(ms@ =~= seq![(ms@[0].0, ms@[0].1)] + tail);
                        lemma_jv_pairs_cons(ms@[0], tail);
                    }
                    Some((ms, m))
                },
                None => None,
            }
        },
        None => None,
    }
}

/// `jv_seq` of a cons.
proof fn lemma_jv_seq_cons(x: JsonValue, t: Seq<JsonValue>)
    ensures
        jv_seq(seq![x] + t) == seq![jv(x)] + jv_seq(t),
{
    let s = seq![x] + t;
    assert(s[0] == x);
    assert(s.drop_first() =~= t);
}

/// `jv_pairs` of a cons.
proof fn lemma_jv_pairs_cons(x: (String, JsonValue), t: Seq<(String, JsonValue)>)
    ensures
        jv_pairs(seq![x] + t) == seq![(x.0@, jv(x.1))] + jv_pairs(t),
{
    let s = seq![x] + t;
    assert(s[0] == x);
    assert(s.drop_first() =~= t);
}

/// Parses a whole character vector as one structured value.
pub fn parse_json_chars(s: &Vec<char>) -> (r: Option<JsonValue>)
    ensures
        match r {
            Some(v) => spec_parse_json(s@) == Some(v@),
            None => spec_parse_json(s@) is None,
        },
{
    match parse_value_at(s, 0) {
        Some((v, k)) => {
            let m = skip_ws_exec(s, k);
            if m == s.len() {
                Some(v)
            } else {
                None
            }
        },
        None => None,
    }
}

/// Parses a whole text as one structured value.
pub fn parse_json(text: &str) -> (r: Option<JsonValue>)
    ensures
        match r {
            Some(v) => spec_parse_json(text@) == Some(v@),
            None => spec_parse_json(text@) is None,
        },
{
    let chars = crate::text::str_to_chars(text);
    parse_json_chars(&chars)
}

/// A well-formed model: every number literal in it is a valid literal.
pub open spec fn json_wf(v: JsonVal) -> bool
    decreases v,
{
    match v {
        JsonVal::Null => true,
        JsonVal::Bool(_) => true,
        JsonVal::Num(lit) => is_number_lit(lit),
        JsonVal::Str(_) => true,
        JsonVal::Arr(elts) => json_wf_seq(elts),
        JsonVal::Obj(ms) => json_wf_pairs(ms),
    }
}

/// Well-formedness of every element.
pub open spec fn json_wf_seq(elts: Seq<JsonVal>) -> bool
    decreases elts,
{
    if elts.len() == 0 {
        true
    } else {
        json_wf(elts[0]) && json_wf_seq(elts.drop_first())
    }
}

/// Well-formedness of every member value.
pub open spec fn json_wf_pairs(ms: Seq<(Seq<char>, JsonVal)>) -> bool
    decreases ms,
{
    if ms.len() == 0 {
        true
    } else {
        json_wf(ms[0].1) && json_wf_pairs(ms.drop_first())
    }
}

/// The text `t` stands in `s` starting at `i`.
pub open spec fn text_at(s: Seq<char>, i: int, t: Seq<char>) -> bool {
    &&& 0 <= i
    &&& i + t.len() <= s.len()
    &&& forall|k: int| 0 <= k < t.len() ==> s[i + k] == #[trigger] t[k]
}

/// A concatenation stands at `i` exactly when its parts stand in sequence.
proof fn lemma_text_at_concat(s: Seq<char>, i: int, a: Seq<char>, b: Seq<char>)
    requires
        text_at(s, i, a + b),
    ensures
        text_at(s, i, a),
        text_at(s, i + a.len(), b),
{
    assert forall|k: int| 0 <= k < a.len() implies s[i + k] == #[trigger] a[k] by {
        assert((a + b)[k] == a[k]);
    }
    assert forall|k: int| 0 <= k < b.len() implies s[i + a.len() + k] == #[trigger] b[k] by {
        assert((a + b)[a.len() + k] == b[k]);
    }
}

/// A character that could extend a number literal.
pub open spec fn num_cont(c: char) -> bool {
    is_digit(c) || c == '.' || c == 'e' || c == 'E' || c == '+' || c == '-'
}

/// Nothing at `j` can extend a number literal that ends there.
pub open spec fn no_num_extension(s: Seq<char>, j: int) -> bool {
    j == s.len() || !num_cont(s[j])
}

/// `skip_digits` stays within bounds, passes only digits, and stops at a
/// non-digit.
proof fn lemma_skip_digits_bounds(s: Seq<char>, i: int)
    requires
        0 <= i <= s.len(),
    ensures
        i <= skip_digits(s, i) <= s.len(),
        skip_digits(s, i) < s.len() ==> !is_digit(s[skip_digits(s, i)]),
        forall|k: int| i <= k < skip_digits(s, i) ==> is_digit(s[k]),
    decreases s.len() - i,
{
    if i < s.len() && is_digit(s[i]) {
        lemma_skip_digits_bounds(s, i + 1);
    }
}

/// Scanning digits inside an embedded copy of `lit` mirrors scanning `lit`
/// itself, provided nothing after the copy is a digit.
proof fn lemma_skip_digits_embedded(lit: Seq<char>, s: Seq<char>, i: int, j: int)
    requires
        text_at(s, i, lit),
        0 <= j <= lit.len(),
        i + lit.len() == s.len() || !is_digit(s[i + lit.len()]),
    ensures
        skip_digits(s, i + j) == i + skip_digits(lit, j),
    decreases lit.len() - j,
{
    if j < lit.len() {
        assert(s[i + j] == lit[j]);
        if is_digit(lit[j]) {
            lemma_skip_digits_embedded(lit, s, i, j + 1);
        }
    }
}

/// A valid number literal embedded with nothing extending it scans to
/// exactly its own end.
proof fn lemma_number_embedded(lit: Seq<char>, s: Seq<char>, i: int)
    requires
        is_number_lit(lit),
        text_at(s, i, lit),
        no_num_extension(s, i + lit.len()),
    ensures
        spec_number_end(s, i) == Some(i + lit.len()),
        lit.len() > 0,
{
    let n = lit.len() as int;
    if n == 0 {
        assert(skip_digits(lit, 0) == 0);
        assert(false);
    }
    assert(s[i] == lit[0]);
    let a0: int = if lit[0] == '-' {
        1
    } else {
        0
    };
    lemma_skip_digits_bounds(lit, a0);
    let b0 = skip_digits(lit, a0);
    lemma_skip_digits_embedded(lit, s, i, a0);
    if b0 == a0 {
        assert(false);
    }
    if b0 < n {
        assert(s[i + b0] == lit[b0]);
    }
    let c0: int = if b0 < n && lit[b0] == '.' {
        lemma_skip_digits_bounds(lit, b0 + 1);
        lemma_skip_digits_embedded(lit, s, i, b0 + 1);
        let d0 = skip_digits(lit, b0 + 1);
        if d0 == b0 + 1 {
            assert(false);
        }
        d0
    } else {
        b0
    };
    if c0 < n {
        assert(s[i + c0] == lit[c0]);
    }
    if c0 < n && (lit[c0] == 'e' || lit[c0] == 'E') {
        let f0: int = if c0 + 1 < n && (lit[c0 + 1] == '+' || lit[c0 + 1] == '-') {
            c0 + 2
        } else {
            c0 + 1
        };
        if c0 + 1 < n {
            assert(s[i + c0 + 1] == lit[c0 + 1]);
        }
        if c0 + 1 == n {
            assert(false);
        }
        lemma_skip_digits_bounds(lit, f0);
        lemma_skip_digits_embedded(lit, s, i, f0);
        let g0 = skip_digits(lit, f0);
        if g0 == f0 {
            assert(false);
        }
        assert(g0 == n);
    } else {
        assert(c0 == n);
    }
}

/// An escaped string body embedded before a closing quote parses back to
/// exactly the original contents.
proof fn lemma_string_embedded(c: Seq<char>, s: Seq<char>, i: int)
    requires
        text_at(s, i, escape(c)),
        i + escape(c).len() < s.len(),
        s[i + escape(c).len()] == '"',
    ensures
        spec_parse_string_body(s, i) == Some((c, i + escape(c).len() + 1)),
    decreases c.len(),
{
    if c.len() == 0 {
        assert(escape(c).len() == 0);
        assert(s[i] == '"');
        assert(spec_parse_string_body(s, i) == Some((Seq::<char>::empty(), i + 1)));
        assert(c =~= Seq::<char>::empty());
    } else {
        let e0 = escape_char(c[0]);
        let rest = c.drop_first();
        assert(escape(c) == e0 + escape(rest));
        lemma_text_at_concat(s, i, e0, escape(rest));
        if e0.len() == 2 {
            assert(s[i] == e0[0]);
            assert(s[i + 1] == e0[1]);
            assert(e0[0] == '\\');
            assert(unescape_char(e0[1]) == Some(c[0]));
            lemma_string_embedded(rest, s, i + 2);
            assert(seq![c[0]] + rest =~= c);
        } else {
            assert(e0 =~= seq![c[0]]);
            assert(e0[0] == c[0]);
            assert(s[i] == e0[0]);
            assert(s[i] == c[0]);
            assert(c[0] != '"' && c[0] != '\\') by {
                if c[0] == '"' || c[0] == '\\' {
                    assert(e0.len() == 2);
                }
            }
            lemma_string_embedded(rest, s, i + 1);
            assert(seq![c[0]] + rest =~= c);
        }
    }
}

/// The serialized text of the elements after the first: each preceded by a
/// comma.
pub open spec fn rest_text_elts(elts: Seq<JsonVal>) -> Seq<char>
    decreases elts,
{
    if elts.len() == 0 {
        Seq::empty()
    } else {
        seq![','] + json_text(elts[0]) + rest_text_elts(elts.drop_first())
    }
}

/// The serialized text of one member.
pub open spec fn member_text(m: (Seq<char>, JsonVal)) -> Seq<char> {
    seq!['"'] + escape(m.0) + seq!['"', ':'] + json_text(m.1)
}

/// The serialized text of the members after the first: each preceded by a
/// comma.
pub open spec fn rest_text_members(ms: Seq<(Seq<char>, JsonVal)>) -> Seq<char>
    decreases ms,
{
    if ms.len() == 0 {
        Seq::empty()
    } else {
        seq![','] + member_text(ms[0]) + rest_text_members(ms.drop_first())
    }
}

/// A non-empty element list serializes as its head followed by the rest.
proof fn lemma_elts_text_decomp(elts: Seq<JsonVal>)
    requires
        elts.len() > 0,
    ensures
        json_text_elts(elts) == json_text(elts[0]) + rest_text_elts(elts.drop_first()),
    decreases elts.len(),
{
    if elts.len() == 1 {
        assert(json_text_elts(elts) =~= json_text(elts[0]) + rest_text_elts(
            elts.drop_first(),
        ));
    } else {
        lemma_elts_text_decomp(elts.drop_first());
        assert(json_text_elts(elts) =~= json_text(elts[0]) + rest_text_elts(
            elts.drop_first(),
        ));
    }
}

/// A non-empty member list serializes as its head followed by the rest.
proof fn lemma_members_text_decomp(ms: Seq<(Seq<char>, JsonVal)>)
    requires
        ms.len() > 0,
    ensures
        json_text_members(ms) == member_text(ms[0]) + rest_text_members(ms.drop_first()),
    decreases ms.len(),
{
    if ms.len() == 1 {
        assert(json_text_members(ms) =~= member_text(ms[0]) + rest_text_members(
            ms.drop_first(),
        ));
    } else {
        lemma_members_text_decomp(ms.drop_first());
        assert(json_text_members(ms) =~= member_text(ms[0]) + rest_text_members(
            ms.drop_first(),
        ));
    }
}

/// A character that can open a serialized value.
pub open spec fn is_value_start(c: char) -> bool {
    ||| c == 'n'
    ||| c == 't'
    ||| c == 'f'
    ||| c == '"'
    ||| c == '['
    ||| c == '{'
    ||| c == '-'
    ||| is_digit(c)
}

/// The text of a well-formed value is non-empty and opens with a value
/// start character.
proof fn lemma_value_start(v: JsonVal)
    requires
        json_wf(v),
    ensures
        json_text(v).len() > 0,
        is_value_start(json_text(v)[0]),
    decreases v,
{
    match v {
        JsonVal::Num(lit) => {
            let n = lit.len() as int;
            if n == 0 {
                assert(skip_digits(lit, 0) == 0);
                assert(false);
            }
            if lit[0] != '-' {
                lemma_skip_digits_bounds(lit, 0);
                if skip_digits(lit, 0) == 0 {
                    assert(false);
                }
                assert(is_digit(lit[0]));
            }
        },
        _ => {},
    }
}

/// A serialized well-formed value embedded in a larger text parses back to
/// exactly itself, consuming exactly its own text. A number must not be
/// followed by a character that could extend it.
proof fn lemma_value_embedded(v: JsonVal, s: Seq<char>, i: int)
    requires
        json_wf(v),
        text_at(s, i, json_text(v)),
        v is Num ==> no_num_extension(s, i + json_text(v).len()),
    ensures
        spec_parse_value(s, i) == Some((v, i + json_text(v).len())),
    decreases v, 0int,
{
    lemma_value_start(v);
    assert(s[i] == json_text(v)[0]);
    assert(skip_ws(s, i) == i);
    match v {
        JsonVal::Null => {
            assert(s.subrange(i, i + 4) =~= seq!['n', 'u', 'l', 'l']);
        },
        JsonVal::Bool(b) => {
            if b {
                assert(s.subrange(i, i + 4) =~= seq!['t', 'r', 'u', 'e']);
            } else {
                assert(s.subrange(i, i + 5) =~= seq!['f', 'a', 'l', 's', 'e']);
            }
        },
        JsonVal::Num(lit) => {
            lemma_number_embedded(lit, s, i);
            assert(s.subrange(i, i + lit.len()) =~= lit);
        },
        JsonVal::Str(c) => {
            let body = escape(c);
            assert(json_text(v) =~= seq!['"'] + (body + seq!['"']));
            lemma_text_at_concat(s, i, seq!['"'], body + seq!['"']);
            lemma_text_at_concat(s, i + 1, body, seq!['"']);
            assert(seq!['"'][0] == '"');
            assert(s[i + 1 + body.len()] == '"');
            lemma_string_embedded(c, s, i + 1);
        },
        JsonVal::Arr(elts) => {
            let inner = json_text_elts(elts);
            assert(json_text(v) =~= seq!['['] + (inner + seq![']']));
            lemma_text_at_concat(s, i, seq!['['], inner + seq![']']);
            lemma_text_at_concat(s, i + 1, inner, seq![']']);
            assert(seq![']'][0] == ']');
            assert(s[i + 1 + inner.len()] == ']');
            lemma_elems_embedded(elts, s, i + 1);
        },
        JsonVal::Obj(ms) => {
            let inner = json_text_members(ms);
            assert(json_text(v) =~= seq!['{'] + (inner + seq!['}']));
            lemma_text_at_concat(s, i, seq!['{'], inner + seq!['}']);
            lemma_text_at_concat(s, i + 1, inner, seq!['}']);
            assert(seq!['}'][0] == '}');
            assert(s[i + 1 + inner.len()] == '}');
            lemma_membs_embedded(ms, s, i + 1);
        },
    }
}

/// Serialized elements embedded before a closing bracket parse back to
/// exactly themselves.
proof fn lemma_elems_embedded(elts: Seq<JsonVal>, s: Seq<char>, i: int)
    requires
        json_wf_seq(elts),
        text_at(s, i, json_text_elts(elts)),
        i + json_text_elts(elts).len() < s.len(),
        s[i + json_text_elts(elts).len()] == ']',
    ensures
        spec_parse_elements(s, i) == Some((elts, i + json_text_elts(elts).len() + 1)),
    decreases elts, 0int,
{
    if elts.len() == 0 {
        assert(s[i] == ']');
        assert(skip_ws(s, i) == i);
        assert(elts =~= Seq::<JsonVal>::empty());
    } else {
        let head = json_text(elts[0]);
        let rest = rest_text_elts(elts.drop_first());
        lemma_elts_text_decomp(elts);
        lemma_text_at_concat(s, i, head, rest);
        lemma_value_start(elts[0]);
        assert(s[i] == head[0]);
        assert(skip_ws(s, i) == i);
        let k = i + head.len();
        if elts.len() == 1 {
            assert(rest.len() == 0);
            assert(s[k] == ']');
        } else {
            assert(rest[0] == ',');
            assert(s[k] == ',');
        }
        lemma_value_embedded(elts[0], s, i);
        lemma_elems_rest_embedded(elts.drop_first(), s, k);
        assert(seq![elts[0]] + elts.drop_first() =~= elts);
    }
}

/// The comma-separated continuation of an element list, embedded before a
/// closing bracket, parses back to exactly the remaining elements.
proof fn lemma_elems_rest_embedded(elts: Seq<JsonVal>, s: Seq<char>, i: int)
    requires
        json_wf_seq(elts),
        text_at(s, i, rest_text_elts(elts)),
        i + rest_text_elts(elts).len() < s.len(),
        s[i + rest_text_elts(elts).len()] == ']',
    ensures
        spec_parse_elements_rest(s, i) == Some((elts, i + rest_text_elts(elts).len() + 1)),
    decreases elts, 0int,
{
    if elts.len() == 0 {
        assert(s[i] == ']');
        assert(skip_ws(s, i) == i);
        assert(elts =~= Seq::<JsonVal>::empty());
    } else {
        let head = json_text(elts[0]);
        let rest = rest_text_elts(elts.drop_first());
        assert(rest_text_elts(elts) =~= seq![','] + (head + rest));
        lemma_text_at_concat(s, i, seq![','], head + rest);
        lemma_text_at_concat(s, i + 1, head, rest);
        assert(seq![','][0] == ',');
        assert(s[i] == ',');
        assert(skip_ws(s, i) == i);
        lemma_value_start(elts[0]);
        let k = i + 1 + head.len();
        if elts.len() == 1 {
            assert(rest.len() == 0);
            assert(s[k] == ']');
        } else {
            assert(rest[0] == ',');
            assert(s[k] == ',');
        }
        lemma_value_embedded(elts[0], s, i + 1);
        lemma_elems_rest_embedded(elts.drop_first(), s, k);
        assert(seq![elts[0]] + elts.drop_first() =~= elts);
    }
}

/// One serialized member embedded in a larger text parses back to exactly
/// itself. A member ending in a number must not be followed by a character
/// that could extend it.
proof fn lemma_member_embedded(m: (Seq<char>, JsonVal), s: Seq<char>, i: int)
    requires
        json_wf(m.1),
        text_at(s, i, member_text(m)),
        m.1 is Num ==> no_num_extension(s, i + member_text(m).len()),
    ensures
        spec_parse_member(s, i) == Some((m, i + member_text(m).len())),
    decreases m.1, 1int,
{
    let body = escape(m.0);
    let vt = json_text(m.1);
    assert(member_text(m) =~= seq!['"'] + (body + (seq!['"', ':'] + vt)));
    lemma_text_at_concat(s, i, seq!['"'], body + (seq!['"', ':'] + vt));
    lemma_text_at_concat(s, i + 1, body, seq!['"', ':'] + vt);
    lemma_text_at_concat(s, i + 1 + body.len(), seq!['"', ':'], vt);
    assert(seq!['"'][0] == '"');
    assert(seq!['"', ':'][0] == '"');
    assert(seq!['"', ':'][1] == ':');
    assert(s[i] == '"');
    assert(skip_ws(s, i) == i);
    assert(s[i + 1 + body.len()] == '"');
    lemma_string_embedded(m.0, s, i + 1);
    let p = i + 2 + body.len();
    assert(s[p] == ':');
    assert(skip_ws(s, p) == p);
    lemma_value_embedded(m.1, s, p + 1);
    assert(m == (m.0, m.1));
}

/// Serialized members embedded before a closing brace parse back to exactly
/// themselves.
proof fn lemma_membs_embedded(ms: Seq<(Seq<char>, JsonVal)>, s: Seq<char>, i: int)
    requires
        json_wf_pairs(ms),
        text_at(s, i, json_text_members(ms)),
        i + json_text_members(ms).len() < s.len(),
        s[i + json_text_members(ms).len()] == '}',
    ensures
        spec_parse_members(s, i) == Some((ms, i + json_text_members(ms).len() + 1)),
    decreases ms, 0int,
{
    if ms.len() == 0 {
        assert(s[i] == '}');
        assert(skip_ws(s, i) == i);
        assert(ms =~= Seq::<(Seq<char>, JsonVal)>::empty());
    } else {
        let head = member_text(ms[0]);
        let rest = rest_text_members(ms.drop_first());
        lemma_members_text_decomp(ms);
        lemma_text_at_concat(s, i, head, rest);
        assert(seq!['"'][0] == '"');
        assert(head[0] == '"');
        assert(s[i] == head[0]);
        assert(skip_ws(s, i) == i);
        let k = i + head.len();
        if ms.len() == 1 {
            assert(rest.len() == 0);
            assert(s[k] == '}');
        } else {
            assert(rest[0] == ',');
            assert(s[k] == ',');
        }
        lemma_member_embedded(ms[0], s, i);
        lemma_membs_rest_embedded(ms.drop_first(), s, k);
        assert(seq![ms[0]] + ms.drop_first() =~= ms);
    }
}

/// The comma-separated continuation of a member list, embedded before a
/// closing brace, parses back to exactly the remaining members.
proof fn lemma_membs_rest_embedded(ms: Seq<(Seq<char>, JsonVal)>, s: Seq<char>, i: int)
    requires
        json_wf_pairs(ms),
        text_at(s, i, rest_text_members(ms)),
        i + rest_text_members(ms).len() < s.len(),
        s[i + rest_text_members(ms).len()] == '}',
    ensures
        spec_parse_members_rest(s, i) == Some((ms, i + rest_text_members(ms).len() + 1)),
    decreases ms, 0int,
{
    if ms.len() == 0 {
        assert(s[i] == '}');
        assert(skip_ws(s, i) == i);
        assert(ms =~= Seq::<(Seq<char>, JsonVal)>::empty());
    } else {
        let head = member_text(ms[0]);
        let rest = rest_text_members(ms.drop_first());
        assert(rest_text_members(ms) =~= seq![','] + (head + rest));
        lemma_text_at_concat(s, i, seq![','], head + rest);
        lemma_text_at_concat(s, i + 1, head, rest);
        assert(seq![','][0] == ',');
        assert(s[i] == ',');
        assert(skip_ws(s, i) == i);
        let k = i + 1 + head.len();
        if ms.len() == 1 {
            assert(rest.len() == 0);
            assert(s[k] == '}');
        } else {
            assert(rest[0] == ',');
            assert(s[k] == ',');
        }
        lemma_member_embedded(ms[0], s, i + 1);
        lemma_membs_rest_embedded(ms.drop_first(), s, k);
        assert(seq![ms[0]] + ms.drop_first() =~= ms);
    }
}

/// Scanning an all-digit text runs to its end.
proof fn lemma_skip_digits_all(s: Seq<char>, j: int)
    requires
        0 <= j <= s.len(),
        forall|k: int| 0 <= k < s.len() ==> is_digit(s[k]),
    ensures
        skip_digits(s, j) == s.len(),
    decreases s.len() - j,
{
    if j < s.len() {
        lemma_skip_digits_all(s, j + 1);
    }
}

/// Every character of a decimal rendering is a digit.
proof fn lemma_dec_str_digits(n: nat)
    ensures
        dec_str(n).len() > 0,
        forall|k: int| 0 <= k < dec_str(n).len() ==> is_digit(#[trigger] dec_str(n)[k]),
    decreases n,
{
    if n >= 10 {
        lemma_dec_str_digits(n / 10);
    }
}

/// The decimal rendering of an unsigned integer is a valid number literal,
/// so values built from integers are well-formed.
pub proof fn lemma_dec_str_number_lit(n: nat)
    ensures
        is_number_lit(dec_str(n)),
        json_wf(JsonVal::Num(dec_str(n))),
{
    let lit = dec_str(n);
    lemma_dec_str_digits(n);
    lemma_skip_digits_all(lit, 0);
    assert(lit[0] != '-');
}

/// The structured round trip is exact: serializing any well-formed value
/// and parsing the text yields the value back.
pub proof fn lemma_json_round_trip(v: JsonVal)
    requires
        json_wf(v),
    ensures
        spec_parse_json(json_text(v)) == Some(v),
{
    let s = json_text(v);
    assert(text_at(s, 0, s));
    lemma_value_embedded(v, s, 0);
    assert(skip_ws(s, s.len() as int) == s.len());
}

/// The value under `k` in a member list: the first member with that key.
pub open spec fn spec_pairs_get(ms: Seq<(Seq<char>, JsonVal)>, k: Seq<char>) -> Option<JsonVal>
    decreases ms.len(),
{
    if ms.len() == 0 {
        None
    } else if ms[0].0 == k {
        Some(ms[0].1)
    } else {
        spec_pairs_get(ms.drop_first(), k)
    }
}

/// The value under field `k`, when `v` is an object holding it.
pub open spec fn spec_obj_get(v: JsonVal, k: Seq<char>) -> Option<JsonVal> {
    match v {
        JsonVal::Obj(ms) => spec_pairs_get(ms, k),
        _ => None,
    }
}

/// The element at index `i`, when `v` is an array long enough.
pub open spec fn spec_arr_get(v: JsonVal, i: int) -> Option<JsonVal> {
    match v {
        JsonVal::Arr(es) => if 0 <= i < es.len() {
            Some(es[i])
        } else {
            None
        },
        _ => None,
    }
}

impl JsonValue {
    /// The value under field `key`, when `self` is an object holding it.
    pub fn obj_get<'a>(&'a self, key: &str) -> (r: Option<&'a JsonValue>)
        ensures
            match r {
                Some(x) => spec_obj_get(self@, key@) == Some(x@),
                None => spec_obj_get(self@, key@) is None,
            },
    {
        match self {
            JsonValue::Obj(ms) => {
                proof {
                    lemma_jv_pairs(ms@);
                }
                let ghost model = jv_pairs(ms@);
                proof {
                    assert(model.skip(0) =~= model);
                }
                let n = ms.len();
                let mut i: usize = 0;
                loop
                    invariant_except_break
                        n == ms@.len(),
                        i <= n,
                        model == jv_pairs(ms@),
                        self@ == JsonVal::Obj(model),
                        model.len() == n,
                        forall|k: int| 0 <= k < n ==> model[k] == (ms@[k].0@, jv(ms@[k].1)),
                        spec_pairs_get(model, key@) == spec_pairs_get(
                            model.skip(i as int),
                            key@,
                        ),
                    ensures
                        spec_pairs_get(model, key@) is None,
                    decreases n - i,
                {
                    if i == n {
                        assert(model.skip(n as int) =~= Seq::<(Seq<char>, JsonVal)>::empty());
                        break;
                    }
                    if crate::text::str_eq(ms[i].0.as_str(), key) {
                        assert(model.skip(i as int)[0] == model[i as int]);
                        assert(spec_pairs_get(model.skip(i as int), key@) == Some(
                            model[i as int].1,
                        ));
                        return Some(&ms[i].1);
                    }
                    assert(model.skip(i as int).drop_first() =~= model.skip(i + 1));
                    i = i + 1;
                }
                None
            },
            _ => None,
        }
    }

    /// The element at index `i`, when `self` is an array long enough.
    pub fn arr_get<'a>(&'a self, i: usize) -> (r: Option<&'a JsonValue>)
        ensures
            match r {
                Some(x) => spec_arr_get(self@, i as int) == Some(x@),
                None => spec_arr_get(self@, i as int) is None,
            },
    {
        match self {
            JsonValue::Arr(es) => {
                proof {
                    lemma_jv_seq(es@);
                }
                if i < es.len() {
                    Some(&es[i])
                } else {
                    None
                }
            },
            _ => None,
        }
    }

    /// The number of elements or members, when `self` is an array or object.
    pub fn len_of(&self) -> (r: usize)
        ensures
            self@ is Arr ==> r == self@->Arr_0.len(),
            self@ is Obj ==> r == self@->Obj_0.len(),
            !(self@ is Arr) && !(self@ is Obj) ==> r == 0,
    {
        match self {
            JsonValue::Arr(es) => {
                proof {
                    lemma_jv_seq(es@);
                }
                es.len()
            },
            JsonValue::Obj(ms) => {
                proof {
                    lemma_jv_pairs(ms@);
                }
                ms.len()
            },
            _ => 0,
        }
    }
}

/// Structural equality of two values.
#[verifier::loop_isolation(false)]
pub fn json_eq(a: &JsonValue, b: &JsonValue) -> (r: bool)
    ensures
        r == (a@ == b@),
    decreases a,
{
    match (a, b) {
        (JsonValue::Null, JsonValue::Null) => true,
        (JsonValue::Bool(x), JsonValue::Bool(y)) => *x == *y,
        (JsonValue::Num(x), JsonValue::Num(y)) => crate::text::str_eq(x.as_str(), y.as_str()),
        (JsonValue::Str(x), JsonValue::Str(y)) => crate::text::str_eq(x.as_str(), y.as_str()),
        (JsonValue::Arr(xs), JsonValue::Arr(ys)) => {
            proof {
                lemma_jv_seq(xs@);
                lemma_jv_seq(ys@);
            }
            if xs.len() != ys.len() {
                return false;
            }
            let n = xs.len();
            let mut i: usize = 0;
            while i < n
                invariant
                    i <= n,
                    forall|k: int| 0 <= k < i ==> jv(xs@[k]) == jv(ys@[k]),
                decreases n - i,
            {
                proof {
                    assert(decreases_to!(*xs => xs@[i as int]));
                }
                if !json_eq(&xs[i], &ys[i]) {
                    assert(jv_seq(xs@)[i as int] != jv_seq(ys@)[i as int]);
                    return false;
                }
                i = i + 1;
            }
            assert(jv_seq(xs@) =~= jv_seq(ys@));
            true
        },
        (JsonValue::Obj(xs), JsonValue::Obj(ys)) => {
            proof {
                lemma_jv_pairs(xs@);
                lemma_jv_pairs(ys@);
            }
            if xs.len() != ys.len() {
                return false;
            }
            let n = xs.len();
            let mut i: usize = 0;
            while i < n
                invariant
                    i <= n,
                    forall|k: int| 0 <= k < i ==> xs@[k].0@ == ys@[k].0@ && jv(xs@[k].1) == jv(
                        ys@[k].1,
                    ),
                decreases n - i,
            {
                if !crate::text::str_eq(xs[i].0.as_str(), ys[i].0.as_str()) {
                    assert(jv_pairs(xs@)[i as int] != jv_pairs(ys@)[i as int]);
                    return false;
                }
                proof {
                    assert(decreases_to!(*xs => xs@[i as int]));
                    assert(decreases_to!(xs@[i as int] => xs@[i as int].1));
                }
                if !json_eq(&xs[i].1, &ys[i].1) {
                    assert(jv_pairs(xs@)[i as int] != jv_pairs(ys@)[i as int]);
                    return false;
                }
                i = i + 1;
            }
            assert(jv_pairs(xs@) =~= jv_pairs(ys@));
            true
        },
        _ => {
            proof {
                assert(a@ != b@);
            }
            false
        },
    }
}

impl JsonValue {
    /// A number value holding the decimal literal of `n`.
    pub fn num_u64(n: u64) -> (r: JsonValue)
        ensures
            r@ == JsonVal::Num(dec_str(n as nat)),
    {
        JsonValue::Num(crate::text::u64_to_dec(n))
    }

    /// A string value holding a copy of `s`.
    pub fn str_of(s: &str) -> (r: JsonValue)
        ensures
            r@ == JsonVal::Str(s@),
    {
        JsonValue::Str(s.to_owned())
    }
}

} // verus!
