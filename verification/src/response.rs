//! Derived response helpers: text and structured views of the body,
//! content-type detection and assertion helpers. All are pure and leave the
//! response unchanged.

use vstd::prelude::*;
use vstd::utf8::{decode_utf8, valid_utf8};

use crate::client::{spec_lookup_ci, lookup_ci, HttpResponse};
use crate::errors::ClientError;
use crate::json::{is_ws, skip_ws, spec_parse_json, JsonValue, JsonVal};
use crate::text::{contains_seq, lower, u64_to_dec};

verus! {

/// The classified content kind of a response body.
#[derive(Debug, Clone, Copy, PartialEq, Eq, Structural)]
pub enum ResponseBodyType {
    Json,
    Text,
    Binary,
    Html,
    Xml,
    Image,
    Unknown,
}

/// The position after dropping trailing whitespace, scanning from `e` down.
pub open spec fn rtrim_idx(s: Seq<char>, e: int) -> int
    decreases e,
    when 0 <= e <= s.len()
{
    if e > 0 && is_ws(s[e - 1]) {
        rtrim_idx(s, e - 1)
    } else {
        e
    }
}

/// `s` without leading and trailing whitespace.
pub open spec fn trim_seq(s: Seq<char>) -> Seq<char> {
    let start = skip_ws(s, 0);
    let end = rtrim_idx(s, s.len() as int);
    if start <= end {
        s.subrange(start, end)
    } else {
        Seq::empty()
    }
}

/// The structured value a body decodes to, when it is valid UTF-8 holding
/// exactly one value.
pub open spec fn spec_body_json(body: Seq<u8>) -> Option<JsonVal> {
    if valid_utf8(body) {
        spec_parse_json(decode_utf8(body))
    } else {
        None
    }
}

/// Body-based classification, used when the content-type header is absent or
/// unrecognized: a parsable brace-delimited body is structured, an empty body
/// is text, anything else is binary.
pub open spec fn spec_detect_fallback(body: Seq<u8>) -> ResponseBodyType {
    let looks_structured = valid_utf8(body) && {
        let t = trim_seq(decode_utf8(body));
        t.len() > 0 && t[0] == '{' && t[t.len() - 1] == '}' && spec_body_json(body) is Some
    };
    if looks_structured {
        ResponseBodyType::Json
    } else if body.len() == 0 {
        ResponseBodyType::Text
    } else {
        ResponseBodyType::Binary
    }
}

/// Content-type classification: the header is looked up case-insensitively
/// and matched by substring; without a match the body decides.
pub open spec fn spec_detect(headers: Seq<(Seq<char>, Seq<char>)>, body: Seq<u8>) -> ResponseBodyType {
    match spec_lookup_ci(headers, "content-type"@) {
        Some(v) => {
            let lv = lower(v);
            if contains_seq(lv, "application/json"@) {
                ResponseBodyType::Json
            } else if contains_seq(lv, "text/html"@) {
                ResponseBodyType::Html
            } else if contains_seq(lv, "text/xml"@) || contains_seq(lv, "application/xml"@) {
                ResponseBodyType::Xml
            } else if contains_seq(lv, "image/"@) {
                ResponseBodyType::Image
            } else if contains_seq(lv, "text/"@) {
                ResponseBodyType::Text
            } else {
                spec_detect_fallback(body)
            }
        },
        None => spec_detect_fallback(body),
    }
}

/// Exec mirror of `rtrim_idx` from the end of the string.
fn rtrim_exec(s: &Vec<char>) -> (r: usize)
    ensures
        r == rtrim_idx(s@, s@.len() as int),
        r <= s@.len(),
{
    let mut e = s.len();
    loop
        invariant
            e <= s@.len(),
            rtrim_idx(s@, s@.len() as int) == rtrim_idx(s@, e as int),
        ensures
            e == rtrim_idx(s@, s@.len() as int),
        decreases e,
    {
        if e == 0 {
            break;
        }
        let c = s[e - 1];
        if !(c == ' ' || c == '\n' || c == '\r' || c == '\t') {
            break;
        }
        e = e - 1;
    }
    e
}

impl HttpResponse {
    /// The body as text; fails exactly when the bytes are not valid UTF-8.
    pub fn text(&self) -> (r: Result<String, ClientError>)
        ensures
            r is Ok <==> valid_utf8(self.body@),
            r is Ok ==> r->Ok_0@ == decode_utf8(self.body@),
            r is Err ==> r->Err_0 is BodyDecodeError,
    {
        match crate::text::utf8_to_string(&self.body) {
            Some(s) => Ok(s),
            None => Err(
                ClientError::BodyDecodeError {
                    detail: String::from_str("response body is not valid UTF-8"),
                },
            ),
        }
    }

    /// The body as one structured value; fails exactly when the bytes are not
    /// UTF-8 or do not hold exactly one value.
    pub fn json(&self) -> (r: Result<JsonValue, ClientError>)
        ensures
            r is Ok <==> spec_body_json(self.body@) is Some,
            r is Ok ==> spec_body_json(self.body@) == Some(r->Ok_0@),
            r is Err ==> r->Err_0 is BodyDecodeError,
    {
        match crate::text::utf8_to_string(&self.body) {
            Some(s) => {
                match crate::json::parse_json(s.as_str()) {
                    Some(v) => Ok(v),
                    None => Err(
                        ClientError::BodyDecodeError {
                            detail: String::from_str(
                                "response body does not parse as a structured value",
                            ),
                        },
                    ),
                }
            },
            None => Err(
                ClientError::BodyDecodeError {
                    detail: String::from_str("response body is not valid UTF-8"),
                },
            ),
        }
    }

    /// Classifies the body, preferring the content-type header and falling
    /// back to the body's own shape.
    pub fn detect_content_type(&self) -> (r: ResponseBodyType)
        ensures
            r == spec_detect(self.headers.deep_view(), self.body@),
    {
        match lookup_ci(&self.headers, "content-type") {
            Some(v) => {
                let lv = crate::text::to_lower(v.as_str());
                if crate::text::contains_sub(lv.as_str(), "application/json") {
                    ResponseBodyType::Json
                } else if crate::text::contains_sub(lv.as_str(), "text/html") {
                    ResponseBodyType::Html
                } else if crate::text::contains_sub(lv.as_str(), "text/xml")
                    || crate::text::contains_sub(lv.as_str(), "application/xml") {
                    ResponseBodyType::Xml
                } else if crate::text::contains_sub(lv.as_str(), "image/") {
                    ResponseBodyType::Image
                } else if crate::text::contains_sub(lv.as_str(), "text/") {
                    ResponseBodyType::Text
                } else {
                    detect_fallback(&self.body)
                }
            },
            None => detect_fallback(&self.body),
        }
    }

    /// Succeeds exactly when the status equals `expected`.
    pub fn assert_status(&self, expected: u16) -> (r: Result<(), String>)
        ensures
            r is Ok <==> self.status == expected,
    {
        if self.status != expected {
            let mut msg = String::new();
            msg.append("Expected status ");
            let e = u64_to_dec(expected as u64);
            msg.append(e.as_str());
            msg.append(" but got ");
            let g = u64_to_dec(self.status as u64);
            msg.append(g.as_str());
            return Err(msg);
        }
        Ok(())
    }

    /// Succeeds exactly when the body parses as a structured value and the
    /// value under `path` (dot-separated fields, `[n]` for array indices)
    /// is exactly `expected`.
    pub fn assert_json_path(&self, path: &str, expected: &JsonValue) -> (r: Result<(), String>)
        ensures
            r is Ok <==> (spec_body_json(self.body@) is Some && spec_walk(
                spec_body_json(self.body@)->0,
                split_dots(path@),
            ) == Some(expected@)),
    {
        let parsed = match self.json() {
            Ok(v) => v,
            Err(_) => {
                return Err(
                    String::from_str("response body does not parse as a structured value"),
                );
            },
        };
        let parts = split_path(path);
        let ghost parts_model = split_dots(path@);
        let n = parts.len();
        let mut cur: &JsonValue = &parsed;
        let mut i: usize = 0;
        proof {
            assert(parts_model.skip(0) =~= parts_model);
        }
        while i < n
            invariant
                n == parts@.len(),
                i <= n,
                parts.deep_view() == parts_model,
                parts_model == split_dots(path@),
                spec_body_json(self.body@) == Some(parsed@),
                spec_walk(parsed@, parts_model) == spec_walk(cur@, parts_model.skip(i as int)),
            decreases n - i,
        {
            let part = &parts[i];
            let pc = crate::text::str_to_chars(part.as_str());
            let m = pc.len();
            let ghost pm = parts_model[i as int];
            proof {
                assert(pm == part@);
            }
            let bracketed = m >= 2 && pc[0] == '[' && pc[m - 1] == ']';
            let next: Option<&JsonValue> = if bracketed {
                match parse_index(&pc, 1, m - 1) {
                    Some(ix) => {
                        proof {
                            assert(bracket_inner(pm) =~= pc@.subrange(1, m - 1));
                            assert(valid_index_part(pm));
                        }
                        cur.arr_get(ix)
                    },
                    None => {
                        proof {
                            assert(bracket_inner(pm) =~= pc@.subrange(1, m - 1));
                            assert(!valid_index_part(pm));
                            assert(parts_model.skip(i as int)[0] == pm);
                            assert(spec_walk(cur@, parts_model.skip(i as int)) is None);
                        }
                        return Err(String::from_str("invalid array index in path"));
                    },
                }
            } else {
                cur.obj_get(part.as_str())
            };
            match next {
                Some(x) => {
                    proof {
                        assert(parts_model.skip(i as int)[0] == pm);
                        assert(parts_model.skip(i as int).drop_first() =~= parts_model.skip(
                            i + 1,
                        ));
                    }
                    cur = x;
                },
                None => {
                    proof {
                        assert(parts_model.skip(i as int)[0] == pm);
                        assert(spec_walk(cur@, parts_model.skip(i as int)) is None);
                    }
                    return Err(String::from_str("no value under this path"));
                },
            }
            i = i + 1;
        }
        proof {
            assert(parts_model.skip(n as int) =~= Seq::<Seq<char>>::empty());
        }
        if crate::json::json_eq(cur, expected) {
            Ok(())
        } else {
            Err(String::from_str("value under this path differs from the expected value"))
        }
    }

    /// Succeeds exactly when the header is present (case-insensitive lookup)
    /// with exactly the expected value.
    pub fn assert_header(&self, key: &str, expected: &str) -> (r: Result<(), String>)
        ensures
            r is Ok <==> spec_lookup_ci(self.headers.deep_view(), key@) == Some(expected@),
    {
        match lookup_ci(&self.headers, key) {
            Some(value) => {
                if crate::text::str_eq(value.as_str(), expected) {
                    Ok(())
                } else {
                    let mut msg = String::new();
                    msg.append("Expected header '");
                    msg.append(key);
                    msg.append("' to be '");
                    msg.append(expected);
                    msg.append("' but got '");
                    msg.append(value.as_str());
                    msg.append("'");
                    Err(msg)
                }
            },
            None => {
                let mut msg = String::new();
                msg.append("Expected header '");
                msg.append(key);
                msg.append("' not found in response");
                Err(msg)
            },
        }
    }
}

/// The position of the first `.` at or after `i`, or the length if none.
pub open spec fn first_dot(s: Seq<char>, i: int) -> int
    decreases s.len() - i,
    when 0 <= i <= s.len()
{
    if i < s.len() {
        if s[i] == '.' {
            i
        } else {
            first_dot(s, i + 1)
        }
    } else {
        i
    }
}

/// The dot-separated segments of `s` from position `i` on.
pub open spec fn split_from(s: Seq<char>, i: int) -> Seq<Seq<char>>
    decreases s.len() - i,
    when 0 <= i <= s.len()
{
    let d = first_dot(s, i);
    if i <= d < s.len() {
        seq![s.subrange(i, d)] + split_from(s, d + 1)
    } else {
        seq![s.subrange(i, s.len() as int)]
    }
}

/// The dot-separated segments of a path.
pub open spec fn split_dots(s: Seq<char>) -> Seq<Seq<char>> {
    split_from(s, 0)
}

/// Every character is a decimal digit.
pub open spec fn all_digits(s: Seq<char>) -> bool {
    forall|i: int| 0 <= i < s.len() ==> crate::json::is_digit(s[i])
}

/// The decimal value of a digit string.
pub open spec fn spec_dec_value(s: Seq<char>) -> int
    decreases s.len(),
{
    if s.len() == 0 {
        0
    } else {
        spec_dec_value(s.drop_last()) * 10 + ((s.last() as u32) as int - 48)
    }
}

/// A digit string has a non-negative value.
proof fn lemma_dec_value_nonneg(s: Seq<char>)
    requires
        all_digits(s),
    ensures
        spec_dec_value(s) >= 0,
    decreases s.len(),
{
    if s.len() > 0 {
        assert(all_digits(s.drop_last())) by {
            assert(forall|i: int| 0 <= i < s.len() - 1 ==> s.drop_last()[i] == s[i]);
        }
        lemma_dec_value_nonneg(s.drop_last());
    }
}

/// Extending a digit string never lowers its value.
proof fn lemma_dec_value_monotone(s: Seq<char>, k: int)
    requires
        all_digits(s),
        0 <= k <= s.len(),
    ensures
        spec_dec_value(s) >= spec_dec_value(s.take(k)),
    decreases s.len(),
{
    if k == s.len() {
        assert(s.take(k) =~= s);
    } else {
        assert(all_digits(s.drop_last())) by {
            assert(forall|i: int| 0 <= i < s.len() - 1 ==> s.drop_last()[i] == s[i]);
        }
        lemma_dec_value_monotone(s.drop_last(), k);
        assert(s.drop_last().take(k) =~= s.take(k));
        lemma_dec_value_nonneg(s.drop_last());
    }
}

/// A path segment of the form `[digits]`.
pub open spec fn is_bracketed(p: Seq<char>) -> bool {
    p.len() >= 2 && p[0] == '[' && p[p.len() - 1] == ']'
}

/// The characters between the brackets.
pub open spec fn bracket_inner(p: Seq<char>) -> Seq<char> {
    p.subrange(1, p.len() - 1)
}

/// A bracketed segment holding a machine-representable index.
pub open spec fn valid_index_part(p: Seq<char>) -> bool {
    let inner = bracket_inner(p);
    inner.len() > 0 && all_digits(inner) && spec_dec_value(inner) <= usize::MAX
}

/// Walking a path: a bracketed segment indexes an array, any other segment
/// names an object field; the walk fails on a missing field, an out-of-range
/// or malformed index, or a value of the wrong shape.
pub open spec fn spec_walk(v: JsonVal, parts: Seq<Seq<char>>) -> Option<JsonVal>
    decreases parts.len(),
{
    if parts.len() == 0 {
        Some(v)
    } else {
        let p = parts[0];
        let next = if is_bracketed(p) {
            if valid_index_part(p) {
                crate::json::spec_arr_get(v, spec_dec_value(bracket_inner(p)))
            } else {
                None
            }
        } else {
            crate::json::spec_obj_get(v, p)
        };
        match next {
            Some(x) => spec_walk(x, parts.drop_first()),
            None => None,
        }
    }
}

/// Exec mirror of `first_dot`.
fn find_dot(s: &Vec<char>, i: usize) -> (r: usize)
    requires
        i <= s@.len(),
    ensures
        r == first_dot(s@, i as int),
        i <= r <= s@.len(),
{
    let n = s.len();
    let mut j = i;
    loop
        invariant
            i <= j <= n,
            n == s@.len(),
            first_dot(s@, i as int) == first_dot(s@, j as int),
        ensures
            j == first_dot(s@, i as int),
        decreases n - j,
    {
        if j == n {
            break;
        }
        if s[j] == '.' {
            break;
        }
        j = j + 1;
    }
    j
}

/// The dot-separated segments of a path, as strings.
fn split_path(path: &str) -> (r: Vec<String>)
    ensures
        r.deep_view() == split_dots(path@),
{
    let chars = crate::text::str_to_chars(path);
    let n = chars.len();
    let mut parts: Vec<String> = Vec::new();
    let mut pos: usize = 0;
    loop
        invariant_except_break
            pos <= n,
            n == chars@.len(),
            chars@ == path@,
            split_from(path@, 0) == parts.deep_view() + split_from(path@, pos as int),
        ensures
            parts.deep_view() == split_from(path@, 0),
        decreases n - pos,
    {
        let ghost before = parts.deep_view();
        let d = find_dot(&chars, pos);
        if d < n {
            parts.push(crate::text::chars_range_to_string(&chars, pos, d));
            proof {
                assert(parts.deep_view() =~= before.push(path@.subrange(pos as int, d as int)));
                assert(split_from(path@, pos as int) == seq![
                    path@.subrange(pos as int, d as int),
                ] + split_from(path@, d + 1));
                assert(parts.deep_view() + split_from(path@, d + 1) =~= before + split_from(
                    path@,
                    pos as int,
                ));
            }
            pos = d + 1;
        } else {
            parts.push(crate::text::chars_range_to_string(&chars, pos, n));
            proof {
                assert(parts.deep_view() =~= before.push(path@.subrange(pos as int, n as int)));
                assert(split_from(path@, pos as int) == seq![
                    path@.subrange(pos as int, n as int),
                ]);
                assert(parts.deep_view() =~= before + split_from(path@, pos as int));
            }
            break;
        }
    }
    parts
}

/// Parses the digits of `s` between `from` and `to` as an index.
fn parse_index(s: &Vec<char>, from: usize, to: usize) -> (r: Option<usize>)
    requires
        from <= to <= s@.len(),
    ensures
        match r {
            Some(v) => to > from && all_digits(s@.subrange(from as int, to as int))
                && spec_dec_value(s@.subrange(from as int, to as int)) == v as int,
            None => !(to > from && all_digits(s@.subrange(from as int, to as int))
                && spec_dec_value(s@.subrange(from as int, to as int)) <= usize::MAX),
        },
{
    let ghost inner = s@.subrange(from as int, to as int);
    if to == from {
        return None;
    }
    let mut acc: u128 = 0;
    let mut i = from;
    while i < to
        invariant
            from <= i <= to <= s@.len(),
            inner == s@.subrange(from as int, to as int),
            to > from,
            all_digits(inner.take(i - from)),
            acc <= usize::MAX as u128,
            acc as int == spec_dec_value(inner.take(i - from)),
        decreases to - i,
    {
        let c = s[i];
        if !('0' <= c && c <= '9') {
            assert(!all_digits(inner)) by {
                assert(inner[i - from] == c);
            }
            return None;
        }
        let d: u128 = ((c as u32) - 48) as u128;
        let next: u128 = acc * 10 + d;
        proof {
            assert(inner.take(i + 1 - from).drop_last() =~= inner.take(i - from));
            assert(inner.take(i + 1 - from).last() == c);
            assert(all_digits(inner.take(i + 1 - from)));
        }
        if next > usize::MAX as u128 {
            proof {
                if all_digits(inner) {
                    lemma_dec_value_monotone(inner, i + 1 - from);
                    assert(spec_dec_value(inner.take(i + 1 - from)) == next as int);
                }
            }
            return None;
        }
        acc = next;
        i = i + 1;
    }
    proof {
        assert(inner.take(to - from) =~= inner);
    }
    Some(acc as usize)
}

/// Exec mirror of `spec_detect_fallback`.
fn detect_fallback(body: &Vec<u8>) -> (r: ResponseBodyType)
    ensures
        r == spec_detect_fallback(body@),
{
    match crate::text::utf8_to_string(body) {
        Some(text) => {
            let chars = crate::text::str_to_chars(text.as_str());
            let start = crate::json::skip_ws_exec(&chars, 0);
            let end = rtrim_exec(&chars);
            let structured = if start < end {
                if chars[start] == '{' && chars[end - 1] == '}' {
                    proof {
                        let t = trim_seq(chars@);
                        assert(t.len() > 0);
                        assert(t[0] == chars@[start as int]);
                        assert(t[t.len() - 1] == chars@[end - 1]);
                    }
                    match crate::json::parse_json_chars(&chars) {
                        Some(_) => true,
                        None => false,
                    }
                } else {
                    proof {
                        let t = trim_seq(chars@);
                        if t.len() > 0 {
                            assert(t[0] == chars@[start as int]);
                            assert(t[t.len() - 1] == chars@[end - 1]);
                        }
                    }
                    false
                }
            } else {
                proof {
                    assert(trim_seq(chars@).len() == 0);
                }
                false
            };
            if structured {
                ResponseBodyType::Json
            } else if body.len() == 0 {
                ResponseBodyType::Text
            } else {
                ResponseBodyType::Binary
            }
        },
        None => {
            if body.len() == 0 {
                proof {
                    assert(valid_utf8(Seq::<u8>::empty()));
                }
                ResponseBodyType::Text
            } else {
                ResponseBodyType::Binary
            }
        },
    }
}

} // verus!
