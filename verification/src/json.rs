use vstd::prelude::*;

verus! {

broadcast use {vstd::std_specs::vec::group_vec_axioms, vstd::seq::group_seq_axioms};

/// A JSON number in fixed point: an integer part saturating at `u64::MAX`
/// and the first three fraction digits in thousandths. Exponents are not
/// accepted by this grammar.
#[derive(Debug, Clone, Copy, PartialEq, Eq)]
pub struct JsonNum {
    pub neg: bool,
    pub int_part: u64,
    pub milli: u32,
    pub has_frac: bool,
}

/// A parsed JSON value.
pub enum Json {
    Null,
    Bool(bool),
    Num(JsonNum),
    Str(Vec<char>),
    Arr(Vec<Json>),
    Obj(Vec<(Vec<char>, Json)>),
}

/// Spec-level image of a JSON value.
pub enum JsonV {
    Null,
    Bool(bool),
    Num(JsonNum),
    Str(Seq<char>),
    Arr(Seq<JsonV>),
    Obj(Seq<(Seq<char>, JsonV)>),
}

/// The spec-level image of a parsed value.
pub open spec fn jview(j: Json) -> JsonV
    decreases j,
{
    match j {
        Json::Null => JsonV::Null,
        Json::Bool(b) => JsonV::Bool(b),
        Json::Num(n) => JsonV::Num(n),
        Json::Str(s) => JsonV::Str(s@),
        Json::Arr(items) => JsonV::Arr(arr_view(items@)),
        Json::Obj(members) => JsonV::Obj(obj_view(members@)),
    }
}

/// The spec-level images of a sequence of items.
pub open spec fn arr_view(items: Seq<Json>) -> Seq<JsonV>
    decreases items,
{
    if items.len() == 0 {
        Seq::empty()
    } else {
        seq![jview(items[0])] + arr_view(items.drop_first())
    }
}

/// The spec-level images of a sequence of members.
pub open spec fn obj_view(members: Seq<(Vec<char>, Json)>) -> Seq<(Seq<char>, JsonV)>
    decreases members,
{
    if members.len() == 0 {
        Seq::empty()
    } else {
        seq![(members[0].0@, jview(members[0].1))] + obj_view(members.drop_first())
    }
}

impl View for Json {
    type V = JsonV;

    open spec fn view(&self) -> JsonV {
        jview(*self)
    }
}

/// `arr_view` maps the items one for one.
pub proof fn lemma_arr_view(items: Seq<Json>)
    ensures
        arr_view(items).len() == items.len(),
        forall|k: int| 0 <= k < items.len() ==> arr_view(items)[k] == jview(#[trigger] items[k]),
    decreases items,
{
    if items.len() > 0 {
        lemma_arr_view(items.drop_first());
        assert forall|k: int| 0 <= k < items.len() implies arr_view(items)[k] == jview(
            #[trigger] items[k],
        ) by {
            if k > 0 {
                assert(items.drop_first()[k - 1] == items[k]);
            }
        }
    }
}

/// `obj_view` maps the members one for one.
pub proof fn lemma_obj_view(members: Seq<(Vec<char>, Json)>)
    ensures
        obj_view(members).len() == members.len(),
        forall|k: int| 0 <= k < members.len() ==> obj_view(members)[k] == (
            (#[trigger] members[k]).0@,
            jview(members[k].1),
        ),
    decreases members,
{
    if members.len() > 0 {
        lemma_obj_view(members.drop_first());
        assert forall|k: int| 0 <= k < members.len() implies obj_view(members)[k] == (
            (#[trigger] members[k]).0@,
            jview(members[k].1),
        ) by {
            if k > 0 {
                assert(members.drop_first()[k - 1] == members[k]);
            }
        }
    }
}

/// JSON insignificant whitespace.
pub open spec fn is_ws(c: char) -> bool {
    c == ' ' || c == '\t' || c == '\n' || c == '\r'
}

/// A decimal digit.
pub open spec fn is_digit(c: char) -> bool {
    '0' <= c && c <= '9'
}

/// The value of a decimal digit.
pub open spec fn digit_val(c: char) -> int {
    c as u32 - '0' as u32
}

/// A hexadecimal digit.
pub open spec fn is_hex(c: char) -> bool {
    is_digit(c) || ('a' <= c && c <= 'f') || ('A' <= c && c <= 'F')
}

/// The value of a hexadecimal digit.
pub open spec fn hex_val(c: char) -> int {
    if is_digit(c) {
        digit_val(c)
    } else if 'a' <= c && c <= 'f' {
        c as u32 - 'a' as u32 + 10
    } else {
        c as u32 - 'A' as u32 + 10
    }
}

/// A Unicode scalar value, that is a code point that is a `char`.
pub open spec fn is_scalar(v: int) -> bool {
    (0 <= v < 0xD800) || (0xE000 <= v <= 0x10FFFF)
}

/// The character with the given scalar value.
pub open spec fn char_of(v: int) -> char {
    choose|c: char| #[trigger] (c as u32) as int == v
}

/// The character a single-letter escape stands for.
pub open spec fn escape_char(e: char) -> char {
    if e == 'b' {
        '\u{0008}'
    } else if e == 'f' {
        '\u{000C}'
    } else if e == 'n' {
        '\n'
    } else if e == 'r' {
        '\r'
    } else if e == 't' {
        '\t'
    } else {
        e
    }
}

/// Whether `e` is one of the single-letter string escapes.
pub open spec fn is_escape(e: char) -> bool {
    e == '"' || e == '\\' || e == '/' || e == 'b' || e == 'f' || e == 'n' || e == 'r' || e == 't'
}

/// Clamps a continuation position so that it strictly advances: a correct
/// sub-parse always lands in `(i, s.len()]`, and then `adv` is that
/// position itself.
pub open spec fn adv(s: Seq<char>, i: int, k: int) -> int {
    if i < k <= s.len() {
        k
    } else if i < s.len() {
        i + 1
    } else {
        s.len() as int
    }
}

/// The string body from `i` (just after the opening quote) to the closing
/// quote, with escapes decoded; the position returned is just after the
/// closing quote.
pub open spec fn spec_string(s: Seq<char>, i: int) -> Option<(Seq<char>, int)>
    decreases s.len() - i,
{
    if i < 0 || i >= s.len() {
        None
    } else if s[i] == '"' {
        Some((Seq::empty(), i + 1))
    } else if s[i] == '\\' {
        if i + 1 >= s.len() {
            None
        } else {
            let e = s[i + 1];
            if e == 'u' {
                if i + 6 <= s.len() && is_hex(s[i + 2]) && is_hex(s[i + 3]) && is_hex(s[i + 4])
                    && is_hex(s[i + 5]) {
                    let code = hex_val(s[i + 2]) * 4096 + hex_val(s[i + 3]) * 256 + hex_val(
                        s[i + 4],
                    ) * 16 + hex_val(s[i + 5]);
                    if is_scalar(code) {
                        match spec_string(s, i + 6) {
                            Some((rest, j)) => Some((seq![char_of(code)] + rest, j)),
                            None => None,
                        }
                    } else {
                        None
                    }
                } else {
                    None
                }
            } else if is_escape(e) {
                match spec_string(s, i + 2) {
                    Some((rest, j)) => Some((seq![escape_char(e)] + rest, j)),
                    None => None,
                }
            } else {
                None
            }
        }
    } else if (s[i] as u32) < 0x20 {
        None
    } else {
        match spec_string(s, i + 1) {
            Some((rest, j)) => Some((seq![s[i]] + rest, j)),
            None => None,
        }
    }
}

/// Folds the integer digits from `i`, saturating at `u64::MAX`; returns the
/// folded value and the position of the first non-digit.
pub open spec fn spec_int_digits(s: Seq<char>, i: int, acc: int) -> (int, int)
    decreases s.len() - i,
{
    if i < 0 || i >= s.len() || !is_digit(s[i]) {
        (acc, i)
    } else {
        let next = if acc * 10 + digit_val(s[i]) > u64::MAX {
            u64::MAX as int
        } else {
            acc * 10 + digit_val(s[i])
        };
        spec_int_digits(s, i + 1, next)
    }
}

/// Folds fraction digits from `i`: the first three build the thousandths,
/// later ones are read past and dropped. Returns the thousandths so far,
/// how many digits counted (capped at three), and the end position.
pub open spec fn spec_frac_digits(s: Seq<char>, i: int, acc: int, n: int) -> (int, int, int)
    decreases s.len() - i,
{
    if i < 0 || i >= s.len() || !is_digit(s[i]) {
        (acc, n, i)
    } else if n < 3 {
        spec_frac_digits(s, i + 1, acc * 10 + digit_val(s[i]), n + 1)
    } else {
        spec_frac_digits(s, i + 1, acc, n)
    }
}

/// Scales a fraction read as up to three digits to thousandths.
pub open spec fn scale_milli(acc: int, n: int) -> int {
    if n == 1 {
        acc * 100
    } else if n == 2 {
        acc * 10
    } else {
        acc
    }
}

/// A number starting at `i` (after any leading minus, which `neg` records).
/// A leading zero admits no further integer digits; a fraction needs at
/// least one digit; exponents are not part of this grammar.
pub open spec fn spec_number(s: Seq<char>, i: int, neg: bool) -> Option<(JsonNum, int)> {
    if i < 0 || i >= s.len() || !is_digit(s[i]) {
        None
    } else {
        let (int_part, after_int) = if s[i] == '0' {
            (0int, i + 1)
        } else {
            spec_int_digits(s, i, 0)
        };
        if after_int < s.len() && s[after_int] == '.' {
            let (acc, n, after_frac) = spec_frac_digits(s, after_int + 1, 0, 0);
            if n == 0 {
                None
            } else {
                Some(
                    (
                        JsonNum {
                            neg,
                            int_part: int_part as u64,
                            milli: scale_milli(acc, n) as u32,
                            has_frac: true,
                        },
                        after_frac,
                    ),
                )
            }
        } else {
            Some((JsonNum { neg, int_part: int_part as u64, milli: 0, has_frac: false }, after_int))
        }
    }
}

/// A value at `i`: leading whitespace, then one JSON value. The position
/// returned is just after the value.
pub open spec fn spec_value(s: Seq<char>, i: int) -> Option<(JsonV, int)>
    decreases s.len() - i, 1int,
{
    if i < 0 || i >= s.len() {
        None
    } else if is_ws(s[i]) {
        spec_value(s, i + 1)
    } else if s[i] == '{' {
        match spec_obj_body(s, i + 1) {
            Some((members, j)) => Some((JsonV::Obj(members), j)),
            None => None,
        }
    } else if s[i] == '[' {
        match spec_arr_body(s, i + 1) {
            Some((items, j)) => Some((JsonV::Arr(items), j)),
            None => None,
        }
    } else if s[i] == '"' {
        match spec_string(s, i + 1) {
            Some((body, j)) => Some((JsonV::Str(body), j)),
            None => None,
        }
    } else if s[i] == 't' {
        if i + 4 <= s.len() && s[i + 1] == 'r' && s[i + 2] == 'u' && s[i + 3] == 'e' {
            Some((JsonV::Bool(true), i + 4))
        } else {
            None
        }
    } else if s[i] == 'f' {
        if i + 5 <= s.len() && s[i + 1] == 'a' && s[i + 2] == 'l' && s[i + 3] == 's' && s[i + 4]
            == 'e' {
            Some((JsonV::Bool(false), i + 5))
        } else {
            None
        }
    } else if s[i] == 'n' {
        if i + 4 <= s.len() && s[i + 1] == 'u' && s[i + 2] == 'l' && s[i + 3] == 'l' {
            Some((JsonV::Null, i + 4))
        } else {
            None
        }
    } else if s[i] == '-' {
        match spec_number(s, i + 1, true) {
            Some((num, j)) => Some((JsonV::Num(num), j)),
            None => None,
        }
    } else if is_digit(s[i]) {
        match spec_number(s, i, false) {
            Some((num, j)) => Some((JsonV::Num(num), j)),
            None => None,
        }
    } else {
        None
    }
}

/// An object body just after `{`: whitespace, then `}` for the empty
/// object or the first member.
pub open spec fn spec_obj_body(s: Seq<char>, i: int) -> Option<(Seq<(Seq<char>, JsonV)>, int)>
    decreases s.len() - i, 1int,
{
    if i < 0 || i >= s.len() {
        None
    } else if is_ws(s[i]) {
        spec_obj_body(s, i + 1)
    } else if s[i] == '}' {
        Some((Seq::empty(), i + 1))
    } else if s[i] == '"' {
        spec_member(s, i)
    } else {
        None
    }
}

/// One member and whatever members follow it; `i` is at the opening quote
/// of the member's key.
pub open spec fn spec_member(s: Seq<char>, i: int) -> Option<(Seq<(Seq<char>, JsonV)>, int)>
    decreases s.len() - i, 0int,
{
    if i < 0 || i >= s.len() {
        None
    } else {
        match spec_string(s, i + 1) {
            None => None,
            Some((key, k0)) => {
                let k = adv(s, i, k0);
                match spec_colon_value(s, k) {
                    None => None,
                    Some((v, m0)) => {
                        let m = adv(s, k, m0);
                        match spec_obj_tail(s, m) {
                            None => None,
                            Some((rest, j)) => Some((seq![(key, v)] + rest, j)),
                        }
                    },
                }
            },
        }
    }
}

/// Whitespace, a colon, then a value.
pub open spec fn spec_colon_value(s: Seq<char>, i: int) -> Option<(JsonV, int)>
    decreases s.len() - i, 2int,
{
    if i < 0 || i >= s.len() {
        None
    } else if is_ws(s[i]) {
        spec_colon_value(s, i + 1)
    } else if s[i] == ':' {
        spec_value(s, i + 1)
    } else {
        None
    }
}

/// After a member: whitespace, then a comma and another member, or the
/// closing brace.
pub open spec fn spec_obj_tail(s: Seq<char>, i: int) -> Option<(Seq<(Seq<char>, JsonV)>, int)>
    decreases s.len() - i, 0int,
{
    if i < 0 || i >= s.len() {
        None
    } else if is_ws(s[i]) {
        spec_obj_tail(s, i + 1)
    } else if s[i] == ',' {
        spec_members(s, i + 1)
    } else if s[i] == '}' {
        Some((Seq::empty(), i + 1))
    } else {
        None
    }
}

/// After a comma in an object: whitespace, then the next member.
pub open spec fn spec_members(s: Seq<char>, i: int) -> Option<(Seq<(Seq<char>, JsonV)>, int)>
    decreases s.len() - i, 1int,
{
    if i < 0 || i >= s.len() {
        None
    } else if is_ws(s[i]) {
        spec_members(s, i + 1)
    } else if s[i] == '"' {
        spec_member(s, i)
    } else {
        None
    }
}

/// An array body just after `[`: whitespace, then `]` for the empty array
/// or the first item.
pub open spec fn spec_arr_body(s: Seq<char>, i: int) -> Option<(Seq<JsonV>, int)>
    decreases s.len() - i, 2int,
{
    if i < 0 || i >= s.len() {
        None
    } else if is_ws(s[i]) {
        spec_arr_body(s, i + 1)
    } else if s[i] == ']' {
        Some((Seq::empty(), i + 1))
    } else {
        match spec_value(s, i) {
            None => None,
            Some((v, j0)) => {
                let j = adv(s, i, j0);
                match spec_arr_tail(s, j) {
                    None => None,
                    Some((rest, end)) => Some((seq![v] + rest, end)),
                }
            },
        }
    }
}

/// After an item: whitespace, then a comma and another item, or the
/// closing bracket.
pub open spec fn spec_arr_tail(s: Seq<char>, i: int) -> Option<(Seq<JsonV>, int)>
    decreases s.len() - i, 0int,
{
    if i < 0 || i >= s.len() {
        None
    } else if is_ws(s[i]) {
        spec_arr_tail(s, i + 1)
    } else if s[i] == ',' {
        spec_items(s, i + 1)
    } else if s[i] == ']' {
        Some((Seq::empty(), i + 1))
    } else {
        None
    }
}

/// After a comma in an array: whitespace, then the next item.
pub open spec fn spec_items(s: Seq<char>, i: int) -> Option<(Seq<JsonV>, int)>
    decreases s.len() - i, 2int,
{
    if i < 0 || i >= s.len() {
        None
    } else if is_ws(s[i]) {
        spec_items(s, i + 1)
    } else {
        match spec_value(s, i) {
            None => None,
            Some((v, j0)) => {
                let j = adv(s, i, j0);
                match spec_arr_tail(s, j) {
                    None => None,
                    Some((rest, end)) => Some((seq![v] + rest, end)),
                }
            },
        }
    }
}

/// Whether everything from `i` on is whitespace.
pub open spec fn spec_ws_only(s: Seq<char>, i: int) -> bool {
    forall|j: int| i <= j < s.len() ==> is_ws(s[j])
}

/// The value of a whole JSON document: one value, possibly surrounded by
/// whitespace, with nothing after it.
pub open spec fn spec_json(s: Seq<char>) -> Option<JsonV> {
    match spec_value(s, 0) {
        None => None,
        Some((v, j)) => if spec_ws_only(s, j) {
            Some(v)
        } else {
            None
        },
    }
}

/// Relies on `char::from_u32`: it returns the character with the given
/// scalar value, and `None` exactly for surrogates and values above the
/// highest code point.
#[verifier::external_body]
fn char_from_u32(v: u32) -> (r: Option<char>)
    ensures
        match r {
            Some(c) => is_scalar(v as int) && c as u32 == v,
            None => !is_scalar(v as int),
        },
{
    char::from_u32(v)
}

fn ws_char(c: char) -> (r: bool)
    ensures
        r == is_ws(c),
{
    c == ' ' || c == '\t' || c == '\n' || c == '\r'
}

fn digit_char(c: char) -> (r: bool)
    ensures
        r == is_digit(c),
{
    (c as u32) >= ('0' as u32) && (c as u32) <= ('9' as u32)
}

fn hex_char(c: char) -> (r: bool)
    ensures
        r == is_hex(c),
{
    digit_char(c) || ((c as u32) >= ('a' as u32) && (c as u32) <= ('f' as u32)) || ((c as u32)
        >= ('A' as u32) && (c as u32) <= ('F' as u32))
}

fn hex_char_val(c: char) -> (r: u32)
    requires
        is_hex(c),
    ensures
        r == hex_val(c),
        r < 16,
{
    if digit_char(c) {
        (c as u32) - ('0' as u32)
    } else if (c as u32) >= ('a' as u32) && (c as u32) <= ('f' as u32) {
        (c as u32) - ('a' as u32) + 10
    } else {
        (c as u32) - ('A' as u32) + 10
    }
}

/// Parses a string body starting just after the opening quote.
fn parse_string(s: &Vec<char>, i: usize) -> (r: Option<(Vec<char>, usize)>)
    ensures
        match r {
            Some((body, j)) => spec_string(s@, i as int) == Some((body@, j as int)) && i < j
                <= s@.len(),
            None => spec_string(s@, i as int) is None,
        },
    decreases s@.len() - i,
{
    if i >= s.len() {
        None
    } else {
        let c = s[i];
        if c == '"' {
            let body: Vec<char> = Vec::new();
            proof {
                assert(body@ =~= Seq::<char>::empty());
            }
            Some((body, i + 1))
        } else if c == '\\' {
            if i + 1 >= s.len() {
                None
            } else {
                let e = s[i + 1];
                if e == 'u' {
                    if s.len() - i >= 6 && hex_char(s[i + 2]) && hex_char(s[i + 3]) && hex_char(
                        s[i + 4],
                    ) && hex_char(s[i + 5]) {
                        let code: u32 = hex_char_val(s[i + 2]) * 4096 + hex_char_val(s[i + 3])
                            * 256 + hex_char_val(s[i + 4]) * 16 + hex_char_val(s[i + 5]);
                        match char_from_u32(code) {
                            Some(ch) => {
                                proof {
                                    assert((ch as u32) as int == code as int);
                                    let picked = char_of(code as int);
                                    assert((picked as u32) as int == code as int);
                                    vstd::utf8::char_u32_cast(ch, code);
                                    vstd::utf8::char_u32_cast(picked, code);
                                    assert(ch == picked);
                                }
                                match parse_string(s, i + 6) {
                                    Some((rest, j)) => {
                                        let ghost rest_view = rest@;
                                        let mut body = rest;
                                        body.insert(0, ch);
                                        proof {
                                            assert(body@ =~= seq![char_of(code as int)]
                                                + rest_view);
                                        }
                                        Some((body, j))
                                    },
                                    None => None,
                                }
                            },
                            None => None,
                        }
                    } else {
                        None
                    }
                } else if e == '"' || e == '\\' || e == '/' || e == 'b' || e == 'f' || e == 'n'
                    || e == 'r' || e == 't' {
                    let decoded: char = if e == 'b' {
                        '\u{0008}'
                    } else if e == 'f' {
                        '\u{000C}'
                    } else if e == 'n' {
                        '\n'
                    } else if e == 'r' {
                        '\r'
                    } else if e == 't' {
                        '\t'
                    } else {
                        e
                    };
                    match parse_string(s, i + 2) {
                        Some((rest, j)) => {
                            let ghost rest_view = rest@;
                            let mut body = rest;
                            body.insert(0, decoded);
                            proof {
                                assert(body@ =~= seq![escape_char(e)] + rest_view);
                            }
                            Some((body, j))
                        },
                        None => None,
                    }
                } else {
                    None
                }
            }
        } else if (c as u32) < 0x20 {
            None
        } else {
            match parse_string(s, i + 1) {
                Some((rest, j)) => {
                    let ghost rest_view = rest@;
                    let mut body = rest;
                    body.insert(0, c);
                    proof {
                        assert(body@ =~= seq![c] + rest_view);
                    }
                    Some((body, j))
                },
                None => None,
            }
        }
    }
}

/// Folds integer digits, saturating at `u64::MAX`.
fn int_digits(s: &Vec<char>, i: usize, acc: u64) -> (r: (u64, usize))
    requires
        i <= s@.len(),
    ensures
        spec_int_digits(s@, i as int, acc as int) == (r.0 as int, r.1 as int),
        i <= r.1 <= s@.len(),
        i < s@.len() && is_digit(s@[i as int]) ==> r.1 > i,
    decreases s@.len() - i,
{
    if i >= s.len() {
        (acc, i)
    } else {
        let c = s[i];
        if digit_char(c) {
            let d: u64 = ((c as u32) - ('0' as u32)) as u64;
            let next: u64 = if acc > (u64::MAX - d) / 10 {
                u64::MAX
            } else {
                acc * 10 + d
            };
            int_digits(s, i + 1, next)
        } else {
            (acc, i)
        }
    }
}

/// Folds fraction digits: the first three build the thousandths.
fn frac_digits(s: &Vec<char>, i: usize, acc: u32, n: u32) -> (r: (u32, u32, usize))
    requires
        i <= s@.len(),
        (n == 0 && acc == 0) || (n == 1 && acc <= 9) || (n == 2 && acc <= 99) || (n >= 3 && acc
            <= 999),
    ensures
        spec_frac_digits(s@, i as int, acc as int, n as int) == (
            r.0 as int,
            r.1 as int,
            r.2 as int,
        ),
        i <= r.2 <= s@.len(),
        r.0 <= 999,
        r.1 >= n,
    decreases s@.len() - i,
{
    if i >= s.len() {
        (acc, n, i)
    } else {
        let c = s[i];
        if digit_char(c) {
            if n < 3 {
                let d: u32 = (c as u32) - ('0' as u32);
                frac_digits(s, i + 1, acc * 10 + d, n + 1)
            } else {
                frac_digits(s, i + 1, acc, n)
            }
        } else {
            (acc, n, i)
        }
    }
}

/// Parses a number whose first digit is at `i`; `neg` records a minus
/// already consumed.
fn parse_number(s: &Vec<char>, i: usize, neg: bool) -> (r: Option<(JsonNum, usize)>)
    ensures
        match r {
            Some((num, j)) => spec_number(s@, i as int, neg) == Some((num, j as int)) && i < j
                <= s@.len(),
            None => spec_number(s@, i as int, neg) is None,
        },
    decreases s@.len() - i,
{
    if i >= s.len() || !digit_char(s[i]) {
        None
    } else {
        let (int_part, after_int) = if s[i] == '0' {
            (0u64, i + 1)
        } else {
            int_digits(s, i, 0)
        };
        if after_int < s.len() && s[after_int] == '.' {
            let (acc, n, after_frac) = frac_digits(s, after_int + 1, 0, 0);
            if n == 0 {
                None
            } else {
                let milli: u32 = if n == 1 {
                    acc * 100
                } else if n == 2 {
                    acc * 10
                } else {
                    acc
                };
                Some((JsonNum { neg, int_part, milli, has_frac: true }, after_frac))
            }
        } else {
            Some((JsonNum { neg, int_part, milli: 0, has_frac: false }, after_int))
        }
    }
}

/// Parses one JSON value at `i`, skipping leading whitespace.
pub fn parse_value(s: &Vec<char>, i: usize) -> (r: Option<(Json, usize)>)
    ensures
        match r {
            Some((j, p)) => spec_value(s@, i as int) == Some((jview(j), p as int)) && i < p
                <= s@.len(),
            None => spec_value(s@, i as int) is None,
        },
    decreases s@.len() - i, 1int,
{
    if i >= s.len() {
        None
    } else {
        let c = s[i];
        if ws_char(c) {
            parse_value(s, i + 1)
        } else if c == '{' {
            match parse_obj_body(s, i + 1) {
                Some((members, j)) => Some((Json::Obj(members), j)),
                None => None,
            }
        } else if c == '[' {
            match parse_arr_body(s, i + 1) {
                Some((items, j)) => Some((Json::Arr(items), j)),
                None => None,
            }
        } else if c == '"' {
            match parse_string(s, i + 1) {
                Some((body, j)) => Some((Json::Str(body), j)),
                None => None,
            }
        } else if c == 't' {
            if s.len() - i >= 4 && s[i + 1] == 'r' && s[i + 2] == 'u' && s[i + 3] == 'e' {
                Some((Json::Bool(true), i + 4))
            } else {
                None
            }
        } else if c == 'f' {
            if s.len() - i >= 5 && s[i + 1] == 'a' && s[i + 2] == 'l' && s[i + 3] == 's' && s[i
                + 4] == 'e' {
                Some((Json::Bool(false), i + 5))
            } else {
                None
            }
        } else if c == 'n' {
            if s.len() - i >= 4 && s[i + 1] == 'u' && s[i + 2] == 'l' && s[i + 3] == 'l' {
                Some((Json::Null, i + 4))
            } else {
                None
            }
        } else if c == '-' {
            match parse_number(s, i + 1, true) {
                Some((num, j)) => Some((Json::Num(num), j)),
                None => None,
            }
        } else if digit_char(c) {
            match parse_number(s, i, false) {
                Some((num, j)) => Some((Json::Num(num), j)),
                None => None,
            }
        } else {
            None
        }
    }
}

/// Parses an object body just after `{`.
fn parse_obj_body(s: &Vec<char>, i: usize) -> (r: Option<(Vec<(Vec<char>, Json)>, usize)>)
    ensures
        match r {
            Some((members, j)) => spec_obj_body(s@, i as int) == Some((obj_view(members@), j as int))
                && i < j <= s@.len(),
            None => spec_obj_body(s@, i as int) is None,
        },
    decreases s@.len() - i, 1int,
{
    if i >= s.len() {
        None
    } else {
        let c = s[i];
        if ws_char(c) {
            parse_obj_body(s, i + 1)
        } else if c == '}' {
            let members: Vec<(Vec<char>, Json)> = Vec::new();
            proof {
                assert(obj_view(members@) =~= Seq::<(Seq<char>, JsonV)>::empty());
            }
            Some((members, i + 1))
        } else if c == '"' {
            parse_member(s, i)
        } else {
            None
        }
    }
}

/// Parses one member (key at `i`) and whatever members follow it.
fn parse_member(s: &Vec<char>, i: usize) -> (r: Option<(Vec<(Vec<char>, Json)>, usize)>)
    requires
        i < s.len(),
    ensures
        match r {
            Some((members, j)) => spec_member(s@, i as int) == Some((obj_view(members@), j as int))
                && i < j <= s@.len(),
            None => spec_member(s@, i as int) is None,
        },
    decreases s@.len() - i, 0int,
{
    match parse_string(s, i + 1) {
        None => None,
        Some((key, k)) => {
            match parse_colon_value(s, k) {
                None => None,
                Some((v, m)) => {
                    match parse_obj_tail(s, m) {
                        None => None,
                        Some((rest, j)) => {
                            let ghost key_view = key@;
                            let ghost v_view = jview(v);
                            let ghost kv: (Vec<char>, Json) = (key, v);
                            let ghost rest_view = rest@;
                            let mut members = rest;
                            members.insert(0, (key, v));
                            proof {
                                assert(members@ =~= seq![kv] + rest_view);
                                assert(members@.drop_first() =~= rest_view);
                                assert(obj_view(members@) == seq![(key_view, v_view)] + obj_view(
                                    rest_view,
                                ));
                            }
                            Some((members, j))
                        },
                    }
                },
            }
        },
    }
}

/// Parses whitespace, a colon, then a value.
fn parse_colon_value(s: &Vec<char>, i: usize) -> (r: Option<(Json, usize)>)
    ensures
        match r {
            Some((j, p)) => spec_colon_value(s@, i as int) == Some((jview(j), p as int)) && i < p
                <= s@.len(),
            None => spec_colon_value(s@, i as int) is None,
        },
    decreases s@.len() - i, 2int,
{
    if i >= s.len() {
        None
    } else {
        let c = s[i];
        if ws_char(c) {
            parse_colon_value(s, i + 1)
        } else if c == ':' {
            parse_value(s, i + 1)
        } else {
            None
        }
    }
}

/// Parses what follows a member: a comma and more members, or `}`.
fn parse_obj_tail(s: &Vec<char>, i: usize) -> (r: Option<(Vec<(Vec<char>, Json)>, usize)>)
    ensures
        match r {
            Some((members, j)) => spec_obj_tail(s@, i as int) == Some((obj_view(members@), j as int))
                && i < j <= s@.len(),
            None => spec_obj_tail(s@, i as int) is None,
        },
    decreases s@.len() - i, 0int,
{
    if i >= s.len() {
        None
    } else {
        let c = s[i];
        if ws_char(c) {
            parse_obj_tail(s, i + 1)
        } else if c == ',' {
            parse_members(s, i + 1)
        } else if c == '}' {
            let members: Vec<(Vec<char>, Json)> = Vec::new();
            proof {
                assert(obj_view(members@) =~= Seq::<(Seq<char>, JsonV)>::empty());
            }
            Some((members, i + 1))
        } else {
            None
        }
    }
}

/// Parses whitespace then the member a comma announced.
fn parse_members(s: &Vec<char>, i: usize) -> (r: Option<(Vec<(Vec<char>, Json)>, usize)>)
    ensures
        match r {
            Some((members, j)) => spec_members(s@, i as int) == Some((obj_view(members@), j as int))
                && i < j <= s@.len(),
            None => spec_members(s@, i as int) is None,
        },
    decreases s@.len() - i, 1int,
{
    if i >= s.len() {
        None
    } else {
        let c = s[i];
        if ws_char(c) {
            parse_members(s, i + 1)
        } else if c == '"' {
            parse_member(s, i)
        } else {
            None
        }
    }
}

/// Parses an array body just after `[`.
fn parse_arr_body(s: &Vec<char>, i: usize) -> (r: Option<(Vec<Json>, usize)>)
    ensures
        match r {
            Some((items, j)) => spec_arr_body(s@, i as int) == Some((arr_view(items@), j as int))
                && i < j <= s@.len(),
            None => spec_arr_body(s@, i as int) is None,
        },
    decreases s@.len() - i, 2int,
{
    if i >= s.len() {
        None
    } else {
        let c = s[i];
        if ws_char(c) {
            parse_arr_body(s, i + 1)
        } else if c == ']' {
            let items: Vec<Json> = Vec::new();
            proof {
                assert(arr_view(items@) =~= Seq::<JsonV>::empty());
            }
            Some((items, i + 1))
        } else {
            match parse_value(s, i) {
                None => None,
                Some((v, j)) => {
                    match parse_arr_tail(s, j) {
                        None => None,
                        Some((rest, end)) => {
                            let ghost v_view = jview(v);
                            let ghost v_snap: Json = v;
                            let ghost rest_view = rest@;
                            let mut items = rest;
                            items.insert(0, v);
                            proof {
                                assert(items@ =~= seq![v_snap] + rest_view);
                                assert(items@.drop_first() =~= rest_view);
                                assert(arr_view(items@) == seq![v_view] + arr_view(rest_view));
                            }
                            Some((items, end))
                        },
                    }
                },
            }
        }
    }
}

/// Parses what follows an item: a comma and more items, or `]`.
fn parse_arr_tail(s: &Vec<char>, i: usize) -> (r: Option<(Vec<Json>, usize)>)
    ensures
        match r {
            Some((items, j)) => spec_arr_tail(s@, i as int) == Some((arr_view(items@), j as int))
                && i < j <= s@.len(),
            None => spec_arr_tail(s@, i as int) is None,
        },
    decreases s@.len() - i, 0int,
{
    if i >= s.len() {
        None
    } else {
        let c = s[i];
        if ws_char(c) {
            parse_arr_tail(s, i + 1)
        } else if c == ',' {
            parse_items(s, i + 1)
        } else if c == ']' {
            let items: Vec<Json> = Vec::new();
            proof {
                assert(arr_view(items@) =~= Seq::<JsonV>::empty());
            }
            Some((items, i + 1))
        } else {
            None
        }
    }
}

/// Parses whitespace then the item a comma announced.
fn parse_items(s: &Vec<char>, i: usize) -> (r: Option<(Vec<Json>, usize)>)
    ensures
        match r {
            Some((items, j)) => spec_items(s@, i as int) == Some((arr_view(items@), j as int)) && i
                < j <= s@.len(),
            None => spec_items(s@, i as int) is None,
        },
    decreases s@.len() - i, 2int,
{
    if i >= s.len() {
        None
    } else {
        let c = s[i];
        if ws_char(c) {
            parse_items(s, i + 1)
        } else {
            match parse_value(s, i) {
                None => None,
                Some((v, j)) => {
                    match parse_arr_tail(s, j) {
                        None => None,
                        Some((rest, end)) => {
                            let ghost v_view = jview(v);
                            let ghost v_snap: Json = v;
                            let ghost rest_view = rest@;
                            let mut items = rest;
                            items.insert(0, v);
                            proof {
                                assert(items@ =~= seq![v_snap] + rest_view);
                                assert(items@.drop_first() =~= rest_view);
                                assert(arr_view(items@) == seq![v_view] + arr_view(rest_view));
                            }
                            Some((items, end))
                        },
                    }
                },
            }
        }
    }
}

/// Parses a whole document: one value with only whitespace after it.
pub fn parse_json(s: &Vec<char>) -> (r: Option<Json>)
    ensures
        match r {
            Some(j) => spec_json(s@) == Some(jview(j)),
            None => spec_json(s@) is None,
        },
{
    match parse_value(s, 0) {
        None => None,
        Some((v, p)) => {
            let mut j = p;
            while j < s.len()
                invariant
                    p <= j <= s@.len(),
                    spec_value(s@, 0) == Some((jview(v), p as int)),
                    forall|k: int| p <= k < j ==> is_ws(s@[k]),
                decreases s@.len() - j,
            {
                if !ws_char(s[j]) {
                    proof {
                        assert(!spec_ws_only(s@, p as int));
                    }
                    return None;
                }
                j = j + 1;
            }
            proof {
                assert(spec_ws_only(s@, p as int));
            }
            Some(v)
        },
    }
}

} // verus!
