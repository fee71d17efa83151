use vstd::prelude::*;
use crate::text::{str_chars_vec, chars_to_string};

verus! {

/// Whether a character counts as alphanumeric under Unicode rules; said
/// only by the standard library's character tables.
pub uninterp spec fn is_unicode_alphanumeric(c: char) -> bool;

/// Relies on `char::is_alphanumeric`: a property of the character alone;
/// its documentation gives that ASCII letters and digits satisfy it and
/// the other ASCII characters do not.
#[verifier::external_body]
fn char_is_alphanumeric(c: char) -> (r: bool)
    ensures
        r == is_unicode_alphanumeric(c),
        ('a' <= c && c <= 'z') || ('A' <= c && c <= 'Z') || ('0' <= c && c <= '9') ==> r,
        (c as u32) < 128 && !(('a' <= c && c <= 'z') || ('A' <= c && c <= 'Z') || ('0' <= c && c
            <= '9')) ==> !r,
{
    c.is_alphanumeric()
}

/// The uppercase hexadecimal digit for a value below sixteen.
pub open spec fn spec_hex_upper(d: int) -> char {
    if d == 0 {
        '0'
    } else if d == 1 {
        '1'
    } else if d == 2 {
        '2'
    } else if d == 3 {
        '3'
    } else if d == 4 {
        '4'
    } else if d == 5 {
        '5'
    } else if d == 6 {
        '6'
    } else if d == 7 {
        '7'
    } else if d == 8 {
        '8'
    } else if d == 9 {
        '9'
    } else if d == 10 {
        'A'
    } else if d == 11 {
        'B'
    } else if d == 12 {
        'C'
    } else if d == 13 {
        'D'
    } else if d == 14 {
        'E'
    } else {
        'F'
    }
}

fn hex_upper(d: u32) -> (c: char)
    requires
        d < 16,
    ensures
        c == spec_hex_upper(d as int),
{
    if d == 0 {
        '0'
    } else if d == 1 {
        '1'
    } else if d == 2 {
        '2'
    } else if d == 3 {
        '3'
    } else if d == 4 {
        '4'
    } else if d == 5 {
        '5'
    } else if d == 6 {
        '6'
    } else if d == 7 {
        '7'
    } else if d == 8 {
        '8'
    } else if d == 9 {
        '9'
    } else if d == 10 {
        'A'
    } else if d == 11 {
        'B'
    } else if d == 12 {
        'C'
    } else if d == 13 {
        'D'
    } else if d == 14 {
        'E'
    } else {
        'F'
    }
}

/// How one character is written in a query URL: a fixed percent escape for
/// the reserved set, itself when alphanumeric or one of `-`, `_`, `.`,
/// `~`, and otherwise a percent escape of its low byte.
pub open spec fn spec_encode_char(c: char) -> Seq<char> {
    if c == ' ' {
        "%20"@
    } else if c == '!' {
        "%21"@
    } else if c == '"' {
        "%22"@
    } else if c == '#' {
        "%23"@
    } else if c == '$' {
        "%24"@
    } else if c == '%' {
        "%25"@
    } else if c == '&' {
        "%26"@
    } else if c == '\'' {
        "%27"@
    } else if c == '(' {
        "%28"@
    } else if c == ')' {
        "%29"@
    } else if c == '*' {
        "%2A"@
    } else if c == '+' {
        "%2B"@
    } else if c == ',' {
        "%2C"@
    } else if c == '/' {
        "%2F"@
    } else if c == ':' {
        "%3A"@
    } else if c == ';' {
        "%3B"@
    } else if c == '<' {
        "%3C"@
    } else if c == '=' {
        "%3D"@
    } else if c == '>' {
        "%3E"@
    } else if c == '?' {
        "%3F"@
    } else if c == '@' {
        "%40"@
    } else if c == '[' {
        "%5B"@
    } else if c == ']' {
        "%5D"@
    } else if is_unicode_alphanumeric(c) || c == '-' || c == '_' || c == '.' || c == '~' {
        seq![c]
    } else {
        seq!['%', spec_hex_upper(((c as u32) % 256) as int / 16), spec_hex_upper((c as u32) as int % 16)]
    }
}

/// The encoding of the characters from `i` on.
pub open spec fn spec_encode_from(s: Seq<char>, i: int) -> Seq<char>
    decreases s.len() - i,
{
    if i < 0 || i >= s.len() {
        Seq::empty()
    } else {
        spec_encode_char(s[i]) + spec_encode_from(s, i + 1)
    }
}

/// The query-URL encoding of a text.
pub open spec fn spec_encode(s: Seq<char>) -> Seq<char> {
    spec_encode_from(s, 0)
}

fn char_encoding(c: char) -> (r: Vec<char>)
    ensures
        r@ == spec_encode_char(c),
{
    if c == ' ' {
        str_chars_vec("%20")
    } else if c == '!' {
        str_chars_vec("%21")
    } else if c == '"' {
        str_chars_vec("%22")
    } else if c == '#' {
        str_chars_vec("%23")
    } else if c == '$' {
        str_chars_vec("%24")
    } else if c == '%' {
        str_chars_vec("%25")
    } else if c == '&' {
        str_chars_vec("%26")
    } else if c == '\'' {
        str_chars_vec("%27")
    } else if c == '(' {
        str_chars_vec("%28")
    } else if c == ')' {
        str_chars_vec("%29")
    } else if c == '*' {
        str_chars_vec("%2A")
    } else if c == '+' {
        str_chars_vec("%2B")
    } else if c == ',' {
        str_chars_vec("%2C")
    } else if c == '/' {
        str_chars_vec("%2F")
    } else if c == ':' {
        str_chars_vec("%3A")
    } else if c == ';' {
        str_chars_vec("%3B")
    } else if c == '<' {
        str_chars_vec("%3C")
    } else if c == '=' {
        str_chars_vec("%3D")
    } else if c == '>' {
        str_chars_vec("%3E")
    } else if c == '?' {
        str_chars_vec("%3F")
    } else if c == '@' {
        str_chars_vec("%40")
    } else if c == '[' {
        str_chars_vec("%5B")
    } else if c == ']' {
        str_chars_vec("%5D")
    } else if char_is_alphanumeric(c) || c == '-' || c == '_' || c == '.' || c == '~' {
        let mut v: Vec<char> = Vec::new();
        v.push(c);
        proof {
            assert(v@ =~= seq![c]);
        }
        v
    } else {
        let code = c as u32;
        let mut v: Vec<char> = Vec::new();
        v.push('%');
        v.push(hex_upper((code % 256) / 16));
        v.push(hex_upper(code % 16));
        proof {
            assert((code % 256) as int / 16 == ((code % 256) / 16) as int);
            assert(v@ =~= seq![
                '%',
                spec_hex_upper(((c as u32) % 256) as int / 16),
                spec_hex_upper((c as u32) as int % 16),
            ]);
        }
        v
    }
}

/// Encodes a text for use inside a query URL, character by character.
pub fn encode(s: &str) -> (r: String)
    ensures
        r@ == spec_encode(s@),
{
    let chars = str_chars_vec(s);
    let mut out: Vec<char> = Vec::new();
    let mut i: usize = 0;
    while i < chars.len()
        invariant
            i <= chars@.len(),
            chars@ == s@,
            out@ + spec_encode_from(s@, i as int) == spec_encode(s@),
        decreases chars@.len() - i,
    {
        let mut piece = char_encoding(chars[i]);
        let ghost out_before = out@;
        let ghost piece_view = piece@;
        out.append(&mut piece);
        i = i + 1;
        proof {
            assert(out@ == out_before + piece_view);
            assert(out@ + spec_encode_from(s@, i as int) =~= out_before + (piece_view
                + spec_encode_from(s@, i as int)));
        }
    }
    proof {
        assert(out@ + spec_encode_from(s@, i as int) =~= out@);
    }
    chars_to_string(&out)
}

} // verus!
