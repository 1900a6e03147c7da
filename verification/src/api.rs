//! The requests that the client sends to the server.
use vstd::prelude::*;
use vstd::string::{StringExecFns, StringSliceAdditionalSpecFns};
use vstd::utf8::encode_utf8;

verus! {

pub const URL: &'static str = "https://matrix.org:8448";

pub const PREFIX: &'static str = "/_matrix/client/r0";

pub const GET_STATE: &'static str = "/sync?access_token=";

pub const GET_STATE_FILTER: &'static str = "/sync?filter={\"room\":{\"timeline\":{\"limit\":1}}}&access_token=";

/// A lowercase hexadecimal digit (0 to 15).
pub open spec fn hex_digit(d: int) -> char {
    if d < 10 {
        ('0' as int + d) as char
    } else {
        ('a' as int + d - 10) as char
    }
}

/// How the `json` crate writes one character inside a string: a quote and a backslash
/// behind a backslash; backspace, tab, newline, form feed and carriage return as `\b`,
/// `\t`, `\n`, `\f`, `\r`; any other character below 0x20 as `\u00` and two lowercase
/// hex digits; every other character as itself.
pub open spec fn json_escape_char(c: char) -> Seq<char> {
    if c == '"' {
        seq!['\\', '"']
    } else if c == '\\' {
        seq!['\\', '\\']
    } else if c == '\u{8}' {
        seq!['\\', 'b']
    } else if c == '\t' {
        seq!['\\', 't']
    } else if c == '\n' {
        seq!['\\', 'n']
    } else if c == '\u{c}' {
        seq!['\\', 'f']
    } else if c == '\r' {
        seq!['\\', 'r']
    } else if (c as int) < 0x20 {
        seq!['\\', 'u', '0', '0', hex_digit((c as int) / 16), hex_digit((c as int) % 16)]
    } else {
        seq![c]
    }
}

/// A text with each character written as inside a JSON string.
pub open spec fn json_escape(s: Seq<char>) -> Seq<char>
    decreases s.len(),
{
    if s.len() == 0 {
        Seq::empty()
    } else {
        json_escape(s.drop_last()) + json_escape_char(s.last())
    }
}

/// A text as a JSON string.
pub open spec fn json_string(s: Seq<char>) -> Seq<char> {
    seq!['"'] + json_escape(s) + seq!['"']
}

/// Members `"key":"value"`, separated by commas.
pub open spec fn json_members(members: Seq<(Seq<char>, Seq<char>)>) -> Seq<char>
    decreases members.len(),
{
    if members.len() == 0 {
        Seq::empty()
    } else if members.len() == 1 {
        json_string(members[0].0) + seq![':'] + json_string(members[0].1)
    } else {
        json_members(members.drop_last()) + seq![','] + json_string(members.last().0) + seq![':']
            + json_string(members.last().1)
    }
}

/// The JSON text of an object with the given string members, in order, as the `json`
/// crate's `dump` writes it: no spaces, `{` and `}` around the members.
pub open spec fn json_object_text(members: Seq<(Seq<char>, Seq<char>)>) -> Seq<char> {
    seq!['{'] + json_members(members) + seq!['}']
}

/// No two members have the same key.
pub open spec fn member_keys_distinct(members: Seq<(Seq<char>, Seq<char>)>) -> bool {
    forall|i: int, j: int|
        0 <= i < members.len() && 0 <= j < members.len() && i != j ==> #[trigger] members[i].0
            != #[trigger] members[j].0
}

/// Whether the `json` crate parses a text.
pub uninterp spec fn json_text_parses(text: Seq<char>) -> bool;

/// The members, as plain values.
pub open spec fn members_view(members: Seq<(String, String)>) -> Seq<(Seq<char>, Seq<char>)> {
    members.map_values(|m: (String, String)| (m.0@, m.1@))
}

/// Writes a JSON object with string members through the `json` crate: it builds a
/// `JsonValue` object, sets each member by indexing (which keeps the order of first
/// insertion), and calls `JsonValue::dump`, whose generator writes `{`, each key and value
/// as strings escaped by its table of escapes, `:` and `,` without spaces, and `}`. With
/// distinct keys no member replaces another.
#[verifier::external_body]
fn json_object(members: Vec<(String, String)>) -> (text: String)
    requires
        member_keys_distinct(members_view(members@)),
    ensures
        text@ == json_object_text(members_view(members@)),
{
    let mut obj = json::JsonValue::new_object();
    for (k, v) in members {
        obj[k.as_str()] = json::JsonValue::from(v);
    }
    obj.dump()
}

/// How far the `json` crate's parser lowers a number's decimal exponent, an `i16`, before
/// lowering it once more overflows: the exponent starts at 0, or above it.
pub const MIN_EXPONENT: i64 = -32768;

pub open spec fn is_digit_byte(b: u8) -> bool {
    48 <= b <= 57
}

/// Whether the mantissa `num` takes one more digit `d` within a `u64`.
pub open spec fn fits(num: int, d: int) -> bool {
    num * 10 + d <= u64::MAX
}

/// The parser's `(mantissa, exponent)` after the run of digits that ends just before `i`,
/// read as the integer part of a number: each digit joins the mantissa while it fits, and
/// raises the exponent once it no longer does.
pub open spec fn int_state(bytes: Seq<u8>, i: int) -> (int, int)
    decreases i,
{
    if i <= 0 || !is_digit_byte(bytes[i - 1]) {
        (0, 0)
    } else {
        let (num, e) = int_state(bytes, i - 1);
        let d = bytes[i - 1] - 48;
        if fits(num, d) {
            (num * 10 + d, e)
        } else {
            (num, e + 1)
        }
    }
}

/// The parser's `(mantissa, exponent)` after the fraction digits from `dot + 1` up to `k`,
/// the integer part ending at `dot`: each digit that fits joins the mantissa and lowers
/// the exponent; one that does not is dropped.
pub open spec fn frac_state(bytes: Seq<u8>, dot: int, k: int) -> (int, int)
    decreases k - dot,
{
    if k <= dot + 1 {
        int_state(bytes, dot)
    } else {
        let (num, e) = frac_state(bytes, dot, k - 1);
        let d = bytes[k - 1] - 48;
        if fits(num, d) {
            (num * 10 + d, e - 1)
        } else {
            (num, e)
        }
    }
}

pub open spec fn digits_between(bytes: Seq<u8>, a: int, b: int) -> bool {
    forall|m: int| a <= m < b ==> is_digit_byte(#[trigger] bytes[m])
}

/// The fraction digit at `k` would lower the exponent below `MIN_EXPONENT`.
pub open spec fn overflows_at(bytes: Seq<u8>, dot: int, k: int) -> bool {
    &&& frac_state(bytes, dot, k).1 == MIN_EXPONENT
    &&& fits(frac_state(bytes, dot, k).0, bytes[k] - 48)
}

/// Where a JSON reader stands after one more byte: `(inside a string, just after a
/// backslash inside a string)`. A quote opens or closes a string; inside a string a
/// backslash makes the next byte part of the string whatever it is.
pub open spec fn lex_step(state: (bool, bool), b: u8) -> (bool, bool) {
    let (in_string, escaped) = state;
    if !in_string {
        (b == 34, false)
    } else if escaped {
        (true, false)
    } else if b == 92 {
        (true, true)
    } else if b == 34 {
        (false, false)
    } else {
        (true, false)
    }
}

/// Where a JSON reader stands before the byte at `i`.
pub open spec fn lex_state(bytes: Seq<u8>, i: int) -> (bool, bool)
    decreases i,
{
    if i <= 0 {
        (false, false)
    } else {
        lex_step(lex_state(bytes, i - 1), bytes[i - 1])
    }
}

/// Reading the fraction that starts at the `.` at `dot`, outside any string, keeps the
/// exponent in its range.
pub open spec fn fraction_fits_at(bytes: Seq<u8>, dot: int) -> bool {
    !lex_state(bytes, dot).0 && bytes[dot] == 46 ==> forall|k: int|
        dot + 1 <= k < bytes.len() && digits_between(bytes, dot + 1, k + 1) ==> !#[trigger] overflows_at(bytes, dot, k)
}

/// No number of the text has a fraction on which the parser's exponent overflows; digits
/// inside strings do not count.
pub open spec fn fractions_fit(bytes: Seq<u8>) -> bool {
    forall|i: int| 0 <= i < bytes.len() ==> #[trigger] fraction_fits_at(bytes, i)
}

/// Whether `json::parse` accepts the text; it depends on the text alone. Reading a
/// number, the parser keeps a `u64` mantissa and an `i16` exponent: an integer digit that
/// no longer fits the mantissa raises the exponent (checked, an error past its range), and
/// each fraction digit that fits lowers it unchecked, which panics below -32768 in a build
/// with overflow checks; `frac_state` follows these steps, and the bound on the text keeps
/// such numbers out. The parser reaches a fraction only after reading all before it as
/// JSON, where quotes delimit strings and a backslash escapes the byte after it, as
/// `lex_state` tracks; it reads the text of strings without counting digits.
#[verifier::external_body]
fn json_parses(text: &str) -> (b: bool)
    requires
        fractions_fit(text.spec_bytes()),
    ensures
        b == json_text_parses(text@),
{
    json::parse(text).is_ok()
}

/// Whether no number of the text has a fraction on which the parser's exponent overflows.
pub fn fractions_fit_in(text: &str) -> (b: bool)
    ensures
        b == fractions_fit(text.spec_bytes()),
{
    let bytes = text.as_bytes();
    let n = bytes.len();
    let mut in_string = false;
    let mut escaped = false;
    let mut run_num: u64 = 0;
    let mut run_over: usize = 0;
    let mut i: usize = 0;
    while i < n
        invariant
            i <= n,
            n == bytes@.len(),
            bytes@ == text.spec_bytes(),
            (in_string, escaped) == lex_state(bytes@, i as int),
            (run_num as int, run_over as int) == int_state(bytes@, i as int),
            run_over <= i,
            forall|j: int| 0 <= j < i ==> #[trigger] fraction_fits_at(bytes@, j),
        decreases n - i,
    {
        let b = bytes[i];
        if !in_string && b == 46u8 {
            let mut k: usize = i + 1;
            let mut num: u64 = run_num;
            let mut dec: usize = 0;
            while k < n && 48u8 <= bytes[k] && bytes[k] <= 57u8
                invariant
                    i < n,
                    n == bytes@.len(),
                    i + 1 <= k <= n,
                    dec <= k - i - 1,
                    run_over <= i,
                    (num as int, run_over - dec) == frac_state(bytes@, i as int, k as int),
                    digits_between(bytes@, i + 1, k as int),
                    !lex_state(bytes@, i as int).0,
                    bytes@[i as int] == 46,
                    bytes@ == text.spec_bytes(),
                    forall|m: int| i + 1 <= m < k ==> !#[trigger] overflows_at(bytes@, i as int, m),
                decreases n - k,
            {
                let d = bytes[k] - 48u8;
                let ghost before = frac_state(bytes@, i as int, k as int);
                assert(frac_state(bytes@, i as int, k + 1) == {
                    let (nm, e) = before;
                    if fits(nm, d as int) { (nm * 10 + d, e - 1) } else { (nm, e) }
                });
                match num.checked_mul(10) {
                    Some(m) => match m.checked_add(d as u64) {
                        Some(x) => {
                            if dec >= run_over && dec - run_over == 32768 {
                                assert(overflows_at(bytes@, i as int, k as int));
                                assert(digits_between(bytes@, i + 1, k + 1));
                                assert(!fraction_fits_at(bytes@, i as int));
                                assert(!fractions_fit(bytes@));
                                return false;
                            }
                            num = x;
                            dec = dec + 1;
                        },
                        None => {},
                    },
                    None => {},
                }
                assert(digits_between(bytes@, i + 1, k + 1));
                k = k + 1;
            }
            proof {
                assert forall|m: int|
                    i + 1 <= m < bytes@.len() && digits_between(bytes@, i + 1, m + 1) implies !#[trigger] overflows_at(bytes@, i as int, m) by {
                    if m >= k {
                        assert(is_digit_byte(bytes@[k as int]));
                    }
                }
            }
        }
        assert(fraction_fits_at(bytes@, i as int));
        if 48u8 <= b && b <= 57u8 {
            let d = b - 48u8;
            match run_num.checked_mul(10) {
                Some(m) => match m.checked_add(d as u64) {
                    Some(x) => {
                        run_num = x;
                    },
                    None => {
                        run_over = run_over + 1;
                    },
                },
                None => {
                    run_over = run_over + 1;
                },
            }
        } else {
            run_num = 0;
            run_over = 0;
        }
        if !in_string {
            in_string = b == 34u8;
            escaped = false;
        } else if escaped {
            escaped = false;
        } else if b == 92u8 {
            escaped = true;
        } else if b == 34u8 {
            in_string = false;
        }
        i = i + 1;
    }
    true
}

/// A request to send: where, and with what body.
#[derive(Debug)]
pub struct LoginRequest {
    pub url: String,
    pub body: String,
}

pub open spec fn login_url_text() -> Seq<char> {
    URL@ + PREFIX@ + "/login"@
}

/// The members of a password login.
pub open spec fn login_members(user: Seq<char>, pass: Seq<char>) -> Seq<(Seq<char>, Seq<char>)> {
    seq![("type"@, "m.login.password"@), ("user"@, user), ("password"@, pass)]
}

pub fn login_url() -> (u: String)
    ensures
        u@ == login_url_text(),
{
    let mut u = URL.to_owned();
    u.append(PREFIX);
    u.append("/login");
    u
}

/// The request that logs `user` in with password `pass`.
pub fn login_request(user: &str, pass: &str) -> (r: LoginRequest)
    ensures
        r.url@ == login_url_text(),
        r.body@ == json_object_text(login_members(user@, pass@)),
{
    let mut members: Vec<(String, String)> = Vec::new();
    members.push(("type".to_owned(), "m.login.password".to_owned()));
    members.push(("user".to_owned(), user.to_owned()));
    members.push(("password".to_owned(), pass.to_owned()));
    assert(members_view(members@) =~= login_members(user@, pass@));
    proof {
        reveal_strlit("type");
        reveal_strlit("user");
        reveal_strlit("password");
        assert("type"@[0] != "user"@[0]);
        assert("type"@.len() != "password"@.len());
        assert("user"@.len() != "password"@.len());
    }
    LoginRequest { url: login_url(), body: json_object(members) }
}

/// The address of a sync: from the kept position `next_batch`, waiting up to ten seconds
/// for news; without one, a first sync that asks for one timeline event per room.
pub open spec fn sync_url_text(access_token: Seq<char>, next_batch: Option<Seq<char>>) -> Seq<char> {
    match next_batch {
        Some(nb) => URL@ + PREFIX@ + GET_STATE@ + access_token + "&since="@ + nb + "&timeout=10000"@,
        None => URL@ + PREFIX@ + GET_STATE_FILTER@ + access_token,
    }
}

pub fn sync_url(access_token: &str, next_batch: &Option<String>) -> (u: String)
    ensures
        u@ == sync_url_text(access_token@, match next_batch { Some(nb) => Some(nb@), None => None }),
{
    let mut u = URL.to_owned();
    u.append(PREFIX);
    match next_batch {
        Some(nb) => {
            u.append(GET_STATE);
            u.append(access_token);
            u.append("&since=");
            u.append(nb.as_str());
            u.append("&timeout=10000");
        },
        None => {
            u.append(GET_STATE_FILTER);
            u.append(access_token);
        },
    }
    u
}

/// The body of an answer to read on: a fetched text that parses as JSON. A text with a
/// number whose fraction would overflow the parser's exponent is not handed to it and is
/// refused.
pub fn json_body(fetched: Option<String>) -> (r: Option<String>)
    ensures
        r == match fetched {
            Some(b) => if fractions_fit(encode_utf8(b@)) && json_text_parses(b@) {
                Some(b)
            } else {
                None
            },
            None => None,
        },
{
    match fetched {
        Some(b) => {
            if fractions_fit_in(b.as_str()) && json_parses(b.as_str()) {
                Some(b)
            } else {
                None
            }
        },
        None => None,
    }
}

/// The address of the ten events of a room that come before `from`, newest first.
pub open spec fn messages_url_text(access_token: Seq<char>, room_id: Seq<char>, from: Seq<char>) -> Seq<char> {
    URL@ + PREFIX@ + "/rooms/"@ + room_id + "/messages"@ + "?from="@ + from + "&dir=b&limit=10"@
        + "&access_token="@ + access_token
}

pub fn messages_url(access_token: &str, room_id: &str, from: &str) -> (u: String)
    ensures
        u@ == messages_url_text(access_token@, room_id@, from@),
{
    let mut u = URL.to_owned();
    u.append(PREFIX);
    u.append("/rooms/");
    u.append(room_id);
    u.append("/messages");
    u.append("?from=");
    u.append(from);
    u.append("&dir=b&limit=10");
    u.append("&access_token=");
    u.append(access_token);
    u
}

} // verus!
