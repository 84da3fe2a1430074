//! The relay's wire unit and its JSON text encoding.
//!
//! Each event travels as one JSON object per frame:
//! `{"Connect":{"addr":"..."}}`, `{"Disconnect":{"addr":"..."}}` or
//! `{"Msg":{"user":"...","text":"..."}}`. Encoding writes that layout with
//! no spaces. Decoding accepts any JSON text of that shape: whitespace
//! between tokens, the two fields of `Msg` in either order, and every JSON
//! string escape. Re-encoding a decoded event gives its canonical text.
use vstd::prelude::*;
use crate::text::str_eq;

verus! {

/// One action taken by a chat member: the sole unit exchanged on the wire.
#[derive(Debug)]
pub enum ChatEvent {
    Connect { addr: String },
    Disconnect { addr: String },
    Msg { user: String, text: String },
}

/// The mathematical value of a `ChatEvent`.
pub enum EventView {
    Connect(Seq<char>),
    Disconnect(Seq<char>),
    Msg(Seq<char>, Seq<char>),
}

impl View for ChatEvent {
    type V = EventView;

    open spec fn view(&self) -> EventView {
        match self {
            ChatEvent::Connect { addr } => EventView::Connect(addr@),
            ChatEvent::Disconnect { addr } => EventView::Disconnect(addr@),
            ChatEvent::Msg { user, text } => EventView::Msg(user@, text@),
        }
    }
}

impl PartialEq for ChatEvent {
    fn eq(&self, other: &ChatEvent) -> (r: bool) {
        match (self, other) {
            (ChatEvent::Connect { addr: a }, ChatEvent::Connect { addr: b }) => a.eq(b),
            (ChatEvent::Disconnect { addr: a }, ChatEvent::Disconnect { addr: b }) => a.eq(b),
            (ChatEvent::Msg { user: u1, text: t1 }, ChatEvent::Msg { user: u2, text: t2 }) => {
                u1.eq(u2) && t1.eq(t2)
            },
            _ => false,
        }
    }
}

impl vstd::std_specs::cmp::PartialEqSpecImpl for ChatEvent {
    open spec fn obeys_eq_spec() -> bool {
        true
    }

    open spec fn eq_spec(&self, other: &ChatEvent) -> bool {
        self@ == other@
    }
}

impl Clone for ChatEvent {
    fn clone(&self) -> (r: ChatEvent)
        ensures
            r@ == self@,
    {
        match self {
            ChatEvent::Connect { addr } => ChatEvent::Connect { addr: addr.clone() },
            ChatEvent::Disconnect { addr } => ChatEvent::Disconnect { addr: addr.clone() },
            ChatEvent::Msg { user, text } => ChatEvent::Msg { user: user.clone(), text: text.clone() },
        }
    }
}

/// The JSON string literal for `s`, quotes included, as rustc_serialize
/// writes it.
pub uninterp spec fn json_quoted(s: Seq<char>) -> Seq<char>;

/// Relies on rustc_serialize's `Json::String` display (`escape_str`): the
/// string as a JSON string literal; the result depends on the characters
/// alone.
#[verifier::external_body]
fn quote(s: &str) -> (r: String)
    ensures
        r@ == json_quoted(s@),
{
    rustc_serialize::json::Json::String(s.to_string()).to_string()
}

/// The text that stands for an event on the wire.
pub open spec fn encoding(e: EventView) -> Seq<char> {
    match e {
        EventView::Connect(a) => "{\"Connect\":{\"addr\":"@ + json_quoted(a) + "}}"@,
        EventView::Disconnect(a) => "{\"Disconnect\":{\"addr\":"@ + json_quoted(a) + "}}"@,
        EventView::Msg(u, t) => "{\"Msg\":{\"user\":"@ + json_quoted(u) + ",\"text\":"@
            + json_quoted(t) + "}}"@,
    }
}

impl ChatEvent {
    /// The wire text of this event.
    pub fn encode(&self) -> (r: String)
        ensures
            r@ == encoding(self@),
    {
        let mut out = String::new();
        match self {
            ChatEvent::Connect { addr } => {
                out.append("{\"Connect\":{\"addr\":");
                out.append(quote(addr.as_str()).as_str());
            },
            ChatEvent::Disconnect { addr } => {
                out.append("{\"Disconnect\":{\"addr\":");
                out.append(quote(addr.as_str()).as_str());
            },
            ChatEvent::Msg { user, text } => {
                out.append("{\"Msg\":{\"user\":");
                out.append(quote(user.as_str()).as_str());
                out.append(",\"text\":");
                out.append(quote(text.as_str()).as_str());
            },
        }
        out.append("}}");
        proof {
            assert(Seq::<char>::empty() + "{\"Connect\":{\"addr\":"@ =~= "{\"Connect\":{\"addr\":"@);
            assert(Seq::<char>::empty() + "{\"Disconnect\":{\"addr\":"@
                =~= "{\"Disconnect\":{\"addr\":"@);
            assert(Seq::<char>::empty() + "{\"Msg\":{\"user\":"@ =~= "{\"Msg\":{\"user\":"@);
        }
        out
    }
}

// ---- The JSON grammar of an event, as a parse over character positions.

/// JSON whitespace.
pub open spec fn is_json_ws(c: char) -> bool {
    c == ' ' || c == '\t' || c == '\n' || c == '\r'
}

/// The first position at or after `i` that is not JSON whitespace.
pub open spec fn skip_ws(s: Seq<char>, i: int) -> int
    decreases s.len() - i,
{
    if 0 <= i < s.len() && is_json_ws(s[i]) {
        skip_ws(s, i + 1)
    } else {
        i
    }
}

pub open spec fn char_at(s: Seq<char>, i: int, c: char) -> bool {
    0 <= i < s.len() && s[i] == c
}

pub open spec fn hex_val(c: char) -> Option<int> {
    let u = c as int;
    if 48 <= u <= 57 {
        Some(u - 48)
    } else if 97 <= u <= 102 {
        Some(u - 87)
    } else if 65 <= u <= 70 {
        Some(u - 55)
    } else {
        None
    }
}

/// The value of four hexadecimal digits at `i`.
pub open spec fn hex4(s: Seq<char>, i: int) -> Option<int> {
    if 0 <= i && i + 4 <= s.len() {
        match (hex_val(s[i]), hex_val(s[i + 1]), hex_val(s[i + 2]), hex_val(s[i + 3])) {
            (Some(a), Some(b), Some(c), Some(d)) => Some(a * 4096 + b * 256 + c * 16 + d),
            _ => None,
        }
    } else {
        None
    }
}

/// The character with code `v`, as `char::from_u32` gives it: none for a
/// surrogate or a value past U+10FFFF.
pub uninterp spec fn char_of_code(v: u32) -> Option<char>;

/// The character of a two-character escape `\d`.
pub open spec fn simple_escape(d: char) -> Option<char> {
    if d == '"' {
        Some('"')
    } else if d == '\\' {
        Some('\\')
    } else if d == '/' {
        Some('/')
    } else if d == 'b' {
        Some('\u{8}')
    } else if d == 'f' {
        Some('\u{c}')
    } else if d == 'n' {
        Some('\n')
    } else if d == 'r' {
        Some('\r')
    } else if d == 't' {
        Some('\t')
    } else {
        None
    }
}

/// A `\uXXXX` escape at `i` (the backslash), or a surrogate pair of two
/// such escapes; a lone surrogate stands for no character.
pub open spec fn unicode_escape(s: Seq<char>, i: int) -> Option<(char, int)> {
    match hex4(s, i + 2) {
        None => None,
        Some(v) => if 0xD800 <= v < 0xDC00 {
            if char_at(s, i + 6, '\\') && char_at(s, i + 7, 'u') {
                match hex4(s, i + 8) {
                    Some(w) => if 0xDC00 <= w < 0xE000 {
                        match char_of_code((0x10000 + (v - 0xD800) * 0x400 + (w - 0xDC00)) as u32) {
                            Some(c) => Some((c, i + 12)),
                            None => None,
                        }
                    } else {
                        None
                    },
                    None => None,
                }
            } else {
                None
            }
        } else {
            match char_of_code(v as u32) {
                Some(c) => Some((c, i + 6)),
                None => None,
            }
        },
    }
}

/// The escape at `i` (the backslash): the character and where it ends.
pub open spec fn escape_at(s: Seq<char>, i: int) -> Option<(char, int)> {
    if 0 <= i && i + 1 < s.len() {
        if s[i + 1] == 'u' {
            unicode_escape(s, i)
        } else {
            match simple_escape(s[i + 1]) {
                Some(c) => Some((c, i + 2)),
                None => None,
            }
        }
    } else {
        None
    }
}

/// `o` in front of the characters of a parse result.
pub open spec fn prefixed(o: Seq<char>, x: Option<(Seq<char>, int)>) -> Option<(Seq<char>, int)> {
    match x {
        Some((r, e)) => Some((o + r, e)),
        None => None,
    }
}

/// The body of a JSON string from position `i` to its closing quote: the
/// characters it stands for, and the position after the quote.
pub open spec fn string_body(s: Seq<char>, i: int) -> Option<(Seq<char>, int)>
    decreases s.len() - i,
{
    if i < 0 || i >= s.len() {
        None
    } else if s[i] == '"' {
        Some((Seq::empty(), i + 1))
    } else if s[i] == '\\' {
        match escape_at(s, i) {
            Some((c, j)) => prefixed(seq![c], string_body(s, j)),
            None => None,
        }
    } else if (s[i] as int) < 0x20 {
        None
    } else {
        prefixed(seq![s[i]], string_body(s, i + 1))
    }
}

/// A JSON string that starts at position `i`.
pub open spec fn string_at(s: Seq<char>, i: int) -> Option<(Seq<char>, int)> {
    if char_at(s, i, '"') {
        string_body(s, i + 1)
    } else {
        None
    }
}

/// A member `"key": "value"` after optional whitespace at `i`.
pub open spec fn member_at(s: Seq<char>, i: int) -> Option<(Seq<char>, Seq<char>, int)> {
    match string_at(s, skip_ws(s, i)) {
        Some((k, e1)) => {
            let i2 = skip_ws(s, e1);
            if char_at(s, i2, ':') {
                match string_at(s, skip_ws(s, i2 + 1)) {
                    Some((v, e2)) => Some((k, v, e2)),
                    None => None,
                }
            } else {
                None
            }
        },
        None => None,
    }
}

/// An object of at most two string members after optional whitespace at
/// `i`: its members in order, and the position after its `}`.
pub open spec fn fields_at(s: Seq<char>, i: int) -> Option<(Seq<(Seq<char>, Seq<char>)>, int)> {
    let i1 = skip_ws(s, i);
    if !char_at(s, i1, '{') {
        None
    } else {
        let i2 = skip_ws(s, i1 + 1);
        if char_at(s, i2, '}') {
            Some((Seq::empty(), i2 + 1))
        } else {
            match member_at(s, i2) {
                Some((k1, v1, e1)) => {
                    let i3 = skip_ws(s, e1);
                    if char_at(s, i3, '}') {
                        Some((seq![(k1, v1)], i3 + 1))
                    } else if char_at(s, i3, ',') {
                        match member_at(s, i3 + 1) {
                            Some((k2, v2, e2)) => {
                                let i4 = skip_ws(s, e2);
                                if char_at(s, i4, '}') {
                                    Some((seq![(k1, v1), (k2, v2)], i4 + 1))
                                } else {
                                    None
                                }
                            },
                            None => None,
                        }
                    } else {
                        None
                    }
                },
                None => None,
            }
        }
    }
}

/// The event that a tag and its fields name, if they fit the schema.
pub open spec fn event_of(tag: Seq<char>, fs: Seq<(Seq<char>, Seq<char>)>) -> Option<EventView> {
    if tag == "Connect"@ && fs.len() == 1 && fs[0].0 == "addr"@ {
        Some(EventView::Connect(fs[0].1))
    } else if tag == "Disconnect"@ && fs.len() == 1 && fs[0].0 == "addr"@ {
        Some(EventView::Disconnect(fs[0].1))
    } else if tag == "Msg"@ && fs.len() == 2 && fs[0].0 == "user"@ && fs[1].0 == "text"@ {
        Some(EventView::Msg(fs[0].1, fs[1].1))
    } else if tag == "Msg"@ && fs.len() == 2 && fs[0].0 == "text"@ && fs[1].0 == "user"@ {
        Some(EventView::Msg(fs[1].1, fs[0].1))
    } else {
        None
    }
}

/// The event that JSON text `s` holds: an object with one member, whose key
/// is the tag and whose value is the object of fields, with optional
/// whitespace around every token.
pub open spec fn parse_event(s: Seq<char>) -> Option<EventView> {
    let i1 = skip_ws(s, 0);
    if !char_at(s, i1, '{') {
        None
    } else {
        match string_at(s, skip_ws(s, i1 + 1)) {
            Some((tag, e1)) => {
                let i2 = skip_ws(s, e1);
                if !char_at(s, i2, ':') {
                    None
                } else {
                    match fields_at(s, i2 + 1) {
                        Some((fs, e2)) => {
                            let i3 = skip_ws(s, e2);
                            if char_at(s, i3, '}') && skip_ws(s, i3 + 1) == s.len() {
                                event_of(tag, fs)
                            } else {
                                None
                            }
                        },
                        None => None,
                    }
                }
            },
            None => None,
        }
    }
}

// ---- Reading the grammar.

/// Relies on `char::from_u32`: the character with code `v`, if there is
/// one; the result depends on `v` alone.
#[verifier::external_body]
fn char_from(v: u32) -> (r: Option<char>)
    ensures
        r == char_of_code(v),
{
    char::from_u32(v)
}

fn is_ws(c: char) -> (r: bool)
    ensures
        r == is_json_ws(c),
{
    c == ' ' || c == '\t' || c == '\n' || c == '\r'
}

fn skip_ws_from(s: &str, i: usize) -> (r: usize)
    requires
        i <= s@.len(),
    ensures
        r as int == skip_ws(s@, i as int),
        i <= r <= s@.len(),
{
    let n = s.unicode_len();
    let mut j = i;
    while j < n && is_ws(s.get_char(j))
        invariant
            n == s@.len(),
            i <= j <= n,
            skip_ws(s@, i as int) == skip_ws(s@, j as int),
        decreases n - j,
    {
        j = j + 1;
    }
    j
}

fn char_is(s: &str, i: usize, c: char) -> (r: bool)
    ensures
        r == char_at(s@, i as int, c),
        s@.len() <= usize::MAX,
{
    i < s.unicode_len() && s.get_char(i) == c
}

fn hex_digit_value(c: char) -> (r: Option<u32>)
    ensures
        match hex_val(c) {
            Some(v) => r == Some(v as u32),
            None => r is None,
        },
{
    let u = c as u32;
    if 48 <= u && u <= 57 {
        Some(u - 48)
    } else if 97 <= u && u <= 102 {
        Some(u - 87)
    } else if 65 <= u && u <= 70 {
        Some(u - 55)
    } else {
        None
    }
}

fn hex4_at(s: &str, i: usize) -> (r: Option<u32>)
    ensures
        match hex4(s@, i as int) {
            Some(v) => r == Some(v as u32) && v < 0x10000,
            None => r is None,
        },
{
    let n = s.unicode_len();
    if i > n || n - i < 4 {
        return None;
    }
    match (
        hex_digit_value(s.get_char(i)),
        hex_digit_value(s.get_char(i + 1)),
        hex_digit_value(s.get_char(i + 2)),
        hex_digit_value(s.get_char(i + 3)),
    ) {
        (Some(a), Some(b), Some(c), Some(d)) => Some(a * 4096 + b * 256 + c * 16 + d),
        _ => None,
    }
}

/// Reads the escape whose backslash is at `i`.
fn escape_from(s: &str, i: usize) -> (r: Option<(char, usize)>)
    requires
        i < s@.len(),
    ensures
        match escape_at(s@, i as int) {
            Some((c, j)) => r == Some((c, j as usize)) && i < j <= s@.len(),
            None => r is None,
        },
{
    let n = s.unicode_len();
    if n - i < 2 {
        return None;
    }
    let d = s.get_char(i + 1);
    if d == 'u' {
        let v = match hex4_at(s, i + 2) {
            Some(v) => v,
            None => return None,
        };
        if 0xD800 <= v && v < 0xDC00 {
            if !(char_is(s, i + 6, '\\') && char_is(s, i + 7, 'u')) {
                return None;
            }
            match hex4_at(s, i + 8) {
                Some(w) => {
                    if 0xDC00 <= w && w < 0xE000 {
                        match char_from(0x10000 + (v - 0xD800) * 0x400 + (w - 0xDC00)) {
                            Some(c) => Some((c, i + 12)),
                            None => None,
                        }
                    } else {
                        None
                    }
                },
                None => None,
            }
        } else {
            match char_from(v) {
                Some(c) => Some((c, i + 6)),
                None => None,
            }
        }
    } else if d == '"' {
        Some(('"', i + 2))
    } else if d == '\\' {
        Some(('\\', i + 2))
    } else if d == '/' {
        Some(('/', i + 2))
    } else if d == 'b' {
        Some(('\u{8}', i + 2))
    } else if d == 'f' {
        Some(('\u{c}', i + 2))
    } else if d == 'n' {
        Some(('\n', i + 2))
    } else if d == 'r' {
        Some(('\r', i + 2))
    } else if d == 't' {
        Some(('\t', i + 2))
    } else {
        None
    }
}

proof fn lemma_prefixed_push(o: Seq<char>, c: char, x: Option<(Seq<char>, int)>)
    ensures
        prefixed(o, prefixed(seq![c], x)) == prefixed(o.push(c), x),
{
    if let Some((r, e)) = x {
        assert(o + (seq![c] + r) =~= o.push(c) + r);
    }
}

/// Reads a JSON string body from `i` through its closing quote.
fn string_body_from(s: &str, i: usize) -> (r: Option<(String, usize)>)
    requires
        i <= s@.len(),
    ensures
        match string_body(s@, i as int) {
            Some((v, e)) => r is Some && (r->0).0@ == v && (r->0).1 as int == e && e <= s@.len(),
            None => r is None,
        },
{
    let n = s.unicode_len();
    let mut out = String::new();
    let mut j = i;
    assert(out@ + Seq::<char>::empty() =~= Seq::<char>::empty());
    loop
        invariant
            n == s@.len(),
            i <= j <= n,
            string_body(s@, i as int) == prefixed(out@, string_body(s@, j as int)),
        decreases n - j,
    {
        if j >= n {
            return None;
        }
        let c = s.get_char(j);
        if c == '"' {
            assert(out@ + Seq::<char>::empty() =~= out@);
            return Some((out, j + 1));
        }
        if c == '\\' {
            match escape_from(s, j) {
                Some((ch, k)) => {
                    proof {
                        lemma_prefixed_push(out@, ch, string_body(s@, k as int));
                    }
                    out.push(ch);
                    j = k;
                },
                None => {
                    return None;
                },
            }
        } else if (c as u32) < 0x20 {
            return None;
        } else {
            proof {
                lemma_prefixed_push(out@, c, string_body(s@, j + 1));
            }
            out.push(c);
            j = j + 1;
        }
    }
}

fn string_from(s: &str, i: usize) -> (r: Option<(String, usize)>)
    requires
        i <= s@.len(),
    ensures
        match string_at(s@, i as int) {
            Some((v, e)) => r is Some && (r->0).0@ == v && (r->0).1 as int == e && e <= s@.len(),
            None => r is None,
        },
{
    if char_is(s, i, '"') {
        string_body_from(s, i + 1)
    } else {
        None
    }
}

fn member_from(s: &str, i: usize) -> (r: Option<(String, String, usize)>)
    requires
        i <= s@.len(),
    ensures
        match member_at(s@, i as int) {
            Some((k, v, e)) => r is Some && (r->0).0@ == k && (r->0).1@ == v && (r->0).2 as int == e
                && e <= s@.len(),
            None => r is None,
        },
{
    let i1 = skip_ws_from(s, i);
    let (k, e1) = match string_from(s, i1) {
        Some(x) => x,
        None => return None,
    };
    let i2 = skip_ws_from(s, e1);
    if !char_is(s, i2, ':') {
        return None;
    }
    let i3 = skip_ws_from(s, i2 + 1);
    match string_from(s, i3) {
        Some((v, e2)) => Some((k, v, e2)),
        None => None,
    }
}

/// The views of a list of string pairs.
pub open spec fn pairs_view(v: Seq<(String, String)>) -> Seq<(Seq<char>, Seq<char>)> {
    v.map_values(|p: (String, String)| (p.0@, p.1@))
}

fn fields_from(s: &str, i: usize) -> (r: Option<(Vec<(String, String)>, usize)>)
    requires
        i <= s@.len(),
    ensures
        match fields_at(s@, i as int) {
            Some((fs, e)) => r is Some && pairs_view((r->0).0@) == fs && (r->0).1 as int == e && e
                <= s@.len(),
            None => r is None,
        },
{
    let i1 = skip_ws_from(s, i);
    if !char_is(s, i1, '{') {
        return None;
    }
    let i2 = skip_ws_from(s, i1 + 1);
    let mut fs: Vec<(String, String)> = Vec::new();
    if char_is(s, i2, '}') {
        assert(pairs_view(fs@) =~= Seq::<(Seq<char>, Seq<char>)>::empty());
        return Some((fs, i2 + 1));
    }
    let (k1, v1, e1) = match member_from(s, i2) {
        Some(x) => x,
        None => return None,
    };
    let ghost m1 = (k1@, v1@);
    fs.push((k1, v1));
    let i3 = skip_ws_from(s, e1);
    if char_is(s, i3, '}') {
        assert(pairs_view(fs@) =~= seq![m1]);
        return Some((fs, i3 + 1));
    }
    if !char_is(s, i3, ',') {
        return None;
    }
    let (k2, v2, e2) = match member_from(s, i3 + 1) {
        Some(x) => x,
        None => return None,
    };
    let ghost m2 = (k2@, v2@);
    fs.push((k2, v2));
    let i4 = skip_ws_from(s, e2);
    if char_is(s, i4, '}') {
        assert(pairs_view(fs@) =~= seq![m1, m2]);
        Some((fs, i4 + 1))
    } else {
        None
    }
}

impl ChatEvent {
    /// Reads an event from JSON text, as `parse_event` describes: any
    /// spacing, either order of the `Msg` fields, any string escapes.
    pub fn decode(payload: &str) -> (r: Option<ChatEvent>)
        ensures
            match parse_event(payload@) {
                Some(e) => r is Some && r->0@ == e,
                None => r is None,
            },
    {
        let n = payload.unicode_len();
        let i1 = skip_ws_from(payload, 0);
        if !char_is(payload, i1, '{') {
            return None;
        }
        let i2 = skip_ws_from(payload, i1 + 1);
        let (tag, e1) = match string_from(payload, i2) {
            Some(x) => x,
            None => return None,
        };
        let i3 = skip_ws_from(payload, e1);
        if !char_is(payload, i3, ':') {
            return None;
        }
        let (mut fs, e2) = match fields_from(payload, i3 + 1) {
            Some(x) => x,
            None => return None,
        };
        let i4 = skip_ws_from(payload, e2);
        if !char_is(payload, i4, '}') {
            return None;
        }
        if skip_ws_from(payload, i4 + 1) != n {
            return None;
        }
        let ghost fv = pairs_view(fs@);
        if fs.len() == 1 && str_eq(fs[0].0.as_str(), "addr") {
            assert(fs@[0].0@ == fv[0].0);
            let (_, a) = fs.pop().unwrap();
            assert(a@ == fv[0].1);
            if str_eq(tag.as_str(), "Connect") {
                return Some(ChatEvent::Connect { addr: a });
            } else if str_eq(tag.as_str(), "Disconnect") {
                return Some(ChatEvent::Disconnect { addr: a });
            }
            return None;
        }
        if fs.len() == 2 && str_eq(tag.as_str(), "Msg") {
            assert(fs@[0].0@ == fv[0].0 && fs@[1].0@ == fv[1].0);
            let user_first = str_eq(fs[0].0.as_str(), "user") && str_eq(fs[1].0.as_str(), "text");
            let text_first = str_eq(fs[0].0.as_str(), "text") && str_eq(fs[1].0.as_str(), "user");
            let (_, second) = fs.pop().unwrap();
            let (_, first) = fs.pop().unwrap();
            assert(first@ == fv[0].1 && second@ == fv[1].1);
            if user_first {
                return Some(ChatEvent::Msg { user: first, text: second });
            } else if text_first {
                return Some(ChatEvent::Msg { user: second, text: first });
            }
        }
        None
    }
}

} // verus!
