//! Wire-format codec.
//!
//! A frame is one line of text shaped as a record with three fields, always
//! present and always in this order:
//!
//! ```text
//! {"messageType":<string>,"dataArray":<null or [<string>,...]>,"data":<null or <string>>}
//! ```
//!
//! Strings are quoted; inside them `"` and `\` are written escaped as `\"`
//! and `\\`, and every other character stands for itself.  The grammar is
//! given by the `spec_parse_*` functions below, the canonical encoding by
//! the `spec_encode_*` functions, and the executable codec is proved to
//! agree with both.  Outbound frames carry only the body text in `data`;
//! the sender's name is stamped by the server, so an inbound `message`
//! frame carries a nested payload `{"from":<string>,"message":<string>}`
//! in `data` while an outbound one does not.

use vstd::prelude::*;
use vstd::string::*;

verus! {

// ---------------------------------------------------------------------------
// Literal pieces of the grammar
// ---------------------------------------------------------------------------

pub open spec fn lit_frame_open() -> Seq<char> {
    "{\"messageType\":"@
}

pub open spec fn lit_data_array() -> Seq<char> {
    ",\"dataArray\":"@
}

pub open spec fn lit_data() -> Seq<char> {
    ",\"data\":"@
}

pub open spec fn lit_null() -> Seq<char> {
    "null"@
}

pub open spec fn lit_payload_open() -> Seq<char> {
    "{\"from\":"@
}

pub open spec fn lit_payload_message() -> Seq<char> {
    ",\"message\":"@
}

// ---------------------------------------------------------------------------
// Canonical encoding, at the specification level
// ---------------------------------------------------------------------------

/// How one character is written inside a quoted string.
pub open spec fn escapes_to(c: char) -> Seq<char> {
    if c == '"' || c == '\\' {
        seq!['\\', c]
    } else {
        seq![c]
    }
}

/// How a whole text is written inside a quoted string.
pub open spec fn esc_chars(t: Seq<char>) -> Seq<char>
    decreases t.len(),
{
    if t.len() == 0 {
        Seq::empty()
    } else {
        escapes_to(t[0]) + esc_chars(t.drop_first())
    }
}

/// A quoted string: opening quote, escaped text, closing quote.
pub open spec fn spec_encode_string(t: Seq<char>) -> Seq<char> {
    seq!['"'] + esc_chars(t) + seq!['"']
}

/// The canonical outbound frame: the given kind, a `null` roster slot, and
/// the given text in `data`.
pub open spec fn spec_encode_outbound(kind: Seq<char>, data: Seq<char>) -> Seq<char> {
    lit_frame_open() + spec_encode_string(kind) + lit_data_array() + lit_null() + lit_data()
        + spec_encode_string(data) + seq!['}']
}

/// The registration frame announcing `name`.
pub open spec fn spec_encode_register(name: Seq<char>) -> Seq<char> {
    spec_encode_outbound("register"@, name)
}

/// The chat frame carrying `body` and nothing else: no sender name.
pub open spec fn spec_encode_message(body: Seq<char>) -> Seq<char> {
    spec_encode_outbound("message"@, body)
}

// ---------------------------------------------------------------------------
// The grammar, as a functional parser over character sequences.
// Each function consumes a prefix and returns the parsed value with the
// unconsumed remainder, or `None` when the input does not match.
// ---------------------------------------------------------------------------

/// Consume the exact text `lit`.
pub open spec fn spec_parse_lit(s: Seq<char>, lit: Seq<char>) -> Option<Seq<char>> {
    if lit.len() <= s.len() && s.subrange(0, lit.len() as int) == lit {
        Some(s.skip(lit.len() as int))
    } else {
        None
    }
}

/// The character an escape sequence `\c` stands for, if `\c` is legal.
pub open spec fn unescaped(c: char) -> Option<char> {
    if c == '"' || c == '\\' {
        Some(c)
    } else {
        None
    }
}

/// Consume the inside of a quoted string up to and including the closing
/// quote, returning the unescaped text.
pub open spec fn spec_parse_string_body(s: Seq<char>) -> Option<(Seq<char>, Seq<char>)>
    decreases s.len(),
{
    if s.len() == 0 {
        None
    } else if s[0] == '"' {
        Some((Seq::empty(), s.drop_first()))
    } else if s[0] == '\\' {
        if s.len() >= 2 {
            match unescaped(s[1]) {
                Some(c) => match spec_parse_string_body(s.skip(2)) {
                    Some((t, r)) => Some((seq![c] + t, r)),
                    None => None,
                },
                None => None,
            }
        } else {
            None
        }
    } else {
        match spec_parse_string_body(s.drop_first()) {
            Some((t, r)) => Some((seq![s[0]] + t, r)),
            None => None,
        }
    }
}

/// Consume one quoted string.
pub open spec fn spec_parse_string(s: Seq<char>) -> Option<(Seq<char>, Seq<char>)> {
    if s.len() > 0 && s[0] == '"' {
        spec_parse_string_body(s.drop_first())
    } else {
        None
    }
}

/// A successful string parse consumes at least the two quotes.
pub proof fn lemma_parse_body_shrinks(s: Seq<char>)
    ensures
        spec_parse_string_body(s) matches Some((t, r)) ==> r.len() < s.len(),
    decreases s.len(),
{
    if s.len() == 0 {
    } else if s[0] == '"' {
    } else if s[0] == '\\' {
        if s.len() >= 2 {
            lemma_parse_body_shrinks(s.skip(2));
        }
    } else {
        lemma_parse_body_shrinks(s.drop_first());
    }
}

/// A successful string parse consumes at least one character.
pub proof fn lemma_parse_string_shrinks(s: Seq<char>)
    ensures
        spec_parse_string(s) matches Some((t, r)) ==> r.len() < s.len(),
{
    if s.len() > 0 && s[0] == '"' {
        lemma_parse_body_shrinks(s.drop_first());
    }
}

/// Consume the elements of a non-empty array after its `[`, up to and
/// including the closing `]`.
pub open spec fn spec_parse_items(s: Seq<char>) -> Option<(Seq<Seq<char>>, Seq<char>)>
    decreases s.len(),
{
    match spec_parse_string(s) {
        None => None,
        Some((t, r)) => {
            if r.len() > 0 && r[0] == ',' {
                proof {
                    lemma_parse_string_shrinks(s);
                }
                match spec_parse_items(r.skip(1)) {
                    Some((ts, r2)) => Some((seq![t] + ts, r2)),
                    None => None,
                }
            } else if r.len() > 0 && r[0] == ']' {
                Some((seq![t], r.skip(1)))
            } else {
                None
            }
        },
    }
}

/// Consume the `dataArray` value: `null`, an empty array, or a non-empty
/// array of strings.
pub open spec fn spec_parse_opt_array(s: Seq<char>) -> Option<(Option<Seq<Seq<char>>>, Seq<char>)> {
    match spec_parse_lit(s, lit_null()) {
        Some(r) => Some((None, r)),
        None => {
            if s.len() >= 2 && s[0] == '[' && s[1] == ']' {
                Some((Some(Seq::empty()), s.skip(2)))
            } else if s.len() >= 1 && s[0] == '[' {
                match spec_parse_items(s.skip(1)) {
                    Some((ts, r)) => Some((Some(ts), r)),
                    None => None,
                }
            } else {
                None
            }
        },
    }
}

/// Consume the `data` value: `null` or a string.
pub open spec fn spec_parse_opt_string(s: Seq<char>) -> Option<(Option<Seq<char>>, Seq<char>)> {
    match spec_parse_lit(s, lit_null()) {
        Some(r) => Some((None, r)),
        None => match spec_parse_string(s) {
            Some((t, r)) => Some((Some(t), r)),
            None => None,
        },
    }
}

/// The fields of one parsed frame.
pub ghost struct FrameV {
    pub kind: Seq<char>,
    pub data_array: Option<Seq<Seq<char>>>,
    pub data: Option<Seq<char>>,
}

/// Parse one whole frame; the entire input must be consumed.
pub open spec fn spec_parse_frame(s: Seq<char>) -> Option<FrameV> {
    match spec_parse_lit(s, lit_frame_open()) {
        None => None,
        Some(r1) => match spec_parse_string(r1) {
            None => None,
            Some((kind, r2)) => match spec_parse_lit(r2, lit_data_array()) {
                None => None,
                Some(r3) => match spec_parse_opt_array(r3) {
                    None => None,
                    Some((data_array, r4)) => match spec_parse_lit(r4, lit_data()) {
                        None => None,
                        Some(r5) => match spec_parse_opt_string(r5) {
                            None => None,
                            Some((data, r6)) => {
                                if r6.len() == 1 && r6[0] == '}' {
                                    Some(FrameV { kind, data_array, data })
                                } else {
                                    None
                                }
                            },
                        },
                    },
                },
            },
        },
    }
}

/// Parse the nested payload of an inbound chat frame; the entire input must
/// be consumed.  Returns the sender name and the message text.
pub open spec fn spec_parse_payload(s: Seq<char>) -> Option<(Seq<char>, Seq<char>)> {
    match spec_parse_lit(s, lit_payload_open()) {
        None => None,
        Some(r1) => match spec_parse_string(r1) {
            None => None,
            Some((from, r2)) => match spec_parse_lit(r2, lit_payload_message()) {
                None => None,
                Some(r3) => match spec_parse_string(r3) {
                    None => None,
                    Some((body, r4)) => {
                        if r4.len() == 1 && r4[0] == '}' {
                            Some((from, body))
                        } else {
                            None
                        }
                    },
                },
            },
        },
    }
}

/// One decoded inbound event, at the specification level.
pub ghost enum EventV {
    RosterReplaced { names: Seq<Seq<char>> },
    MessageReceived { from: Seq<char>, body: Seq<char> },
    Unrecognized,
}

/// What an inbound frame text decodes to: a roster snapshot for kind
/// `users` (a `null` roster counting as empty), a chat message for kind
/// `message` (whose `data` must hold a well-formed payload), a tolerated
/// `Unrecognized` for every other kind, and `None` when the frame or the
/// nested payload is malformed.
pub open spec fn spec_decode_event(s: Seq<char>) -> Option<EventV> {
    match spec_parse_frame(s) {
        None => None,
        Some(f) => {
            if f.kind == "users"@ {
                Some(
                    EventV::RosterReplaced {
                        names: match f.data_array {
                            Some(a) => a,
                            None => Seq::empty(),
                        },
                    },
                )
            } else if f.kind == "message"@ {
                match f.data {
                    None => None,
                    Some(d) => match spec_parse_payload(d) {
                        None => None,
                        Some((from, body)) => Some(EventV::MessageReceived { from, body }),
                    },
                }
            } else {
                Some(EventV::Unrecognized)
            }
        },
    }
}

// ---------------------------------------------------------------------------
// Small executable helpers over strings
// ---------------------------------------------------------------------------

/// Relies on `String::push` from std: it appends the given character to the
/// end of the string and changes nothing else.
#[verifier::external_body]
fn push_char(s: &mut String, c: char)
    ensures
        final(s)@ == old(s)@.push(c),
{
    s.push(c);
}

/// The characters of `s`, in order.
fn str_to_chars(s: &str) -> (r: Vec<char>)
    ensures
        r@ == s@,
{
    let n: usize = s.unicode_len();
    let mut r: Vec<char> = Vec::new();
    let mut i: usize = 0;
    while i < n
        invariant
            n == s@.len(),
            i <= n,
            r@ == s@.take(i as int),
        decreases n - i,
    {
        let c = s.get_char(i);
        r.push(c);
        i = i + 1;
        proof {
            assert(r@ =~= s@.take(i as int));
        }
    }
    proof {
        assert(s@.take(n as int) =~= s@);
    }
    r
}

/// The string holding exactly the characters of `cs`.
fn chars_to_string(cs: &Vec<char>) -> (r: String)
    ensures
        r@ == cs@,
{
    let mut r = String::new();
    let mut i: usize = 0;
    while i < cs.len()
        invariant
            i <= cs.len(),
            r@ == cs@.take(i as int),
        decreases cs.len() - i,
    {
        push_char(&mut r, cs[i]);
        i = i + 1;
        proof {
            assert(r@ =~= cs@.take(i as int));
        }
    }
    proof {
        assert(cs@.take(cs.len() as int) =~= cs@);
    }
    r
}

/// Whether two string slices hold the same characters.
fn str_eq(a: &str, b: &str) -> (r: bool)
    ensures
        r == (a@ == b@),
{
    let na = a.unicode_len();
    let nb = b.unicode_len();
    if na != nb {
        proof {
            assert(a@ != b@) by {
                if a@ == b@ {
                    assert(a@.len() == b@.len());
                }
            }
        }
        return false;
    }
    let mut i: usize = 0;
    while i < na
        invariant
            na == a@.len(),
            na == b@.len(),
            i <= na,
            forall|j: int| 0 <= j < i ==> a@[j] == b@[j],
        decreases na - i,
    {
        if a.get_char(i) != b.get_char(i) {
            proof {
                assert(a@ != b@) by {
                    if a@ == b@ {
                        assert(a@[i as int] == b@[i as int]);
                    }
                }
            }
            return false;
        }
        i = i + 1;
    }
    proof {
        assert(a@ =~= b@);
    }
    true
}

// ---------------------------------------------------------------------------
// Executable parser, proved to agree with the grammar above.  Each helper
// works at a position in the character vector; its result is stated against
// the spec parser applied to the unconsumed suffix.
// ---------------------------------------------------------------------------

/// Try to consume `lit` at `pos`; on success return the position after it.
fn p_lit(v: &Vec<char>, pos: usize, lit: &str) -> (r: Option<usize>)
    requires
        pos <= v.len(),
    ensures
        match r {
            Some(p2) => pos <= p2 <= v@.len() && spec_parse_lit(v@.skip(pos as int), lit@)
                == Some(v@.skip(p2 as int)),
            None => spec_parse_lit(v@.skip(pos as int), lit@) is None,
        },
{
    let n = lit.unicode_len();
    if n > v.len() - pos {
        return None;
    }
    let mut i: usize = 0;
    while i < n
        invariant
            n == lit@.len(),
            pos + n <= v@.len(),
            v@.len() <= usize::MAX,
            i <= n,
            forall|j: int| 0 <= j < i ==> v@[pos + j] == lit@[j],
        decreases n - i,
    {
        if v[pos + i] != lit.get_char(i) {
            proof {
                let s = v@.skip(pos as int);
                assert(s[i as int] == v@[pos + i]);
                assert(spec_parse_lit(s, lit@) is None) by {
                    if lit@.len() <= s.len() && s.subrange(0, lit@.len() as int) == lit@ {
                        assert(s.subrange(0, lit@.len() as int)[i as int] == s[i as int]);
                    }
                }
            }
            return None;
        }
        i = i + 1;
    }
    proof {
        let s = v@.skip(pos as int);
        assert(s.subrange(0, n as int) =~= lit@);
        assert(s.skip(n as int) =~= v@.skip((pos + n) as int));
    }
    Some(pos + n)
}

/// Consume the inside of a quoted string after its opening quote.
fn p_string_body(v: &Vec<char>, pos: usize) -> (r: Option<(Vec<char>, usize)>)
    requires
        pos <= v.len(),
    ensures
        match r {
            Some((t, p2)) => pos < p2 <= v@.len() && spec_parse_string_body(v@.skip(pos as int))
                == Some((t@, v@.skip(p2 as int))),
            None => spec_parse_string_body(v@.skip(pos as int)) is None,
        },
    decreases v@.len() - pos,
{
    if pos == v.len() {
        return None;
    }
    let c = v[pos];
    proof {
        assert(v@.skip(pos as int)[0] == v@[pos as int]);
    }
    if c == '"' {
        proof {
            assert(v@.skip(pos as int).drop_first() =~= v@.skip(pos as int + 1));
        }
        Some((Vec::new(), pos + 1))
    } else if c == '\\' {
        if pos + 1 < v.len() {
            let e = v[pos + 1];
            proof {
                assert(v@.skip(pos as int)[1] == v@[pos as int + 1]);
            }
            if e == '"' || e == '\\' {
                proof {
                    assert(v@.skip(pos as int).skip(2) =~= v@.skip(pos as int + 2));
                }
                match p_string_body(v, pos + 2) {
                    Some((t, p2)) => {
                        let ghost tv = t@;
                        let mut t2 = t;
                        t2.insert(0, e);
                        proof {
                            assert(t2@ =~= seq![e] + tv);
                        }
                        Some((t2, p2))
                    },
                    None => None,
                }
            } else {
                None
            }
        } else {
            None
        }
    } else {
        proof {
            assert(v@.skip(pos as int).drop_first() =~= v@.skip(pos as int + 1));
        }
        match p_string_body(v, pos + 1) {
            Some((t, p2)) => {
                let ghost tv = t@;
                let mut t2 = t;
                t2.insert(0, c);
                proof {
                    assert(t2@ =~= seq![c] + tv);
                }
                Some((t2, p2))
            },
            None => None,
        }
    }
}

/// Consume one quoted string.
fn p_string(v: &Vec<char>, pos: usize) -> (r: Option<(String, usize)>)
    requires
        pos <= v.len(),
    ensures
        match r {
            Some((t, p2)) => pos < p2 <= v@.len() && spec_parse_string(v@.skip(pos as int))
                == Some((t@, v@.skip(p2 as int))),
            None => spec_parse_string(v@.skip(pos as int)) is None,
        },
{
    proof {
        if pos < v.len() {
            assert(v@.skip(pos as int)[0] == v@[pos as int]);
        }
    }
    if pos < v.len() && v[pos] == '"' {
        proof {
            assert(v@.skip(pos as int).drop_first() =~= v@.skip(pos as int + 1));
        }
        match p_string_body(v, pos + 1) {
            Some((t, p2)) => Some((chars_to_string(&t), p2)),
            None => None,
        }
    } else {
        None
    }
}

/// Consume the elements of a non-empty array after its `[`.
fn p_items(v: &Vec<char>, pos: usize) -> (r: Option<(Vec<String>, usize)>)
    requires
        pos <= v.len(),
    ensures
        match r {
            Some((ts, p2)) => pos < p2 <= v@.len() && spec_parse_items(v@.skip(pos as int))
                == Some((ts.deep_view(), v@.skip(p2 as int))),
            None => spec_parse_items(v@.skip(pos as int)) is None,
        },
    decreases v@.len() - pos,
{
    match p_string(v, pos) {
        None => None,
        Some((t, p1)) => {
            proof {
                if p1 < v.len() {
                    assert(v@.skip(p1 as int)[0] == v@[p1 as int]);
                }
            }
            if p1 < v.len() && v[p1] == ',' {
                proof {
                    assert(v@.skip(p1 as int).skip(1) =~= v@.skip(p1 as int + 1));
                }
                match p_items(v, p1 + 1) {
                    Some((ts, p2)) => {
                        let ghost tv = t@;
                        let ghost tsv = ts.deep_view();
                        let mut ts2 = ts;
                        ts2.insert(0, t);
                        proof {
                            assert(ts2.deep_view() =~~= seq![tv] + tsv);
                        }
                        Some((ts2, p2))
                    },
                    None => None,
                }
            } else if p1 < v.len() && v[p1] == ']' {
                proof {
                    assert(v@.skip(p1 as int).skip(1) =~= v@.skip(p1 as int + 1));
                }
                let ghost tv = t@;
                let mut ts: Vec<String> = Vec::new();
                ts.push(t);
                proof {
                    assert(ts.deep_view() =~~= seq![tv]);
                }
                Some((ts, p1 + 1))
            } else {
                None
            }
        },
    }
}

/// Consume the `dataArray` value.
fn p_opt_array(v: &Vec<char>, pos: usize) -> (r: Option<(Option<Vec<String>>, usize)>)
    requires
        pos <= v.len(),
    ensures
        match r {
            Some((o, p2)) => pos < p2 <= v@.len() && spec_parse_opt_array(v@.skip(pos as int))
                == Some((o.deep_view(), v@.skip(p2 as int))),
            None => spec_parse_opt_array(v@.skip(pos as int)) is None,
        },
{
    match p_lit(v, pos, "null") {
        Some(p2) => {
            proof {
                assert(pos < p2) by {
                    reveal_strlit("null");
                }
            }
            Some((None, p2))
        },
        None => {
            proof {
                if pos < v.len() {
                    assert(v@.skip(pos as int)[0] == v@[pos as int]);
                }
                if pos + 1 < v.len() {
                    assert(v@.skip(pos as int)[1] == v@[pos as int + 1]);
                }
            }
            if pos < v.len() && v[pos] == '[' {
                if pos + 1 < v.len() && v[pos + 1] == ']' {
                    let empty: Vec<String> = Vec::new();
                    proof {
                        assert(v@.skip(pos as int).skip(2) =~= v@.skip(pos as int + 2));
                        assert(Seq::<Seq<char>>::empty() =~~= empty.deep_view());
                    }
                    Some((Some(empty), pos + 2))
                } else {
                    proof {
                        assert(v@.skip(pos as int).skip(1) =~= v@.skip(pos as int + 1));
                    }
                    match p_items(v, pos + 1) {
                        Some((ts, p2)) => Some((Some(ts), p2)),
                        None => None,
                    }
                }
            } else {
                None
            }
        },
    }
}

/// Consume the `data` value.
fn p_opt_string(v: &Vec<char>, pos: usize) -> (r: Option<(Option<String>, usize)>)
    requires
        pos <= v.len(),
    ensures
        match r {
            Some((o, p2)) => pos < p2 <= v@.len() && spec_parse_opt_string(v@.skip(pos as int))
                == Some((o.deep_view(), v@.skip(p2 as int))),
            None => spec_parse_opt_string(v@.skip(pos as int)) is None,
        },
{
    match p_lit(v, pos, "null") {
        Some(p2) => {
            proof {
                assert(pos < p2) by {
                    reveal_strlit("null");
                }
            }
            Some((None, p2))
        },
        None => match p_string(v, pos) {
            Some((t, p2)) => Some((Some(t), p2)),
            None => None,
        },
    }
}

/// One parsed frame.
#[derive(Debug)]
pub struct Frame {
    pub kind: String,
    pub data_array: Option<Vec<String>>,
    pub data: Option<String>,
}

impl View for Frame {
    type V = FrameV;

    open spec fn view(&self) -> FrameV {
        FrameV {
            kind: self.kind@,
            data_array: self.data_array.deep_view(),
            data: self.data.deep_view(),
        }
    }
}

/// Parse one whole frame text.
#[verifier::rlimit(30)]
pub fn parse_frame(raw: &str) -> (r: Option<Frame>)
    ensures
        match r {
            Some(f) => spec_parse_frame(raw@) == Some(f@),
            None => spec_parse_frame(raw@) is None,
        },
{
    let v = str_to_chars(raw);
    proof {
        assert(v@.skip(0) =~= raw@);
    }
    let p1 = match p_lit(&v, 0, "{\"messageType\":") {
        Some(p) => p,
        None => {
            return None;
        },
    };
    let (kind, p2) = match p_string(&v, p1) {
        Some(x) => x,
        None => {
            return None;
        },
    };
    let p3 = match p_lit(&v, p2, ",\"dataArray\":") {
        Some(p) => p,
        None => {
            return None;
        },
    };
    let (data_array, p4) = match p_opt_array(&v, p3) {
        Some(x) => x,
        None => {
            return None;
        },
    };
    let p5 = match p_lit(&v, p4, ",\"data\":") {
        Some(p) => p,
        None => {
            return None;
        },
    };
    let (data, p6) = match p_opt_string(&v, p5) {
        Some(x) => x,
        None => {
            return None;
        },
    };
    proof {
        if p6 < v.len() {
            assert(v@.skip(p6 as int)[0] == v@[p6 as int]);
        }
    }
    if v.len() - p6 == 1 && v[p6] == '}' {
        proof {
            assert(v@.skip(p6 as int) =~= seq!['}']);
        }
        Some(Frame { kind, data_array, data })
    } else {
        None
    }
}

/// Parse one nested chat payload text into its sender name and body.
pub fn parse_payload(raw: &str) -> (r: Option<(String, String)>)
    ensures
        match r {
            Some((f, b)) => spec_parse_payload(raw@) == Some((f@, b@)),
            None => spec_parse_payload(raw@) is None,
        },
{
    let v = str_to_chars(raw);
    proof {
        assert(v@.skip(0) =~= raw@);
    }
    let p1 = match p_lit(&v, 0, "{\"from\":") {
        Some(p) => p,
        None => {
            return None;
        },
    };
    let (from, p2) = match p_string(&v, p1) {
        Some(x) => x,
        None => {
            return None;
        },
    };
    let p3 = match p_lit(&v, p2, ",\"message\":") {
        Some(p) => p,
        None => {
            return None;
        },
    };
    let (body, p4) = match p_string(&v, p3) {
        Some(x) => x,
        None => {
            return None;
        },
    };
    proof {
        if p4 < v.len() {
            assert(v@.skip(p4 as int)[0] == v@[p4 as int]);
        }
    }
    if v.len() - p4 == 1 && v[p4] == '}' {
        proof {
            assert(v@.skip(p4 as int) =~= seq!['}']);
        }
        Some((from, body))
    } else {
        None
    }
}

// ---------------------------------------------------------------------------
// Decoding inbound frames into typed events
// ---------------------------------------------------------------------------

/// One decoded inbound event.
#[derive(Debug)]
pub enum DomainEvent {
    RosterReplaced { names: Vec<String> },
    MessageReceived { from: String, body: String },
    Unrecognized,
}

impl View for DomainEvent {
    type V = EventV;

    open spec fn view(&self) -> EventV {
        match self {
            DomainEvent::RosterReplaced { names } => EventV::RosterReplaced {
                names: names.deep_view(),
            },
            DomainEvent::MessageReceived { from, body } => EventV::MessageReceived {
                from: from@,
                body: body@,
            },
            DomainEvent::Unrecognized => EventV::Unrecognized,
        }
    }
}

/// An inbound frame that could not be decoded, carrying the raw text for
/// reporting.  Decode failure is recoverable: the frame is dropped and the
/// stream goes on.
#[derive(Debug)]
pub struct ProtocolDecodeError {
    pub raw: String,
}

/// Decode one inbound frame text into its event, or report it malformed.
pub fn decode_event(raw: &str) -> (r: Result<DomainEvent, ProtocolDecodeError>)
    ensures
        spec_decode_event(raw@) matches Some(ev) ==> (r matches Ok(d) && d@ == ev),
        spec_decode_event(raw@) is None ==> (r matches Err(e) && e.raw@ == raw@),
{
    match parse_frame(raw) {
        None => Err(ProtocolDecodeError { raw: raw.to_owned() }),
        Some(f) => {
            if str_eq(f.kind.as_str(), "users") {
                let ghost fv = f@;
                let names: Vec<String> = match f.data_array {
                    Some(a) => a,
                    None => Vec::new(),
                };
                proof {
                    if fv.data_array is None {
                        assert(names.deep_view() =~~= Seq::<Seq<char>>::empty());
                    }
                }
                Ok(DomainEvent::RosterReplaced { names })
            } else if str_eq(f.kind.as_str(), "message") {
                match f.data {
                    None => Err(ProtocolDecodeError { raw: raw.to_owned() }),
                    Some(d) => match parse_payload(d.as_str()) {
                        Some((from, body)) => Ok(DomainEvent::MessageReceived { from, body }),
                        None => Err(ProtocolDecodeError { raw: raw.to_owned() }),
                    },
                }
            } else {
                Ok(DomainEvent::Unrecognized)
            }
        },
    }
}

// ---------------------------------------------------------------------------
// Encoding outbound frames
// ---------------------------------------------------------------------------

/// Appending texts escapes to the appended escapings.
pub proof fn lemma_esc_append(a: Seq<char>, b: Seq<char>)
    ensures
        esc_chars(a + b) == esc_chars(a) + esc_chars(b),
    decreases a.len(),
{
    if a.len() == 0 {
        assert(a + b =~= b);
        assert(esc_chars(a) + esc_chars(b) =~= esc_chars(b));
    } else {
        assert((a + b)[0] == a[0]);
        assert((a + b).drop_first() =~= a.drop_first() + b);
        lemma_esc_append(a.drop_first(), b);
        assert(escapes_to(a[0]) + (esc_chars(a.drop_first()) + esc_chars(b)) =~= (escapes_to(a[0])
            + esc_chars(a.drop_first())) + esc_chars(b));
    }
}

/// Append the canonical quoted form of `t` to `out`.
fn encode_string_into(out: &mut String, t: &str)
    ensures
        final(out)@ == old(out)@ + spec_encode_string(t@),
{
    push_char(out, '"');
    let n = t.unicode_len();
    let mut i: usize = 0;
    while i < n
        invariant
            n == t@.len(),
            i <= n,
            out@ == old(out)@ + seq!['"'] + esc_chars(t@.take(i as int)),
        decreases n - i,
    {
        let ghost done = t@.take(i as int);
        let c = t.get_char(i);
        if c == '"' || c == '\\' {
            push_char(out, '\\');
            push_char(out, c);
        } else {
            push_char(out, c);
        }
        i = i + 1;
        proof {
            assert(t@.take(i as int) =~= done + seq![t@[i - 1]]);
            lemma_esc_append(done, seq![t@[i - 1]]);
            assert(seq![t@[i - 1]].drop_first() =~= Seq::<char>::empty());
            assert(esc_chars(seq![t@[i - 1]].drop_first()) == Seq::<char>::empty());
            assert(esc_chars(seq![t@[i - 1]]) =~= escapes_to(t@[i - 1]));
            assert(out@ =~= old(out)@ + seq!['"'] + esc_chars(t@.take(i as int)));
        }
    }
    push_char(out, '"');
    proof {
        assert(t@.take(n as int) =~= t@);
        assert(out@ =~= old(out)@ + spec_encode_string(t@));
    }
}

/// Build the canonical outbound frame of the given kind and `data` text.
fn encode_outbound(kind: &str, data: &str) -> (r: String)
    ensures
        r@ == spec_encode_outbound(kind@, data@),
{
    let mut out = String::new();
    out.append("{\"messageType\":");
    encode_string_into(&mut out, kind);
    out.append(",\"dataArray\":");
    out.append("null");
    out.append(",\"data\":");
    encode_string_into(&mut out, data);
    push_char(&mut out, '}');
    proof {
        assert(out@ =~= spec_encode_outbound(kind@, data@));
    }
    out
}

/// The registration frame announcing `name`.
pub fn encode_register(name: &str) -> (r: String)
    ensures
        r@ == spec_encode_register(name@),
{
    encode_outbound("register", name)
}

/// The chat frame carrying `body`; no sender name is put in it, the server
/// stamps attribution on echo-back.
pub fn encode_message(body: &str) -> (r: String)
    ensures
        r@ == spec_encode_message(body@),
{
    encode_outbound("message", body)
}

// ---------------------------------------------------------------------------
// Round trip: the parser recovers exactly what the encoder wrote
// ---------------------------------------------------------------------------

/// The escaped form of `t`, followed by a closing quote and any tail,
/// parses back to exactly `t` with that tail as the remainder.
pub proof fn lemma_parse_escaped(t: Seq<char>, rest: Seq<char>)
    ensures
        spec_parse_string_body(esc_chars(t) + seq!['"'] + rest) == Some((t, rest)),
    decreases t.len(),
{
    let s = esc_chars(t) + seq!['"'] + rest;
    if t.len() == 0 {
        assert(s =~= seq!['"'] + rest);
        assert(s[0] == '"');
        assert(s.drop_first() =~= rest);
        assert(Seq::<char>::empty() =~= t);
    } else {
        let c = t[0];
        let t1 = t.drop_first();
        let tail = esc_chars(t1) + seq!['"'] + rest;
        lemma_parse_escaped(t1, rest);
        if c == '"' || c == '\\' {
            assert(s =~= seq!['\\', c] + tail);
            assert(s[0] == '\\');
            assert(s[1] == c);
            assert(s.skip(2) =~= tail);
            assert(seq![c] + t1 =~= t);
        } else {
            assert(s =~= seq![c] + tail);
            assert(s[0] == c);
            assert(s.drop_first() =~= tail);
            assert(seq![c] + t1 =~= t);
        }
    }
}

/// A canonically encoded string followed by any tail parses back exactly.
pub proof fn lemma_parse_encoded_string(t: Seq<char>, rest: Seq<char>)
    ensures
        spec_parse_string(spec_encode_string(t) + rest) == Some((t, rest)),
{
    let s = spec_encode_string(t) + rest;
    assert(s =~= seq!['"'] + (esc_chars(t) + seq!['"'] + rest));
    assert(s[0] == '"');
    assert(s.drop_first() =~= esc_chars(t) + seq!['"'] + rest);
    lemma_parse_escaped(t, rest);
}

/// A literal followed by any tail parses back with that tail as remainder.
pub proof fn lemma_parse_lit_prefix(lit: Seq<char>, rest: Seq<char>)
    ensures
        spec_parse_lit(lit + rest, lit) == Some(rest),
{
    let s = lit + rest;
    assert(s.subrange(0, lit.len() as int) =~= lit);
    assert(s.skip(lit.len() as int) =~= rest);
}

/// An outbound frame parses back to its kind, an absent roster, and its
/// `data` text unchanged.
pub proof fn lemma_parse_encoded_outbound(kind: Seq<char>, data: Seq<char>)
    ensures
        spec_parse_frame(spec_encode_outbound(kind, data)) == Some(
            FrameV { kind: kind, data_array: None, data: Some(data) },
        ),
{
    let s = spec_encode_outbound(kind, data);
    let r1 = spec_encode_string(kind) + lit_data_array() + lit_null() + lit_data()
        + spec_encode_string(data) + seq!['}'];
    assert(s =~= lit_frame_open() + r1);
    lemma_parse_lit_prefix(lit_frame_open(), r1);
    let r2 = lit_data_array() + lit_null() + lit_data() + spec_encode_string(data) + seq!['}'];
    assert(r1 =~= spec_encode_string(kind) + r2);
    lemma_parse_encoded_string(kind, r2);
    let r3 = lit_null() + lit_data() + spec_encode_string(data) + seq!['}'];
    assert(r2 =~= lit_data_array() + r3);
    lemma_parse_lit_prefix(lit_data_array(), r3);
    let r4 = lit_data() + spec_encode_string(data) + seq!['}'];
    assert(r3 =~= lit_null() + r4);
    lemma_parse_lit_prefix(lit_null(), r4);
    let r5 = spec_encode_string(data) + seq!['}'];
    assert(r4 =~= lit_data() + r5);
    lemma_parse_lit_prefix(lit_data(), r5);
    assert(spec_parse_lit(r5, lit_null()) is None) by {
        reveal_strlit("null");
        assert(spec_encode_string(data)[0] == '"');
        assert(r5[0] == '"');
        if lit_null().len() <= r5.len() && r5.subrange(0, lit_null().len() as int) == lit_null() {
            assert(r5.subrange(0, lit_null().len() as int)[0] == r5[0]);
        }
    }
    lemma_parse_encoded_string(data, seq!['}']);
}

/// The frame `submitMessage` puts on the wire for `body` parses back to
/// kind `message` with `data` exactly `body`: the client writes no sender
/// name anywhere in the frame, attribution is the server's alone.
pub proof fn lemma_message_frame_carries_only_body(body: Seq<char>)
    ensures
        spec_parse_frame(spec_encode_message(body)) == Some(
            FrameV { kind: "message"@, data_array: None, data: Some(body) },
        ),
{
    lemma_parse_encoded_outbound("message"@, body);
}

/// The frame construction puts on the wire parses back to kind `register`
/// with `data` exactly the announced name.
pub proof fn lemma_register_frame_carries_name(name: Seq<char>)
    ensures
        spec_parse_frame(spec_encode_register(name)) == Some(
            FrameV { kind: "register"@, data_array: None, data: Some(name) },
        ),
{
    lemma_parse_encoded_outbound("register"@, name);
}

} // verus!
