//! The on-disk document: a JSON array of task records, each an object with
//! the string members `name` and `description` and the boolean member
//! `done`. The writer produces the canonical spelling (no whitespace,
//! members in that order, the usual short escapes, `\u00..` for the other
//! control characters). The reader accepts whitespace between tokens, the
//! members in any order, and every JSON string escape up to the surrogate
//! range.
use vstd::prelude::*;

use crate::text::push_char;
use crate::text::str_eq;
use crate::todo::TaskData;
use crate::todo::ToDo;

verus! {

// ---------------------------------------------------------------------
// Encoding, specification
// ---------------------------------------------------------------------
pub open spec fn hex_char(d: int) -> char {
    if d == 0 {
        '0'
    } else if d == 1 {
        '1'
    } else if d == 2 {
        '2'
    } else if d == 3 {
        '3'
    } else if d == 4 {
        '4'
    } else if d == 5 {
        '5'
    } else if d == 6 {
        '6'
    } else if d == 7 {
        '7'
    } else if d == 8 {
        '8'
    } else if d == 9 {
        '9'
    } else if d == 10 {
        'a'
    } else if d == 11 {
        'b'
    } else if d == 12 {
        'c'
    } else if d == 13 {
        'd'
    } else if d == 14 {
        'e'
    } else {
        'f'
    }
}

/// How one character is written inside a JSON string.
pub open spec fn esc_char(c: char) -> Seq<char> {
    if c == '"' {
        seq!['\\', '"']
    } else if c == '\\' {
        seq!['\\', '\\']
    } else if c == '\u{8}' {
        seq!['\\', 'b']
    } else if c == '\u{9}' {
        seq!['\\', 't']
    } else if c == '\u{a}' {
        seq!['\\', 'n']
    } else if c == '\u{c}' {
        seq!['\\', 'f']
    } else if c == '\u{d}' {
        seq!['\\', 'r']
    } else if (c as u32) < 0x20 {
        seq!['\\', 'u', '0', '0', hex_char(c as u32 as int / 16), hex_char(c as u32 as int % 16)]
    } else {
        seq![c]
    }
}

pub open spec fn enc_str_body(s: Seq<char>) -> Seq<char>
    decreases s.len(),
{
    if s.len() == 0 {
        Seq::empty()
    } else {
        esc_char(s[0]) + enc_str_body(s.drop_first())
    }
}

pub open spec fn enc_string(s: Seq<char>) -> Seq<char> {
    seq!['"'] + enc_str_body(s) + seq!['"']
}

pub open spec fn enc_bool(b: bool) -> Seq<char> {
    if b {
        seq!['t', 'r', 'u', 'e']
    } else {
        seq!['f', 'a', 'l', 's', 'e']
    }
}

pub open spec fn name_chars() -> Seq<char> {
    seq!['n', 'a', 'm', 'e']
}

pub open spec fn description_chars() -> Seq<char> {
    seq!['d', 'e', 's', 'c', 'r', 'i', 'p', 't', 'i', 'o', 'n']
}

pub open spec fn done_chars() -> Seq<char> {
    seq!['d', 'o', 'n', 'e']
}

/// The `name` member of a record, key and value.
pub open spec fn enc_member_name(v: Seq<char>) -> Seq<char> {
    enc_string(name_chars()) + seq![':'] + enc_string(v)
}

/// The `description` member of a record, key and value.
pub open spec fn enc_member_desc(v: Seq<char>) -> Seq<char> {
    enc_string(description_chars()) + seq![':'] + enc_string(v)
}

/// The `done` member of a record, key and value.
pub open spec fn enc_member_done(b: bool) -> Seq<char> {
    enc_string(done_chars()) + seq![':'] + enc_bool(b)
}

/// One record: the three members, written in declaration order.
pub open spec fn enc_task(t: TaskData) -> Seq<char> {
    seq!['{'] + enc_member_name(t.name) + seq![','] + enc_member_desc(t.description) + seq![',']
        + enc_member_done(t.done) + seq!['}']
}

pub open spec fn enc_tasks_rest(ts: Seq<TaskData>) -> Seq<char>
    decreases ts.len(),
{
    if ts.len() == 0 {
        Seq::empty()
    } else {
        seq![','] + enc_task(ts[0]) + enc_tasks_rest(ts.drop_first())
    }
}

/// The whole document: the records as a JSON array.
pub open spec fn enc_tasks(ts: Seq<TaskData>) -> Seq<char> {
    if ts.len() == 0 {
        seq!['[', ']']
    } else {
        seq!['['] + enc_task(ts[0]) + enc_tasks_rest(ts.drop_first()) + seq![']']
    }
}

// ---------------------------------------------------------------------
// Encoding, executable
// ---------------------------------------------------------------------
fn hex_char_of(d: u32) -> (c: char)
    requires
        d < 16,
    ensures
        c == hex_char(d as int),
{
    if d == 0 {
        '0'
    } else if d == 1 {
        '1'
    } else if d == 2 {
        '2'
    } else if d == 3 {
        '3'
    } else if d == 4 {
        '4'
    } else if d == 5 {
        '5'
    } else if d == 6 {
        '6'
    } else if d == 7 {
        '7'
    } else if d == 8 {
        '8'
    } else if d == 9 {
        '9'
    } else if d == 10 {
        'a'
    } else if d == 11 {
        'b'
    } else if d == 12 {
        'c'
    } else if d == 13 {
        'd'
    } else if d == 14 {
        'e'
    } else {
        'f'
    }
}

proof fn lemma_enc_body_snoc(p: Seq<char>, c: char)
    ensures
        enc_str_body(p.push(c)) == enc_str_body(p) + esc_char(c),
    decreases p.len(),
{
    if p.len() == 0 {
        assert(p.push(c)[0] == c);
        assert(p.push(c).drop_first() =~= Seq::<char>::empty());
        assert(enc_str_body(p.push(c)) == esc_char(c) + enc_str_body(
            Seq::<char>::empty(),
        ));
        assert(enc_str_body(Seq::<char>::empty()) == Seq::<char>::empty());
        assert(enc_str_body(p) == Seq::<char>::empty());
        assert(enc_str_body(p.push(c)) =~= enc_str_body(p) + esc_char(c));
    } else {
        lemma_enc_body_snoc(p.drop_first(), c);
        assert(p.push(c).drop_first() =~= p.drop_first().push(c));
        assert(p.push(c)[0] == p[0]);
        assert(enc_str_body(p.push(c)) == esc_char(p[0]) + enc_str_body(p.drop_first().push(c)));
        assert(enc_str_body(p.drop_first().push(c)) == enc_str_body(p.drop_first()) + esc_char(c));
        assert(enc_str_body(p.push(c)) =~= enc_str_body(p) + esc_char(c));
    }
}

/// Appends the escaped body of `x` to `out`.
fn append_str_body(out: &mut String, x: &str)
    ensures
        final(out)@ == old(out)@ + enc_str_body(x@),
{
    let n = x.unicode_len();
    let mut i: usize = 0;
    while i < n
        invariant
            0 <= i <= n,
            n == x@.len(),
            out@ == old(out)@ + enc_str_body(x@.subrange(0, i as int)),
        decreases n - i,
    {
        let c = x.get_char(i);
        let ghost pre = x@.subrange(0, i as int);
        proof {
            lemma_enc_body_snoc(pre, c);
            assert(x@.subrange(0, i + 1) =~= pre.push(c));
        }
        if c == '"' {
            push_char(out, '\\');
            push_char(out, '"');
        } else if c == '\\' {
            push_char(out, '\\');
            push_char(out, '\\');
        } else if c == '\u{8}' {
            push_char(out, '\\');
            push_char(out, 'b');
        } else if c == '\u{9}' {
            push_char(out, '\\');
            push_char(out, 't');
        } else if c == '\u{a}' {
            push_char(out, '\\');
            push_char(out, 'n');
        } else if c == '\u{c}' {
            push_char(out, '\\');
            push_char(out, 'f');
        } else if c == '\u{d}' {
            push_char(out, '\\');
            push_char(out, 'r');
        } else if (c as u32) < 0x20 {
            let v = c as u32;
            push_char(out, '\\');
            push_char(out, 'u');
            push_char(out, '0');
            push_char(out, '0');
            push_char(out, hex_char_of(v / 16));
            push_char(out, hex_char_of(v % 16));
        } else {
            push_char(out, c);
        }
        assert(out@ =~= old(out)@ + enc_str_body(pre) + esc_char(c));
        i += 1;
        assert(out@ =~= old(out)@ + enc_str_body(x@.subrange(0, i as int)));
    }
    assert(x@.subrange(0, n as int) =~= x@);
}

/// Appends `x` as a quoted, escaped JSON string.
fn append_json_string(out: &mut String, x: &str)
    ensures
        final(out)@ == old(out)@ + enc_string(x@),
{
    push_char(out, '"');
    append_str_body(out, x);
    push_char(out, '"');
    assert(out@ =~= old(out)@ + enc_string(x@));
}

/// Appends one record.
fn append_task(out: &mut String, t: &ToDo)
    ensures
        final(out)@ == old(out)@ + enc_task(t@),
{
    proof {
        reveal_strlit("{");
        reveal_strlit("name");
        reveal_strlit(":");
        reveal_strlit(",");
        reveal_strlit("description");
        reveal_strlit("done");
        reveal_strlit("}");
    }
    push_char(out, '{');
    append_json_string(out, "name");
    push_char(out, ':');
    append_json_string(out, t.name().as_str());
    push_char(out, ',');
    append_json_string(out, "description");
    push_char(out, ':');
    append_json_string(out, t.description().as_str());
    push_char(out, ',');
    append_json_string(out, "done");
    push_char(out, ':');
    if t.done() {
        out.append("true");
        proof {
            reveal_strlit("true");
            assert("true"@ =~= enc_bool(true));
        }
    } else {
        out.append("false");
        proof {
            reveal_strlit("false");
            assert("false"@ =~= enc_bool(false));
        }
    }
    push_char(out, '}');
    assert("name"@ =~= name_chars());
    assert("description"@ =~= description_chars());
    assert("done"@ =~= done_chars());
    assert(out@ =~= old(out)@ + enc_task(t@));
}

/// Writes the whole task list as its canonical JSON document.
pub fn serialize_tasks(todos: &Vec<ToDo>) -> (r: String)
    ensures
        r@ == enc_tasks(todos.deep_view()),
{
    let ghost ts = todos.deep_view();
    let mut out = String::new();
    push_char(&mut out, '[');
    let n = todos.len();
    if n > 0 {
        append_task(&mut out, &todos[0]);
        let mut i: usize = 1;
        while i < n
            invariant
                1 <= i <= n,
                n == todos.len(),
                ts == todos.deep_view(),
                ts.len() == n,
                out@ == seq!['['] + enc_task(ts[0]) + enc_tasks_rest(ts.subrange(1, i as int)),
            decreases n - i,
        {
            let ghost mid = ts.subrange(1, i as int);
            push_char(&mut out, ',');
            append_task(&mut out, &todos[i]);
            proof {
                lemma_enc_rest_snoc(mid, ts[i as int]);
                assert(ts.subrange(1, i + 1) =~= mid.push(ts[i as int]));
                assert(out@ =~= seq!['['] + enc_task(ts[0]) + enc_tasks_rest(
                    ts.subrange(1, i + 1),
                ));
            }
            i += 1;
        }
        proof {
            assert(ts.subrange(1, n as int) =~= ts.drop_first());
        }
    }
    push_char(&mut out, ']');
    assert(out@ =~= enc_tasks(ts));
    out
}

// ---------------------------------------------------------------------
// Parsing, specification
// ---------------------------------------------------------------------
/// The whitespace JSON allows between tokens.
pub open spec fn json_ws(c: char) -> bool {
    c == ' ' || c == '\t' || c == '\n' || c == '\r'
}

/// The first position at or after `i` that does not hold whitespace.
pub open spec fn skip_ws(s: Seq<char>, i: int) -> int
    decreases s.len() - i,
{
    if 0 <= i && i < s.len() && json_ws(s[i]) {
        skip_ws(s, i + 1)
    } else {
        i
    }
}

/// The value of one hexadecimal digit; `-1` for any other character.
pub open spec fn hex_val(c: char) -> int {
    if '0' <= c && c <= '9' {
        c as u32 - 48
    } else if 'a' <= c && c <= 'f' {
        c as u32 - 87
    } else if 'A' <= c && c <= 'F' {
        c as u32 - 55
    } else {
        -1
    }
}

pub open spec fn cons_result(pre: Seq<char>, r: Option<(Seq<char>, int)>) -> Option<
    (Seq<char>, int),
> {
    match r {
        Some(p) => Some((pre + p.0, p.1)),
        None => None,
    }
}

/// Reads the remainder of a JSON string, `i` standing just after the
/// opening quote: the decoded characters, and the position after the
/// closing quote.
pub open spec fn parse_str_body(s: Seq<char>, i: int) -> Option<(Seq<char>, int)>
    decreases s.len() - i,
{
    if !(0 <= i && i < s.len()) {
        None
    } else if s[i] == '"' {
        Some((Seq::empty(), i + 1))
    } else if s[i] == '\\' {
        if i + 1 < s.len() {
            let e = s[i + 1];
            if e == '"' || e == '\\' || e == '/' {
                cons_result(seq![e], parse_str_body(s, i + 2))
            } else if e == 'b' {
                cons_result(seq!['\u{8}'], parse_str_body(s, i + 2))
            } else if e == 't' {
                cons_result(seq!['\u{9}'], parse_str_body(s, i + 2))
            } else if e == 'n' {
                cons_result(seq!['\u{a}'], parse_str_body(s, i + 2))
            } else if e == 'f' {
                cons_result(seq!['\u{c}'], parse_str_body(s, i + 2))
            } else if e == 'r' {
                cons_result(seq!['\u{d}'], parse_str_body(s, i + 2))
            } else if e == 'u' {
                if i + 5 < s.len() {
                    let v = hex_val(s[i + 2]) * 4096 + hex_val(s[i + 3]) * 256 + hex_val(s[i + 4])
                        * 16 + hex_val(s[i + 5]);
                    if hex_val(s[i + 2]) >= 0 && hex_val(s[i + 3]) >= 0 && hex_val(s[i + 4]) >= 0
                        && hex_val(s[i + 5]) >= 0 && v < 0xD800 {
                        cons_result(seq![(v as u32) as char], parse_str_body(s, i + 6))
                    } else {
                        None
                    }
                } else {
                    None
                }
            } else {
                None
            }
        } else {
            None
        }
    } else {
        cons_result(seq![s[i]], parse_str_body(s, i + 1))
    }
}

/// Reads a quoted JSON string starting at `i`.
pub open spec fn parse_string(s: Seq<char>, i: int) -> Option<(Seq<char>, int)> {
    if 0 <= i && i < s.len() && s[i] == '"' {
        parse_str_body(s, i + 1)
    } else {
        None
    }
}

/// Reads `true` or `false` starting at `i`.
pub open spec fn parse_bool(s: Seq<char>, i: int) -> Option<(bool, int)> {
    if 0 <= i && i + 3 < s.len() && s[i] == 't' && s[i + 1] == 'r' && s[i + 2] == 'u' && s[i + 3]
        == 'e' {
        Some((true, i + 4))
    } else if 0 <= i && i + 4 < s.len() && s[i] == 'f' && s[i + 1] == 'a' && s[i + 2] == 'l' && s[i
        + 3] == 's' && s[i + 4] == 'e' {
        Some((false, i + 5))
    } else {
        None
    }
}

/// One parsed member of a record: which field it names, and its value.
pub ghost enum MemberVal {
    MName(Seq<char>),
    MDesc(Seq<char>),
    MDone(bool),
}

/// Reads one `"key": value` member starting at `i`. The value must be a
/// string for `name` and `description`, a boolean for `done`; any other
/// key is refused.
pub open spec fn parse_member(s: Seq<char>, i: int) -> Option<(MemberVal, int)> {
    match parse_string(s, i) {
        Some(kp) => {
            let j = skip_ws(s, kp.1);
            if 0 <= j && j < s.len() && s[j] == ':' {
                let j2 = skip_ws(s, j + 1);
                if kp.0 == name_chars() {
                    match parse_string(s, j2) {
                        Some(vp) => Some((MemberVal::MName(vp.0), vp.1)),
                        None => None,
                    }
                } else if kp.0 == description_chars() {
                    match parse_string(s, j2) {
                        Some(vp) => Some((MemberVal::MDesc(vp.0), vp.1)),
                        None => None,
                    }
                } else if kp.0 == done_chars() {
                    match parse_bool(s, j2) {
                        Some(bp) => Some((MemberVal::MDone(bp.0), bp.1)),
                        None => None,
                    }
                } else {
                    None
                }
            } else {
                None
            }
        },
        None => None,
    }
}

/// A record from its three members, in whatever order they came; `None`
/// unless each field is present exactly once.
pub open spec fn assemble(m1: MemberVal, m2: MemberVal, m3: MemberVal) -> Option<TaskData> {
    match (m1, m2, m3) {
        (MemberVal::MName(n), MemberVal::MDesc(d), MemberVal::MDone(b)) => Some(
            TaskData { name: n, description: d, done: b },
        ),
        (MemberVal::MName(n), MemberVal::MDone(b), MemberVal::MDesc(d)) => Some(
            TaskData { name: n, description: d, done: b },
        ),
        (MemberVal::MDesc(d), MemberVal::MName(n), MemberVal::MDone(b)) => Some(
            TaskData { name: n, description: d, done: b },
        ),
        (MemberVal::MDesc(d), MemberVal::MDone(b), MemberVal::MName(n)) => Some(
            TaskData { name: n, description: d, done: b },
        ),
        (MemberVal::MDone(b), MemberVal::MName(n), MemberVal::MDesc(d)) => Some(
            TaskData { name: n, description: d, done: b },
        ),
        (MemberVal::MDone(b), MemberVal::MDesc(d), MemberVal::MName(n)) => Some(
            TaskData { name: n, description: d, done: b },
        ),
        _ => None,
    }
}

/// Reads one record `{ m, m, m }` starting at `i`: exactly three members,
/// one per field, in any order.
pub open spec fn parse_object(s: Seq<char>, i: int) -> Option<(TaskData, int)> {
    if !(0 <= i && i < s.len() && s[i] == '{') {
        None
    } else {
        match parse_member(s, skip_ws(s, i + 1)) {
            Some(p1) => {
                let j1 = skip_ws(s, p1.1);
                if 0 <= j1 && j1 < s.len() && s[j1] == ',' {
                    match parse_member(s, skip_ws(s, j1 + 1)) {
                        Some(p2) => {
                            let j2 = skip_ws(s, p2.1);
                            if 0 <= j2 && j2 < s.len() && s[j2] == ',' {
                                match parse_member(s, skip_ws(s, j2 + 1)) {
                                    Some(p3) => {
                                        let j3 = skip_ws(s, p3.1);
                                        if 0 <= j3 && j3 < s.len() && s[j3] == '}' {
                                            match assemble(p1.0, p2.0, p3.0) {
                                                Some(t) => Some((t, j3 + 1)),
                                                None => None,
                                            }
                                        } else {
                                            None
                                        }
                                    },
                                    None => None,
                                }
                            } else {
                                None
                            }
                        },
                        None => None,
                    }
                } else {
                    None
                }
            },
            None => None,
        }
    }
}

pub open spec fn cons_tasks(t: TaskData, r: Option<(Seq<TaskData>, int)>) -> Option<
    (Seq<TaskData>, int),
> {
    match r {
        Some(p) => Some((seq![t] + p.0, p.1)),
        None => None,
    }
}

/// Reads the tail of the array, `i` standing where `]` or `,` is due.
pub open spec fn parse_elems(s: Seq<char>, i: int) -> Option<(Seq<TaskData>, int)>
    decreases s.len() - i,
{
    if !(0 <= i && i < s.len()) {
        None
    } else if s[i] == ']' {
        Some((Seq::empty(), i + 1))
    } else if s[i] == ',' {
        match parse_object(s, skip_ws(s, i + 1)) {
            Some(tp) => {
                let j2 = skip_ws(s, tp.1);
                if i < j2 && j2 <= s.len() {
                    cons_tasks(tp.0, parse_elems(s, j2))
                } else {
                    None
                }
            },
            None => None,
        }
    } else {
        None
    }
}

/// Reads a whole document: whitespace, an array of records, whitespace,
/// and nothing after it.
pub open spec fn parse_doc(s: Seq<char>) -> Option<Seq<TaskData>> {
    let i0 = skip_ws(s, 0);
    if 0 <= i0 && i0 < s.len() && s[i0] == '[' {
        let i1 = skip_ws(s, i0 + 1);
        if 0 <= i1 && i1 < s.len() && s[i1] == ']' {
            if skip_ws(s, i1 + 1) == s.len() {
                Some(Seq::empty())
            } else {
                None
            }
        } else {
            match parse_object(s, i1) {
                Some(tp) => {
                    match parse_elems(s, skip_ws(s, tp.1)) {
                        Some(ep) => {
                            if skip_ws(s, ep.1) == s.len() {
                                Some(seq![tp.0] + ep.0)
                            } else {
                                None
                            }
                        },
                        None => None,
                    }
                },
                None => None,
            }
        }
    } else {
        None
    }
}

proof fn lemma_enc_rest_snoc(p: Seq<TaskData>, t: TaskData)
    ensures
        enc_tasks_rest(p.push(t)) == enc_tasks_rest(p) + seq![','] + enc_task(t),
    decreases p.len(),
{
    if p.len() == 0 {
        assert(p.push(t)[0] == t);
        assert(p.push(t).drop_first() =~= Seq::<TaskData>::empty());
        assert(enc_tasks_rest(p.push(t)) == seq![','] + enc_task(t) + enc_tasks_rest(
            Seq::<TaskData>::empty(),
        ));
        assert(enc_tasks_rest(Seq::<TaskData>::empty()) == Seq::<char>::empty());
        assert(enc_tasks_rest(p) == Seq::<char>::empty());
        assert(enc_tasks_rest(p.push(t)) =~= enc_tasks_rest(p) + seq![','] + enc_task(t));
    } else {
        lemma_enc_rest_snoc(p.drop_first(), t);
        assert(p.push(t).drop_first() =~= p.drop_first().push(t));
        assert(p.push(t)[0] == p[0]);
        assert(enc_tasks_rest(p.push(t)) == seq![','] + enc_task(p[0]) + enc_tasks_rest(
            p.drop_first().push(t),
        ));
        assert(enc_tasks_rest(p.drop_first().push(t)) == enc_tasks_rest(p.drop_first()) + seq![',']
            + enc_task(t));
        assert(enc_tasks_rest(p.push(t)) =~= enc_tasks_rest(p) + seq![','] + enc_task(t));
    }
}


// ---------------------------------------------------------------------
// Parsing, executable
// ---------------------------------------------------------------------
/// Relies on `char::from_u32`: below the surrogate range every value is a
/// scalar value, and the corresponding character comes back.
#[verifier::external_body]
fn char_from_u32(v: u32) -> (c: char)
    requires
        v < 0xD800,
    ensures
        c == (v as char),
{
    char::from_u32(v).unwrap()
}

fn scan_ws(s: &str, i: usize) -> (r: usize)
    requires
        i <= s@.len(),
    ensures
        r as int == skip_ws(s@, i as int),
        i <= r <= s@.len(),
{
    let n = s.unicode_len();
    let mut j = i;
    while j < n
        invariant
            i <= j <= n,
            n == s@.len(),
            skip_ws(s@, i as int) == skip_ws(s@, j as int),
        decreases n - j,
    {
        let c = s.get_char(j);
        if !(c == ' ' || c == '\t' || c == '\n' || c == '\r') {
            return j;
        }
        j += 1;
    }
    j
}

fn hex_val_of(c: char) -> (r: i32)
    ensures
        r as int == hex_val(c),
{
    if c >= '0' && c <= '9' {
        (c as u32 as i32) - 48
    } else if c >= 'a' && c <= 'f' {
        (c as u32 as i32) - 87
    } else if c >= 'A' && c <= 'F' {
        (c as u32 as i32) - 55
    } else {
        -1
    }
}

proof fn lemma_cons_cons(pre: Seq<char>, c: char, r: Option<(Seq<char>, int)>)
    ensures
        cons_result(pre, cons_result(seq![c], r)) == cons_result(pre.push(c), r),
{
    match r {
        Some(p) => {
            assert(pre + (seq![c] + p.0) =~= pre.push(c) + p.0);
        },
        None => {},
    }
}

fn scan_str_body(s: &str, i: usize) -> (r: Option<(String, usize)>)
    requires
        i <= s@.len(),
    ensures
        match r {
            Some(p) => parse_str_body(s@, i as int) == Some((p.0@, p.1 as int)) && i < p.1 <= s@.len(),
            None => parse_str_body(s@, i as int) is None,
        },
{
    let n = s.unicode_len();
    let mut acc = String::new();
    let mut cur = i;
    loop
        invariant
            i <= cur <= n,
            n == s@.len(),
            parse_str_body(s@, i as int) == cons_result(acc@, parse_str_body(s@, cur as int)),
        decreases n - cur,
    {
        if cur == n {
            return None;
        }
        let c = s.get_char(cur);
        if c == '"' {
            assert(acc@ + Seq::<char>::empty() =~= acc@);
            return Some((acc, cur + 1));
        } else if c == '\\' {
            if cur + 1 == n {
                return None;
            }
            let e = s.get_char(cur + 1);
            if e == '"' || e == '\\' || e == '/' {
                proof {
                    lemma_cons_cons(acc@, e, parse_str_body(s@, cur + 2));
                }
                push_char(&mut acc, e);
                cur += 2;
            } else if e == 'b' {
                proof {
                    lemma_cons_cons(acc@, '\u{8}', parse_str_body(s@, cur + 2));
                }
                push_char(&mut acc, '\u{8}');
                cur += 2;
            } else if e == 't' {
                proof {
                    lemma_cons_cons(acc@, '\u{9}', parse_str_body(s@, cur + 2));
                }
                push_char(&mut acc, '\u{9}');
                cur += 2;
            } else if e == 'n' {
                proof {
                    lemma_cons_cons(acc@, '\u{a}', parse_str_body(s@, cur + 2));
                }
                push_char(&mut acc, '\u{a}');
                cur += 2;
            } else if e == 'f' {
                proof {
                    lemma_cons_cons(acc@, '\u{c}', parse_str_body(s@, cur + 2));
                }
                push_char(&mut acc, '\u{c}');
                cur += 2;
            } else if e == 'r' {
                proof {
                    lemma_cons_cons(acc@, '\u{d}', parse_str_body(s@, cur + 2));
                }
                push_char(&mut acc, '\u{d}');
                cur += 2;
            } else if e == 'u' {
                if n - cur < 6 {
                    return None;
                }
                let h1 = hex_val_of(s.get_char(cur + 2));
                let h2 = hex_val_of(s.get_char(cur + 3));
                let h3 = hex_val_of(s.get_char(cur + 4));
                let h4 = hex_val_of(s.get_char(cur + 5));
                if h1 < 0 || h2 < 0 || h3 < 0 || h4 < 0 {
                    return None;
                }
                let v: u32 = (h1 as u32) * 4096 + (h2 as u32) * 256 + (h3 as u32) * 16 + (
                h4 as u32);
                if v >= 0xD800 {
                    return None;
                }
                let dc = char_from_u32(v);
                proof {
                    lemma_cons_cons(acc@, dc, parse_str_body(s@, cur + 6));
                }
                push_char(&mut acc, dc);
                cur += 6;
            } else {
                return None;
            }
        } else {
            proof {
                lemma_cons_cons(acc@, c, parse_str_body(s@, cur + 1));
            }
            push_char(&mut acc, c);
            cur += 1;
        }
    }
}

fn scan_string(s: &str, i: usize) -> (r: Option<(String, usize)>)
    requires
        i <= s@.len(),
    ensures
        match r {
            Some(p) => parse_string(s@, i as int) == Some((p.0@, p.1 as int)) && i < p.1 <= s@.len(),
            None => parse_string(s@, i as int) is None,
        },
{
    let n = s.unicode_len();
    if i < n && s.get_char(i) == '"' {
        scan_str_body(s, i + 1)
    } else {
        None
    }
}

fn scan_bool(s: &str, i: usize) -> (r: Option<(bool, usize)>)
    requires
        i <= s@.len(),
    ensures
        match r {
            Some(p) => parse_bool(s@, i as int) == Some((p.0, p.1 as int)) && i < p.1 <= s@.len(),
            None => parse_bool(s@, i as int) is None,
        },
{
    let n = s.unicode_len();
    if n - i >= 4 && s.get_char(i) == 't' && s.get_char(i + 1) == 'r' && s.get_char(i + 2) == 'u'
        && s.get_char(i + 3) == 'e' {
        Some((true, i + 4))
    } else if n - i >= 5 && s.get_char(i) == 'f' && s.get_char(i + 1) == 'a' && s.get_char(i + 2)
        == 'l' && s.get_char(i + 3) == 's' && s.get_char(i + 4) == 'e' {
        Some((false, i + 5))
    } else {
        None
    }
}

enum MVal {
    Name(String),
    Desc(String),
    Done(bool),
}

spec fn mval_view(m: MVal) -> MemberVal {
    match m {
        MVal::Name(v) => MemberVal::MName(v@),
        MVal::Desc(v) => MemberVal::MDesc(v@),
        MVal::Done(b) => MemberVal::MDone(b),
    }
}

#[verifier::rlimit(80)]
fn scan_member(s: &str, i: usize) -> (r: Option<(MVal, usize)>)
    requires
        i <= s@.len(),
    ensures
        match r {
            Some(p) => parse_member(s@, i as int) == Some((mval_view(p.0), p.1 as int)) && i < p.1
                <= s@.len(),
            None => parse_member(s@, i as int) is None,
        },
{
    proof {
        reveal_strlit("name");
        reveal_strlit("description");
        reveal_strlit("done");
        assert("name"@ =~= name_chars());
        assert("description"@ =~= description_chars());
        assert("done"@ =~= done_chars());
    }
    let n = s.unicode_len();
    match scan_string(s, i) {
        Some((key, k)) => {
            let j = scan_ws(s, k);
            if j < n && s.get_char(j) == ':' {
                let j2 = scan_ws(s, j + 1);
                if str_eq(key.as_str(), "name") {
                    match scan_string(s, j2) {
                        Some((v, e)) => Some((MVal::Name(v), e)),
                        None => None,
                    }
                } else if str_eq(key.as_str(), "description") {
                    match scan_string(s, j2) {
                        Some((v, e)) => Some((MVal::Desc(v), e)),
                        None => None,
                    }
                } else if str_eq(key.as_str(), "done") {
                    match scan_bool(s, j2) {
                        Some((b, e)) => Some((MVal::Done(b), e)),
                        None => None,
                    }
                } else {
                    None
                }
            } else {
                None
            }
        },
        None => None,
    }
}

fn scan_object(s: &str, i: usize) -> (r: Option<(ToDo, usize)>)
    requires
        i <= s@.len(),
    ensures
        match r {
            Some(p) => parse_object(s@, i as int) == Some((p.0@, p.1 as int)) && i < p.1
                <= s@.len(),
            None => parse_object(s@, i as int) is None,
        },
{
    let n = s.unicode_len();
    if !(i < n && s.get_char(i) == '{') {
        return None;
    }
    let i1 = scan_ws(s, i + 1);
    match scan_member(s, i1) {
        Some((m1, k1)) => {
            let j1 = scan_ws(s, k1);
            if !(j1 < n && s.get_char(j1) == ',') {
                return None;
            }
            match scan_member(s, scan_ws(s, j1 + 1)) {
                Some((m2, k2)) => {
                    let j2 = scan_ws(s, k2);
                    if !(j2 < n && s.get_char(j2) == ',') {
                        return None;
                    }
                    match scan_member(s, scan_ws(s, j2 + 1)) {
                        Some((m3, k3)) => {
                            let j3 = scan_ws(s, k3);
                            if !(j3 < n && s.get_char(j3) == '}') {
                                return None;
                            }
                            match (m1, m2, m3) {
                                (MVal::Name(nm), MVal::Desc(d), MVal::Done(b)) => Some(
                                    (ToDo::new(nm, d, b), j3 + 1),
                                ),
                                (MVal::Name(nm), MVal::Done(b), MVal::Desc(d)) => Some(
                                    (ToDo::new(nm, d, b), j3 + 1),
                                ),
                                (MVal::Desc(d), MVal::Name(nm), MVal::Done(b)) => Some(
                                    (ToDo::new(nm, d, b), j3 + 1),
                                ),
                                (MVal::Desc(d), MVal::Done(b), MVal::Name(nm)) => Some(
                                    (ToDo::new(nm, d, b), j3 + 1),
                                ),
                                (MVal::Done(b), MVal::Name(nm), MVal::Desc(d)) => Some(
                                    (ToDo::new(nm, d, b), j3 + 1),
                                ),
                                (MVal::Done(b), MVal::Desc(d), MVal::Name(nm)) => Some(
                                    (ToDo::new(nm, d, b), j3 + 1),
                                ),
                                _ => None,
                            }
                        },
                        None => None,
                    }
                },
                None => None,
            }
        },
        None => None,
    }
}

proof fn lemma_cons_many(pre: Seq<TaskData>, t: TaskData, r: Option<(Seq<TaskData>, int)>)
    ensures
        cons_many(pre, cons_tasks(t, r)) == cons_many(pre.push(t), r),
{
    match r {
        Some(p) => {
            assert(pre + (seq![t] + p.0) =~= pre.push(t) + p.0);
        },
        None => {},
    }
}

spec fn cons_many(pre: Seq<TaskData>, r: Option<(Seq<TaskData>, int)>) -> Option<
    (Seq<TaskData>, int),
> {
    match r {
        Some(p) => Some((pre + p.0, p.1)),
        None => None,
    }
}

fn scan_elems(s: &str, i: usize) -> (r: Option<(Vec<ToDo>, usize)>)
    requires
        i <= s@.len(),
    ensures
        match r {
            Some(p) => parse_elems(s@, i as int) == Some((p.0.deep_view(), p.1 as int)) && p.1
                <= s@.len(),
            None => parse_elems(s@, i as int) is None,
        },
{
    let n = s.unicode_len();
    let mut acc: Vec<ToDo> = Vec::new();
    let mut cur = i;
    loop
        invariant
            i <= cur <= n,
            n == s@.len(),
            parse_elems(s@, i as int) == cons_many(acc.deep_view(), parse_elems(s@, cur as int)),
        decreases n - cur,
    {
        if cur == n {
            return None;
        }
        let c = s.get_char(cur);
        if c == ']' {
            assert(acc.deep_view() + Seq::<TaskData>::empty() =~= acc.deep_view());
            return Some((acc, cur + 1));
        }
        if c != ',' {
            return None;
        }
        let j = scan_ws(s, cur + 1);
        match scan_object(s, j) {
            Some((t, k)) => {
                let j2 = scan_ws(s, k);
                assert(cur < j2 && j2 <= s@.len());
                let ghost prev = acc.deep_view();
                let ghost tv = t@;
                proof {
                    lemma_cons_many(prev, tv, parse_elems(s@, j2 as int));
                }
                acc.push(t);
                proof {
                    assert(acc.deep_view() =~~= prev.push(tv));
                }
                cur = j2;
            },
            None => {
                return None;
            },
        }
    }
}

/// Reads a whole document back into a task list. `None` exactly when the
/// text is not a well-formed task document.
pub fn parse_tasks(text: &str) -> (r: Option<Vec<ToDo>>)
    ensures
        match r {
            Some(v) => parse_doc(text@) == Some(v.deep_view()),
            None => parse_doc(text@) is None,
        },
{
    let n = text.unicode_len();
    let i0 = scan_ws(text, 0);
    if !(i0 < n && text.get_char(i0) == '[') {
        return None;
    }
    let i1 = scan_ws(text, i0 + 1);
    if i1 < n && text.get_char(i1) == ']' {
        if scan_ws(text, i1 + 1) == n {
            let empty: Vec<ToDo> = Vec::new();
            assert(empty.deep_view() =~= Seq::<TaskData>::empty());
            return Some(empty);
        } else {
            return None;
        }
    }
    match scan_object(text, i1) {
        Some((t, k)) => {
            match scan_elems(text, scan_ws(text, k)) {
                Some((mut rest, e)) => {
                    if scan_ws(text, e) == n {
                        let ghost tv = t@;
                        let ghost restv = rest.deep_view();
                        let mut out: Vec<ToDo> = Vec::new();
                        out.push(t);
                        out.append(&mut rest);
                        proof {
                            assert(out.deep_view() =~~= seq![tv] + restv);
                        }
                        Some(out)
                    } else {
                        None
                    }
                },
                None => None,
            }
        },
        None => None,
    }
}


// ---------------------------------------------------------------------
// The round trip: parsing what was written gives the same list back
// ---------------------------------------------------------------------
/// `t` stands verbatim in `s` at position `i`.
spec fn contains_at(s: Seq<char>, i: int, t: Seq<char>) -> bool {
    0 <= i && i + t.len() <= s.len() && s.subrange(i, i + t.len()) == t
}

proof fn lemma_char_at(s: Seq<char>, i: int, t: Seq<char>, q: int)
    requires
        contains_at(s, i, t),
        0 <= q < t.len(),
    ensures
        s[i + q] == t[q],
{
    assert(s.subrange(i, i + t.len())[q] == s[i + q]);
}

proof fn lemma_contains_split(s: Seq<char>, i: int, a: Seq<char>, b: Seq<char>)
    requires
        contains_at(s, i, a + b),
    ensures
        contains_at(s, i, a),
        contains_at(s, i + a.len(), b),
{
    assert forall|q: int| 0 <= q < a.len() implies s[i + q] == a[q] by {
        assert(s.subrange(i, i + (a + b).len())[q] == s[i + q]);
    }
    assert(s.subrange(i, i + a.len()) =~= a);
    assert forall|q: int| 0 <= q < b.len() implies s[i + a.len() + q] == b[q] by {
        assert(s.subrange(i, i + (a + b).len())[a.len() + q] == s[i + a.len() + q]);
    }
    assert(s.subrange(i + a.len(), i + a.len() + b.len()) =~= b);
}

proof fn lemma_skip_ws_stop(s: Seq<char>, i: int)
    requires
        0 <= i,
        i >= s.len() || !json_ws(s[i]),
    ensures
        skip_ws(s, i) == i,
{
}

proof fn lemma_hex_roundtrip(d: int)
    requires
        0 <= d < 16,
    ensures
        hex_val(hex_char(d)) == d,
{
}

#[verifier::rlimit(100)]
#[verifier::spinoff_prover]
proof fn lemma_parse_body_enc(s: Seq<char>, i: int, x: Seq<char>)
    requires
        contains_at(s, i, enc_str_body(x) + seq!['"']),
    ensures
        parse_str_body(s, i) == Some((x, i + enc_str_body(x).len() + 1)),
    decreases x.len(),
{
    let eb = enc_str_body(x);
    if x.len() == 0 {
        assert(eb == Seq::<char>::empty());
        lemma_char_at(s, i, eb + seq!['"'], 0);
        assert(s[i] == '"');
        assert(parse_str_body(s, i) == Some((Seq::<char>::empty(), i + 1)));
        assert(x =~= Seq::<char>::empty());
    } else {
        let c = x[0];
        let rest = x.drop_first();
        let e1 = esc_char(c);
        let e2 = enc_str_body(rest);
        assert(eb == e1 + e2);
        assert(eb + seq!['"'] =~= e1 + (e2 + seq!['"']));
        lemma_contains_split(s, i, e1, e2 + seq!['"']);
        let i2 = i + e1.len();
        lemma_parse_body_enc(s, i2, rest);
        assert(parse_str_body(s, i2) == Some((rest, i2 + e2.len() + 1)));
        if c == '"' {
            lemma_char_at(s, i, e1, 0);
            lemma_char_at(s, i, e1, 1);
            assert(parse_str_body(s, i) == cons_result(seq![c], parse_str_body(s, i + 2)));
        } else if c == '\\' {
            lemma_char_at(s, i, e1, 0);
            lemma_char_at(s, i, e1, 1);
            assert(parse_str_body(s, i) == cons_result(seq![c], parse_str_body(s, i + 2)));
        } else if c == '\u{8}' {
            lemma_char_at(s, i, e1, 0);
            lemma_char_at(s, i, e1, 1);
            assert(parse_str_body(s, i) == cons_result(seq![c], parse_str_body(s, i + 2)));
        } else if c == '\u{9}' {
            lemma_char_at(s, i, e1, 0);
            lemma_char_at(s, i, e1, 1);
            assert(parse_str_body(s, i) == cons_result(seq![c], parse_str_body(s, i + 2)));
        } else if c == '\u{a}' {
            lemma_char_at(s, i, e1, 0);
            lemma_char_at(s, i, e1, 1);
            assert(parse_str_body(s, i) == cons_result(seq![c], parse_str_body(s, i + 2)));
        } else if c == '\u{c}' {
            lemma_char_at(s, i, e1, 0);
            lemma_char_at(s, i, e1, 1);
            assert(parse_str_body(s, i) == cons_result(seq![c], parse_str_body(s, i + 2)));
        } else if c == '\u{d}' {
            lemma_char_at(s, i, e1, 0);
            lemma_char_at(s, i, e1, 1);
            assert(parse_str_body(s, i) == cons_result(seq![c], parse_str_body(s, i + 2)));
        } else if (c as u32) < 0x20 {
            lemma_char_at(s, i, e1, 0);
            lemma_char_at(s, i, e1, 1);
            lemma_char_at(s, i, e1, 2);
            lemma_char_at(s, i, e1, 3);
            lemma_char_at(s, i, e1, 4);
            lemma_char_at(s, i, e1, 5);
            let v = c as u32 as int;
            lemma_hex_roundtrip(v / 16);
            lemma_hex_roundtrip(v % 16);
            assert(hex_val(s[i + 2]) == 0);
            assert(hex_val(s[i + 3]) == 0);
            assert(hex_val(s[i + 4]) == v / 16);
            assert(hex_val(s[i + 5]) == v % 16);
            assert(0 * 4096 + 0 * 256 + (v / 16) * 16 + v % 16 == v);
            vstd::utf8::char_u32_cast(c, c as u32);
            assert((v as u32) as char == c);
            assert(parse_str_body(s, i) == cons_result(seq![c], parse_str_body(s, i + 6)));
        } else {
            lemma_char_at(s, i, e1, 0);
            assert(s[i] == c);
            assert(parse_str_body(s, i) == cons_result(seq![c], parse_str_body(s, i + 1)));
        }
        assert(seq![c] + rest =~= x);
        assert(parse_str_body(s, i) == Some((x, i + eb.len() + 1)));
    }
}

proof fn lemma_parse_string_enc(s: Seq<char>, i: int, x: Seq<char>)
    requires
        contains_at(s, i, enc_string(x)),
    ensures
        parse_string(s, i) == Some((x, i + enc_string(x).len())),
{
    assert(enc_string(x) =~= seq!['"'] + (enc_str_body(x) + seq!['"']));
    lemma_contains_split(s, i, seq!['"'], enc_str_body(x) + seq!['"']);
    lemma_char_at(s, i, seq!['"'], 0);
    lemma_parse_body_enc(s, i + 1, x);
}

proof fn lemma_parse_bool_enc(s: Seq<char>, i: int, b: bool)
    requires
        contains_at(s, i, enc_bool(b)),
    ensures
        parse_bool(s, i) == Some((b, i + enc_bool(b).len())),
{
    if b {
        lemma_char_at(s, i, enc_bool(b), 0);
        lemma_char_at(s, i, enc_bool(b), 1);
        lemma_char_at(s, i, enc_bool(b), 2);
        lemma_char_at(s, i, enc_bool(b), 3);
    } else {
        lemma_char_at(s, i, enc_bool(b), 0);
        lemma_char_at(s, i, enc_bool(b), 1);
        lemma_char_at(s, i, enc_bool(b), 2);
        lemma_char_at(s, i, enc_bool(b), 3);
        lemma_char_at(s, i, enc_bool(b), 4);
    }
}

#[verifier::spinoff_prover]
proof fn lemma_parse_member_name(s: Seq<char>, i: int, v: Seq<char>)
    requires
        contains_at(s, i, enc_member_name(v)),
    ensures
        parse_member(s, i) == Some((MemberVal::MName(v), i + enc_member_name(v).len())),
{
    assert(enc_member_name(v) =~= enc_string(name_chars()) + (seq![':'] + enc_string(v)));
    lemma_contains_split(s, i, enc_string(name_chars()), seq![':'] + enc_string(v));
    let j0 = i + enc_string(name_chars()).len();
    lemma_contains_split(s, j0, seq![':'], enc_string(v));
    lemma_parse_string_enc(s, i, name_chars());
    lemma_char_at(s, j0, seq![':'], 0);
    lemma_skip_ws_stop(s, j0);
    lemma_char_at(s, j0 + 1, enc_string(v), 0);
    assert(enc_string(v)[0] == '"');
    lemma_skip_ws_stop(s, j0 + 1);
    lemma_parse_string_enc(s, j0 + 1, v);
}

#[verifier::spinoff_prover]
proof fn lemma_parse_member_desc(s: Seq<char>, i: int, v: Seq<char>)
    requires
        contains_at(s, i, enc_member_desc(v)),
    ensures
        parse_member(s, i) == Some((MemberVal::MDesc(v), i + enc_member_desc(v).len())),
{
    assert(enc_member_desc(v) =~= enc_string(description_chars()) + (seq![':'] + enc_string(v)));
    lemma_contains_split(s, i, enc_string(description_chars()), seq![':'] + enc_string(v));
    let j0 = i + enc_string(description_chars()).len();
    lemma_contains_split(s, j0, seq![':'], enc_string(v));
    lemma_parse_string_enc(s, i, description_chars());
    assert(description_chars() != name_chars()) by {
        assert(description_chars().len() != name_chars().len());
    }
    lemma_char_at(s, j0, seq![':'], 0);
    lemma_skip_ws_stop(s, j0);
    lemma_char_at(s, j0 + 1, enc_string(v), 0);
    assert(enc_string(v)[0] == '"');
    lemma_skip_ws_stop(s, j0 + 1);
    lemma_parse_string_enc(s, j0 + 1, v);
}

#[verifier::spinoff_prover]
proof fn lemma_parse_member_done(s: Seq<char>, i: int, b: bool)
    requires
        contains_at(s, i, enc_member_done(b)),
    ensures
        parse_member(s, i) == Some((MemberVal::MDone(b), i + enc_member_done(b).len())),
{
    assert(enc_member_done(b) =~= enc_string(done_chars()) + (seq![':'] + enc_bool(b)));
    lemma_contains_split(s, i, enc_string(done_chars()), seq![':'] + enc_bool(b));
    let j0 = i + enc_string(done_chars()).len();
    lemma_contains_split(s, j0, seq![':'], enc_bool(b));
    lemma_parse_string_enc(s, i, done_chars());
    assert(done_chars() != name_chars()) by {
        assert(done_chars()[0] != name_chars()[0]);
    }
    assert(done_chars() != description_chars()) by {
        assert(done_chars().len() != description_chars().len());
    }
    lemma_char_at(s, j0, seq![':'], 0);
    lemma_skip_ws_stop(s, j0);
    lemma_char_at(s, j0 + 1, enc_bool(b), 0);
    assert(enc_bool(b)[0] != ' ' && enc_bool(b)[0] != '\t' && enc_bool(b)[0] != '\n' && enc_bool(
        b,
    )[0] != '\r');
    lemma_skip_ws_stop(s, j0 + 1);
    lemma_parse_bool_enc(s, j0 + 1, b);
}

#[verifier::rlimit(100)]
#[verifier::spinoff_prover]
proof fn lemma_parse_object_enc(s: Seq<char>, i: int, t: TaskData)
    requires
        contains_at(s, i, enc_task(t)),
    ensures
        parse_object(s, i) == Some((t, i + enc_task(t).len())),
{
    let mn = enc_member_name(t.name);
    let md = enc_member_desc(t.description);
    let mb = enc_member_done(t.done);
    assert(enc_task(t) =~= seq!['{'] + (mn + (seq![','] + (md + (seq![','] + (mb
        + seq!['}']))))));
    lemma_contains_split(s, i, seq!['{'], mn + (seq![','] + (md + (seq![','] + (mb
        + seq!['}'])))));
    lemma_char_at(s, i, seq!['{'], 0);
    let o1 = i + 1;
    lemma_contains_split(s, o1, mn, seq![','] + (md + (seq![','] + (mb + seq!['}']))));
    let q1 = o1 + mn.len();
    lemma_contains_split(s, q1, seq![','], md + (seq![','] + (mb + seq!['}'])));
    lemma_char_at(s, q1, seq![','], 0);
    let o2 = q1 + 1;
    lemma_contains_split(s, o2, md, seq![','] + (mb + seq!['}']));
    let q2 = o2 + md.len();
    lemma_contains_split(s, q2, seq![','], mb + seq!['}']);
    lemma_char_at(s, q2, seq![','], 0);
    let o3 = q2 + 1;
    lemma_contains_split(s, o3, mb, seq!['}']);
    let q3 = o3 + mb.len();
    lemma_char_at(s, q3, seq!['}'], 0);
    // the members begin with a quote, so no whitespace is skipped
    lemma_char_at(s, o1, mn, 0);
    assert(mn[0] == '"');
    lemma_skip_ws_stop(s, o1);
    lemma_parse_member_name(s, o1, t.name);
    lemma_skip_ws_stop(s, q1);
    lemma_char_at(s, o2, md, 0);
    assert(md[0] == '"');
    lemma_skip_ws_stop(s, o2);
    lemma_parse_member_desc(s, o2, t.description);
    lemma_skip_ws_stop(s, q2);
    lemma_char_at(s, o3, mb, 0);
    assert(mb[0] == '"');
    lemma_skip_ws_stop(s, o3);
    lemma_parse_member_done(s, o3, t.done);
    lemma_skip_ws_stop(s, q3);
    assert(assemble(
        MemberVal::MName(t.name),
        MemberVal::MDesc(t.description),
        MemberVal::MDone(t.done),
    ) == Some(t));
    assert(parse_object(s, i) == Some((t, q3 + 1)));
}


proof fn lemma_enc_task_head(t: TaskData)
    ensures
        enc_task(t).len() > 0,
        enc_task(t)[0] == '{',
{
}

proof fn lemma_enc_rest_head(ts: Seq<TaskData>)
    requires
        ts.len() > 0,
    ensures
        enc_tasks_rest(ts).len() > 0,
        enc_tasks_rest(ts)[0] == ',',
{
}

#[verifier::rlimit(100)]
#[verifier::spinoff_prover]
proof fn lemma_parse_elems_enc(s: Seq<char>, i: int, ts: Seq<TaskData>)
    requires
        contains_at(s, i, enc_tasks_rest(ts) + seq![']']),
    ensures
        parse_elems(s, i) == Some((ts, i + enc_tasks_rest(ts).len() + 1)),
    decreases ts.len(),
{
    let er = enc_tasks_rest(ts);
    if ts.len() == 0 {
        assert(er == Seq::<char>::empty());
        lemma_char_at(s, i, er + seq![']'], 0);
        assert(s[i] == ']');
        assert(parse_elems(s, i) == Some((Seq::<TaskData>::empty(), i + 1)));
        assert(ts =~= Seq::<TaskData>::empty());
    } else {
        let t0 = ts[0];
        let rest = ts.drop_first();
        let e1 = enc_task(t0);
        let e2 = enc_tasks_rest(rest);
        assert(er == seq![','] + e1 + e2);
        assert(er + seq![']'] =~= seq![','] + (e1 + (e2 + seq![']'])));
        lemma_contains_split(s, i, seq![','], e1 + (e2 + seq![']']));
        lemma_char_at(s, i, seq![','], 0);
        lemma_contains_split(s, i + 1, e1, e2 + seq![']']);
        let k = i + 1 + e1.len();
        lemma_char_at(s, i + 1, e1, 0);
        lemma_enc_task_head(t0);
        assert(s[i + 1] == '{');
        lemma_skip_ws_stop(s, i + 1);
        lemma_parse_object_enc(s, i + 1, t0);
        lemma_char_at(s, k, e2 + seq![']'], 0);
        if rest.len() == 0 {
            assert(e2 == Seq::<char>::empty());
            assert(s[k] == ']');
        } else {
            lemma_enc_rest_head(rest);
            assert((e2 + seq![']'])[0] == ',');
            assert(s[k] == ',');
        }
        lemma_skip_ws_stop(s, k);
        lemma_parse_elems_enc(s, k, rest);
        assert(seq![t0] + rest =~= ts);
        assert(parse_elems(s, i) == cons_tasks(t0, parse_elems(s, k)));
        assert(parse_elems(s, i) == Some((ts, i + er.len() + 1)));
    }
}


proof fn lemma_parse_doc_assemble(s: Seq<char>, t0: TaskData, rest: Seq<TaskData>, k: int)
    requires
        s.len() > 0,
        s[0] == '[',
        1 < k < s.len(),
        s[1] == '{',
        parse_object(s, 1) == Some((t0, k)),
        s[k] == ',' || s[k] == ']',
        parse_elems(s, k) == Some((rest, s.len() as int)),
    ensures
        parse_doc(s) == Some(seq![t0] + rest),
{
    lemma_skip_ws_stop(s, 0);
    lemma_skip_ws_stop(s, 1);
    lemma_skip_ws_stop(s, k);
    lemma_skip_ws_stop(s, s.len() as int);
}

/// Saving and loading give the task list back unchanged: parsing the
/// written document of any list yields exactly that list.
#[verifier::rlimit(100)]
#[verifier::spinoff_prover]
proof fn lemma_round_trip_empty(ts: Seq<TaskData>)
    requires
        ts.len() == 0,
    ensures
        parse_doc(enc_tasks(ts)) == Some(ts),
{
    let s = enc_tasks(ts);
    assert(s == seq!['[', ']']);
    assert(!json_ws(s[0]));
    lemma_skip_ws_stop(s, 0);
    assert(s[0] == '[');
    assert(!json_ws(s[1]));
    lemma_skip_ws_stop(s, 1);
    assert(s[1] == ']');
    lemma_skip_ws_stop(s, 2);
    assert(parse_doc(s) == Some(Seq::<TaskData>::empty()));
    assert(ts =~= Seq::<TaskData>::empty());
}

#[verifier::rlimit(100)]
#[verifier::spinoff_prover]
proof fn lemma_round_trip_nonempty(ts: Seq<TaskData>)
    requires
        ts.len() > 0,
    ensures
        parse_doc(enc_tasks(ts)) == Some(ts),
{
    let s = enc_tasks(ts);
    let t0 = ts[0];
    let rest = ts.drop_first();
    let e1 = enc_task(t0);
    let e2 = enc_tasks_rest(rest);
    assert(s == seq!['['] + e1 + e2 + seq![']']);
    assert(s =~= seq!['['] + (e1 + (e2 + seq![']'])));
    assert(contains_at(s, 0, seq!['['] + (e1 + (e2 + seq![']'])))) by {
        assert(s.subrange(0, s.len() as int) =~= s);
    }
    lemma_contains_split(s, 0, seq!['['], e1 + (e2 + seq![']']));
    lemma_char_at(s, 0, seq!['['], 0);
    lemma_contains_split(s, 1, e1, e2 + seq![']']);
    lemma_char_at(s, 1, e1, 0);
    lemma_enc_task_head(t0);
    assert(s[1] == '{');
    lemma_parse_object_enc(s, 1, t0);
    let k: int = 1 + e1.len() as int;
    lemma_char_at(s, k, e2 + seq![']'], 0);
    if rest.len() == 0 {
        assert(e2 == Seq::<char>::empty());
        assert(s[k] == ']');
    } else {
        lemma_enc_rest_head(rest);
        assert((e2 + seq![']'])[0] == ',');
        assert(s[k] == ',');
    }
    lemma_parse_elems_enc(s, k, rest);
    assert(k + e2.len() + 1 == s.len());
    lemma_parse_doc_assemble(s, t0, rest, k);
    assert(seq![t0] + rest =~= ts);
}

/// Saving and loading give the task list back unchanged: parsing the
/// written document of any list yields exactly that list.
pub proof fn lemma_save_load_round_trip(ts: Seq<TaskData>)
    ensures
        parse_doc(enc_tasks(ts)) == Some(ts),
{
    if ts.len() == 0 {
        lemma_round_trip_empty(ts);
    } else {
        lemma_round_trip_nonempty(ts);
    }
}

} // verus!
