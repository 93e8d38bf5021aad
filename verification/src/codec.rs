//! The persisted document format.
//!
//! Collections persist as one JSON array: each collection is an object
//! `{"title": ..., "tasks_data": [...]}` and each task an object
//! `{"completed": ..., "content": ...}`, written compactly with the string
//! escapes below.  `to_json` produces exactly that text and `from_json`
//! accepts exactly it; `lemma_round_trip` proves that parsing a serialized
//! document gives back the original collections.

use vstd::prelude::*;
use vstd::string::StrSliceExecFns;
use crate::task::{Task, TaskView, task_views};
use crate::collection::{collection_views, Collection, CollectionView};

verus! {

/// Error of `from_json`: the text is not a well-formed document.
#[derive(Clone, Copy, Debug, PartialEq, Eq, Structural)]
pub enum ParseError {
    Malformed,
}

// ---------------------------------------------------------------------------
// The literal tokens of the format.
// ---------------------------------------------------------------------------
/// The opening of a task object up to its first value: `{"completed":`.
pub open spec fn key_completed() -> Seq<char> {
    seq!['{', '"', 'c', 'o', 'm', 'p', 'l', 'e', 't', 'e', 'd', '"', ':']
}

/// The second member name of a task object: `,"content":`.
pub open spec fn key_content() -> Seq<char> {
    seq![',', '"', 'c', 'o', 'n', 't', 'e', 'n', 't', '"', ':']
}

/// The opening of a collection object up to its first value: `{"title":`.
pub open spec fn key_title() -> Seq<char> {
    seq!['{', '"', 't', 'i', 't', 'l', 'e', '"', ':']
}

/// The second member name of a collection object: `,"tasks_data":`.
pub open spec fn key_tasks_data() -> Seq<char> {
    seq![',', '"', 't', 'a', 's', 'k', 's', '_', 'd', 'a', 't', 'a', '"', ':']
}

/// The boolean literal `true`.
pub open spec fn chars_true() -> Seq<char> {
    seq!['t', 'r', 'u', 'e']
}

/// The boolean literal `false`.
pub open spec fn chars_false() -> Seq<char> {
    seq!['f', 'a', 'l', 's', 'e']
}

// ---------------------------------------------------------------------------
// Serialization, as spec functions over the models.
// ---------------------------------------------------------------------------
/// The lowercase hex digit of a value below 16.
pub open spec fn hex_digit(v: int) -> char {
    if v == 0 {
        '0'
    } else if v == 1 {
        '1'
    } else if v == 2 {
        '2'
    } else if v == 3 {
        '3'
    } else if v == 4 {
        '4'
    } else if v == 5 {
        '5'
    } else if v == 6 {
        '6'
    } else if v == 7 {
        '7'
    } else if v == 8 {
        '8'
    } else if v == 9 {
        '9'
    } else if v == 10 {
        'a'
    } else if v == 11 {
        'b'
    } else if v == 12 {
        'c'
    } else if v == 13 {
        'd'
    } else if v == 14 {
        'e'
    } else {
        'f'
    }
}

/// How one character appears inside a JSON string: quote and backslash get a
/// two-character escape, the five named control characters their short
/// escapes, any other control character a `\u00..` escape with lowercase hex
/// digits, and everything else stands for itself.
pub open spec fn esc_char(c: char) -> Seq<char> {
    if c == '"' {
        seq!['\\', '"']
    } else if c == '\\' {
        seq!['\\', '\\']
    } else if c == '\u{8}' {
        seq!['\\', 'b']
    } else if c == '\u{c}' {
        seq!['\\', 'f']
    } else if c == '\n' {
        seq!['\\', 'n']
    } else if c == '\r' {
        seq!['\\', 'r']
    } else if c == '\t' {
        seq!['\\', 't']
    } else if (c as u32) < 0x20 {
        seq!['\\', 'u', '0', '0', hex_digit((c as u32) as int / 16), hex_digit((c as u32) as int % 16)]
    } else {
        seq![c]
    }
}

/// The escaped body of a JSON string.
pub open spec fn ser_str_body(s: Seq<char>) -> Seq<char>
    decreases s.len(),
{
    if s.len() == 0 {
        Seq::empty()
    } else {
        esc_char(s[0]) + ser_str_body(s.drop_first())
    }
}

/// A JSON string: the escaped body between quotes.
pub open spec fn ser_string(s: Seq<char>) -> Seq<char> {
    seq!['"'] + ser_str_body(s) + seq!['"']
}

/// A task object.
pub open spec fn ser_task(t: TaskView) -> Seq<char> {
    key_completed() + (if t.completed {
        chars_true()
    } else {
        chars_false()
    }) + key_content() + ser_string(t.content) + seq!['}']
}

/// The tasks after the first one: a comma before each, in order.
pub open spec fn ser_task_tail(ts: Seq<TaskView>) -> Seq<char>
    decreases ts.len(),
{
    if ts.len() == 0 {
        Seq::empty()
    } else {
        seq![','] + ser_task(ts[0]) + ser_task_tail(ts.drop_first())
    }
}

/// A task array.
pub open spec fn ser_tasks(ts: Seq<TaskView>) -> Seq<char> {
    if ts.len() == 0 {
        seq!['[', ']']
    } else {
        seq!['['] + ser_task(ts[0]) + ser_task_tail(ts.drop_first()) + seq![']']
    }
}

/// A collection object.
pub open spec fn ser_collection(c: CollectionView) -> Seq<char> {
    key_title() + ser_string(c.title) + key_tasks_data() + ser_tasks(c.tasks) + seq!['}']
}

/// The collections after the first one: a comma before each, in order.
pub open spec fn ser_collection_tail(cs: Seq<CollectionView>) -> Seq<char>
    decreases cs.len(),
{
    if cs.len() == 0 {
        Seq::empty()
    } else {
        seq![','] + ser_collection(cs[0]) + ser_collection_tail(cs.drop_first())
    }
}

/// The whole document: the array of collection objects.
pub open spec fn spec_json(cs: Seq<CollectionView>) -> Seq<char> {
    if cs.len() == 0 {
        seq!['[', ']']
    } else {
        seq!['['] + ser_collection(cs[0]) + ser_collection_tail(cs.drop_first()) + seq![']']
    }
}

// ---------------------------------------------------------------------------
// The writer.
// ---------------------------------------------------------------------------
/// Relies on `String::push`: it appends exactly the given character.
#[verifier::external_body]
fn string_push_char(s: &mut String, c: char)
    ensures
        final(s)@ == old(s)@ + seq![c],
{
    s.push(c)
}

/// Builds the string of exactly the given characters.
fn chars_to_string(v: &Vec<char>) -> (r: String)
    ensures
        r@ == v@,
{
    let mut r = String::new();
    let n = v.len();
    for i in 0..n
        invariant
            n == v.len(),
            r@ == v@.take(i as int),
    {
        string_push_char(&mut r, v[i]);
        proof {
            assert(v@.take(i + 1) =~= v@.take(i as int) + seq![v@[i as int]]);
        }
    }
    proof {
        assert(v@.take(n as int) =~= v@);
    }
    r
}

/// The lowercase hex digit of a value below 16.
fn hex_digit_exec(v: u32) -> (r: char)
    requires
        v < 16,
    ensures
        r == hex_digit(v as int),
{
    if v == 0 {
        '0'
    } else if v == 1 {
        '1'
    } else if v == 2 {
        '2'
    } else if v == 3 {
        '3'
    } else if v == 4 {
        '4'
    } else if v == 5 {
        '5'
    } else if v == 6 {
        '6'
    } else if v == 7 {
        '7'
    } else if v == 8 {
        '8'
    } else if v == 9 {
        '9'
    } else if v == 10 {
        'a'
    } else if v == 11 {
        'b'
    } else if v == 12 {
        'c'
    } else if v == 13 {
        'd'
    } else if v == 14 {
        'e'
    } else {
        'f'
    }
}

/// Appends the escaped form of one character.
fn write_escaped(out: &mut Vec<char>, c: char)
    ensures
        final(out)@ == old(out)@ + esc_char(c),
{
    if c == '"' {
        out.push('\\');
        out.push('"');
    } else if c == '\\' {
        out.push('\\');
        out.push('\\');
    } else if c == '\u{8}' {
        out.push('\\');
        out.push('b');
    } else if c == '\u{c}' {
        out.push('\\');
        out.push('f');
    } else if c == '\n' {
        out.push('\\');
        out.push('n');
    } else if c == '\r' {
        out.push('\\');
        out.push('r');
    } else if c == '\t' {
        out.push('\\');
        out.push('t');
    } else if (c as u32) < 0x20 {
        let v = c as u32;
        out.push('\\');
        out.push('u');
        out.push('0');
        out.push('0');
        out.push(hex_digit_exec(v / 16));
        out.push(hex_digit_exec(v % 16));
    } else {
        out.push(c);
    }
    proof {
        assert(out@ =~= old(out)@ + esc_char(c));
    }
}

/// Appends the characters of `lit`.
fn write_lit(out: &mut Vec<char>, lit: &Vec<char>)
    ensures
        final(out)@ == old(out)@ + lit@,
{
    let n = lit.len();
    for i in 0..n
        invariant
            n == lit.len(),
            out@ == old(out)@ + lit@.take(i as int),
    {
        out.push(lit[i]);
        proof {
            assert(lit@.take(i + 1) =~= lit@.take(i as int) + seq![lit@[i as int]]);
            assert(out@ =~= old(out)@ + lit@.take(i + 1));
        }
    }
    proof {
        assert(lit@.take(n as int) =~= lit@);
    }
}

/// The characters of `{"completed":`.
fn key_completed_vec() -> (r: Vec<char>)
    ensures
        r@ == key_completed(),
{
    let mut v: Vec<char> = Vec::new();
    v.push('{');
    v.push('"');
    v.push('c');
    v.push('o');
    v.push('m');
    v.push('p');
    v.push('l');
    v.push('e');
    v.push('t');
    v.push('e');
    v.push('d');
    v.push('"');
    v.push(':');
    proof {
        assert(v@ =~= key_completed());
    }
    v
}

/// The characters of `,"content":`.
fn key_content_vec() -> (r: Vec<char>)
    ensures
        r@ == key_content(),
{
    let mut v: Vec<char> = Vec::new();
    v.push(',');
    v.push('"');
    v.push('c');
    v.push('o');
    v.push('n');
    v.push('t');
    v.push('e');
    v.push('n');
    v.push('t');
    v.push('"');
    v.push(':');
    proof {
        assert(v@ =~= key_content());
    }
    v
}

/// The characters of `{"title":`.
fn key_title_vec() -> (r: Vec<char>)
    ensures
        r@ == key_title(),
{
    let mut v: Vec<char> = Vec::new();
    v.push('{');
    v.push('"');
    v.push('t');
    v.push('i');
    v.push('t');
    v.push('l');
    v.push('e');
    v.push('"');
    v.push(':');
    proof {
        assert(v@ =~= key_title());
    }
    v
}

/// The characters of `,"tasks_data":`.
fn key_tasks_data_vec() -> (r: Vec<char>)
    ensures
        r@ == key_tasks_data(),
{
    let mut v: Vec<char> = Vec::new();
    v.push(',');
    v.push('"');
    v.push('t');
    v.push('a');
    v.push('s');
    v.push('k');
    v.push('s');
    v.push('_');
    v.push('d');
    v.push('a');
    v.push('t');
    v.push('a');
    v.push('"');
    v.push(':');
    proof {
        assert(v@ =~= key_tasks_data());
    }
    v
}

/// The characters of `true`.
fn chars_true_vec() -> (r: Vec<char>)
    ensures
        r@ == chars_true(),
{
    let mut v: Vec<char> = Vec::new();
    v.push('t');
    v.push('r');
    v.push('u');
    v.push('e');
    proof {
        assert(v@ =~= chars_true());
    }
    v
}

/// The characters of `false`.
fn chars_false_vec() -> (r: Vec<char>)
    ensures
        r@ == chars_false(),
{
    let mut v: Vec<char> = Vec::new();
    v.push('f');
    v.push('a');
    v.push('l');
    v.push('s');
    v.push('e');
    proof {
        assert(v@ =~= chars_false());
    }
    v
}

/// Appends the escaped body of `s`, from character `from` on.
fn write_str_body(out: &mut Vec<char>, s: &str, n: usize, from: usize)
    requires
        n == s@.len(),
        from <= n,
    ensures
        final(out)@ == old(out)@ + ser_str_body(s@.skip(from as int)),
    decreases n - from,
{
    if from < n {
        let c = s.get_char(from);
        write_escaped(out, c);
        write_str_body(out, s, n, from + 1);
        proof {
            assert(s@.skip(from as int).drop_first() =~= s@.skip(from + 1));
            assert(s@.skip(from as int)[0] == c);
            assert(out@ =~= old(out)@ + ser_str_body(s@.skip(from as int)));
        }
    } else {
        proof {
            assert(s@.skip(from as int) =~= Seq::<char>::empty());
        }
    }
}

/// Appends the JSON string for `s`.
fn write_string(out: &mut Vec<char>, s: &str)
    ensures
        final(out)@ == old(out)@ + ser_string(s@),
{
    out.push('"');
    let n = s.unicode_len();
    write_str_body(out, s, n, 0);
    out.push('"');
    proof {
        assert(s@.skip(0) =~= s@);
        assert(out@ =~= old(out)@ + ser_string(s@));
    }
}

/// Appends the task object for `t`.
fn write_task(out: &mut Vec<char>, t: &Task)
    ensures
        final(out)@ == old(out)@ + ser_task(t@),
{
    let key1 = key_completed_vec();
    write_lit(out, &key1);
    if t.completed {
        let b = chars_true_vec();
        write_lit(out, &b);
    } else {
        let b = chars_false_vec();
        write_lit(out, &b);
    }
    let key2 = key_content_vec();
    write_lit(out, &key2);
    write_string(out, t.content.as_str());
    out.push('}');
    proof {
        assert(out@ =~= old(out)@ + ser_task(t@));
    }
}

/// Appends the tasks of `ts` after the first one, a comma before each.
fn write_task_tail(out: &mut Vec<char>, ts: &Vec<Task>, from: usize)
    requires
        from <= ts.len(),
    ensures
        final(out)@ == old(out)@ + ser_task_tail(task_views(ts@).skip(from as int)),
    decreases ts.len() - from,
{
    if from < ts.len() {
        out.push(',');
        write_task(out, &ts[from]);
        write_task_tail(out, ts, from + 1);
        proof {
            assert(task_views(ts@).skip(from as int).drop_first() =~= task_views(ts@).skip(
                from + 1,
            ));
            assert(task_views(ts@).skip(from as int)[0] == ts@[from as int]@);
            assert(out@ =~= old(out)@ + ser_task_tail(task_views(ts@).skip(from as int)));
        }
    } else {
        proof {
            assert(task_views(ts@).skip(from as int) =~= Seq::<TaskView>::empty());
        }
    }
}

/// Appends the task array for `ts`.
fn write_tasks(out: &mut Vec<char>, ts: &Vec<Task>)
    ensures
        final(out)@ == old(out)@ + ser_tasks(task_views(ts@)),
{
    out.push('[');
    if ts.len() > 0 {
        write_task(out, &ts[0]);
        write_task_tail(out, ts, 1);
        proof {
            assert(task_views(ts@)[0] == ts@[0]@);
            assert(task_views(ts@).drop_first() =~= task_views(ts@).skip(1));
        }
    }
    out.push(']');
    proof {
        assert(out@ =~= old(out)@ + ser_tasks(task_views(ts@)));
    }
}

/// Appends the collection object for `c`.
fn write_collection(out: &mut Vec<char>, c: &Collection)
    ensures
        final(out)@ == old(out)@ + ser_collection(c@),
{
    let key1 = key_title_vec();
    write_lit(out, &key1);
    write_string(out, c.title.as_str());
    let key2 = key_tasks_data_vec();
    write_lit(out, &key2);
    write_tasks(out, &c.tasks);
    out.push('}');
    proof {
        assert(out@ =~= old(out)@ + ser_collection(c@));
    }
}

/// Appends the collections of `cs` after the first one, a comma before each.
fn write_collection_tail(out: &mut Vec<char>, cs: &Vec<Collection>, from: usize)
    requires
        from <= cs.len(),
    ensures
        final(out)@ == old(out)@ + ser_collection_tail(collection_views(cs@).skip(from as int)),
    decreases cs.len() - from,
{
    if from < cs.len() {
        out.push(',');
        write_collection(out, &cs[from]);
        write_collection_tail(out, cs, from + 1);
        proof {
            assert(collection_views(cs@).skip(from as int).drop_first() =~= collection_views(
                cs@,
            ).skip(from + 1));
            assert(collection_views(cs@).skip(from as int)[0] == cs@[from as int]@);
            assert(out@ =~= old(out)@ + ser_collection_tail(
                collection_views(cs@).skip(from as int),
            ));
        }
    } else {
        proof {
            assert(collection_views(cs@).skip(from as int) =~= Seq::<CollectionView>::empty());
        }
    }
}

/// Serializes the collections as the persisted document.
pub fn to_json(cs: &Vec<Collection>) -> (r: String)
    ensures
        r@ == spec_json(collection_views(cs@)),
{
    let mut out: Vec<char> = Vec::new();
    out.push('[');
    if cs.len() > 0 {
        write_collection(&mut out, &cs[0]);
        write_collection_tail(&mut out, cs, 1);
        proof {
            assert(collection_views(cs@)[0] == cs@[0]@);
            assert(collection_views(cs@).drop_first() =~= collection_views(cs@).skip(1));
        }
    }
    out.push(']');
    proof {
        assert(out@ =~= spec_json(collection_views(cs@)));
    }
    chars_to_string(&out)
}

// ---------------------------------------------------------------------------
// The grammar of the document, as spec functions.  Each takes the text and a
// position and yields the parsed value and the position after it, or `None`
// where the text does not continue as the format demands.
// ---------------------------------------------------------------------------
/// The value of a lowercase hex digit, or -1.
pub open spec fn sp_hex_val(c: char) -> int {
    if c == '0' {
        0
    } else if c == '1' {
        1
    } else if c == '2' {
        2
    } else if c == '3' {
        3
    } else if c == '4' {
        4
    } else if c == '5' {
        5
    } else if c == '6' {
        6
    } else if c == '7' {
        7
    } else if c == '8' {
        8
    } else if c == '9' {
        9
    } else if c == 'a' {
        10
    } else if c == 'b' {
        11
    } else if c == 'c' {
        12
    } else if c == 'd' {
        13
    } else if c == 'e' {
        14
    } else if c == 'f' {
        15
    } else {
        -1
    }
}

/// The character with the given code, for codes below 256.
pub open spec fn char_from_code(v: int) -> char {
    (v as u8) as char
}

/// One string character at position `i`: an escape in exactly the form
/// `esc_char` writes, or a plain character.
pub open spec fn sp_char_at(s: Seq<char>, i: int) -> Option<(char, int)> {
    if !(0 <= i < s.len()) {
        None
    } else {
        let c = s[i];
        if c == '\\' {
            if i + 1 < s.len() {
                let e = s[i + 1];
                if e == '"' {
                    Some(('"', i + 2))
                } else if e == '\\' {
                    Some(('\\', i + 2))
                } else if e == 'b' {
                    Some(('\u{8}', i + 2))
                } else if e == 'f' {
                    Some(('\u{c}', i + 2))
                } else if e == 'n' {
                    Some(('\n', i + 2))
                } else if e == 'r' {
                    Some(('\r', i + 2))
                } else if e == 't' {
                    Some(('\t', i + 2))
                } else if e == 'u' {
                    if i + 5 < s.len() && s[i + 2] == '0' && s[i + 3] == '0' {
                        let hi = sp_hex_val(s[i + 4]);
                        let lo = sp_hex_val(s[i + 5]);
                        if hi >= 0 && lo >= 0 {
                            let v = 16 * hi + lo;
                            if v < 0x20 && v != 8 && v != 9 && v != 10 && v != 12 && v != 13 {
                                Some((char_from_code(v), i + 6))
                            } else {
                                None
                            }
                        } else {
                            None
                        }
                    } else {
                        None
                    }
                } else {
                    None
                }
            } else {
                None
            }
        } else if c == '"' {
            None
        } else if (c as u32) < 0x20 {
            None
        } else {
            Some((c, i + 1))
        }
    }
}

/// The body of a JSON string from position `i` up to and past its closing
/// quote.
pub open spec fn sp_string_body(s: Seq<char>, i: int) -> Option<(Seq<char>, int)>
    decreases s.len() - i,
{
    if !(0 <= i < s.len()) {
        None
    } else if s[i] == '"' {
        Some((Seq::empty(), i + 1))
    } else {
        match sp_char_at(s, i) {
            None => None,
            Some((c, j)) => if i < j <= s.len() {
                match sp_string_body(s, j) {
                    None => None,
                    Some((t, k)) => Some((seq![c] + t, k)),
                }
            } else {
                None
            },
        }
    }
}

/// A JSON string at position `i`.
pub open spec fn sp_string(s: Seq<char>, i: int) -> Option<(Seq<char>, int)> {
    if 0 <= i < s.len() && s[i] == '"' {
        sp_string_body(s, i + 1)
    } else {
        None
    }
}

/// The exact characters of `lit` at position `i`.
pub open spec fn sp_lit(s: Seq<char>, i: int, lit: Seq<char>) -> Option<int> {
    if 0 <= i && i + lit.len() <= s.len() && s.subrange(i, i + lit.len()) == lit {
        Some(i + lit.len())
    } else {
        None
    }
}

/// A boolean literal at position `i`.
pub open spec fn sp_bool(s: Seq<char>, i: int) -> Option<(bool, int)> {
    match sp_lit(s, i, chars_true()) {
        Some(j) => Some((true, j)),
        None => match sp_lit(s, i, chars_false()) {
            Some(j) => Some((false, j)),
            None => None,
        },
    }
}

/// A task object at position `i`.
pub open spec fn sp_task(s: Seq<char>, i: int) -> Option<(TaskView, int)> {
    match sp_lit(s, i, key_completed()) {
        None => None,
        Some(j) => match sp_bool(s, j) {
            None => None,
            Some((b, k)) => match sp_lit(s, k, key_content()) {
                None => None,
                Some(l) => match sp_string(s, l) {
                    None => None,
                    Some((t, m)) => if 0 <= m < s.len() && s[m] == '}' {
                        Some((TaskView { completed: b, content: t }, m + 1))
                    } else {
                        None
                    },
                },
            },
        },
    }
}

/// The rest of a task array after an element: `]`, or a comma and another
/// task, repeatedly.
pub open spec fn sp_task_rest(s: Seq<char>, i: int) -> Option<(Seq<TaskView>, int)>
    decreases s.len() - i,
{
    if !(0 <= i < s.len()) {
        None
    } else if s[i] == ']' {
        Some((Seq::empty(), i + 1))
    } else if s[i] == ',' {
        match sp_task(s, i + 1) {
            None => None,
            Some((t, j)) => if i < j <= s.len() {
                match sp_task_rest(s, j) {
                    None => None,
                    Some((ts, k)) => Some((seq![t] + ts, k)),
                }
            } else {
                None
            },
        }
    } else {
        None
    }
}

/// A task array at position `i`.
pub open spec fn sp_tasks(s: Seq<char>, i: int) -> Option<(Seq<TaskView>, int)> {
    if !(0 <= i < s.len() && s[i] == '[') {
        None
    } else if i + 1 < s.len() && s[i + 1] == ']' {
        Some((Seq::empty(), i + 2))
    } else {
        match sp_task(s, i + 1) {
            None => None,
            Some((t, j)) => match sp_task_rest(s, j) {
                None => None,
                Some((ts, k)) => Some((seq![t] + ts, k)),
            },
        }
    }
}

/// A collection object at position `i`.
pub open spec fn sp_collection(s: Seq<char>, i: int) -> Option<(CollectionView, int)> {
    match sp_lit(s, i, key_title()) {
        None => None,
        Some(j) => match sp_string(s, j) {
            None => None,
            Some((t, k)) => match sp_lit(s, k, key_tasks_data()) {
                None => None,
                Some(l) => match sp_tasks(s, l) {
                    None => None,
                    Some((ts, m)) => if 0 <= m < s.len() && s[m] == '}' {
                        Some((CollectionView { title: t, tasks: ts }, m + 1))
                    } else {
                        None
                    },
                },
            },
        },
    }
}

/// The rest of the collection array after an element.
pub open spec fn sp_collection_rest(s: Seq<char>, i: int) -> Option<(Seq<CollectionView>, int)>
    decreases s.len() - i,
{
    if !(0 <= i < s.len()) {
        None
    } else if s[i] == ']' {
        Some((Seq::empty(), i + 1))
    } else if s[i] == ',' {
        match sp_collection(s, i + 1) {
            None => None,
            Some((c, j)) => if i < j <= s.len() {
                match sp_collection_rest(s, j) {
                    None => None,
                    Some((cs, k)) => Some((seq![c] + cs, k)),
                }
            } else {
                None
            },
        }
    } else {
        None
    }
}

/// The collection array at position `i`.
pub open spec fn sp_collections(s: Seq<char>, i: int) -> Option<(Seq<CollectionView>, int)> {
    if !(0 <= i < s.len() && s[i] == '[') {
        None
    } else if i + 1 < s.len() && s[i + 1] == ']' {
        Some((Seq::empty(), i + 2))
    } else {
        match sp_collection(s, i + 1) {
            None => None,
            Some((c, j)) => match sp_collection_rest(s, j) {
                None => None,
                Some((cs, k)) => Some((seq![c] + cs, k)),
            },
        }
    }
}

/// The whole document: the collection array with nothing after it, or
/// nothing at all where the text is not of the format.
pub open spec fn sp_doc(s: Seq<char>) -> Option<Seq<CollectionView>> {
    match sp_collections(s, 0) {
        None => None,
        Some((cs, j)) => if j == s.len() {
            Some(cs)
        } else {
            None
        },
    }
}

// ---------------------------------------------------------------------------
// The parser.  Each function returns exactly what the grammar functions above
// demand at its position.
// ---------------------------------------------------------------------------
/// The value of a lowercase hex digit.
fn hex_val_exec(c: char) -> (r: Option<u8>)
    ensures
        match r {
            Some(v) => sp_hex_val(c) == v as int && v < 16,
            None => sp_hex_val(c) == -1,
        },
{
    if c == '0' {
        Some(0)
    } else if c == '1' {
        Some(1)
    } else if c == '2' {
        Some(2)
    } else if c == '3' {
        Some(3)
    } else if c == '4' {
        Some(4)
    } else if c == '5' {
        Some(5)
    } else if c == '6' {
        Some(6)
    } else if c == '7' {
        Some(7)
    } else if c == '8' {
        Some(8)
    } else if c == '9' {
        Some(9)
    } else if c == 'a' {
        Some(10)
    } else if c == 'b' {
        Some(11)
    } else if c == 'c' {
        Some(12)
    } else if c == 'd' {
        Some(13)
    } else if c == 'e' {
        Some(14)
    } else if c == 'f' {
        Some(15)
    } else {
        None
    }
}

/// One string character at position `i`.
fn parse_char(s: &str, n: usize, i: usize) -> (r: Option<(char, usize)>)
    requires
        n == s@.len(),
        i < n,
    ensures
        match r {
            Some((c, j)) => sp_char_at(s@, i as int) == Some((c, j as int)) && i < j <= n,
            None => sp_char_at(s@, i as int) is None,
        },
{
    let c = s.get_char(i);
    if c == '\\' {
        if i + 1 < n {
            let e = s.get_char(i + 1);
            if e == '"' {
                Some(('"', i + 2))
            } else if e == '\\' {
                Some(('\\', i + 2))
            } else if e == 'b' {
                Some(('\u{8}', i + 2))
            } else if e == 'f' {
                Some(('\u{c}', i + 2))
            } else if e == 'n' {
                Some(('\n', i + 2))
            } else if e == 'r' {
                Some(('\r', i + 2))
            } else if e == 't' {
                Some(('\t', i + 2))
            } else if e == 'u' {
                if n - i > 5 && s.get_char(i + 2) == '0' && s.get_char(i + 3) == '0' {
                    match hex_val_exec(s.get_char(i + 4)) {
                        None => None,
                        Some(hi) => match hex_val_exec(s.get_char(i + 5)) {
                            None => None,
                            Some(lo) => {
                                let v: u32 = 16 * (hi as u32) + (lo as u32);
                                if v < 0x20 && v != 8 && v != 9 && v != 10 && v != 12 && v != 13 {
                                    Some(((v as u8) as char, i + 6))
                                } else {
                                    None
                                }
                            },
                        },
                    }
                } else {
                    None
                }
            } else {
                None
            }
        } else {
            None
        }
    } else if c == '"' {
        None
    } else if (c as u32) < 0x20 {
        None
    } else {
        Some((c, i + 1))
    }
}

/// The body of a JSON string from position `i`, up to and past its closing
/// quote.
fn parse_string_body(s: &str, n: usize, i: usize) -> (r: Option<(Vec<char>, usize)>)
    requires
        n == s@.len(),
        i <= n,
    ensures
        match r {
            Some((t, j)) => sp_string_body(s@, i as int) == Some((t@, j as int)) && i < j <= n,
            None => sp_string_body(s@, i as int) is None,
        },
    decreases n - i,
{
    if i >= n {
        return None;
    }
    let c0 = s.get_char(i);
    if c0 == '"' {
        let t: Vec<char> = Vec::new();
        proof {
            assert(t@ =~= Seq::<char>::empty());
        }
        return Some((t, i + 1));
    }
    match parse_char(s, n, i) {
        None => None,
        Some((c, j)) => match parse_string_body(s, n, j) {
            None => None,
            Some((t, k)) => {
                let mut t2 = t;
                t2.insert(0, c);
                proof {
                    assert(t2@ =~= seq![c] + t@);
                }
                Some((t2, k))
            },
        },
    }
}

/// A JSON string at position `i`.
fn parse_string(s: &str, n: usize, i: usize) -> (r: Option<(String, usize)>)
    requires
        n == s@.len(),
        i <= n,
    ensures
        match r {
            Some((t, j)) => sp_string(s@, i as int) == Some((t@, j as int)) && i < j <= n,
            None => sp_string(s@, i as int) is None,
        },
{
    if i < n && s.get_char(i) == '"' {
        match parse_string_body(s, n, i + 1) {
            None => None,
            Some((t, j)) => Some((chars_to_string(&t), j)),
        }
    } else {
        None
    }
}

/// The exact characters of `lit` at position `i`.
fn expect_lit(s: &str, n: usize, i: usize, lit: &Vec<char>) -> (r: bool)
    requires
        n == s@.len(),
        i <= n,
    ensures
        r == (sp_lit(s@, i as int, lit@) is Some),
        r ==> i + lit@.len() <= n && sp_lit(s@, i as int, lit@) == Some((i + lit@.len()) as int),
{
    let m = lit.len();
    if n - i < m {
        proof {
            assert(sp_lit(s@, i as int, lit@) is None);
        }
        return false;
    }
    for k in 0..m
        invariant
            n == s@.len(),
            i <= n,
            m == lit@.len(),
            n - i >= m,
            forall|q: int| 0 <= q < k ==> s@[i + q] == lit@[q],
    {
        if s.get_char(i + k) != lit[k] {
            proof {
                if sp_lit(s@, i as int, lit@) is Some {
                    assert(s@.subrange(i as int, i + lit@.len()) == lit@);
                    assert(s@.subrange(i as int, i + lit@.len())[k as int] == lit@[k as int]);
                    assert(false);
                }
            }
            return false;
        }
    }
    proof {
        assert(s@.subrange(i as int, i + lit@.len()) =~= lit@);
    }
    true
}

/// A boolean literal at position `i`.
fn parse_bool(s: &str, n: usize, i: usize) -> (r: Option<(bool, usize)>)
    requires
        n == s@.len(),
        i <= n,
    ensures
        match r {
            Some((b, j)) => sp_bool(s@, i as int) == Some((b, j as int)) && i < j <= n,
            None => sp_bool(s@, i as int) is None,
        },
{
    let t = chars_true_vec();
    if expect_lit(s, n, i, &t) {
        return Some((true, i + 4));
    }
    let f = chars_false_vec();
    if expect_lit(s, n, i, &f) {
        return Some((false, i + 5));
    }
    None
}

/// A task object at position `i`.
fn parse_task(s: &str, n: usize, i: usize) -> (r: Option<(Task, usize)>)
    requires
        n == s@.len(),
        i <= n,
    ensures
        match r {
            Some((t, j)) => sp_task(s@, i as int) == Some((t@, j as int)) && i < j <= n,
            None => sp_task(s@, i as int) is None,
        },
{
    let key1 = key_completed_vec();
    if !expect_lit(s, n, i, &key1) {
        return None;
    }
    let j = i + 13;
    match parse_bool(s, n, j) {
        None => None,
        Some((b, k)) => {
            let key2 = key_content_vec();
            if !expect_lit(s, n, k, &key2) {
                return None;
            }
            let l = k + 11;
            match parse_string(s, n, l) {
                None => None,
                Some((content, m)) => {
                    if m < n && s.get_char(m) == '}' {
                        let t = Task::new(b, content);
                        Some((t, m + 1))
                    } else {
                        None
                    }
                },
            }
        },
    }
}

/// The rest of a task array after an element.
fn parse_task_rest(s: &str, n: usize, i: usize) -> (r: Option<(Vec<Task>, usize)>)
    requires
        n == s@.len(),
        i <= n,
    ensures
        match r {
            Some((ts, j)) => sp_task_rest(s@, i as int) == Some((task_views(ts@), j as int)) && i
                < j <= n,
            None => sp_task_rest(s@, i as int) is None,
        },
    decreases n - i,
{
    if i >= n {
        return None;
    }
    let c0 = s.get_char(i);
    if c0 == ']' {
        let ts: Vec<Task> = Vec::new();
        proof {
            assert(task_views(ts@) =~= Seq::<TaskView>::empty());
        }
        return Some((ts, i + 1));
    }
    if c0 != ',' {
        return None;
    }
    match parse_task(s, n, i + 1) {
        None => None,
        Some((t, j)) => match parse_task_rest(s, n, j) {
            None => None,
            Some((ts, k)) => {
                let mut ts2 = ts;
                ts2.insert(0, t);
                proof {
                    assert(task_views(ts2@) =~= seq![t@] + task_views(ts@));
                }
                Some((ts2, k))
            },
        },
    }
}

/// A task array at position `i`.
fn parse_tasks(s: &str, n: usize, i: usize) -> (r: Option<(Vec<Task>, usize)>)
    requires
        n == s@.len(),
        i <= n,
    ensures
        match r {
            Some((ts, j)) => sp_tasks(s@, i as int) == Some((task_views(ts@), j as int)) && i < j
                <= n,
            None => sp_tasks(s@, i as int) is None,
        },
{
    if !(i < n && s.get_char(i) == '[') {
        return None;
    }
    if i + 1 < n && s.get_char(i + 1) == ']' {
        let ts: Vec<Task> = Vec::new();
        proof {
            assert(task_views(ts@) =~= Seq::<TaskView>::empty());
        }
        return Some((ts, i + 2));
    }
    match parse_task(s, n, i + 1) {
        None => None,
        Some((t, j)) => match parse_task_rest(s, n, j) {
            None => None,
            Some((ts, k)) => {
                let mut ts2 = ts;
                ts2.insert(0, t);
                proof {
                    assert(task_views(ts2@) =~= seq![t@] + task_views(ts@));
                }
                Some((ts2, k))
            },
        },
    }
}

/// A collection object at position `i`.
fn parse_collection(s: &str, n: usize, i: usize) -> (r: Option<(Collection, usize)>)
    requires
        n == s@.len(),
        i <= n,
    ensures
        match r {
            Some((c, j)) => sp_collection(s@, i as int) == Some((c@, j as int)) && i < j <= n,
            None => sp_collection(s@, i as int) is None,
        },
{
    let key1 = key_title_vec();
    if !expect_lit(s, n, i, &key1) {
        return None;
    }
    let j = i + 9;
    match parse_string(s, n, j) {
        None => None,
        Some((title, k)) => {
            let key2 = key_tasks_data_vec();
            if !expect_lit(s, n, k, &key2) {
                return None;
            }
            let l = k + 14;
            match parse_tasks(s, n, l) {
                None => None,
                Some((tasks, m)) => {
                    if m < n && s.get_char(m) == '}' {
                        let c = Collection { title, tasks };
                        Some((c, m + 1))
                    } else {
                        None
                    }
                },
            }
        },
    }
}

/// The rest of the collection array after an element.
fn parse_collection_rest(s: &str, n: usize, i: usize) -> (r: Option<(Vec<Collection>, usize)>)
    requires
        n == s@.len(),
        i <= n,
    ensures
        match r {
            Some((cs, j)) => sp_collection_rest(s@, i as int) == Some(
                (collection_views(cs@), j as int),
            ) && i < j <= n,
            None => sp_collection_rest(s@, i as int) is None,
        },
    decreases n - i,
{
    if i >= n {
        return None;
    }
    let c0 = s.get_char(i);
    if c0 == ']' {
        let cs: Vec<Collection> = Vec::new();
        proof {
            assert(collection_views(cs@) =~= Seq::<CollectionView>::empty());
        }
        return Some((cs, i + 1));
    }
    if c0 != ',' {
        return None;
    }
    match parse_collection(s, n, i + 1) {
        None => None,
        Some((c, j)) => match parse_collection_rest(s, n, j) {
            None => None,
            Some((cs, k)) => {
                let mut cs2 = cs;
                cs2.insert(0, c);
                proof {
                    assert(collection_views(cs2@) =~= seq![c@] + collection_views(cs@));
                }
                Some((cs2, k))
            },
        },
    }
}

/// The collection array at position `i`.
fn parse_collections(s: &str, n: usize, i: usize) -> (r: Option<(Vec<Collection>, usize)>)
    requires
        n == s@.len(),
        i <= n,
    ensures
        match r {
            Some((cs, j)) => sp_collections(s@, i as int) == Some(
                (collection_views(cs@), j as int),
            ) && i < j <= n,
            None => sp_collections(s@, i as int) is None,
        },
{
    if !(i < n && s.get_char(i) == '[') {
        return None;
    }
    if i + 1 < n && s.get_char(i + 1) == ']' {
        let cs: Vec<Collection> = Vec::new();
        proof {
            assert(collection_views(cs@) =~= Seq::<CollectionView>::empty());
        }
        return Some((cs, i + 2));
    }
    match parse_collection(s, n, i + 1) {
        None => None,
        Some((c, j)) => match parse_collection_rest(s, n, j) {
            None => None,
            Some((cs, k)) => {
                let mut cs2 = cs;
                cs2.insert(0, c);
                proof {
                    assert(collection_views(cs2@) =~= seq![c@] + collection_views(cs@));
                }
                Some((cs2, k))
            },
        },
    }
}

/// Parses the persisted document.  It returns the collections exactly where
/// the text is of the document format, and the error otherwise.
pub fn from_json(s: &str) -> (r: Result<Vec<Collection>, ParseError>)
    ensures
        match r {
            Ok(cs) => sp_doc(s@) == Some(collection_views(cs@)),
            Err(_) => sp_doc(s@) is None,
        },
{
    let n = s.unicode_len();
    match parse_collections(s, n, 0) {
        None => Err(ParseError::Malformed),
        Some((cs, j)) => if j == n {
            Ok(cs)
        } else {
            Err(ParseError::Malformed)
        },
    }
}

// ---------------------------------------------------------------------------
// The round trip: parsing a serialized document yields the original value.
// ---------------------------------------------------------------------------
/// An index into a known piece of a text.
proof fn lemma_subrange_index(s: Seq<char>, i: int, l: Seq<char>, k: int)
    requires
        0 <= i,
        i + l.len() <= s.len(),
        s.subrange(i, i + l.len()) == l,
        0 <= k < l.len(),
    ensures
        s[i + k] == l[k],
{
    assert(s.subrange(i, i + l.len())[k] == l[k]);
}

/// A piece of the text equal to a concatenation splits into its two parts.
proof fn lemma_subrange_split(s: Seq<char>, i: int, a: Seq<char>, b: Seq<char>)
    requires
        0 <= i,
        i + a.len() + b.len() <= s.len(),
        s.subrange(i, i + a.len() + b.len()) == a + b,
    ensures
        s.subrange(i, i + a.len()) == a,
        s.subrange(i + a.len(), i + a.len() + b.len()) == b,
{
    let ab = a + b;
    assert forall|k: int| 0 <= k < ab.len() implies s[i + k] == ab[k] by {
        assert(s.subrange(i, i + ab.len())[k] == ab[k]);
    }
    assert(s.subrange(i, i + a.len()) =~= a);
    assert forall|k: int| 0 <= k < b.len() implies s[i + a.len() + k] == b[k] by {
        assert(s[i + (a.len() + k)] == ab[a.len() + k]);
    }
    assert(s.subrange(i + a.len(), i + a.len() + b.len()) =~= b);
}

/// Reading back a lowercase hex digit gives the value it was written from.
proof fn lemma_hex_val_digit(v: int)
    requires
        0 <= v < 16,
    ensures
        sp_hex_val(hex_digit(v)) == v,
{
}

/// An escaped character parses back to the character it was written from.
proof fn lemma_sp_char_of_esc(s: Seq<char>, i: int, c: char)
    requires
        0 <= i,
        i + esc_char(c).len() <= s.len(),
        s.subrange(i, i + esc_char(c).len()) == esc_char(c),
    ensures
        sp_char_at(s, i) == Some((c, i + esc_char(c).len())),
{
    let e = esc_char(c);
    assert forall|k: int| 0 <= k < e.len() implies s[i + k] == e[k] by {
        lemma_subrange_index(s, i, e, k);
    }
    if c == '"' || c == '\\' || c == '\u{8}' || c == '\u{c}' || c == '\n' || c == '\r' || c
        == '\t' {
        assert(s[i + 0] == e[0]);
        assert(s[i + 1] == e[1]);
        assert(sp_char_at(s, i) == Some((c, i + 2)));
    } else if (c as u32) < 0x20 {
        let v = (c as u32) as int;
        assert(s[i + 0] == e[0]);
        assert(s[i + 1] == e[1]);
        assert(s[i + 2] == e[2]);
        assert(s[i + 3] == e[3]);
        assert(s[i + 4] == e[4]);
        assert(s[i + 5] == e[5]);
        lemma_hex_val_digit(v / 16);
        lemma_hex_val_digit(v % 16);
        assert(16 * (v / 16) + v % 16 == v) by {
            vstd::arithmetic::div_mod::lemma_fundamental_div_mod(v, 16);
        }
        assert(char_from_code(v) == c);
        assert(sp_char_at(s, i) == Some((c, i + 6)));
    } else {
        assert(s[i + 0] == e[0]);
        assert(sp_char_at(s, i) == Some((c, i + 1)));
    }
}

/// A serialized string body, followed by its closing quote, parses back to
/// the original characters.
proof fn lemma_sp_body_of_ser(s: Seq<char>, i: int, t: Seq<char>)
    requires
        0 <= i,
        i + ser_str_body(t).len() + 1 <= s.len(),
        s.subrange(i, i + ser_str_body(t).len() + 1) == ser_str_body(t) + seq!['"'],
    ensures
        sp_string_body(s, i) == Some((t, i + ser_str_body(t).len() + 1)),
    decreases t.len(),
{
    if t.len() == 0 {
        lemma_subrange_index(s, i, ser_str_body(t) + seq!['"'], 0);
        assert(s[i + 0] == '"');
        assert(t =~= Seq::<char>::empty());
    } else {
        let e = esc_char(t[0]);
        let rest = ser_str_body(t.drop_first());
        assert(ser_str_body(t) == e + rest);
        assert(ser_str_body(t) + seq!['"'] =~= e + (rest + seq!['"']));
        lemma_subrange_split(s, i, e, rest + seq!['"']);
        lemma_sp_char_of_esc(s, i, t[0]);
        assert(e[0] != '"');
        assert(s[i + 0] == e[0]) by {
            lemma_subrange_index(s, i, e, 0);
        }
        let j = i + e.len();
        lemma_sp_body_of_ser(s, j, t.drop_first());
        assert(seq![t[0]] + t.drop_first() =~= t);
    }
}

/// A serialized string parses back to the original characters.
proof fn lemma_sp_string_of_ser(s: Seq<char>, i: int, t: Seq<char>)
    requires
        0 <= i,
        i + ser_string(t).len() <= s.len(),
        s.subrange(i, i + ser_string(t).len()) == ser_string(t),
    ensures
        sp_string(s, i) == Some((t, i + ser_string(t).len())),
{
    assert(ser_string(t) =~= seq!['"'] + (ser_str_body(t) + seq!['"']));
    lemma_subrange_split(s, i, seq!['"'], ser_str_body(t) + seq!['"']);
    assert(s[i + 0] == '"') by {
        lemma_subrange_index(s, i, seq!['"'], 0);
    }
    lemma_sp_body_of_ser(s, i + 1, t);
}

/// A serialized boolean parses back to the flag it was written from.
proof fn lemma_sp_bool_of_ser(s: Seq<char>, i: int, b: bool)
    requires
        0 <= i,
        i + (if b { chars_true() } else { chars_false() }).len() <= s.len(),
        s.subrange(i, i + (if b { chars_true() } else { chars_false() }).len()) == (if b {
            chars_true()
        } else {
            chars_false()
        }),
    ensures
        b ==> sp_bool(s, i) == Some((true, i + 4)),
        !b ==> sp_bool(s, i) == Some((false, i + 5)),
{
    if b {
        assert(sp_lit(s, i, chars_true()) == Some(i + 4));
    } else {
        assert(s[i + 0] == 'f') by {
            lemma_subrange_index(s, i, chars_false(), 0);
        }
        if sp_lit(s, i, chars_true()) is Some {
            assert(s.subrange(i, i + 4) == chars_true());
            assert(s[i + 0] == 't') by {
                lemma_subrange_index(s, i, chars_true(), 0);
            }
        }
        assert(sp_lit(s, i, chars_true()) is None);
        assert(sp_lit(s, i, chars_false()) == Some(i + 5));
    }
}

/// A serialized task object parses back to the original task model.
#[verifier::rlimit(100)]
proof fn lemma_sp_task_of_ser(s: Seq<char>, i: int, t: TaskView)
    requires
        0 <= i,
        i + ser_task(t).len() <= s.len(),
        s.subrange(i, i + ser_task(t).len()) == ser_task(t),
    ensures
        sp_task(s, i) == Some((t, i + ser_task(t).len())),
{
    let kb = if t.completed {
        chars_true()
    } else {
        chars_false()
    };
    let first4 = key_completed() + kb + key_content() + ser_string(t.content);
    assert(ser_task(t) =~= first4 + seq!['}']);
    lemma_subrange_split(s, i, first4, seq!['}']);
    let first3 = key_completed() + kb + key_content();
    assert(first4 =~= first3 + ser_string(t.content));
    lemma_subrange_split(s, i, first3, ser_string(t.content));
    let first2 = key_completed() + kb;
    assert(first3 =~= first2 + key_content());
    lemma_subrange_split(s, i, first2, key_content());
    assert(first2 =~= key_completed() + kb);
    lemma_subrange_split(s, i, key_completed(), kb);
    let j = i + 13;
    let k = j + kb.len();
    let l = k + 11;
    let m = l + ser_string(t.content).len();
    assert(sp_lit(s, i, key_completed()) == Some(j));
    lemma_sp_bool_of_ser(s, j, t.completed);
    assert(sp_lit(s, k, key_content()) == Some(l));
    lemma_sp_string_of_ser(s, l, t.content);
    assert(s[m + 0] == '}') by {
        lemma_subrange_index(s, m, seq!['}'], 0);
    }
    assert((TaskView { completed: t.completed, content: t.content }) =~= t);
}

/// The serialized rest of a task array parses back to the remaining task
/// models.
#[verifier::rlimit(100)]
proof fn lemma_sp_task_rest_of_ser(s: Seq<char>, i: int, ts: Seq<TaskView>)
    requires
        0 <= i,
        i + ser_task_tail(ts).len() + 1 <= s.len(),
        s.subrange(i, i + ser_task_tail(ts).len() + 1) == ser_task_tail(ts) + seq![']'],
    ensures
        sp_task_rest(s, i) == Some((ts, i + ser_task_tail(ts).len() + 1)),
    decreases ts.len(),
{
    if ts.len() == 0 {
        lemma_subrange_index(s, i, ser_task_tail(ts) + seq![']'], 0);
        assert(s[i + 0] == ']');
        assert(ts =~= Seq::<TaskView>::empty());
    } else {
        let t0 = ser_task(ts[0]);
        let rest = ser_task_tail(ts.drop_first());
        assert(ser_task_tail(ts) == seq![','] + t0 + rest);
        assert(ser_task_tail(ts) + seq![']'] =~= seq![','] + (t0 + (rest + seq![']'])));
        lemma_subrange_split(s, i, seq![','], t0 + (rest + seq![']']));
        assert(s[i + 0] == ',') by {
            lemma_subrange_index(s, i, seq![','], 0);
        }
        lemma_subrange_split(s, i + 1, t0, rest + seq![']']);
        lemma_sp_task_of_ser(s, i + 1, ts[0]);
        let j = i + 1 + t0.len();
        lemma_sp_task_rest_of_ser(s, j, ts.drop_first());
        assert(seq![ts[0]] + ts.drop_first() =~= ts);
    }
}

/// A serialized task array parses back to the original task models.
#[verifier::rlimit(100)]
proof fn lemma_sp_tasks_of_ser(s: Seq<char>, i: int, ts: Seq<TaskView>)
    requires
        0 <= i,
        i + ser_tasks(ts).len() <= s.len(),
        s.subrange(i, i + ser_tasks(ts).len()) == ser_tasks(ts),
    ensures
        sp_tasks(s, i) == Some((ts, i + ser_tasks(ts).len())),
{
    if ts.len() == 0 {
        lemma_subrange_index(s, i, ser_tasks(ts), 0);
        lemma_subrange_index(s, i, ser_tasks(ts), 1);
        assert(s[i + 0] == '[');
        assert(s[i + 1] == ']');
        assert(ts =~= Seq::<TaskView>::empty());
    } else {
        let t0 = ser_task(ts[0]);
        let rest = ser_task_tail(ts.drop_first());
        assert(ser_tasks(ts) =~= seq!['['] + (t0 + (rest + seq![']'])));
        lemma_subrange_split(s, i, seq!['['], t0 + (rest + seq![']']));
        assert(s[i + 0] == '[') by {
            lemma_subrange_index(s, i, seq!['['], 0);
        }
        lemma_subrange_split(s, i + 1, t0, rest + seq![']']);
        lemma_sp_task_of_ser(s, i + 1, ts[0]);
        assert(s[i + 1] == '{') by {
            lemma_subrange_index(s, i + 1, t0, 0);
        }
        let j = i + 1 + t0.len();
        lemma_sp_task_rest_of_ser(s, j, ts.drop_first());
        assert(seq![ts[0]] + ts.drop_first() =~= ts);
    }
}

/// A serialized collection object parses back to the original collection
/// model.
#[verifier::rlimit(100)]
proof fn lemma_sp_collection_of_ser(s: Seq<char>, i: int, c: CollectionView)
    requires
        0 <= i,
        i + ser_collection(c).len() <= s.len(),
        s.subrange(i, i + ser_collection(c).len()) == ser_collection(c),
    ensures
        sp_collection(s, i) == Some((c, i + ser_collection(c).len())),
{
    let first4 = key_title() + ser_string(c.title) + key_tasks_data() + ser_tasks(c.tasks);
    assert(ser_collection(c) =~= first4 + seq!['}']);
    lemma_subrange_split(s, i, first4, seq!['}']);
    let first3 = key_title() + ser_string(c.title) + key_tasks_data();
    assert(first4 =~= first3 + ser_tasks(c.tasks));
    lemma_subrange_split(s, i, first3, ser_tasks(c.tasks));
    let first2 = key_title() + ser_string(c.title);
    assert(first3 =~= first2 + key_tasks_data());
    lemma_subrange_split(s, i, first2, key_tasks_data());
    lemma_subrange_split(s, i, key_title(), ser_string(c.title));
    let j = i + 9;
    let k = j + ser_string(c.title).len();
    let l = k + 14;
    let m = l + ser_tasks(c.tasks).len();
    assert(sp_lit(s, i, key_title()) == Some(j));
    lemma_sp_string_of_ser(s, j, c.title);
    assert(sp_lit(s, k, key_tasks_data()) == Some(l));
    lemma_sp_tasks_of_ser(s, l, c.tasks);
    assert(s[m + 0] == '}') by {
        lemma_subrange_index(s, m, seq!['}'], 0);
    }
    assert((CollectionView { title: c.title, tasks: c.tasks }) =~= c);
}

/// The serialized rest of the collection array parses back to the remaining
/// collection models.
#[verifier::rlimit(100)]
proof fn lemma_sp_collection_rest_of_ser(s: Seq<char>, i: int, cs: Seq<CollectionView>)
    requires
        0 <= i,
        i + ser_collection_tail(cs).len() + 1 <= s.len(),
        s.subrange(i, i + ser_collection_tail(cs).len() + 1) == ser_collection_tail(cs)
            + seq![']'],
    ensures
        sp_collection_rest(s, i) == Some((cs, i + ser_collection_tail(cs).len() + 1)),
    decreases cs.len(),
{
    if cs.len() == 0 {
        lemma_subrange_index(s, i, ser_collection_tail(cs) + seq![']'], 0);
        assert(s[i + 0] == ']');
        assert(cs =~= Seq::<CollectionView>::empty());
    } else {
        let c0 = ser_collection(cs[0]);
        let rest = ser_collection_tail(cs.drop_first());
        assert(ser_collection_tail(cs) == seq![','] + c0 + rest);
        assert(ser_collection_tail(cs) + seq![']'] =~= seq![','] + (c0 + (rest + seq![']'])));
        lemma_subrange_split(s, i, seq![','], c0 + (rest + seq![']']));
        assert(s[i + 0] == ',') by {
            lemma_subrange_index(s, i, seq![','], 0);
        }
        lemma_subrange_split(s, i + 1, c0, rest + seq![']']);
        lemma_sp_collection_of_ser(s, i + 1, cs[0]);
        let j = i + 1 + c0.len();
        lemma_sp_collection_rest_of_ser(s, j, cs.drop_first());
        assert(seq![cs[0]] + cs.drop_first() =~= cs);
    }
}

/// The serialized collection array parses back to the original collection
/// models.
#[verifier::rlimit(100)]
proof fn lemma_sp_collections_of_ser(s: Seq<char>, i: int, cs: Seq<CollectionView>)
    requires
        0 <= i,
        i + spec_json(cs).len() <= s.len(),
        s.subrange(i, i + spec_json(cs).len()) == spec_json(cs),
    ensures
        sp_collections(s, i) == Some((cs, i + spec_json(cs).len())),
{
    if cs.len() == 0 {
        lemma_subrange_index(s, i, spec_json(cs), 0);
        lemma_subrange_index(s, i, spec_json(cs), 1);
        assert(s[i + 0] == '[');
        assert(s[i + 1] == ']');
        assert(cs =~= Seq::<CollectionView>::empty());
    } else {
        let c0 = ser_collection(cs[0]);
        let rest = ser_collection_tail(cs.drop_first());
        assert(spec_json(cs) =~= seq!['['] + (c0 + (rest + seq![']'])));
        lemma_subrange_split(s, i, seq!['['], c0 + (rest + seq![']']));
        assert(s[i + 0] == '[') by {
            lemma_subrange_index(s, i, seq!['['], 0);
        }
        lemma_subrange_split(s, i + 1, c0, rest + seq![']']);
        lemma_sp_collection_of_ser(s, i + 1, cs[0]);
        assert(s[i + 1] == '{') by {
            lemma_subrange_index(s, i + 1, c0, 0);
        }
        let j = i + 1 + c0.len() as int;
        lemma_sp_collection_rest_of_ser(s, j, cs.drop_first());
        assert(seq![cs[0]] + cs.drop_first() =~= cs);
    }
}

/// The round trip: the serialized document of any collection models parses
/// back to exactly those models.
pub proof fn lemma_round_trip(cs: Seq<CollectionView>)
    ensures
        sp_doc(spec_json(cs)) == Some(cs),
{
    let s = spec_json(cs);
    assert(s.subrange(0, s.len() as int) =~= s);
    lemma_sp_collections_of_ser(s, 0, cs);
}

} // verus!
