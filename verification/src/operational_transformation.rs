//! Validity checking for operational-transformation edit scripts.
//!
//! A script is a sequence of operations — `delete`, `insert`, `skip` —
//! applied left to right to a stale document while a cursor advances through
//! it. The script is valid for a pair of documents when every operation stays
//! inside the document and the rewritten draft equals the latest document.
//!
//! Scripts arrive as a JSON array of objects such as
//! `[{"op": "skip", "count": 40}, {"op": "delete", "count": 47}]`; this
//! module contains its own parser for that format, specified by the grammar
//! spec functions below.
//!
//! Cursor bookkeeping mixes two units on purpose: the bounds checks and the
//! cursor advance on `insert` count UTF-8 bytes, while the splice points
//! into the document count characters. On ASCII documents the two coincide.

use vstd::prelude::*;

verus! {

/// One edit operation of a script.
pub enum Operation {
    /// Remove `count` units at the cursor.
    Delete { count: usize },
    /// Splice `chars` in at the cursor and advance past it.
    Insert { chars: String },
    /// Advance the cursor by `count` units.
    Skip { count: usize },
}

/// The mathematical shape of an `Operation`: its inserted text as a sequence
/// of characters.
pub enum OperationView {
    Delete { count: usize },
    Insert { chars: Seq<char> },
    Skip { count: usize },
}

impl View for Operation {
    type V = OperationView;

    open spec fn view(&self) -> OperationView {
        match self {
            Operation::Delete { count } => OperationView::Delete { count: *count },
            Operation::Insert { chars } => OperationView::Insert { chars: chars@ },
            Operation::Skip { count } => OperationView::Skip { count: *count },
        }
    }
}

/// The views of a whole script.
pub open spec fn op_views(ops: Seq<Operation>) -> Seq<OperationView> {
    ops.map_values(|op: Operation| op@)
}

/// The UTF-8 byte length of a character sequence.
pub open spec fn byte_len(s: Seq<char>) -> nat {
    vstd::utf8::encode_utf8(s).len()
}

/// The first `n` characters of `s`; all of `s` when `n` reaches past its end.
pub open spec fn take_chars(s: Seq<char>, n: int) -> Seq<char> {
    if n < 0 {
        Seq::empty()
    } else if n >= s.len() {
        s
    } else {
        s.take(n)
    }
}

/// All but the first `n` characters of `s`; empty when `n` reaches past its
/// end.
pub open spec fn skip_chars(s: Seq<char>, n: int) -> Seq<char> {
    if n < 0 {
        s
    } else if n >= s.len() {
        Seq::empty()
    } else {
        s.skip(n)
    }
}

/// Applies one operation to the draft at the given cursor; `None` when the
/// operation reaches outside the document.
///
/// `delete` rejects a reach strictly past the end, `skip` already rejects
/// reaching the end itself; both measure the reach in bytes while the splice
/// works in characters. `insert` always succeeds and advances the cursor by
/// the byte length of the inserted text.
pub open spec fn apply_operation(draft: Seq<char>, position: nat, op: OperationView) -> Option<
    (Seq<char>, nat),
> {
    match op {
        OperationView::Delete { count } => {
            if position + count > byte_len(draft) {
                None
            } else {
                Some(
                    (
                        take_chars(draft, position as int) + skip_chars(
                            draft,
                            position + count,
                        ),
                        position,
                    ),
                )
            }
        },
        OperationView::Insert { chars } => Some(
            (
                take_chars(draft, position as int) + chars + skip_chars(draft, position as int),
                (position + byte_len(chars)) as nat,
            ),
        ),
        OperationView::Skip { count } => {
            if position + count >= byte_len(draft) {
                None
            } else {
                Some((draft, (position + count) as nat))
            }
        },
    }
}

/// Applies a whole script left to right; `None` as soon as one operation
/// reaches outside the document.
pub open spec fn apply_operations(ops: Seq<OperationView>, draft: Seq<char>, position: nat) -> Option<
    Seq<char>,
>
    decreases ops.len(),
{
    if ops.len() == 0 {
        Some(draft)
    } else {
        match apply_operation(draft, position, ops[0]) {
            None => None,
            Some((next_draft, next_position)) => apply_operations(
                ops.drop_first(),
                next_draft,
                next_position,
            ),
        }
    }
}

/// A script is valid for `(stale, latest)` when it applies cleanly to the
/// stale document and the result equals the latest document.
pub open spec fn script_is_valid(
    stale: Seq<char>,
    latest: Seq<char>,
    ops: Seq<OperationView>,
) -> bool {
    match apply_operations(ops, stale, 0) {
        None => false,
        Some(draft) => draft == latest,
    }
}

// ---------------------------------------------------------------------------
// The script grammar: a JSON array of operation objects.
//
// Whitespace is the four JSON separators. An object holds members `"op"`
// (the operation tag: `"delete"`, `"insert"` or `"skip"`), `"count"` (a
// non-negative integer without fraction, exponent or leading zero) and
// `"chars"` (a string; the escapes `\" \\ \/ \b \f \n \r \t` are understood,
// `\uXXXX` is not). Members may come in any order, each at most once; no
// other keys are accepted. `delete` and `skip` take exactly `count`,
// `insert` exactly `chars`. Nothing but whitespace may follow the array.
// ---------------------------------------------------------------------------

/// JSON whitespace.
pub open spec fn is_json_ws(c: char) -> bool {
    c == ' ' || c == '\t' || c == '\n' || c == '\r'
}

/// The first position at or after `i` that does not hold whitespace.
pub open spec fn skip_ws(s: Seq<char>, i: int) -> int
    decreases s.len() - i,
{
    if 0 <= i < s.len() && is_json_ws(s[i]) {
        skip_ws(s, i + 1)
    } else {
        i
    }
}

proof fn lemma_skip_ws_bounds(s: Seq<char>, i: int)
    ensures
        i <= skip_ws(s, i),
        i <= s.len() ==> skip_ws(s, i) <= s.len(),
    decreases s.len() - i,
{
    if 0 <= i < s.len() && is_json_ws(s[i]) {
        lemma_skip_ws_bounds(s, i + 1);
    }
}

/// The character denoted by a single-character escape, if the escape exists.
pub open spec fn escape_char(c: char) -> Option<char> {
    if c == '"' {
        Some('"')
    } else if c == '\\' {
        Some('\\')
    } else if c == '/' {
        Some('/')
    } else if c == 'b' {
        Some('\u{8}')
    } else if c == 'f' {
        Some('\u{c}')
    } else if c == 'n' {
        Some('\n')
    } else if c == 'r' {
        Some('\r')
    } else if c == 't' {
        Some('\t')
    } else {
        None
    }
}

/// The remainder of a string literal after its opening quote: `acc` holds
/// what has been read so far; the result is the unescaped contents and the
/// position after the closing quote.
pub open spec fn parse_string_body(s: Seq<char>, i: int, acc: Seq<char>) -> Option<
    (Seq<char>, int),
>
    decreases s.len() - i,
{
    if !(0 <= i < s.len()) {
        None
    } else if s[i] == '"' {
        Some((acc, i + 1))
    } else if s[i] == '\\' {
        if i + 1 < s.len() {
            match escape_char(s[i + 1]) {
                Some(e) => parse_string_body(s, i + 2, acc.push(e)),
                None => None,
            }
        } else {
            None
        }
    } else if (s[i] as u32) < 0x20 {
        None
    } else {
        parse_string_body(s, i + 1, acc.push(s[i]))
    }
}

/// A string literal starting at its opening quote.
pub open spec fn parse_string(s: Seq<char>, i: int) -> Option<(Seq<char>, int)> {
    if 0 <= i < s.len() && s[i] == '"' {
        parse_string_body(s, i + 1, Seq::empty())
    } else {
        None
    }
}

proof fn lemma_parse_string_body_bounds(s: Seq<char>, i: int, acc: Seq<char>)
    ensures
        parse_string_body(s, i, acc) matches Some(r) ==> i + 1 <= r.1 <= s.len(),
    decreases s.len() - i,
{
    if 0 <= i < s.len() && s[i] == '\\' && i + 1 < s.len() {
        match escape_char(s[i + 1]) {
            Some(e) => lemma_parse_string_body_bounds(s, i + 2, acc.push(e)),
            None => (),
        }
    } else if 0 <= i < s.len() && s[i] != '"' && (s[i] as u32) >= 0x20 {
        lemma_parse_string_body_bounds(s, i + 1, acc.push(s[i]));
    }
}

proof fn lemma_parse_string_bounds(s: Seq<char>, i: int)
    ensures
        parse_string(s, i) matches Some(r) ==> i + 2 <= r.1 <= s.len(),
{
    if 0 <= i < s.len() && s[i] == '"' {
        lemma_parse_string_body_bounds(s, i + 1, Seq::empty());
    }
}

pub open spec fn is_digit(c: char) -> bool {
    48 <= c as u32 <= 57
}

pub open spec fn digit_value(c: char) -> int {
    c as u32 - 48
}

/// A character that would continue a JSON number past its integer digits;
/// counts are whole numbers, so such a number is rejected.
pub open spec fn is_number_tail(c: char) -> bool {
    c == '.' || c == 'e' || c == 'E'
}

/// A run of decimal digits accumulated onto `acc`; fails when the value
/// leaves machine range.
pub open spec fn parse_digits(s: Seq<char>, i: int, acc: int) -> Option<(int, int)>
    decreases s.len() - i,
{
    if 0 <= i < s.len() && is_digit(s[i]) {
        let v = acc * 10 + digit_value(s[i]);
        if v > usize::MAX {
            None
        } else {
            parse_digits(s, i + 1, v)
        }
    } else {
        Some((acc, i))
    }
}

proof fn lemma_parse_digits_bounds(s: Seq<char>, i: int, acc: int)
    requires
        0 <= acc <= usize::MAX,
    ensures
        parse_digits(s, i, acc) matches Some(r) ==> i <= r.1,
        parse_digits(s, i, acc) matches Some(r) ==> (i <= s.len() ==> r.1 <= s.len()),
        parse_digits(s, i, acc) matches Some(r) ==> 0 <= r.0 <= usize::MAX,
    decreases s.len() - i,
{
    if 0 <= i < s.len() && is_digit(s[i]) {
        let v = acc * 10 + digit_value(s[i]);
        if v <= usize::MAX {
            lemma_parse_digits_bounds(s, i + 1, v);
        }
    }
}

/// A count: `0`, or a run of digits without a leading zero, not followed by
/// a fraction or exponent.
pub open spec fn parse_number(s: Seq<char>, i: int) -> Option<(usize, int)> {
    if !(0 <= i < s.len()) {
        None
    } else if s[i] == '0' {
        if i + 1 < s.len() && (is_digit(s[i + 1]) || is_number_tail(s[i + 1])) {
            None
        } else {
            Some((0, i + 1))
        }
    } else if is_digit(s[i]) {
        match parse_digits(s, i, 0) {
            Some((v, j)) => {
                if j < s.len() && is_number_tail(s[j]) {
                    None
                } else {
                    Some((v as usize, j))
                }
            },
            None => None,
        }
    } else {
        None
    }
}

proof fn lemma_parse_number_bounds(s: Seq<char>, i: int)
    ensures
        parse_number(s, i) matches Some(r) ==> i + 1 <= r.1 <= s.len(),
{
    if 0 <= i < s.len() && s[i] != '0' && is_digit(s[i]) {
        lemma_parse_digits_bounds(s, i, 0);
        if parse_digits(s, i, 0) matches Some((v, j)) {
            if (0 * 10 + digit_value(s[i])) <= usize::MAX {
                lemma_parse_digits_bounds(s, i + 1, 0 * 10 + digit_value(s[i]));
            }
        }
    }
}

pub open spec fn op_key() -> Seq<char> {
    seq!['o', 'p']
}

pub open spec fn count_key() -> Seq<char> {
    seq!['c', 'o', 'u', 'n', 't']
}

pub open spec fn chars_key() -> Seq<char> {
    seq!['c', 'h', 'a', 'r', 's']
}

pub open spec fn delete_tag() -> Seq<char> {
    seq!['d', 'e', 'l', 'e', 't', 'e']
}

pub open spec fn insert_tag() -> Seq<char> {
    seq!['i', 'n', 's', 'e', 'r', 't']
}

pub open spec fn skip_tag() -> Seq<char> {
    seq!['s', 'k', 'i', 'p']
}

/// The operation denoted by a completed object: the tag picks the variant,
/// which must have received exactly its own payload member.
pub open spec fn make_operation(
    tag: Seq<char>,
    count: Option<usize>,
    chars: Option<Seq<char>>,
) -> Option<OperationView> {
    if tag == delete_tag() {
        if count is Some && chars is None {
            Some(OperationView::Delete { count: count.unwrap() })
        } else {
            None
        }
    } else if tag == insert_tag() {
        if chars is Some && count is None {
            Some(OperationView::Insert { chars: chars.unwrap() })
        } else {
            None
        }
    } else if tag == skip_tag() {
        if count is Some && chars is None {
            Some(OperationView::Skip { count: count.unwrap() })
        } else {
            None
        }
    } else {
        None
    }
}

/// The members of an object from the start of a member key, with the members
/// seen so far; succeeds at the closing brace with the finished operation.
pub open spec fn parse_object_fields(
    s: Seq<char>,
    i: int,
    tag: Option<Seq<char>>,
    count: Option<usize>,
    chars: Option<Seq<char>>,
) -> Option<(OperationView, int)>
    decreases s.len() - i, 1int
        via parse_object_fields_decreases
{
    match parse_string(s, i) {
        None => None,
        Some((key, j)) => {
            let j2 = skip_ws(s, j);
            if !(0 <= j2 < s.len() && s[j2] == ':') {
                None
            } else {
                let j3 = skip_ws(s, j2 + 1);
                if key == op_key() {
                    if tag is Some {
                        None
                    } else {
                        match parse_string(s, j3) {
                            Some((v, j4)) => parse_fields_tail(s, j4, Some(v), count, chars),
                            None => None,
                        }
                    }
                } else if key == count_key() {
                    if count is Some {
                        None
                    } else {
                        match parse_number(s, j3) {
                            Some((v, j4)) => parse_fields_tail(s, j4, tag, Some(v), chars),
                            None => None,
                        }
                    }
                } else if key == chars_key() {
                    if chars is Some {
                        None
                    } else {
                        match parse_string(s, j3) {
                            Some((v, j4)) => parse_fields_tail(s, j4, tag, count, Some(v)),
                            None => None,
                        }
                    }
                } else {
                    None
                }
            }
        },
    }
}

/// After a member's value: a comma continues with the next member, a closing
/// brace finishes the object.
pub open spec fn parse_fields_tail(
    s: Seq<char>,
    i: int,
    tag: Option<Seq<char>>,
    count: Option<usize>,
    chars: Option<Seq<char>>,
) -> Option<(OperationView, int)>
    decreases s.len() - i, 0int
        via parse_fields_tail_decreases
{
    let k = skip_ws(s, i);
    if 0 <= k < s.len() && s[k] == ',' {
        parse_object_fields(s, skip_ws(s, k + 1), tag, count, chars)
    } else if 0 <= k < s.len() && s[k] == '}' {
        match tag {
            Some(t) => {
                match make_operation(t, count, chars) {
                    Some(op) => Some((op, k + 1)),
                    None => None,
                }
            },
            None => None,
        }
    } else {
        None
    }
}

#[via_fn]
proof fn parse_object_fields_decreases(
    s: Seq<char>,
    i: int,
    tag: Option<Seq<char>>,
    count: Option<usize>,
    chars: Option<Seq<char>>,
) {
    lemma_parse_string_bounds(s, i);
    match parse_string(s, i) {
        None => (),
        Some((key, j)) => {
            lemma_skip_ws_bounds(s, j);
            let j2 = skip_ws(s, j);
            lemma_skip_ws_bounds(s, j2 + 1);
            let j3 = skip_ws(s, j2 + 1);
            lemma_parse_string_bounds(s, j3);
            lemma_parse_number_bounds(s, j3);
        },
    }
}

#[via_fn]
proof fn parse_fields_tail_decreases(
    s: Seq<char>,
    i: int,
    tag: Option<Seq<char>>,
    count: Option<usize>,
    chars: Option<Seq<char>>,
) {
    lemma_skip_ws_bounds(s, i);
    let k = skip_ws(s, i);
    lemma_skip_ws_bounds(s, k + 1);
}

/// An operation object from its opening brace.
pub open spec fn parse_object(s: Seq<char>, i: int) -> Option<(OperationView, int)> {
    if 0 <= i < s.len() && s[i] == '{' {
        parse_object_fields(s, skip_ws(s, i + 1), None, None, None)
    } else {
        None
    }
}

proof fn lemma_parse_object_fields_bounds(
    s: Seq<char>,
    i: int,
    tag: Option<Seq<char>>,
    count: Option<usize>,
    chars: Option<Seq<char>>,
)
    ensures
        parse_object_fields(s, i, tag, count, chars) matches Some(r) ==> i < r.1 <= s.len(),
    decreases s.len() - i, 1int,
{
    lemma_parse_string_bounds(s, i);
    match parse_string(s, i) {
        None => (),
        Some((key, j)) => {
            lemma_skip_ws_bounds(s, j);
            let j2 = skip_ws(s, j);
            lemma_skip_ws_bounds(s, j2 + 1);
            let j3 = skip_ws(s, j2 + 1);
            lemma_parse_string_bounds(s, j3);
            lemma_parse_number_bounds(s, j3);
            if 0 <= j2 < s.len() && s[j2] == ':' {
                if key == op_key() && tag is None {
                    match parse_string(s, j3) {
                        Some((v, j4)) => lemma_parse_fields_tail_bounds(
                            s,
                            j4,
                            Some(v),
                            count,
                            chars,
                        ),
                        None => (),
                    }
                } else if key == count_key() && count is None {
                    match parse_number(s, j3) {
                        Some((v, j4)) => lemma_parse_fields_tail_bounds(
                            s,
                            j4,
                            tag,
                            Some(v),
                            chars,
                        ),
                        None => (),
                    }
                } else if key == chars_key() && chars is None {
                    match parse_string(s, j3) {
                        Some((v, j4)) => lemma_parse_fields_tail_bounds(
                            s,
                            j4,
                            tag,
                            count,
                            Some(v),
                        ),
                        None => (),
                    }
                }
            }
        },
    }
}

proof fn lemma_parse_fields_tail_bounds(
    s: Seq<char>,
    i: int,
    tag: Option<Seq<char>>,
    count: Option<usize>,
    chars: Option<Seq<char>>,
)
    ensures
        parse_fields_tail(s, i, tag, count, chars) matches Some(r) ==> i <= r.1 <= s.len(),
    decreases s.len() - i, 0int,
{
    lemma_skip_ws_bounds(s, i);
    let k = skip_ws(s, i);
    lemma_skip_ws_bounds(s, k + 1);
    if 0 <= k < s.len() && s[k] == ',' {
        lemma_parse_object_fields_bounds(s, skip_ws(s, k + 1), tag, count, chars);
    }
}

proof fn lemma_parse_object_bounds(s: Seq<char>, i: int)
    ensures
        parse_object(s, i) matches Some(r) ==> i < r.1 <= s.len(),
{
    if 0 <= i < s.len() && s[i] == '{' {
        lemma_skip_ws_bounds(s, i + 1);
        lemma_parse_object_fields_bounds(s, skip_ws(s, i + 1), None, None, None);
    }
}

/// The elements of a non-empty array from the start of an element; succeeds
/// at the closing bracket with all the operations parsed so far.
pub open spec fn parse_elements(s: Seq<char>, i: int, acc: Seq<OperationView>) -> Option<
    (Seq<OperationView>, int),
>
    decreases s.len() - i,
        via parse_elements_decreases
{
    match parse_object(s, i) {
        None => None,
        Some((op, j)) => {
            let k = skip_ws(s, j);
            if 0 <= k < s.len() && s[k] == ',' {
                parse_elements(s, skip_ws(s, k + 1), acc.push(op))
            } else if 0 <= k < s.len() && s[k] == ']' {
                Some((acc.push(op), k + 1))
            } else {
                None
            }
        },
    }
}

#[via_fn]
proof fn parse_elements_decreases(s: Seq<char>, i: int, acc: Seq<OperationView>) {
    lemma_parse_object_bounds(s, i);
    match parse_object(s, i) {
        None => (),
        Some((op, j)) => {
            lemma_skip_ws_bounds(s, j);
            let k = skip_ws(s, j);
            lemma_skip_ws_bounds(s, k + 1);
        },
    }
}

/// A whole script document: one array of operation objects, with nothing but
/// whitespace around it.
pub open spec fn parse_script(s: Seq<char>) -> Option<Seq<OperationView>> {
    let i = skip_ws(s, 0);
    if 0 <= i < s.len() && s[i] == '[' {
        let j = skip_ws(s, i + 1);
        if 0 <= j < s.len() && s[j] == ']' {
            if skip_ws(s, j + 1) == s.len() {
                Some(Seq::empty())
            } else {
                None
            }
        } else {
            match parse_elements(s, j, Seq::empty()) {
                None => None,
                Some((ops, k)) => {
                    if skip_ws(s, k) == s.len() {
                        Some(ops)
                    } else {
                        None
                    }
                },
            }
        }
    } else {
        None
    }
}

/// Relies on std's `String::push`: appends the given character to the end of
/// the string.
pub assume_specification[ String::push ](s: &mut String, c: char)
    ensures
        final(s)@ == old(s)@.push(c),
;

/// The view of an optional string.
pub open spec fn opt_view(o: Option<String>) -> Option<Seq<char>> {
    match o {
        Some(x) => Some(x@),
        None => None,
    }
}

/// The characters of a string slice, one vector entry each.
fn chars_of(s: &str) -> (v: Vec<char>)
    ensures
        v@ == s@,
{
    let n = s.unicode_len();
    let mut v: Vec<char> = Vec::new();
    let mut i: usize = 0;
    while i < n
        invariant
            n == s@.len(),
            i <= n,
            v@.len() == i,
            forall|j: int| 0 <= j < i ==> v@[j] == s@[j],
        decreases n - i,
    {
        v.push(s.get_char(i));
        i += 1;
    }
    proof {
        assert(v@ =~= s@);
    }
    v
}

fn is_ws_at(s: &Vec<char>, i: usize) -> (r: bool)
    requires
        i < s@.len(),
    ensures
        r == is_json_ws(s@[i as int]),
{
    let c = s[i];
    c == ' ' || c == '\t' || c == '\n' || c == '\r'
}

fn is_digit_at(s: &Vec<char>, i: usize) -> (r: bool)
    requires
        i < s@.len(),
    ensures
        r == is_digit(s@[i as int]),
{
    let u = s[i] as u32;
    48 <= u && u <= 57
}

fn skip_ws_exec(s: &Vec<char>, i: usize) -> (j: usize)
    requires
        i <= s@.len(),
    ensures
        j as int == skip_ws(s@, i as int),
        i <= j <= s@.len(),
{
    let mut cur: usize = i;
    while cur < s.len() && is_ws_at(s, cur)
        invariant
            i <= cur <= s@.len(),
            skip_ws(s@, i as int) == skip_ws(s@, cur as int),
        decreases s@.len() - cur,
    {
        cur += 1;
    }
    cur
}

fn escape_char_exec(c: char) -> (r: Option<char>)
    ensures
        r == escape_char(c),
{
    if c == '"' {
        Some('"')
    } else if c == '\\' {
        Some('\\')
    } else if c == '/' {
        Some('/')
    } else if c == 'b' {
        Some('\u{8}')
    } else if c == 'f' {
        Some('\u{c}')
    } else if c == 'n' {
        Some('\n')
    } else if c == 'r' {
        Some('\r')
    } else if c == 't' {
        Some('\t')
    } else {
        None
    }
}

fn parse_string_exec(s: &Vec<char>, i: usize) -> (r: Option<(String, usize)>)
    requires
        i <= s@.len(),
    ensures
        (r is Some) == (parse_string(s@, i as int) is Some),
        r matches Some(p) ==> parse_string(s@, i as int) matches Some(q) && p.0@ == q.0 && p.1
            as int == q.1 && p.1 <= s@.len(),
{
    if i >= s.len() {
        return None;
    }
    if s[i] != '"' {
        return None;
    }
    let mut cur: usize = i + 1;
    let mut acc = String::new();
    while cur < s.len()
        invariant
            i < s@.len(),
            s@[i as int] == '"',
            i + 1 <= cur <= s@.len(),
            parse_string_body(s@, i as int + 1, Seq::empty()) == parse_string_body(
                s@,
                cur as int,
                acc@,
            ),
        decreases s@.len() - cur,
    {
        let c = s[cur];
        if c == '"' {
            return Some((acc, cur + 1));
        } else if c == '\\' {
            if cur + 1 >= s.len() {
                return None;
            }
            match escape_char_exec(s[cur + 1]) {
                None => {
                    return None;
                },
                Some(e) => {
                    acc.push(e);
                    cur += 2;
                },
            }
        } else if (c as u32) < 0x20 {
            return None;
        } else {
            acc.push(c);
            cur += 1;
        }
    }
    None
}

fn parse_number_exec(s: &Vec<char>, i: usize) -> (r: Option<(usize, usize)>)
    requires
        i <= s@.len(),
    ensures
        (r is Some) == (parse_number(s@, i as int) is Some),
        r matches Some(p) ==> parse_number(s@, i as int) matches Some(q) && p.0 == q.0 && p.1
            as int == q.1 && p.1 <= s@.len(),
{
    if i >= s.len() {
        return None;
    }
    let c0 = s[i];
    if c0 == '0' {
        if i + 1 < s.len() {
            let c1 = s[i + 1];
            let u1 = c1 as u32;
            if (48 <= u1 && u1 <= 57) || c1 == '.' || c1 == 'e' || c1 == 'E' {
                return None;
            }
        }
        return Some((0, i + 1));
    }
    let u0 = c0 as u32;
    if !(48 <= u0 && u0 <= 57) {
        return None;
    }
    let mut cur: usize = i;
    let mut acc: u128 = 0;
    while cur < s.len() && is_digit_at(s, cur)
        invariant
            i < s@.len(),
            s@[i as int] != '0',
            is_digit(s@[i as int]),
            i <= cur <= s@.len(),
            acc <= usize::MAX as u128,
            parse_digits(s@, i as int, 0) == parse_digits(s@, cur as int, acc as int),
        decreases s@.len() - cur,
    {
        let u = s[cur] as u32;
        let next: u128 = acc * 10 + ((u - 48) as u128);
        if next > usize::MAX as u128 {
            proof {
                assert(is_digit(s@[cur as int]));
                assert(next as int == acc as int * 10 + digit_value(s@[cur as int]));
                assert(parse_digits(s@, cur as int, acc as int) is None);
            }
            return None;
        }
        acc = next;
        cur += 1;
    }
    if cur < s.len() {
        let t = s[cur];
        if t == '.' || t == 'e' || t == 'E' {
            return None;
        }
    }
    Some((acc as usize, cur))
}

fn make_operation_exec(tag: String, count: Option<usize>, chars: Option<String>) -> (r: Option<
    Operation,
>)
    ensures
        (r is Some) == (make_operation(tag@, count, opt_view(chars)) is Some),
        r matches Some(op) ==> make_operation(tag@, count, opt_view(chars)) == Some(op@),
{
    let is_delete = str_eq(tag.as_str(), "delete");
    let is_insert = str_eq(tag.as_str(), "insert");
    let is_skip = str_eq(tag.as_str(), "skip");
    proof {
        reveal_strlit("delete");
        reveal_strlit("insert");
        reveal_strlit("skip");
        assert("delete"@ =~= delete_tag());
        assert("insert"@ =~= insert_tag());
        assert("skip"@ =~= skip_tag());
    }
    if is_delete {
        match (count, chars) {
            (Some(count), None) => Some(Operation::Delete { count }),
            _ => None,
        }
    } else if is_insert {
        match (count, chars) {
            (None, Some(chars)) => Some(Operation::Insert { chars }),
            _ => None,
        }
    } else if is_skip {
        match (count, chars) {
            (Some(count), None) => Some(Operation::Skip { count }),
            _ => None,
        }
    } else {
        None
    }
}

fn parse_object_fields_exec(
    s: &Vec<char>,
    i: usize,
    tag: Option<String>,
    count: Option<usize>,
    chars: Option<String>,
) -> (r: Option<(Operation, usize)>)
    requires
        i <= s@.len(),
    ensures
        (r is Some) == (parse_object_fields(s@, i as int, opt_view(tag), count, opt_view(chars))
            is Some),
        r matches Some(p) ==> parse_object_fields(
            s@,
            i as int,
            opt_view(tag),
            count,
            opt_view(chars),
        ) matches Some(q) && p.0@ == q.0 && p.1 as int == q.1 && p.1 <= s@.len(),
    decreases s@.len() - i, 1int,
{
    proof {
        lemma_parse_string_bounds(s@, i as int);
    }
    match parse_string_exec(s, i) {
        None => None,
        Some((key, j)) => {
            let j2 = skip_ws_exec(s, j);
            if j2 >= s.len() {
                return None;
            }
            if s[j2] != ':' {
                return None;
            }
            let j3 = skip_ws_exec(s, j2 + 1);
            let is_op = str_eq(key.as_str(), "op");
            let is_count = str_eq(key.as_str(), "count");
            let is_chars = str_eq(key.as_str(), "chars");
            proof {
                reveal_strlit("op");
                reveal_strlit("count");
                reveal_strlit("chars");
                assert("op"@ =~= op_key());
                assert("count"@ =~= count_key());
                assert("chars"@ =~= chars_key());
            }
            if is_op {
                if tag.is_some() {
                    return None;
                }
                proof {
                    lemma_parse_string_bounds(s@, j3 as int);
                }
                match parse_string_exec(s, j3) {
                    None => None,
                    Some((v, j4)) => parse_fields_tail_exec(s, j4, Some(v), count, chars),
                }
            } else if is_count {
                if count.is_some() {
                    return None;
                }
                proof {
                    lemma_parse_number_bounds(s@, j3 as int);
                }
                match parse_number_exec(s, j3) {
                    None => None,
                    Some((v, j4)) => parse_fields_tail_exec(s, j4, tag, Some(v), chars),
                }
            } else if is_chars {
                if chars.is_some() {
                    return None;
                }
                proof {
                    lemma_parse_string_bounds(s@, j3 as int);
                }
                match parse_string_exec(s, j3) {
                    None => None,
                    Some((v, j4)) => parse_fields_tail_exec(s, j4, tag, count, Some(v)),
                }
            } else {
                None
            }
        },
    }
}

fn parse_fields_tail_exec(
    s: &Vec<char>,
    i: usize,
    tag: Option<String>,
    count: Option<usize>,
    chars: Option<String>,
) -> (r: Option<(Operation, usize)>)
    requires
        i <= s@.len(),
    ensures
        (r is Some) == (parse_fields_tail(s@, i as int, opt_view(tag), count, opt_view(chars))
            is Some),
        r matches Some(p) ==> parse_fields_tail(
            s@,
            i as int,
            opt_view(tag),
            count,
            opt_view(chars),
        ) matches Some(q) && p.0@ == q.0 && p.1 as int == q.1 && p.1 <= s@.len(),
    decreases s@.len() - i, 0int,
{
    let k = skip_ws_exec(s, i);
    if k >= s.len() {
        return None;
    }
    let c = s[k];
    if c == ',' {
        let next_i = skip_ws_exec(s, k + 1);
        parse_object_fields_exec(s, next_i, tag, count, chars)
    } else if c == '}' {
        match tag {
            Some(t) => {
                match make_operation_exec(t, count, chars) {
                    Some(op) => Some((op, k + 1)),
                    None => None,
                }
            },
            None => None,
        }
    } else {
        None
    }
}

fn parse_elements_exec(s: &Vec<char>, i: usize, acc: Vec<Operation>) -> (r: Option<
    (Vec<Operation>, usize),
>)
    requires
        i <= s@.len(),
    ensures
        (r is Some) == (parse_elements(s@, i as int, op_views(acc@)) is Some),
        r matches Some(p) ==> parse_elements(s@, i as int, op_views(acc@)) matches Some(q)
            && op_views(p.0@) == q.0 && p.1 as int == q.1 && p.1 <= s@.len(),
    decreases s@.len() - i,
{
    let ghost acc0 = acc@;
    if i >= s.len() {
        return None;
    }
    if s[i] != '{' {
        return None;
    }
    let j0 = skip_ws_exec(s, i + 1);
    proof {
        lemma_parse_object_fields_bounds(s@, j0 as int, None, None, None);
    }
    match parse_object_fields_exec(s, j0, None, None, None) {
        None => None,
        Some((op, j)) => {
            let k = skip_ws_exec(s, j);
            let mut next_acc = acc;
            next_acc.push(op);
            proof {
                assert(op_views(next_acc@) =~= op_views(acc0).push(op@));
            }
            if k >= s.len() {
                return None;
            }
            let c = s[k];
            if c == ',' {
                let next_i = skip_ws_exec(s, k + 1);
                parse_elements_exec(s, next_i, next_acc)
            } else if c == ']' {
                Some((next_acc, k + 1))
            } else {
                None
            }
        },
    }
}

/// Parses a script document into its operations; `None` when the document
/// does not follow the grammar.
pub fn parse_operations(otjson: &str) -> (r: Option<Vec<Operation>>)
    ensures
        (r is Some) == (parse_script(otjson@) is Some),
        r matches Some(v) ==> parse_script(otjson@) == Some(op_views(v@)),
{
    let s = chars_of(otjson);
    let i = skip_ws_exec(&s, 0);
    if i >= s.len() {
        return None;
    }
    if s[i] != '[' {
        return None;
    }
    let j = skip_ws_exec(&s, i + 1);
    if j < s.len() && s[j] == ']' {
        let e = skip_ws_exec(&s, j + 1);
        if e == s.len() {
            let ops: Vec<Operation> = Vec::new();
            proof {
                assert(op_views(ops@) =~= Seq::<OperationView>::empty());
            }
            return Some(ops);
        } else {
            return None;
        }
    }
    let start: Vec<Operation> = Vec::new();
    proof {
        assert(op_views(start@) =~= Seq::<OperationView>::empty());
    }
    match parse_elements_exec(&s, j, start) {
        None => None,
        Some((ops, k)) => {
            let e = skip_ws_exec(&s, k);
            if e == s.len() {
                Some(ops)
            } else {
                None
            }
        },
    }
}

/// Character-by-character string equality.
fn str_eq(a: &str, b: &str) -> (r: bool)
    ensures
        r == (a@ == b@),
{
    let la = a.unicode_len();
    let lb = b.unicode_len();
    if la != lb {
        proof {
            assert(a@ != b@);
        }
        return false;
    }
    let mut i: usize = 0;
    while i < la
        invariant
            la == a@.len(),
            la == b@.len(),
            i <= la,
            forall|j: int| 0 <= j < i ==> a@[j] == b@[j],
        decreases la - i,
    {
        if a.get_char(i) != b.get_char(i) {
            return false;
        }
        i += 1;
    }
    proof {
        assert(a@ =~= b@);
    }
    true
}

/// Applies an already-parsed script to the stale document and compares the
/// result with the latest document.
pub fn ops_are_valid(stale: &str, latest: &str, ops: &Vec<Operation>) -> (r: bool)
    ensures
        r == script_is_valid(stale@, latest@, op_views(ops@)),
{
    let ghost all_ops = op_views(ops@);
    let mut draft: String = String::from_str(stale);
    let mut position: u128 = 0;
    let mut i: usize = 0;
    proof {
        assert(all_ops.skip(0) =~= all_ops);
    }
    while i < ops.len()
        invariant
            i <= ops@.len(),
            all_ops == op_views(ops@),
            all_ops.len() == ops@.len(),
            position <= (i as int) * (usize::MAX as int),
            apply_operations(all_ops, stale@, 0) == apply_operations(
                all_ops.skip(i as int),
                draft@,
                position as nat,
            ),
        decreases ops@.len() - i,
    {
        proof {
            assert(all_ops.skip(i as int).len() > 0);
            assert(all_ops.skip(i as int)[0] == all_ops[i as int]);
            assert(all_ops.skip(i as int).drop_first() =~= all_ops.skip(i as int + 1));
            assert((i as int) * (usize::MAX as int) + (usize::MAX as int) == (i as int + 1) * (
            usize::MAX as int)) by (nonlinear_arith);
            assert((i as int + 1) * (usize::MAX as int) <= (usize::MAX as int) * (
            usize::MAX as int)) by (nonlinear_arith)
                requires
                    0 <= i as int + 1 <= usize::MAX as int,
            ;
            assert((usize::MAX as int) * (usize::MAX as int) + (usize::MAX as int)
                <= u128::MAX as int) by (nonlinear_arith)
                requires
                    usize::MAX as int <= u64::MAX as int,
            ;
        }
        let op = &ops[i];
        match op {
            Operation::Delete { count } => {
                let blen: usize = draft.as_str().as_bytes().len();
                if position + (*count as u128) > blen as u128 {
                    proof {
                        assert(all_ops[i as int] == ops@[i as int]@);
                        assert(apply_operation(draft@, position as nat, all_ops[i as int])
                            is None);
                        assert(apply_operations(all_ops.skip(i as int), draft@, position as nat)
                            is None);
                    }
                    return false;
                }
                let ulen: usize = draft.as_str().unicode_len();
                let p: usize = if position >= ulen as u128 {
                    ulen
                } else {
                    position as usize
                };
                let reach: u128 = position + (*count as u128);
                let q: usize = if reach >= ulen as u128 {
                    ulen
                } else {
                    reach as usize
                };
                let head = draft.as_str().substring_char(0, p);
                let tail = draft.as_str().substring_char(q, ulen);
                let next_draft = String::from_str(head).concat(tail);
                proof {
                    assert(next_draft@ =~= take_chars(draft@, position as int) + skip_chars(
                        draft@,
                        position as nat + *count,
                    ));
                }
                draft = next_draft;
            },
            Operation::Insert { chars } => {
                let ulen: usize = draft.as_str().unicode_len();
                let p: usize = if position >= ulen as u128 {
                    ulen
                } else {
                    position as usize
                };
                let head = draft.as_str().substring_char(0, p);
                let tail = draft.as_str().substring_char(p, ulen);
                let next_draft = String::from_str(head).concat(chars.as_str()).concat(tail);
                proof {
                    assert(next_draft@ =~= take_chars(draft@, position as int) + chars@
                        + skip_chars(draft@, position as int));
                }
                draft = next_draft;
                position = position + (chars.as_str().as_bytes().len() as u128);
            },
            Operation::Skip { count } => {
                let blen: usize = draft.as_str().as_bytes().len();
                if position + (*count as u128) >= blen as u128 {
                    proof {
                        assert(all_ops[i as int] == ops@[i as int]@);
                        assert(apply_operation(draft@, position as nat, all_ops[i as int])
                            is None);
                        assert(apply_operations(all_ops.skip(i as int), draft@, position as nat)
                            is None);
                    }
                    return false;
                }
                position = position + (*count as u128);
            },
        }
        i += 1;
    }
    proof {
        assert(all_ops.skip(i as int) =~= Seq::<OperationView>::empty());
    }
    str_eq(draft.as_str(), latest)
}

/// Whether the script document `otjson` rewrites `stale` into `latest`.
///
/// The document must follow the script grammar; `validate` is the total
/// variant that reports a grammar violation instead of assuming it away.
pub fn is_valid(stale: &str, latest: &str, otjson: &str) -> (r: bool)
    requires
        parse_script(otjson@) is Some,
    ensures
        r == script_is_valid(stale@, latest@, parse_script(otjson@).unwrap()),
{
    match parse_operations(otjson) {
        Some(ops) => ops_are_valid(stale, latest, &ops),
        None => vstd::pervasive::unreached(),
    }
}

/// Parses the script document and checks it against the two documents:
/// `None` when the document does not follow the grammar, otherwise whether
/// the script rewrites `stale` into `latest`.
pub fn validate(stale: &str, latest: &str, otjson: &str) -> (r: Option<bool>)
    ensures
        (r is Some) == (parse_script(otjson@) is Some),
        r matches Some(b) ==> b == script_is_valid(
            stale@,
            latest@,
            parse_script(otjson@).unwrap(),
        ),
{
    match parse_operations(otjson) {
        Some(ops) => Some(ops_are_valid(stale, latest, &ops)),
        None => None,
    }
}

} // verus!
