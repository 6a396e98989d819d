//! The persistence adapter's pure half: the task list is stored as a JSON
//! array of objects with the three task fields, and read back from it.
//!
//! `save` produces the stored text; `load` reads it back, swallowing any
//! malformed value to the empty list. The actual key/value store is the
//! caller's affair. The round trip is proved: loading what `save` produced
//! yields exactly the saved tasks.

use vstd::prelude::*;
use vstd::string::StrSliceExecFns;

use crate::tasks::{views_of, Task, TaskModel};

verus! {

// ---------------------------------------------------------------------------
// The canonical text pieces.
// ---------------------------------------------------------------------------

pub open spec fn lit_true() -> Seq<char> {
    "true"@
}

pub open spec fn lit_false() -> Seq<char> {
    "false"@
}

pub open spec fn lit_null() -> Seq<char> {
    "null"@
}

pub open spec fn key_description() -> Seq<char> {
    "description"@
}

pub open spec fn key_starred() -> Seq<char> {
    "starred"@
}

pub open spec fn key_edit() -> Seq<char> {
    "edit"@
}

pub open spec fn bool_chars(b: bool) -> Seq<char> {
    if b {
        lit_true()
    } else {
        lit_false()
    }
}

// ---------------------------------------------------------------------------
// String escaping.
// ---------------------------------------------------------------------------

/// How one character of a description is written inside a quoted string.
pub open spec fn esc_char(c: char) -> Seq<char> {
    if c == '"' {
        seq!['\\', '"']
    } else if c == '\\' {
        seq!['\\', '\\']
    } else if c == '\n' {
        seq!['\\', 'n']
    } else if c == '\t' {
        seq!['\\', 't']
    } else if c == '\r' {
        seq!['\\', 'r']
    } else {
        seq![c]
    }
}

/// The escaped form of a whole description.
pub open spec fn esc(s: Seq<char>) -> Seq<char>
    decreases s.len(),
{
    if s.len() == 0 {
        Seq::<char>::empty()
    } else {
        esc_char(s[0]) + esc(s.drop_first())
    }
}

/// What one character after a backslash stands for, if anything.
pub open spec fn unesc_char(c: char) -> Option<char> {
    if c == '"' {
        Some('"')
    } else if c == '\\' {
        Some('\\')
    } else if c == '/' {
        Some('/')
    } else if c == 'n' {
        Some('\n')
    } else if c == 't' {
        Some('\t')
    } else if c == 'r' {
        Some('\r')
    } else if c == 'b' {
        Some('\u{0008}')
    } else if c == 'f' {
        Some('\u{000C}')
    } else {
        None
    }
}

// ---------------------------------------------------------------------------
// The stored text of a task list.
// ---------------------------------------------------------------------------

/// The stored text of one task.
pub open spec fn spec_save_task(t: TaskModel) -> Seq<char> {
    seq!['{', '"'] + key_description() + seq!['"', ':', '"'] + esc(t.description) + seq![
        '"',
        ',',
        '"',
    ] + key_starred() + seq!['"', ':'] + bool_chars(t.starred) + seq![',', '"'] + key_edit()
        + seq!['"', ':'] + bool_chars(t.edit) + seq!['}']
}

/// The stored text of every task after the first, each preceded by a comma.
pub open spec fn spec_save_rest(ts: Seq<TaskModel>) -> Seq<char>
    decreases ts.len(),
{
    if ts.len() == 0 {
        Seq::<char>::empty()
    } else {
        seq![','] + spec_save_task(ts[0]) + spec_save_rest(ts.drop_first())
    }
}

/// The comma-separated stored texts of all tasks.
pub open spec fn spec_save_items(ts: Seq<TaskModel>) -> Seq<char> {
    if ts.len() == 0 {
        Seq::<char>::empty()
    } else {
        spec_save_task(ts[0]) + spec_save_rest(ts.drop_first())
    }
}

/// The whole stored value for a task list.
pub open spec fn spec_save(ts: Seq<TaskModel>) -> Seq<char> {
    seq!['['] + spec_save_items(ts) + seq![']']
}

// ---------------------------------------------------------------------------
// Reading a stored value back: a functional parser over the characters.
// ---------------------------------------------------------------------------

/// `p` stands at position `i` of `s`.
pub open spec fn has_at(s: Seq<char>, i: int, p: Seq<char>) -> bool {
    0 <= i && i + p.len() <= s.len() && s.subrange(i, i + p.len()) == p
}

/// Each character of a piece of text standing at `i` stands at its offset.
pub proof fn lemma_has_at_index(s: Seq<char>, i: int, p: Seq<char>, k: int)
    requires
        has_at(s, i, p),
        0 <= k < p.len(),
    ensures
        s[i + k] == p[k],
{
    assert(s.subrange(i, i + p.len())[k] == p[k]);
}

/// The body of a quoted string, read from just after the opening quote up to
/// and over the closing quote: the unescaped characters and the position
/// after the closing quote.
pub open spec fn parse_str_chars(s: Seq<char>, i: int) -> Option<(Seq<char>, int)>
    decreases s.len() - i,
{
    if i < 0 || i >= s.len() {
        None
    } else if s[i] == '"' {
        Some((Seq::<char>::empty(), i + 1))
    } else if s[i] == '\\' {
        if i + 1 >= s.len() {
            None
        } else {
            match unesc_char(s[i + 1]) {
                Some(c) => match parse_str_chars(s, i + 2) {
                    Some(p) => Some((seq![c] + p.0, p.1)),
                    None => None,
                },
                None => None,
            }
        }
    } else {
        match parse_str_chars(s, i + 1) {
            Some(p) => Some((seq![s[i]] + p.0, p.1)),
            None => None,
        }
    }
}

/// A boolean literal at position `i`.
pub open spec fn parse_bool(s: Seq<char>, i: int) -> Option<(bool, int)> {
    if has_at(s, i, lit_true()) {
        Some((true, i + 4))
    } else if has_at(s, i, lit_false()) {
        Some((false, i + 5))
    } else {
        None
    }
}

/// A character that may occur in a number literal.
pub open spec fn num_char(c: char) -> bool {
    (48 <= c as u32 && c as u32 <= 57) || c == '-' || c == '+' || c == '.' || c == 'e' || c == 'E'
}

/// The position after a run of number characters.
pub open spec fn skip_num(s: Seq<char>, i: int) -> int
    decreases s.len() - i,
{
    if 0 <= i && i < s.len() && num_char(s[i]) {
        skip_num(s, i + 1)
    } else {
        i
    }
}

/// The position after one value of an unknown field, which is ignored:
/// a string, a boolean, `null`, or a number.
pub open spec fn skip_value(s: Seq<char>, i: int) -> Option<int> {
    if 0 <= i && i < s.len() && s[i] == '"' {
        match parse_str_chars(s, i + 1) {
            Some(p) => Some(p.1),
            None => None,
        }
    } else if has_at(s, i, lit_true()) {
        Some(i + 4)
    } else if has_at(s, i, lit_false()) {
        Some(i + 5)
    } else if has_at(s, i, lit_null()) {
        Some(i + 4)
    } else if 0 <= i && i < s.len() && num_char(s[i]) {
        Some(skip_num(s, i))
    } else {
        None
    }
}

/// The task every object starts from: absent fields keep these defaults.
pub open spec fn default_task() -> TaskModel {
    TaskModel { description: Seq::<char>::empty(), starred: false, edit: false }
}

/// One `"key":value` pair folded into `acc`: a known key sets its field, an
/// unknown key is ignored.
pub open spec fn parse_field(s: Seq<char>, i: int, acc: TaskModel) -> Option<(TaskModel, int)> {
    if !(0 <= i && i < s.len() && s[i] == '"') {
        None
    } else {
        match parse_str_chars(s, i + 1) {
            None => None,
            Some(kp) => if !(kp.1 < s.len() && s[kp.1] == ':') {
                None
            } else {
                let jv = kp.1 + 1;
                if kp.0 == key_description() {
                    if jv < s.len() && s[jv] == '"' {
                        match parse_str_chars(s, jv + 1) {
                            Some(dp) => Some((TaskModel { description: dp.0, ..acc }, dp.1)),
                            None => None,
                        }
                    } else {
                        None
                    }
                } else if kp.0 == key_starred() {
                    match parse_bool(s, jv) {
                        Some(bp) => Some((TaskModel { starred: bp.0, ..acc }, bp.1)),
                        None => None,
                    }
                } else if kp.0 == key_edit() {
                    match parse_bool(s, jv) {
                        Some(bp) => Some((TaskModel { edit: bp.0, ..acc }, bp.1)),
                        None => None,
                    }
                } else {
                    match skip_value(s, jv) {
                        Some(k) => Some((acc, k)),
                        None => None,
                    }
                }
            },
        }
    }
}

/// The fields of one object, from just after the `{` (or after a comma) up to
/// and over the closing `}`.
pub open spec fn parse_fields(s: Seq<char>, i: int, acc: TaskModel) -> Option<(TaskModel, int)>
    decreases s.len() - i,
{
    match parse_field(s, i, acc) {
        None => None,
        Some(fp) => if fp.1 < s.len() && s[fp.1] == '}' {
            Some((fp.0, fp.1 + 1))
        } else if i < fp.1 && fp.1 < s.len() && s[fp.1] == ',' {
            parse_fields(s, fp.1 + 1, fp.0)
        } else {
            None
        },
    }
}

/// One object at position `i`.
pub open spec fn parse_task(s: Seq<char>, i: int) -> Option<(TaskModel, int)> {
    if !(0 <= i && i < s.len() && s[i] == '{') {
        None
    } else if i + 1 < s.len() && s[i + 1] == '}' {
        Some((default_task(), i + 2))
    } else {
        parse_fields(s, i + 1, default_task())
    }
}

/// One or more objects from position `i`, up to and over the closing `]`.
pub open spec fn parse_items(s: Seq<char>, i: int) -> Option<(Seq<TaskModel>, int)>
    decreases s.len() - i,
{
    match parse_task(s, i) {
        None => None,
        Some(tp) => if tp.1 < s.len() && s[tp.1] == ']' {
            Some((seq![tp.0], tp.1 + 1))
        } else if i < tp.1 && tp.1 < s.len() && s[tp.1] == ',' {
            match parse_items(s, tp.1 + 1) {
                Some(rp) => Some((seq![tp.0] + rp.0, rp.1)),
                None => None,
            }
        } else {
            None
        },
    }
}

/// The task list a stored value stands for: a malformed value stands for the
/// empty list.
pub open spec fn spec_load(s: Seq<char>) -> Seq<TaskModel> {
    if s.len() == 2 && s[0] == '[' && s[1] == ']' {
        Seq::<TaskModel>::empty()
    } else if s.len() >= 1 && s[0] == '[' {
        match parse_items(s, 1) {
            Some(rp) => if rp.1 == s.len() {
                rp.0
            } else {
                Seq::<TaskModel>::empty()
            },
            None => Seq::<TaskModel>::empty(),
        }
    } else {
        Seq::<TaskModel>::empty()
    }
}

// ---------------------------------------------------------------------------
// Small sequence lemmas the two directions share.
// ---------------------------------------------------------------------------

/// Escaping distributes over concatenation.
pub proof fn lemma_esc_append(a: Seq<char>, b: Seq<char>)
    ensures
        esc(a + b) == esc(a) + esc(b),
    decreases a.len(),
{
    if a.len() == 0 {
        assert(a + b =~= b);
        assert(esc(a) + esc(b) =~= esc(b));
    } else {
        assert((a + b)[0] == a[0]);
        assert((a + b).drop_first() =~= a.drop_first() + b);
        lemma_esc_append(a.drop_first(), b);
        assert(esc(a + b) =~= esc(a) + esc(b));
    }
}

/// The views of a sequence of tasks, after one more task.
pub proof fn lemma_views_of_push(ts: Seq<Task>, t: Task)
    ensures
        views_of(ts.push(t)) == views_of(ts).push(t@),
{
    assert(views_of(ts.push(t)) =~= views_of(ts).push(t@));
}

// ---------------------------------------------------------------------------
// Writing: building the stored text of a task list.
// ---------------------------------------------------------------------------

/// Converts a sequence of characters into owned text.
///
/// Relies on `String`'s `FromIterator` over `char`: collecting yields exactly
/// the characters handed in, in their order.
#[verifier::external_body]
fn string_from_chars(v: &Vec<char>) -> (s: String)
    ensures
        s@ == v@,
{
    v.iter().collect()
}

/// The characters of a text, in order.
fn chars_of(s: &str) -> (v: Vec<char>)
    ensures
        v@ == s@,
{
    let n = s.unicode_len();
    let mut v: Vec<char> = Vec::new();
    let mut i: usize = 0;
    while i < n
        invariant
            n == s@.len(),
            i <= n,
            v@ == s@.subrange(0, i as int),
        decreases n - i,
    {
        v.push(s.get_char(i));
        proof {
            assert(v@ =~= s@.subrange(0, i + 1 as int));
        }
        i += 1;
    }
    proof {
        assert(v@ =~= s@);
    }
    v
}

/// Appends the escaped form of one character.
fn push_esc_char(out: &mut Vec<char>, c: char)
    ensures
        final(out)@ == old(out)@ + esc_char(c),
{
    if c == '"' {
        out.push('\\');
        out.push('"');
    } else if c == '\\' {
        out.push('\\');
        out.push('\\');
    } else if c == '\n' {
        out.push('\\');
        out.push('n');
    } else if c == '\t' {
        out.push('\\');
        out.push('t');
    } else if c == '\r' {
        out.push('\\');
        out.push('r');
    } else {
        out.push(c);
    }
    proof {
        assert(out@ =~= old(out)@ + esc_char(c));
    }
}

/// Appends the characters of a text as they stand.
fn push_str_chars(out: &mut Vec<char>, s: &str)
    ensures
        final(out)@ == old(out)@ + s@,
{
    let n = s.unicode_len();
    let mut i: usize = 0;
    while i < n
        invariant
            n == s@.len(),
            i <= n,
            out@ == old(out)@ + s@.subrange(0, i as int),
        decreases n - i,
    {
        out.push(s.get_char(i));
        proof {
            assert(out@ =~= old(out)@ + s@.subrange(0, i + 1 as int));
        }
        i += 1;
    }
    proof {
        assert(out@ =~= old(out)@ + s@);
    }
}

/// Appends the escaped form of a whole description.
fn push_esc(out: &mut Vec<char>, s: &str)
    ensures
        final(out)@ == old(out)@ + esc(s@),
{
    let n = s.unicode_len();
    let mut i: usize = 0;
    while i < n
        invariant
            n == s@.len(),
            i <= n,
            out@ == old(out)@ + esc(s@.subrange(0, i as int)),
        decreases n - i,
    {
        push_esc_char(out, s.get_char(i));
        proof {
            let pre = s@.subrange(0, i as int);
            let one = seq![s@[i as int]];
            lemma_esc_append(pre, one);
            assert(esc(one) =~= esc_char(s@[i as int]) + esc(one.drop_first()));
            assert(esc(one.drop_first()) =~= Seq::<char>::empty());
            assert(esc(one) =~= esc_char(s@[i as int]));
            assert(pre + one =~= s@.subrange(0, i + 1 as int));
            assert(out@ =~= old(out)@ + esc(s@.subrange(0, i + 1 as int)));
        }
        i += 1;
    }
    proof {
        assert(s@.subrange(0, n as int) =~= s@);
    }
}

/// Appends the stored text of one task.
#[verifier::rlimit(100)]
fn push_task(out: &mut Vec<char>, t: &Task)
    ensures
        final(out)@ == old(out)@ + spec_save_task(t@),
{
    out.push('{');
    out.push('"');
    push_str_chars(out, "description");
    out.push('"');
    out.push(':');
    out.push('"');
    push_esc(out, t.description.as_str());
    out.push('"');
    out.push(',');
    out.push('"');
    push_str_chars(out, "starred");
    out.push('"');
    out.push(':');
    if t.starred {
        push_str_chars(out, "true");
    } else {
        push_str_chars(out, "false");
    }
    out.push(',');
    out.push('"');
    push_str_chars(out, "edit");
    out.push('"');
    out.push(':');
    if t.edit {
        push_str_chars(out, "true");
    } else {
        push_str_chars(out, "false");
    }
    out.push('}');
    proof {
        assert(out@ =~= old(out)@ + spec_save_task(t@));
    }
}

/// The stored text for every task after the first, each behind a comma.
proof fn lemma_save_rest_snoc(ts: Seq<TaskModel>, t: TaskModel)
    ensures
        spec_save_rest(ts.push(t)) == spec_save_rest(ts) + seq![','] + spec_save_task(t),
    decreases ts.len(),
{
    let x = ts.push(t);
    if ts.len() == 0 {
        assert(x[0] == t);
        assert(x.drop_first() =~= Seq::<TaskModel>::empty());
        assert(spec_save_rest(x.drop_first()) == Seq::<char>::empty());
        assert(spec_save_rest(x) == seq![','] + spec_save_task(t) + spec_save_rest(x.drop_first()));
        assert(spec_save_rest(x) =~= spec_save_rest(ts) + seq![','] + spec_save_task(t));
    } else {
        assert(x[0] == ts[0]);
        assert(x.drop_first() =~= ts.drop_first().push(t));
        lemma_save_rest_snoc(ts.drop_first(), t);
        assert(spec_save_rest(x.drop_first()) == spec_save_rest(ts.drop_first()) + seq![',']
            + spec_save_task(t));
        assert(spec_save_rest(x) == seq![','] + spec_save_task(ts[0]) + spec_save_rest(
            x.drop_first(),
        ));
        assert(spec_save_rest(ts) == seq![','] + spec_save_task(ts[0]) + spec_save_rest(
            ts.drop_first(),
        ));
        assert(spec_save_rest(x) =~= spec_save_rest(ts) + seq![','] + spec_save_task(t));
    }
}

/// The stored text of a list, after one more task.
proof fn lemma_save_items_snoc(ts: Seq<TaskModel>, t: TaskModel)
    ensures
        spec_save_items(ts.push(t)) == if ts.len() == 0 {
            spec_save_task(t)
        } else {
            spec_save_items(ts) + seq![','] + spec_save_task(t)
        },
{
    if ts.len() == 0 {
        assert(ts.push(t)[0] == t);
        assert(ts.push(t).drop_first() =~= Seq::<TaskModel>::empty());
        assert(spec_save_items(ts.push(t)) =~= spec_save_task(t));
    } else {
        assert(ts.push(t)[0] == ts[0]);
        assert(ts.push(t).drop_first() =~= ts.drop_first().push(t));
        lemma_save_rest_snoc(ts.drop_first(), t);
        assert(spec_save_items(ts.push(t)) =~= spec_save_items(ts) + seq![','] + spec_save_task(t));
    }
}

/// The stored value for a task list, as characters.
fn save_chars(tasks: &Vec<Task>) -> (out: Vec<char>)
    ensures
        out@ == spec_save(views_of(tasks@)),
{
    let mut out: Vec<char> = Vec::new();
    out.push('[');
    proof {
        assert(views_of(tasks@.subrange(0, 0)) =~= Seq::<TaskModel>::empty());
        assert(out@ =~= seq!['['] + spec_save_items(views_of(tasks@.subrange(0, 0))));
    }
    let mut k: usize = 0;
    while k < tasks.len()
        invariant
            k <= tasks.len(),
            out@ == seq!['['] + spec_save_items(views_of(tasks@.subrange(0, k as int))),
        decreases tasks.len() - k,
    {
        if k > 0 {
            out.push(',');
        }
        push_task(&mut out, &tasks[k]);
        proof {
            let pre = tasks@.subrange(0, k as int);
            lemma_views_of_push(pre, tasks@[k as int]);
            lemma_save_items_snoc(views_of(pre), tasks@[k as int]@);
            assert(pre.push(tasks@[k as int]) =~= tasks@.subrange(0, k + 1 as int));
            assert(views_of(pre).len() == pre.len());
            assert(out@ =~= seq!['['] + spec_save_items(views_of(tasks@.subrange(0, k + 1 as int))));
        }
        k += 1;
    }
    out.push(']');
    proof {
        assert(tasks@.subrange(0, tasks@.len() as int) =~= tasks@);
        assert(out@ =~= spec_save(views_of(tasks@)));
    }
    out
}

/// The value to store for a task list.
pub fn save(tasks: &Vec<Task>) -> (stored: String)
    ensures
        stored@ == spec_save(views_of(tasks@)),
{
    let cs = save_chars(tasks);
    string_from_chars(&cs)
}

// ---------------------------------------------------------------------------
// Reading: the executable parser, verified against the functional one.
// ---------------------------------------------------------------------------

/// Whether `c` may occur in a number literal.
fn is_num_char(c: char) -> (r: bool)
    ensures
        r == num_char(c),
{
    let u = c as u32;
    (48 <= u && u <= 57) || c == '-' || c == '+' || c == '.' || c == 'e' || c == 'E'
}

/// What `c` stands for after a backslash, if anything.
fn unesc(c: char) -> (r: Option<char>)
    ensures
        r == unesc_char(c),
{
    if c == '"' {
        Some('"')
    } else if c == '\\' {
        Some('\\')
    } else if c == '/' {
        Some('/')
    } else if c == 'n' {
        Some('\n')
    } else if c == 't' {
        Some('\t')
    } else if c == 'r' {
        Some('\r')
    } else if c == 'b' {
        Some('\u{0008}')
    } else if c == 'f' {
        Some('\u{000C}')
    } else {
        None
    }
}

/// Whether the collected characters are exactly the given text.
fn eq_str_chars(v: &Vec<char>, s: &str) -> (r: bool)
    ensures
        r == (v@ == s@),
{
    let n = s.unicode_len();
    if v.len() != n {
        return false;
    }
    let mut i: usize = 0;
    while i < n
        invariant
            n == s@.len(),
            v@.len() == n,
            i <= n,
            forall|j: int| 0 <= j < i ==> v@[j] == s@[j],
        decreases n - i,
    {
        if v[i] != s.get_char(i) {
            return false;
        }
        i += 1;
    }
    proof {
        assert(v@ =~= s@);
    }
    true
}

/// Reads a quoted string's body from just after the opening quote.
fn p_string(s: &Vec<char>, start: usize) -> (r: Option<(Vec<char>, usize)>)
    requires
        start <= s.len(),
    ensures
        match r {
            Some(p) => ({
                &&& parse_str_chars(s@, start as int) matches Some(q)
                &&& q.0 == p.0@
                &&& q.1 == p.1 as int
                &&& start < p.1 && p.1 <= s.len()
            }),
            None => parse_str_chars(s@, start as int) is None,
        },
{
    let mut acc: Vec<char> = Vec::new();
    let mut i: usize = start;
    proof {
        if let Some(q) = parse_str_chars(s@, start as int) {
            assert(Seq::<char>::empty() + q.0 =~= q.0);
        }
    }
    loop
        invariant
            start <= i && i <= s.len(),
            match parse_str_chars(s@, i as int) {
                Some(q) => {
                    &&& parse_str_chars(s@, start as int) matches Some(q0)
                    &&& q0.0 == acc@ + q.0
                    &&& q0.1 == q.1
                },
                None => parse_str_chars(s@, start as int) is None,
            },
        decreases s.len() - i,
    {
        if i >= s.len() {
            return None;
        }
        let c = s[i];
        if c == '"' {
            proof {
                assert(acc@ + Seq::<char>::empty() =~= acc@);
            }
            return Some((acc, i + 1));
        } else if c == '\\' {
            if i + 1 >= s.len() {
                return None;
            }
            match unesc(s[i + 1]) {
                None => {
                    return None;
                },
                Some(u) => {
                    let ghost acc0 = acc@;
                    acc.push(u);
                    i = i + 2;
                    proof {
                        if let Some(q2) = parse_str_chars(s@, i as int) {
                            assert(acc0.push(u) + q2.0 =~= acc0 + (seq![u] + q2.0));
                        }
                    }
                },
            }
        } else {
            let ghost acc0 = acc@;
            acc.push(c);
            i = i + 1;
            proof {
                if let Some(q2) = parse_str_chars(s@, i as int) {
                    assert(acc0.push(c) + q2.0 =~= acc0 + (seq![c] + q2.0));
                }
            }
        }
    }
}

/// Reads a boolean literal.
fn p_bool(s: &Vec<char>, i: usize) -> (r: Option<(bool, usize)>)
    requires
        i <= s.len(),
    ensures
        match r {
            Some(p) => parse_bool(s@, i as int) == Some((p.0, p.1 as int)) && i < p.1 && p.1
                <= s.len(),
            None => parse_bool(s@, i as int) is None,
        },
{
    proof {
        reveal_strlit("true");
        reveal_strlit("false");
        if has_at(s@, i as int, lit_true()) {
            lemma_has_at_index(s@, i as int, lit_true(), 0);
            lemma_has_at_index(s@, i as int, lit_true(), 1);
            lemma_has_at_index(s@, i as int, lit_true(), 2);
            lemma_has_at_index(s@, i as int, lit_true(), 3);
        }
        if has_at(s@, i as int, lit_false()) {
            lemma_has_at_index(s@, i as int, lit_false(), 0);
            lemma_has_at_index(s@, i as int, lit_false(), 1);
            lemma_has_at_index(s@, i as int, lit_false(), 2);
            lemma_has_at_index(s@, i as int, lit_false(), 3);
            lemma_has_at_index(s@, i as int, lit_false(), 4);
        }
    }
    if s.len() >= 4 && i <= s.len() - 4 && s[i] == 't' {
        if s[i + 1] == 'r' && s[i + 2] == 'u' && s[i + 3] == 'e' {
            proof {
                assert(s@.subrange(i as int, i as int + 4) =~= lit_true());
            }
            Some((true, i + 4))
        } else {
            None
        }
    } else if s.len() >= 5 && i <= s.len() - 5 && s[i] == 'f' {
        if s[i + 1] == 'a' && s[i + 2] == 'l' && s[i + 3] == 's' && s[i + 4] == 'e' {
            proof {
                assert(s@.subrange(i as int, i as int + 5) =~= lit_false());
            }
            Some((false, i + 5))
        } else {
            None
        }
    } else {
        None
    }
}

/// Steps over one ignored value.
fn p_skip(s: &Vec<char>, i: usize) -> (r: Option<usize>)
    requires
        i <= s.len(),
    ensures
        match r {
            Some(k) => skip_value(s@, i as int) == Some(k as int) && i < k && k <= s.len(),
            None => skip_value(s@, i as int) is None,
        },
{
    proof {
        reveal_strlit("true");
        reveal_strlit("false");
        reveal_strlit("null");
        if has_at(s@, i as int, lit_true()) {
            lemma_has_at_index(s@, i as int, lit_true(), 0);
            lemma_has_at_index(s@, i as int, lit_true(), 1);
            lemma_has_at_index(s@, i as int, lit_true(), 2);
            lemma_has_at_index(s@, i as int, lit_true(), 3);
        }
        if has_at(s@, i as int, lit_false()) {
            lemma_has_at_index(s@, i as int, lit_false(), 0);
            lemma_has_at_index(s@, i as int, lit_false(), 1);
            lemma_has_at_index(s@, i as int, lit_false(), 2);
            lemma_has_at_index(s@, i as int, lit_false(), 3);
            lemma_has_at_index(s@, i as int, lit_false(), 4);
        }
        if has_at(s@, i as int, lit_null()) {
            lemma_has_at_index(s@, i as int, lit_null(), 0);
            lemma_has_at_index(s@, i as int, lit_null(), 1);
            lemma_has_at_index(s@, i as int, lit_null(), 2);
            lemma_has_at_index(s@, i as int, lit_null(), 3);
        }
    }
    if i < s.len() && s[i] == '"' {
        match p_string(s, i + 1) {
            Some(p) => Some(p.1),
            None => None,
        }
    } else if s.len() >= 4 && i <= s.len() - 4 && s[i] == 't' && s[i + 1] == 'r' && s[i + 2] == 'u'
        && s[i + 3] == 'e' {
        proof {
            assert(s@.subrange(i as int, i as int + 4) =~= lit_true());
        }
        Some(i + 4)
    } else if s.len() >= 5 && i <= s.len() - 5 && s[i] == 'f' && s[i + 1] == 'a' && s[i + 2] == 'l'
        && s[i + 3] == 's' && s[i + 4] == 'e' {
        proof {
            assert(s@.subrange(i as int, i as int + 5) =~= lit_false());
        }
        Some(i + 5)
    } else if s.len() >= 4 && i <= s.len() - 4 && s[i] == 'n' && s[i + 1] == 'u' && s[i + 2] == 'l'
        && s[i + 3] == 'l' {
        proof {
            assert(s@.subrange(i as int, i as int + 4) =~= lit_null());
        }
        Some(i + 4)
    } else if i < s.len() && is_num_char(s[i]) {
        let mut j: usize = i + 1;
        while j < s.len() && is_num_char(s[j])
            invariant
                i < j && j <= s.len(),
                skip_num(s@, i as int) == skip_num(s@, j as int),
            decreases s.len() - j,
        {
            j += 1;
        }
        Some(j)
    } else {
        None
    }
}

/// Reads one object.
fn p_task(s: &Vec<char>, i: usize) -> (r: Option<(Task, usize)>)
    requires
        i <= s.len(),
    ensures
        match r {
            Some(p) => ({
                &&& parse_task(s@, i as int) matches Some(q)
                &&& q.0 == p.0@
                &&& q.1 == p.1 as int
                &&& i < p.1 && p.1 <= s.len()
            }),
            None => parse_task(s@, i as int) is None,
        },
{
    if !(i < s.len()) {
        return None;
    }
    if s[i] != '{' {
        return None;
    }
    if i + 1 < s.len() && s[i + 1] == '}' {
        return Some((Task { description: String::new(), starred: false, edit: false }, i + 2));
    }
    p_fields(s, i + 1)
}

/// Reads the fields of one object, from just after the `{`.
fn p_fields(s: &Vec<char>, start: usize) -> (r: Option<(Task, usize)>)
    requires
        start <= s.len(),
    ensures
        match r {
            Some(p) => ({
                &&& parse_fields(s@, start as int, default_task()) matches Some(q)
                &&& q.0 == p.0@
                &&& q.1 == p.1 as int
                &&& start < p.1 && p.1 <= s.len()
            }),
            None => parse_fields(s@, start as int, default_task()) is None,
        },
{
    let mut desc: String = String::new();
    let mut st: bool = false;
    let mut ed: bool = false;
    let mut i: usize = start;
    loop
        invariant
            start <= i && i <= s.len(),
            parse_fields(s@, start as int, default_task()) == parse_fields(
                s@,
                i as int,
                TaskModel { description: desc@, starred: st, edit: ed },
            ),
        decreases s.len() - i,
    {
        let ghost accm = TaskModel { description: desc@, starred: st, edit: ed };
        if !(i < s.len()) {
            return None;
        }
        if s[i] != '"' {
            return None;
        }
        let kp = match p_string(s, i + 1) {
            None => {
                return None;
            },
            Some(p) => p,
        };
        let key = kp.0;
        let j = kp.1;
        if !(j < s.len()) {
            return None;
        }
        if s[j] != ':' {
            return None;
        }
        let jv = j + 1;
        let mut k: usize = 0;
        if eq_str_chars(&key, "description") {
            if !(jv < s.len()) {
                return None;
            }
            if s[jv] != '"' {
                return None;
            }
            match p_string(s, jv + 1) {
                None => {
                    return None;
                },
                Some(dp) => {
                    desc = string_from_chars(&dp.0);
                    k = dp.1;
                },
            }
        } else if eq_str_chars(&key, "starred") {
            match p_bool(s, jv) {
                None => {
                    return None;
                },
                Some(bp) => {
                    st = bp.0;
                    k = bp.1;
                },
            }
        } else if eq_str_chars(&key, "edit") {
            match p_bool(s, jv) {
                None => {
                    return None;
                },
                Some(bp) => {
                    ed = bp.0;
                    k = bp.1;
                },
            }
        } else {
            match p_skip(s, jv) {
                None => {
                    return None;
                },
                Some(kk) => {
                    k = kk;
                },
            }
        }
        let ghost accm2 = TaskModel { description: desc@, starred: st, edit: ed };
        proof {
            assert(parse_field(s@, i as int, accm) == Some((accm2, k as int)));
        }
        if k < s.len() && s[k] == '}' {
            return Some((Task { description: desc, starred: st, edit: ed }, k + 1));
        } else if k < s.len() && s[k] == ',' {
            i = k + 1;
        } else {
            return None;
        }
    }
}

/// Reads one or more objects, up to and over the closing `]`.
fn p_items(s: &Vec<char>, start: usize) -> (r: Option<(Vec<Task>, usize)>)
    requires
        start <= s.len(),
    ensures
        match r {
            Some(p) => ({
                &&& parse_items(s@, start as int) matches Some(q)
                &&& q.0 == views_of(p.0@)
                &&& q.1 == p.1 as int
                &&& p.1 <= s.len()
            }),
            None => parse_items(s@, start as int) is None,
        },
{
    let mut acc: Vec<Task> = Vec::new();
    let mut i: usize = start;
    proof {
        assert(views_of(acc@) =~= Seq::<TaskModel>::empty());
        if let Some(q) = parse_items(s@, start as int) {
            assert(views_of(acc@) + q.0 =~= q.0);
        }
    }
    loop
        invariant
            start <= i && i <= s.len(),
            match parse_items(s@, i as int) {
                Some(q) => {
                    &&& parse_items(s@, start as int) matches Some(q0)
                    &&& q0.0 == views_of(acc@) + q.0
                    &&& q0.1 == q.1
                },
                None => parse_items(s@, start as int) is None,
            },
        decreases s.len() - i,
    {
        let tp = match p_task(s, i) {
            None => {
                return None;
            },
            Some(p) => p,
        };
        let ghost acc0 = acc@;
        let ghost t0 = tp.0;
        let ghost tm = tp.0@;
        acc.push(tp.0);
        let j = tp.1;
        proof {
            lemma_views_of_push(acc0, t0);
        }
        if j < s.len() && s[j] == ']' {
            proof {
                assert(views_of(acc0) + seq![tm] =~= views_of(acc@));
            }
            return Some((acc, j + 1));
        } else if j < s.len() && s[j] == ',' {
            i = j + 1;
            proof {
                if let Some(q2) = parse_items(s@, i as int) {
                    assert(views_of(acc0) + (seq![tm] + q2.0) =~= views_of(acc@) + q2.0);
                }
            }
        } else {
            return None;
        }
    }
}

/// The task list a stored value stands for, as tasks.
fn decode_chars(s: &Vec<char>) -> (tasks: Vec<Task>)
    ensures
        views_of(tasks@) == spec_load(s@),
{
    if s.len() == 2 && s[0] == '[' && s[1] == ']' {
        let v: Vec<Task> = Vec::new();
        proof {
            assert(views_of(v@) =~= Seq::<TaskModel>::empty());
        }
        return v;
    }
    if s.len() >= 1 && s[0] == '[' {
        match p_items(s, 1) {
            Some(p) => {
                if p.1 == s.len() {
                    return p.0;
                }
                let v: Vec<Task> = Vec::new();
                proof {
                    assert(views_of(v@) =~= Seq::<TaskModel>::empty());
                }
                v
            },
            None => {
                let v: Vec<Task> = Vec::new();
                proof {
                    assert(views_of(v@) =~= Seq::<TaskModel>::empty());
                }
                v
            },
        }
    } else {
        let v: Vec<Task> = Vec::new();
        proof {
            assert(views_of(v@) =~= Seq::<TaskModel>::empty());
        }
        v
    }
}

/// The task list read from a stored value, if one was there: a missing or
/// malformed value yields the empty list.
pub fn load(stored: Option<&str>) -> (tasks: Vec<Task>)
    ensures
        views_of(tasks@) == match stored {
            Some(s) => spec_load(s@),
            None => Seq::<TaskModel>::empty(),
        },
{
    match stored {
        None => {
            let v: Vec<Task> = Vec::new();
            proof {
                assert(views_of(v@) =~= Seq::<TaskModel>::empty());
            }
            v
        },
        Some(s) => {
            let cs = chars_of(s);
            decode_chars(&cs)
        },
    }
}

// ---------------------------------------------------------------------------
// The round trip: reading back what was written yields the written tasks.
// ---------------------------------------------------------------------------

/// A piece of text standing at `i` splits at any inner seam.
pub proof fn lemma_has_at_concat(s: Seq<char>, i: int, a: Seq<char>, b: Seq<char>)
    ensures
        has_at(s, i, a + b) <==> (has_at(s, i, a) && has_at(s, i + a.len(), b)),
{
    if has_at(s, i, a + b) {
        assert forall|k: int| 0 <= k < a.len() implies s[i + k] == a[k] by {
            lemma_has_at_index(s, i, a + b, k);
        }
        assert forall|k: int| 0 <= k < b.len() implies s[i + a.len() + k] == b[k] by {
            lemma_has_at_index(s, i, a + b, a.len() + k);
        }
        assert(s.subrange(i, i + a.len()) =~= a);
        assert(s.subrange(i + a.len(), i + a.len() + b.len()) =~= b);
    }
    if has_at(s, i, a) && has_at(s, i + a.len(), b) {
        assert forall|k: int| 0 <= k < (a + b).len() implies s[i + k] == (a + b)[k] by {
            if k < a.len() {
                lemma_has_at_index(s, i, a, k);
            } else {
                lemma_has_at_index(s, i + a.len(), b, k - a.len());
            }
        }
        assert(s.subrange(i, i + (a + b).len()) =~= a + b);
    }
}

/// A character that escapes to itself.
pub open spec fn plain_char(c: char) -> bool {
    c != '"' && c != '\\' && c != '\n' && c != '\t' && c != '\r'
}

/// Text that escapes to itself, character by character.
pub open spec fn plain(s: Seq<char>) -> bool {
    forall|j: int| 0 <= j < s.len() ==> plain_char(s[j])
}

/// Escaping leaves plain text as it is.
proof fn lemma_esc_plain(d: Seq<char>)
    requires
        plain(d),
    ensures
        esc(d) == d,
    decreases d.len(),
{
    if d.len() == 0 {
        assert(esc(d) =~= d);
    } else {
        assert(plain_char(d[0]));
        assert forall|j: int| 0 <= j < d.drop_first().len() implies plain_char(
            d.drop_first()[j],
        ) by {
            assert(d.drop_first()[j] == d[j + 1]);
        }
        lemma_esc_plain(d.drop_first());
        assert(esc(d) =~= d);
    }
}

/// The parser undoes the escaping: at escaped text followed by a closing
/// quote it returns exactly the original text.
proof fn lemma_parse_escaped(s: Seq<char>, i: int, d: Seq<char>)
    requires
        has_at(s, i, esc(d)),
        i + esc(d).len() < s.len(),
        s[i + esc(d).len()] == '"',
    ensures
        parse_str_chars(s, i) == Some((d, i + esc(d).len() + 1)),
    decreases d.len(),
{
    if d.len() == 0 {
        assert(d =~= Seq::<char>::empty());
    } else {
        let c = d[0];
        let rest = d.drop_first();
        assert(esc(d) == esc_char(c) + esc(rest));
        lemma_has_at_concat(s, i, esc_char(c), esc(rest));
        if c == '"' || c == '\\' || c == '\n' || c == '\t' || c == '\r' {
            lemma_has_at_index(s, i, esc_char(c), 0);
            lemma_has_at_index(s, i, esc_char(c), 1);
            lemma_parse_escaped(s, i + 2, rest);
            assert(seq![c] + rest =~= d);
        } else {
            lemma_has_at_index(s, i, esc_char(c), 0);
            lemma_parse_escaped(s, i + 1, rest);
            assert(seq![c] + rest =~= d);
        }
    }
}

/// A plain key between quotes parses to the key itself.
proof fn lemma_parse_plain_key(s: Seq<char>, i: int, k: Seq<char>)
    requires
        plain(k),
        has_at(s, i, k),
        i + k.len() < s.len(),
        s[i + k.len()] == '"',
    ensures
        parse_str_chars(s, i) == Some((k, i + k.len() + 1)),
{
    lemma_esc_plain(k);
    lemma_parse_escaped(s, i, k);
}

/// A boolean's text parses to that boolean.
proof fn lemma_parse_bool_at(s: Seq<char>, i: int, b: bool)
    requires
        has_at(s, i, bool_chars(b)),
    ensures
        parse_bool(s, i) == Some((b, i + bool_chars(b).len())),
{
    reveal_strlit("true");
    reveal_strlit("false");
    if !b {
        assert(!has_at(s, i, lit_true())) by {
            if has_at(s, i, lit_true()) {
                lemma_has_at_index(s, i, lit_true(), 0);
                lemma_has_at_index(s, i, lit_false(), 0);
            }
        }
    }
}

/// One saved task parses back to itself.
#[verifier::rlimit(100)]
proof fn lemma_parse_saved_task(s: Seq<char>, i: int, t: TaskModel)
    requires
        has_at(s, i, spec_save_task(t)),
    ensures
        parse_task(s, i) == Some((t, i + spec_save_task(t).len())),
{
    reveal_strlit("description");
    reveal_strlit("starred");
    reveal_strlit("edit");
    let kd = key_description();
    let ks = key_starred();
    let ke = key_edit();
    assert(kd.len() == 11);
    assert(ks.len() == 7);
    assert(ke.len() == 4);
    assert(plain(kd));
    assert(plain(ks));
    assert(plain(ke));
    let e1 = esc(t.description);
    let b1 = bool_chars(t.starred);
    let b2 = bool_chars(t.edit);
    let ll = e1.len();
    let lb1 = b1.len();
    let lb2 = b2.len();
    let x1: Seq<char> = seq!['{', '"'];
    let x2 = x1 + kd;
    let x3 = x2 + seq!['"', ':', '"'];
    let x4 = x3 + e1;
    let x5 = x4 + seq!['"', ',', '"'];
    let x6 = x5 + ks;
    let x7 = x6 + seq!['"', ':'];
    let x8 = x7 + b1;
    let x9 = x8 + seq![',', '"'];
    let x10 = x9 + ke;
    let x11 = x10 + seq!['"', ':'];
    let x12 = x11 + b2;
    let x13 = x12 + seq!['}'];
    assert(spec_save_task(t) == x13);
    lemma_has_at_concat(s, i, x12, seq!['}']);
    lemma_has_at_concat(s, i, x11, b2);
    lemma_has_at_concat(s, i, x10, seq!['"', ':']);
    lemma_has_at_concat(s, i, x9, ke);
    lemma_has_at_concat(s, i, x8, seq![',', '"']);
    lemma_has_at_concat(s, i, x7, b1);
    lemma_has_at_concat(s, i, x6, seq!['"', ':']);
    lemma_has_at_concat(s, i, x5, ks);
    lemma_has_at_concat(s, i, x4, seq!['"', ',', '"']);
    lemma_has_at_concat(s, i, x3, e1);
    lemma_has_at_concat(s, i, x2, seq!['"', ':', '"']);
    lemma_has_at_concat(s, i, x1, kd);
    // the single characters around the pieces
    lemma_has_at_index(s, i, x1, 0);
    lemma_has_at_index(s, i, x1, 1);
    lemma_has_at_index(s, i + 13, seq!['"', ':', '"'], 0);
    lemma_has_at_index(s, i + 13, seq!['"', ':', '"'], 1);
    lemma_has_at_index(s, i + 13, seq!['"', ':', '"'], 2);
    lemma_has_at_index(s, i + 16 + ll, seq!['"', ',', '"'], 0);
    lemma_has_at_index(s, i + 16 + ll, seq!['"', ',', '"'], 1);
    lemma_has_at_index(s, i + 16 + ll, seq!['"', ',', '"'], 2);
    lemma_has_at_index(s, i + 26 + ll, seq!['"', ':'], 0);
    lemma_has_at_index(s, i + 26 + ll, seq!['"', ':'], 1);
    lemma_has_at_index(s, i + 28 + ll + lb1, seq![',', '"'], 0);
    lemma_has_at_index(s, i + 28 + ll + lb1, seq![',', '"'], 1);
    lemma_has_at_index(s, i + 34 + ll + lb1, seq!['"', ':'], 0);
    lemma_has_at_index(s, i + 34 + ll + lb1, seq!['"', ':'], 1);
    lemma_has_at_index(s, i + 36 + ll + lb1 + lb2, seq!['}'], 0);
    // the keys and the values
    lemma_parse_plain_key(s, i + 2, kd);
    lemma_parse_escaped(s, i + 16, t.description);
    lemma_parse_plain_key(s, i + 19 + ll, ks);
    lemma_parse_bool_at(s, i + 28 + ll, t.starred);
    lemma_parse_plain_key(s, i + 30 + ll + lb1, ke);
    lemma_parse_bool_at(s, i + 36 + ll + lb1, t.edit);
    // the three fields, one after the other
    let acc0 = default_task();
    let acc1 = TaskModel { description: t.description, ..acc0 };
    let acc2 = TaskModel { starred: t.starred, ..acc1 };
    let acc3 = TaskModel { edit: t.edit, ..acc2 };
    assert(parse_field(s, i + 1, acc0) == Some((acc1, i + 17 + ll)));
    assert(parse_fields(s, i + 1, acc0) == parse_fields(s, i + 18 + ll, acc1));
    assert(parse_field(s, i + 18 + ll, acc1) == Some((acc2, i + 28 + ll + lb1)));
    assert(parse_fields(s, i + 18 + ll, acc1) == parse_fields(s, i + 29 + ll + lb1, acc2));
    assert(parse_field(s, i + 29 + ll + lb1, acc2) == Some((acc3, i + 36 + ll + lb1 + lb2)));
    assert(parse_fields(s, i + 29 + ll + lb1, acc2) == Some((acc3, i + 37 + ll + lb1 + lb2)));
    assert(acc3 =~= t);
    assert(spec_save_task(t).len() == 37 + ll + lb1 + lb2);
}

/// A saved list of tasks, followed by the closing bracket, parses back to
/// exactly those tasks.
proof fn lemma_parse_saved_items(s: Seq<char>, i: int, ts: Seq<TaskModel>)
    requires
        ts.len() > 0,
        has_at(s, i, spec_save_items(ts) + seq![']']),
    ensures
        parse_items(s, i) == Some((ts, i + spec_save_items(ts).len() + 1)),
    decreases ts.len(),
{
    let t0 = ts[0];
    let rest = ts.drop_first();
    let tl = spec_save_task(t0).len();
    assert(spec_save_items(ts) == spec_save_task(t0) + spec_save_rest(rest));
    assert(tl > 0);
    if rest.len() == 0 {
        assert(spec_save_rest(rest) == Seq::<char>::empty());
        assert(spec_save_items(ts) + seq![']'] =~= spec_save_task(t0) + seq![']']);
        lemma_has_at_concat(s, i, spec_save_task(t0), seq![']']);
        lemma_parse_saved_task(s, i, t0);
        lemma_has_at_index(s, i + tl, seq![']'], 0);
        assert(seq![t0] =~= ts);
    } else {
        assert(spec_save_rest(rest) == seq![','] + spec_save_task(rest[0]) + spec_save_rest(
            rest.drop_first(),
        ));
        assert(spec_save_items(rest) == spec_save_task(rest[0]) + spec_save_rest(
            rest.drop_first(),
        ));
        let tail = spec_save_items(rest) + seq![']'];
        assert(spec_save_items(ts) + seq![']'] =~= spec_save_task(t0) + (seq![','] + tail));
        lemma_has_at_concat(s, i, spec_save_task(t0), seq![','] + tail);
        lemma_has_at_concat(s, i + tl, seq![','], tail);
        lemma_has_at_index(s, i + tl, seq![','], 0);
        lemma_parse_saved_task(s, i, t0);
        lemma_parse_saved_items(s, i + tl + 1, rest);
        assert(seq![t0] + rest =~= ts);
        assert(spec_save_items(ts).len() == tl + 1 + spec_save_items(rest).len());
    }
}

/// Loading what `save` wrote yields exactly the saved tasks.
pub proof fn lemma_save_load_roundtrip(ts: Seq<TaskModel>)
    ensures
        spec_load(spec_save(ts)) == ts,
{
    let s = spec_save(ts);
    if ts.len() == 0 {
        assert(spec_save_items(ts) == Seq::<char>::empty());
        assert(s =~= seq!['[', ']']);
        assert(s[0] == '[' && s[1] == ']' && s.len() == 2);
        assert(spec_load(s) =~= ts);
    } else {
        let body = spec_save_items(ts) + seq![']'];
        assert(s[0] == '[');
        assert(has_at(s, 1, body)) by {
            assert forall|k: int| 0 <= k < body.len() implies s[1 + k] == body[k] by {
                if k < spec_save_items(ts).len() {
                    assert(s[1 + k] == spec_save_items(ts)[k]);
                } else {
                    assert(s[1 + k] == ']');
                }
            }
            assert(s.subrange(1, 1 + body.len() as int) =~= body);
        }
        lemma_parse_saved_items(s, 1, ts);
        assert(spec_save_items(ts).len() > 0);
        assert(s.len() == 2 + spec_save_items(ts).len());
        assert(spec_load(s) == ts);
    }
}

/// Saving what was loaded, then loading again, yields the same task list.
pub proof fn lemma_load_save_load(stored: Seq<char>)
    ensures
        spec_load(spec_save(spec_load(stored))) == spec_load(stored),
{
    lemma_save_load_roundtrip(spec_load(stored));
}

} // verus!
