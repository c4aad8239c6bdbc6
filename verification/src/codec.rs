//! The on-disk format of the file backend: a task list as compact RON text,
//! `[(id:1,name:"buy milk",description:None,completed:false)]`.
//!
//! Emission and parsing are defined twice: as spec functions, which the
//! contracts speak about, and as executable functions proved to follow them.
//! `lemma_parse_emitted` shows the round trip: parsing an emitted list gives
//! back the same records.

use vstd::prelude::*;

use crate::tasks::task::{Task, TaskView};

verus! {

/// The record images of a sequence of tasks.
pub open spec fn views_of(tasks: Seq<Task>) -> Seq<TaskView> {
    tasks.map_values(|t: Task| t@)
}

/// Every identifier fits the signed 32-bit field of the format.
pub open spec fn ids_in_range(ts: Seq<TaskView>) -> bool {
    forall|k: int| 0 <= k < ts.len() ==> i32::MIN <= #[trigger] ts[k].id <= i32::MAX
}

// ---------------------------------------------------------------------------
// Emission, spec side
// ---------------------------------------------------------------------------

pub open spec fn digit_char(d: int) -> char {
    if d == 0 {
        '0'
    } else if d == 1 {
        '1'
    } else if d == 2 {
        '2'
    } else if d == 3 {
        '3'
    } else if d == 4 {
        '4'
    } else if d == 5 {
        '5'
    } else if d == 6 {
        '6'
    } else if d == 7 {
        '7'
    } else if d == 8 {
        '8'
    } else {
        '9'
    }
}

/// Decimal digits of `n`, most significant first, without leading zeros
/// (`0` itself is the single digit `0`).
pub open spec fn spec_digits(n: nat) -> Seq<char>
    decreases n,
{
    if n < 10 {
        seq![digit_char(n as int)]
    } else {
        spec_digits(n / 10) + seq![digit_char((n % 10) as int)]
    }
}

/// Canonical decimal text of a signed integer.
pub open spec fn spec_emit_int(v: int) -> Seq<char> {
    if v < 0 {
        seq!['-'] + spec_digits((-v) as nat)
    } else {
        spec_digits(v as nat)
    }
}

/// A quote or a backslash is written behind a backslash; every other
/// character stands for itself.
pub open spec fn esc_char(c: char) -> Seq<char> {
    if c == '"' || c == '\\' {
        seq!['\\', c]
    } else {
        seq![c]
    }
}

pub open spec fn spec_escape(s: Seq<char>) -> Seq<char>
    decreases s.len(),
{
    if s.len() == 0 {
        Seq::empty()
    } else {
        esc_char(s[0]) + spec_escape(s.drop_first())
    }
}

pub open spec fn spec_emit_string(s: Seq<char>) -> Seq<char> {
    seq!['"'] + spec_escape(s) + seq!['"']
}

pub open spec fn spec_emit_opt(o: Option<Seq<char>>) -> Seq<char> {
    match o {
        None => seq!['N', 'o', 'n', 'e'],
        Some(s) => seq!['S', 'o', 'm', 'e', '('] + spec_emit_string(s) + seq![')'],
    }
}

pub open spec fn spec_emit_bool(b: bool) -> Seq<char> {
    if b {
        seq!['t', 'r', 'u', 'e']
    } else {
        seq!['f', 'a', 'l', 's', 'e']
    }
}

pub open spec fn lit_id() -> Seq<char> {
    seq!['(', 'i', 'd', ':']
}

pub open spec fn lit_name() -> Seq<char> {
    seq![',', 'n', 'a', 'm', 'e', ':']
}

pub open spec fn lit_description() -> Seq<char> {
    seq![',', 'd', 'e', 's', 'c', 'r', 'i', 'p', 't', 'i', 'o', 'n', ':']
}

pub open spec fn lit_completed() -> Seq<char> {
    seq![',', 'c', 'o', 'm', 'p', 'l', 'e', 't', 'e', 'd', ':']
}

/// One record: `(id:N,name:"...",description:D,completed:B)`.
pub open spec fn spec_emit_task(t: TaskView) -> Seq<char> {
    lit_id() + spec_emit_int(t.id) + lit_name() + spec_emit_string(t.name) + lit_description()
        + spec_emit_opt(t.description) + lit_completed() + spec_emit_bool(t.completed) + seq![')']
}

/// Records joined by commas, without a trailing comma.
pub open spec fn spec_emit_list(ts: Seq<TaskView>) -> Seq<char>
    decreases ts.len(),
{
    if ts.len() == 0 {
        Seq::empty()
    } else if ts.len() == 1 {
        spec_emit_task(ts[0])
    } else {
        spec_emit_task(ts[0]) + seq![','] + spec_emit_list(ts.drop_first())
    }
}

/// The whole file: the record list between square brackets.
pub open spec fn spec_emit_tasks(ts: Seq<TaskView>) -> Seq<char> {
    seq!['['] + spec_emit_list(ts) + seq![']']
}

// ---------------------------------------------------------------------------
// Emission, executable side
// ---------------------------------------------------------------------------

fn digit_char_exec(d: u32) -> (c: char)
    requires
        d < 10,
    ensures
        c == digit_char(d as int),
{
    if d == 0 {
        '0'
    } else if d == 1 {
        '1'
    } else if d == 2 {
        '2'
    } else if d == 3 {
        '3'
    } else if d == 4 {
        '4'
    } else if d == 5 {
        '5'
    } else if d == 6 {
        '6'
    } else if d == 7 {
        '7'
    } else if d == 8 {
        '8'
    } else {
        '9'
    }
}

fn push_digits(n: u32, out: &mut Vec<char>)
    ensures
        final(out)@ == old(out)@ + spec_digits(n as nat),
    decreases n,
{
    if n < 10 {
        out.push(digit_char_exec(n));
        assert(final(out)@ =~= old(out)@ + spec_digits(n as nat));
    } else {
        push_digits(n / 10, out);
        out.push(digit_char_exec(n % 10));
        assert(final(out)@ =~= old(out)@ + spec_digits(n as nat));
    }
}

fn push_int(v: i32, out: &mut Vec<char>)
    ensures
        final(out)@ == old(out)@ + spec_emit_int(v as int),
{
    if v < 0 {
        out.push('-');
        let magnitude: u32 = (-(v as i64)) as u32;
        assert(magnitude as nat == (-(v as int)) as nat);
        push_digits(magnitude, out);
        assert(final(out)@ =~= old(out)@ + spec_emit_int(v as int));
    } else {
        push_digits(v as u32, out);
    }
}

pub(crate) fn push_escaped(s: &Vec<char>, out: &mut Vec<char>)
    ensures
        final(out)@ == old(out)@ + spec_escape(s@),
{
    let n = s.len();
    let mut i: usize = 0;
    while i < n
        invariant
            n == s@.len(),
            i <= n,
            out@ == old(out)@ + spec_escape(s@.take(i as int)),
        decreases n - i,
    {
        let c = s[i];
        if c == '"' || c == '\\' {
            out.push('\\');
        }
        out.push(c);
        proof {
            lemma_escape_snoc(s@, i as int);
            assert(out@ =~= old(out)@ + spec_escape(s@.take(i + 1 as int)));
        }
        i = i + 1;
    }
    proof {
        assert(s@.take(n as int) =~= s@);
    }
}

/// Appending one character extends the escaped text by that character's
/// escape.
proof fn lemma_escape_snoc(s: Seq<char>, i: int)
    requires
        0 <= i < s.len(),
    ensures
        spec_escape(s.take(i + 1)) == spec_escape(s.take(i)) + esc_char(s[i]),
    decreases i,
{
    if i == 0 {
        assert(s.take(1) =~= seq![s[0]]);
        assert(s.take(1).drop_first() =~= Seq::<char>::empty());
        assert(spec_escape(s.take(0)) =~= Seq::<char>::empty());
        assert(spec_escape(s.take(1).drop_first()) =~= Seq::<char>::empty());
        assert(spec_escape(s.take(1)) =~= esc_char(s[0]));
    } else {
        let t = s.drop_first();
        assert(s.take(i + 1).drop_first() =~= t.take(i));
        assert(s.take(i).drop_first() =~= t.take(i - 1));
        assert(s.take(i + 1)[0] == s[0]);
        assert(s.take(i)[0] == s[0]);
        lemma_escape_snoc(t, i - 1);
        assert(spec_escape(s.take(i + 1)) == esc_char(s[0]) + spec_escape(t.take(i)));
        assert(spec_escape(s.take(i)) == esc_char(s[0]) + spec_escape(t.take(i - 1)));
        assert(t[i - 1] == s[i]);
        assert(spec_escape(s.take(i + 1)) =~= spec_escape(s.take(i)) + esc_char(s[i]));
    }
}

pub(crate) fn push_quoted(s: &Vec<char>, out: &mut Vec<char>)
    ensures
        final(out)@ == old(out)@ + spec_emit_string(s@),
{
    out.push('"');
    push_escaped(s, out);
    out.push('"');
    assert(final(out)@ =~= old(out)@ + spec_emit_string(s@));
}

pub(crate) fn push_bool(b: bool, out: &mut Vec<char>)
    ensures
        final(out)@ == old(out)@ + spec_emit_bool(b),
{
    if b {
        out.push('t');
        out.push('r');
        out.push('u');
        out.push('e');
    } else {
        out.push('f');
        out.push('a');
        out.push('l');
        out.push('s');
        out.push('e');
    }
    assert(final(out)@ =~= old(out)@ + spec_emit_bool(b));
}

/// Relies on str::chars and Iterator::collect: a string's characters, in
/// order, as a vector.
#[verifier::external_body]
pub(crate) fn chars_of(s: &str) -> (r: Vec<char>)
    ensures
        r@ == s@,
{
    s.chars().collect()
}

/// Relies on String::from_iter: the string holding exactly the given
/// characters, in order.
#[verifier::external_body]
pub(crate) fn string_of(v: &Vec<char>) -> (r: String)
    ensures
        r@ == v@,
{
    v.iter().collect()
}

fn push_opt(o: &Option<String>, out: &mut Vec<char>)
    ensures
        final(out)@ == old(out)@ + spec_emit_opt(o.deep_view()),
{
    match o {
        None => {
            out.push('N');
            out.push('o');
            out.push('n');
            out.push('e');
            assert(final(out)@ =~= old(out)@ + spec_emit_opt(o.deep_view()));
        },
        Some(s) => {
            out.push('S');
            out.push('o');
            out.push('m');
            out.push('e');
            out.push('(');
            let cs = chars_of(s.as_str());
            push_quoted(&cs, out);
            out.push(')');
            assert(final(out)@ =~= old(out)@ + spec_emit_opt(o.deep_view()));
        },
    }
}

#[verifier::rlimit(100)]
#[verifier::spinoff_prover]
fn push_task(t: &Task, out: &mut Vec<char>)
    ensures
        final(out)@ == old(out)@ + spec_emit_task(t@),
{
    let ghost o0 = out@;
    out.push('(');
    out.push('i');
    out.push('d');
    out.push(':');
    let ghost a1 = lit_id();
    assert(out@ =~= o0 + a1);
    push_int(t.id, out);
    let ghost a2 = a1 + spec_emit_int(t@.id);
    assert(out@ =~= o0 + a2);
    out.push(',');
    out.push('n');
    out.push('a');
    out.push('m');
    out.push('e');
    out.push(':');
    let ghost a3 = a2 + lit_name();
    assert(out@ =~= o0 + a3);
    let name_chars = chars_of(t.name.as_str());
    push_quoted(&name_chars, out);
    let ghost a4 = a3 + spec_emit_string(t@.name);
    assert(out@ =~= o0 + a4);
    out.push(',');
    out.push('d');
    out.push('e');
    out.push('s');
    out.push('c');
    out.push('r');
    out.push('i');
    out.push('p');
    out.push('t');
    out.push('i');
    out.push('o');
    out.push('n');
    out.push(':');
    let ghost a5 = a4 + lit_description();
    assert(out@ =~= o0 + a5);
    push_opt(&t.description, out);
    let ghost a6 = a5 + spec_emit_opt(t@.description);
    assert(out@ =~= o0 + a6);
    out.push(',');
    out.push('c');
    out.push('o');
    out.push('m');
    out.push('p');
    out.push('l');
    out.push('e');
    out.push('t');
    out.push('e');
    out.push('d');
    out.push(':');
    let ghost a7 = a6 + lit_completed();
    assert(out@ =~= o0 + a7);
    push_bool(t.completed, out);
    let ghost a8 = a7 + spec_emit_bool(t@.completed);
    assert(out@ =~= o0 + a8);
    out.push(')');
    assert(out@ =~= o0 + (a8 + seq![')']));
    assert(a8 + seq![')'] == spec_emit_task(t@));
}

/// Serializes a task list as the file backend's on-disk text.
pub fn emit_tasks(tasks: &Vec<Task>) -> (r: String)
    ensures
        r@ == spec_emit_tasks(views_of(tasks@)),
{
    let mut out: Vec<char> = Vec::new();
    out.push('[');
    let n = tasks.len();
    let mut i: usize = 0;
    while i < n
        invariant
            n == tasks@.len(),
            i <= n,
            i == 0 ==> out@ == seq!['['],
            0 < i <= n ==> out@ == seq!['['] + spec_emit_list(views_of(tasks@.take(i as int))),
        decreases n - i,
    {
        if i > 0 {
            out.push(',');
        }
        push_task(&tasks[i], &mut out);
        proof {
            lemma_emit_list_snoc(views_of(tasks@), i as int);
            assert(views_of(tasks@.take(i as int)) =~= views_of(tasks@).take(i as int));
            assert(views_of(tasks@.take(i + 1 as int)) =~= views_of(tasks@).take(i + 1 as int));
            if i == 0 {
                assert(out@ =~= seq!['['] + spec_emit_list(views_of(tasks@.take(1))));
            } else {
                assert(out@ =~= seq!['['] + spec_emit_list(views_of(tasks@.take(i + 1 as int))));
            }
        }
        i = i + 1;
    }
    out.push(']');
    proof {
        assert(views_of(tasks@.take(n as int)) =~= views_of(tasks@));
        if n == 0 {
            assert(spec_emit_list(views_of(tasks@)) =~= Seq::<char>::empty());
        }
        assert(out@ =~= spec_emit_tasks(views_of(tasks@)));
    }
    string_of(&out)
}

/// Extending the record sequence by one appends a comma (after a first
/// record) and the record's text.
proof fn lemma_emit_list_snoc(ts: Seq<TaskView>, i: int)
    requires
        0 <= i < ts.len(),
    ensures
        i == 0 ==> spec_emit_list(ts.take(1)) == spec_emit_task(ts[0]),
        i > 0 ==> spec_emit_list(ts.take(i + 1)) == spec_emit_list(ts.take(i)) + seq![',']
            + spec_emit_task(ts[i]),
    decreases i,
{
    if i == 0 {
        assert(ts.take(1).len() == 1);
        assert(ts.take(1)[0] == ts[0]);
    } else {
        let t = ts.drop_first();
        assert(ts.take(i + 1).len() == i + 1 >= 2);
        assert(ts.take(i + 1)[0] == ts[0]);
        assert(ts.take(i)[0] == ts[0]);
        assert(ts.take(i + 1).drop_first() =~= t.take(i));
        assert(ts.take(i).drop_first() =~= t.take(i - 1));
        lemma_emit_list_snoc(t, i - 1);
        if i == 1 {
            assert(spec_emit_list(ts.take(2)) == spec_emit_task(ts[0]) + seq![',']
                + spec_emit_list(t.take(1)));
            assert(spec_emit_list(ts.take(1)) == spec_emit_task(ts[0]));
            assert(t.take(1)[0] == ts[1]);
            assert(spec_emit_list(t.take(1)) == spec_emit_task(ts[1]));
            assert(spec_emit_list(ts.take(i + 1)) =~= spec_emit_list(ts.take(i)) + seq![',']
                + spec_emit_task(ts[i]));
        } else {
            assert(t[i - 1] == ts[i]);
            assert(spec_emit_list(ts.take(i + 1)) =~= spec_emit_list(ts.take(i)) + seq![',']
                + spec_emit_task(ts[i]));
        }
    }
}

// ---------------------------------------------------------------------------
// Parsing, spec side
// ---------------------------------------------------------------------------

pub open spec fn digit_val(c: char) -> int {
    if c == '0' {
        0
    } else if c == '1' {
        1
    } else if c == '2' {
        2
    } else if c == '3' {
        3
    } else if c == '4' {
        4
    } else if c == '5' {
        5
    } else if c == '6' {
        6
    } else if c == '7' {
        7
    } else if c == '8' {
        8
    } else if c == '9' {
        9
    } else {
        -1
    }
}

pub open spec fn is_digit(c: char) -> bool {
    digit_val(c) >= 0
}

/// The literal `lit` stands at position `i` of `s`.
pub open spec fn sp_lit_ok(s: Seq<char>, i: int, lit: Seq<char>) -> bool {
    &&& 0 <= i
    &&& i + lit.len() <= s.len()
    &&& s.subrange(i, i + lit.len()) == lit
}

pub open spec fn lit_none() -> Seq<char> {
    seq!['N', 'o', 'n', 'e']
}

pub open spec fn lit_some() -> Seq<char> {
    seq!['S', 'o', 'm', 'e', '(']
}

pub open spec fn lit_true() -> Seq<char> {
    seq!['t', 'r', 'u', 'e']
}

pub open spec fn lit_false() -> Seq<char> {
    seq!['f', 'a', 'l', 's', 'e']
}

/// Consumes digits greedily from position `i`, extending the accumulated
/// value; yields the value and the first position past the digits.
pub open spec fn sp_digits_loop(s: Seq<char>, i: int, acc: int) -> (int, int)
    decreases s.len() - i,
    when 0 <= i <= s.len()
{
    if i < s.len() && is_digit(s[i]) {
        sp_digits_loop(s, i + 1, acc * 10 + digit_val(s[i]))
    } else {
        (acc, i)
    }
}

/// A decimal integer at position `i`: an optional minus sign and at least
/// one digit; fails when the value does not fit a signed 32-bit integer.
pub open spec fn sp_int(s: Seq<char>, i: int) -> Option<(int, int)> {
    if 0 <= i && i < s.len() && s[i] == '-' {
        if i + 1 < s.len() && is_digit(s[i + 1]) {
            let (v, j) = sp_digits_loop(s, i + 1, 0);
            if -v >= i32::MIN as int {
                Some((-v, j))
            } else {
                None
            }
        } else {
            None
        }
    } else if 0 <= i && i < s.len() && is_digit(s[i]) {
        let (v, j) = sp_digits_loop(s, i, 0);
        if v <= i32::MAX as int {
            Some((v, j))
        } else {
            None
        }
    } else {
        None
    }
}

/// What a single-character escape stands for: the escapes that serializers
/// in RON's family write for quotes, backslashes, apostrophes and the common
/// control characters.
pub open spec fn esc_code(c: char) -> Option<char> {
    if c == '"' {
        Some('"')
    } else if c == '\\' {
        Some('\\')
    } else if c == '\'' {
        Some('\'')
    } else if c == 'n' {
        Some('\n')
    } else if c == 't' {
        Some('\t')
    } else if c == 'r' {
        Some('\r')
    } else if c == '0' {
        Some('\0')
    } else {
        None
    }
}

pub open spec fn hex_val(c: char) -> int {
    if c == '0' {
        0
    } else if c == '1' {
        1
    } else if c == '2' {
        2
    } else if c == '3' {
        3
    } else if c == '4' {
        4
    } else if c == '5' {
        5
    } else if c == '6' {
        6
    } else if c == '7' {
        7
    } else if c == '8' {
        8
    } else if c == '9' {
        9
    } else if c == 'a' || c == 'A' {
        10
    } else if c == 'b' || c == 'B' {
        11
    } else if c == 'c' || c == 'C' {
        12
    } else if c == 'd' || c == 'D' {
        13
    } else if c == 'e' || c == 'E' {
        14
    } else if c == 'f' || c == 'F' {
        15
    } else {
        -1
    }
}

pub open spec fn is_hex_digit(c: char) -> bool {
    hex_val(c) >= 0
}

/// Consumes hexadecimal digits greedily from position `i`, extending the
/// accumulated value; yields the value and the first position past them.
pub open spec fn sp_hex_loop(s: Seq<char>, i: int, acc: int) -> (int, int)
    decreases s.len() - i,
    when 0 <= i <= s.len()
{
    if i < s.len() && is_hex_digit(s[i]) {
        sp_hex_loop(s, i + 1, acc * 16 + hex_val(s[i]))
    } else {
        (acc, i)
    }
}

/// A Unicode scalar value: what `char` can hold — at most 0x10FFFF and not a
/// surrogate.
pub open spec fn is_unicode_scalar(v: int) -> bool {
    0 <= v <= 0x10FFFF && !(0xD800 <= v <= 0xDFFF)
}

/// What `char::from_u32` yields on a Unicode scalar value: the character
/// with the given code point.
pub uninterp spec fn char_code(v: int) -> char;

/// The characters of a quoted string after its opening quote, up to the
/// closing quote. A backslash starts an escape: one of the single-character
/// escapes of `esc_code`, or `u{..}` with the hexadecimal code point of a
/// Unicode scalar value.
pub open spec fn sp_str_chars(s: Seq<char>, i: int) -> Option<(Seq<char>, int)>
    decreases s.len() - i,
    when 0 <= i <= s.len()
{
    if i >= s.len() {
        None
    } else if s[i] == '"' {
        Some((Seq::empty(), i + 1))
    } else if s[i] == '\\' {
        if i + 1 >= s.len() {
            None
        } else if s[i + 1] == 'u' {
            if i + 3 < s.len() && s[i + 2] == '{' && is_hex_digit(s[i + 3]) {
                let (v, j) = sp_hex_loop(s, i + 3, 0);
                if i + 3 < j && j < s.len() && s[j] == '}' && is_unicode_scalar(v) {
                    match sp_str_chars(s, j + 1) {
                        Some((t, k)) => Some((seq![char_code(v)] + t, k)),
                        None => None,
                    }
                } else {
                    None
                }
            } else {
                None
            }
        } else {
            match esc_code(s[i + 1]) {
                Some(c) => match sp_str_chars(s, i + 2) {
                    Some((t, j)) => Some((seq![c] + t, j)),
                    None => None,
                },
                None => None,
            }
        }
    } else {
        match sp_str_chars(s, i + 1) {
            Some((t, j)) => Some((seq![s[i]] + t, j)),
            None => None,
        }
    }
}

/// A quoted string at position `i`.
pub open spec fn sp_string(s: Seq<char>, i: int) -> Option<(Seq<char>, int)> {
    if 0 <= i && i < s.len() && s[i] == '"' {
        sp_str_chars(s, i + 1)
    } else {
        None
    }
}

pub open spec fn sp_bool(s: Seq<char>, i: int) -> Option<(bool, int)> {
    if sp_lit_ok(s, i, lit_true()) {
        Some((true, i + 4))
    } else if sp_lit_ok(s, i, lit_false()) {
        Some((false, i + 5))
    } else {
        None
    }
}

pub open spec fn sp_opt(s: Seq<char>, i: int) -> Option<(Option<Seq<char>>, int)> {
    if sp_lit_ok(s, i, lit_none()) {
        Some((None, i + 4))
    } else if sp_lit_ok(s, i, lit_some()) {
        match sp_string(s, i + 5) {
            Some((v, j)) => {
                if j < s.len() && s[j] == ')' {
                    Some((Some(v), j + 1))
                } else {
                    None
                }
            },
            None => None,
        }
    } else {
        None
    }
}

/// One record at position `i`, with its four fields in fixed order.
pub open spec fn sp_task(s: Seq<char>, i: int) -> Option<(TaskView, int)> {
    if !sp_lit_ok(s, i, lit_id()) {
        None
    } else {
        match sp_int(s, i + 4) {
            None => None,
            Some((id, j1)) => {
                if !sp_lit_ok(s, j1, lit_name()) {
                    None
                } else {
                    match sp_string(s, j1 + 6) {
                        None => None,
                        Some((name, j2)) => {
                            if !sp_lit_ok(s, j2, lit_description()) {
                                None
                            } else {
                                match sp_opt(s, j2 + 13) {
                                    None => None,
                                    Some((description, j3)) => {
                                        if !sp_lit_ok(s, j3, lit_completed()) {
                                            None
                                        } else {
                                            match sp_bool(s, j3 + 11) {
                                                None => None,
                                                Some((completed, j4)) => {
                                                    if j4 < s.len() && s[j4] == ')' {
                                                        Some(
                                                            (
                                                                TaskView {
                                                                    id,
                                                                    name,
                                                                    description,
                                                                    completed,
                                                                },
                                                                j4 + 1,
                                                            ),
                                                        )
                                                    } else {
                                                        None
                                                    }
                                                },
                                            }
                                        }
                                    },
                                }
                            }
                        },
                    }
                }
            },
        }
    }
}

/// One or more records separated by commas, from position `i`.
pub open spec fn sp_task_list(s: Seq<char>, i: int) -> Option<(Seq<TaskView>, int)>
    decreases s.len() - i,
    when 0 <= i <= s.len()
{
    match sp_task(s, i) {
        None => None,
        Some((t, j)) => {
            if i < j && j <= s.len() {
                if j < s.len() && s[j] == ',' {
                    match sp_task_list(s, j + 1) {
                        Some((ts, k)) => Some((seq![t] + ts, k)),
                        None => None,
                    }
                } else {
                    Some((seq![t], j))
                }
            } else {
                None
            }
        },
    }
}

/// The whole text: a record list between square brackets, and nothing after
/// it. Text of any other shape has no reading.
pub open spec fn sp_tasks(s: Seq<char>) -> Option<Seq<TaskView>> {
    if s.len() >= 2 && s[0] == '[' {
        if s[1] == ']' {
            if s.len() == 2 {
                Some(Seq::empty())
            } else {
                None
            }
        } else {
            match sp_task_list(s, 1) {
                Some((ts, j)) => {
                    if j + 1 == s.len() && s[j] == ']' {
                        Some(ts)
                    } else {
                        None
                    }
                },
                None => None,
            }
        }
    } else {
        None
    }
}

// ---------------------------------------------------------------------------
// Parsing, executable side
// ---------------------------------------------------------------------------

fn digit_val_exec(c: char) -> (r: u32)
    ensures
        is_digit(c) ==> r as int == digit_val(c),
        !is_digit(c) ==> r == 10,
{
    if c == '0' {
        0
    } else if c == '1' {
        1
    } else if c == '2' {
        2
    } else if c == '3' {
        3
    } else if c == '4' {
        4
    } else if c == '5' {
        5
    } else if c == '6' {
        6
    } else if c == '7' {
        7
    } else if c == '8' {
        8
    } else if c == '9' {
        9
    } else {
        10
    }
}

fn p_int(s: &Vec<char>, i: usize) -> (r: Option<(i32, usize)>)
    ensures
        match r {
            Some((v, j)) => sp_int(s@, i as int) == Some((v as int, j as int)),
            None => sp_int(s@, i as int) is None,
        },
{
    let n = s.len();
    if i >= n {
        return None;
    }
    let neg = s[i] == '-';
    let start: usize = if neg {
        i + 1
    } else {
        i
    };
    if start >= n || digit_val_exec(s[start]) == 10 {
        return None;
    }
    let mut cur: usize = start;
    let mut acc: u64 = 0;
    let ghost mut acc_true: int = 0int;
    while cur < n && digit_val_exec(s[cur]) < 10
        invariant
            n == s@.len(),
            start <= cur <= n,
            acc_true >= 0,
            acc_true <= u32::MAX as int ==> acc == acc_true,
            acc_true > u32::MAX as int ==> acc > u32::MAX,
            acc <= 0xf_ffff_ffffu64,
            sp_digits_loop(s@, start as int, 0) == sp_digits_loop(s@, cur as int, acc_true),
        decreases n - cur,
    {
        let d = digit_val_exec(s[cur]);
        proof {
            acc_true = acc_true * 10 + digit_val(s@[cur as int]);
        }
        if acc <= 0xffff_ffffu64 {
            acc = acc * 10 + (d as u64);
        }
        cur = cur + 1;
    }
    proof {
        assert(sp_digits_loop(s@, cur as int, acc_true) == (acc_true, cur as int));
        assert(sp_digits_loop(s@, start as int, 0) == (acc_true, cur as int));
    }
    if neg {
        if acc <= 0x8000_0000u64 {
            let v: i64 = -(acc as i64);
            Some((v as i32, cur))
        } else {
            None
        }
    } else {
        if acc <= 0x7fff_ffffu64 {
            Some((acc as i32, cur))
        } else {
            None
        }
    }
}

pub(crate) fn lit_at(s: &Vec<char>, i: usize, lit: &[char]) -> (r: bool)
    ensures
        r == sp_lit_ok(s@, i as int, lit@),
{
    let n = s.len();
    let m = lit.len();
    if i > n || m > n - i {
        return false;
    }
    let mut k: usize = 0;
    while k < m
        invariant
            n == s@.len(),
            m == lit@.len(),
            i + m <= n,
            k <= m,
            forall|q: int| 0 <= q < k ==> s@[i + q] == lit@[q],
        decreases m - k,
    {
        if s[i + k] != lit[k] {
            proof {
                assert(s@.subrange(i as int, i + m as int)[k as int] == s@[i + k]);
            }
            return false;
        }
        k = k + 1;
    }
    proof {
        assert(s@.subrange(i as int, i + m as int) =~= lit@);
    }
    true
}

fn hex_val_exec(c: char) -> (r: u32)
    ensures
        is_hex_digit(c) ==> r as int == hex_val(c),
        !is_hex_digit(c) ==> r == 16,
{
    if c == '0' {
        0
    } else if c == '1' {
        1
    } else if c == '2' {
        2
    } else if c == '3' {
        3
    } else if c == '4' {
        4
    } else if c == '5' {
        5
    } else if c == '6' {
        6
    } else if c == '7' {
        7
    } else if c == '8' {
        8
    } else if c == '9' {
        9
    } else if c == 'a' || c == 'A' {
        10
    } else if c == 'b' || c == 'B' {
        11
    } else if c == 'c' || c == 'C' {
        12
    } else if c == 'd' || c == 'D' {
        13
    } else if c == 'e' || c == 'E' {
        14
    } else if c == 'f' || c == 'F' {
        15
    } else {
        16
    }
}

/// Relies on char::from_u32: the character with this code point, exactly
/// when the value is a Unicode scalar value.
#[verifier::external_body]
fn char_of_u32(v: u32) -> (r: Option<char>)
    ensures
        (r is Some) == is_unicode_scalar(v as int),
        r matches Some(c) ==> c == char_code(v as int) && c as u32 == v,
{
    char::from_u32(v)
}

/// Reads hexadecimal digits greedily from `start`; the reported value is
/// exact up to the largest code point, and anything larger is reported as
/// larger.
fn p_hex_loop(s: &Vec<char>, start: usize) -> (r: (u32, usize))
    requires
        start <= s@.len(),
    ensures
        ({
            let (v, j) = sp_hex_loop(s@, start as int, 0);
            r.1 as int == j && (v <= 0x10FFFF ==> r.0 as int == v) && (v > 0x10FFFF ==> r.0
                > 0x10FFFF)
        }),
{
    let n = s.len();
    let mut cur: usize = start;
    let mut acc: u32 = 0;
    let ghost mut acc_true: int = 0int;
    while cur < n && hex_val_exec(s[cur]) < 16
        invariant
            n == s@.len(),
            start <= cur <= n,
            acc_true >= 0,
            acc_true <= 0x10FFFF ==> acc == acc_true,
            acc_true > 0x10FFFF ==> acc > 0x10FFFF,
            acc <= 0x10FFFFF,
            sp_hex_loop(s@, start as int, 0) == sp_hex_loop(s@, cur as int, acc_true),
        decreases n - cur,
    {
        let d = hex_val_exec(s[cur]);
        proof {
            acc_true = acc_true * 16 + hex_val(s@[cur as int]);
        }
        if acc <= 0x10FFFF {
            acc = acc * 16 + d;
        }
        cur = cur + 1;
    }
    proof {
        assert(sp_hex_loop(s@, cur as int, acc_true) == (acc_true, cur as int));
    }
    (acc, cur)
}

fn esc_code_exec(c: char) -> (r: Option<char>)
    ensures
        r == esc_code(c),
{
    if c == '"' {
        Some('"')
    } else if c == '\\' {
        Some('\\')
    } else if c == '\'' {
        Some('\'')
    } else if c == 'n' {
        Some('\n')
    } else if c == 't' {
        Some('\t')
    } else if c == 'r' {
        Some('\r')
    } else if c == '0' {
        Some('\0')
    } else {
        None
    }
}

pub(crate) fn p_str_chars(s: &Vec<char>, start: usize) -> (r: Option<(Vec<char>, usize)>)
    requires
        start <= s@.len(),
    ensures
        match r {
            Some((v, j)) => sp_str_chars(s@, start as int) == Some((v@, j as int)) && start < j
                <= s@.len(),
            None => sp_str_chars(s@, start as int) is None,
        },
{
    let n = s.len();
    let mut cur: usize = start;
    let mut v: Vec<char> = Vec::new();
    loop
        invariant
            n == s@.len(),
            start <= cur <= n,
            match sp_str_chars(s@, cur as int) {
                Some((t, j)) => sp_str_chars(s@, start as int) == Some((v@ + t, j)),
                None => sp_str_chars(s@, start as int) is None,
            },
        decreases n - cur,
    {
        if cur >= n {
            return None;
        }
        let c = s[cur];
        if c == '"' {
            proof {
                assert(v@ + Seq::<char>::empty() =~= v@);
            }
            return Some((v, cur + 1));
        }
        if c == '\\' {
            if cur + 1 >= n {
                return None;
            }
            let c2 = s[cur + 1];
            if c2 == 'u' {
                if n - cur > 3 && s[cur + 2] == '{' && hex_val_exec(s[cur + 3]) < 16 {
                    let (hv, j) = p_hex_loop(s, cur + 3);
                    if cur + 3 < j && j < n && s[j] == '}' && hv <= 0x10FFFFu32 {
                        match char_of_u32(hv) {
                            Some(ch) => {
                                v.push(ch);
                                proof {
                                    assert(ch == char_code(hv as int));
                                    if let Some((t, k)) = sp_str_chars(s@, j + 1 as int) {
                                        assert(v@ + t =~= v@.drop_last() + (seq![ch] + t));
                                    }
                                }
                                cur = j + 1;
                            },
                            None => {
                                return None;
                            },
                        }
                    } else {
                        return None;
                    }
                } else {
                    return None;
                }
            } else {
                let decoded: char = match esc_code_exec(c2) {
                    Some(d) => d,
                    None => {
                        return None;
                    },
                };
                v.push(decoded);
                proof {
                    if let Some((t, j)) = sp_str_chars(s@, cur + 2 as int) {
                        assert(v@ + t =~= v@.drop_last() + (seq![decoded] + t));
                    }
                }
                cur = cur + 2;
            }
        } else {
            v.push(c);
            proof {
                if let Some((t, j)) = sp_str_chars(s@, cur + 1 as int) {
                    assert(v@ + t =~= v@.drop_last() + (seq![c] + t));
                }
            }
            cur = cur + 1;
        }
    }
}

pub(crate) fn p_string(s: &Vec<char>, i: usize) -> (r: Option<(Vec<char>, usize)>)
    ensures
        match r {
            Some((v, j)) => sp_string(s@, i as int) == Some((v@, j as int)),
            None => sp_string(s@, i as int) is None,
        },
{
    let n = s.len();
    if i < n && s[i] == '"' {
        p_str_chars(s, i + 1)
    } else {
        None
    }
}

pub(crate) fn p_bool(s: &Vec<char>, i: usize) -> (r: Option<(bool, usize)>)
    ensures
        match r {
            Some((v, j)) => sp_bool(s@, i as int) == Some((v, j as int)),
            None => sp_bool(s@, i as int) is None,
        },
{
    let t: [char; 4] = ['t', 'r', 'u', 'e'];
    let f: [char; 5] = ['f', 'a', 'l', 's', 'e'];
    proof {
        assert(t@ =~= lit_true());
        assert(f@ =~= lit_false());
    }
    let n = s.len();
    if lit_at(s, i, t.as_slice()) {
        proof {
            assert(i + 4 <= n);
        }
        Some((true, i + 4))
    } else if lit_at(s, i, f.as_slice()) {
        proof {
            assert(i + 5 <= n);
        }
        Some((false, i + 5))
    } else {
        None
    }
}

fn p_opt(s: &Vec<char>, i: usize) -> (r: Option<(Option<Vec<char>>, usize)>)
    ensures
        match r {
            Some((v, j)) => sp_opt(s@, i as int) == Some((v.deep_view(), j as int)),
            None => sp_opt(s@, i as int) is None,
        },
{
    let none_lit: [char; 4] = ['N', 'o', 'n', 'e'];
    let some_lit: [char; 5] = ['S', 'o', 'm', 'e', '('];
    proof {
        assert(none_lit@ =~= lit_none());
        assert(some_lit@ =~= lit_some());
    }
    let n = s.len();
    if lit_at(s, i, none_lit.as_slice()) {
        proof {
            assert(i + 4 <= n);
        }
        Some((None, i + 4))
    } else if lit_at(s, i, some_lit.as_slice()) {
        proof {
            assert(i + 5 <= n);
        }
        match p_string(s, i + 5) {
            Some((v, j)) => {
                if j < s.len() && s[j] == ')' {
                    Some((Some(v), j + 1))
                } else {
                    None
                }
            },
            None => None,
        }
    } else {
        None
    }
}

fn p_task(s: &Vec<char>, i: usize) -> (r: Option<(Task, usize)>)
    ensures
        match r {
            Some((t, j)) => sp_task(s@, i as int) == Some((t@, j as int)),
            None => sp_task(s@, i as int) is None,
        },
{
    let id_lit: [char; 4] = ['(', 'i', 'd', ':'];
    let name_lit: [char; 6] = [',', 'n', 'a', 'm', 'e', ':'];
    let desc_lit: [char; 13] = [
        ',',
        'd',
        'e',
        's',
        'c',
        'r',
        'i',
        'p',
        't',
        'i',
        'o',
        'n',
        ':',
    ];
    let comp_lit: [char; 11] = [',', 'c', 'o', 'm', 'p', 'l', 'e', 't', 'e', 'd', ':'];
    proof {
        assert(id_lit@ =~= lit_id());
        assert(name_lit@ =~= lit_name());
        assert(desc_lit@ =~= lit_description());
        assert(comp_lit@ =~= lit_completed());
    }
    let n = s.len();
    if !lit_at(s, i, id_lit.as_slice()) {
        return None;
    }
    proof {
        assert(i + 4 <= n);
    }
    let (id, j1) = match p_int(s, i + 4) {
        None => {
            return None;
        },
        Some(p) => p,
    };
    if !lit_at(s, j1, name_lit.as_slice()) {
        return None;
    }
    proof {
        assert(j1 + 6 <= n);
    }
    let (name_chars, j2) = match p_string(s, j1 + 6) {
        None => {
            return None;
        },
        Some(p) => p,
    };
    if !lit_at(s, j2, desc_lit.as_slice()) {
        return None;
    }
    proof {
        assert(j2 + 13 <= n);
    }
    let (description_chars, j3) = match p_opt(s, j2 + 13) {
        None => {
            return None;
        },
        Some(p) => p,
    };
    if !lit_at(s, j3, comp_lit.as_slice()) {
        return None;
    }
    proof {
        assert(j3 + 11 <= n);
    }
    let (completed, j4) = match p_bool(s, j3 + 11) {
        None => {
            return None;
        },
        Some(p) => p,
    };
    if j4 < s.len() && s[j4] == ')' {
        let name = string_of(&name_chars);
        let description: Option<String> = match &description_chars {
            Some(v) => Some(string_of(v)),
            None => None,
        };
        let task = Task::new(id, name, description, completed);
        proof {
            assert(description.deep_view() == description_chars.deep_view());
            let tv = TaskView {
                id: id as int,
                name: name_chars@,
                description: description_chars.deep_view(),
                completed,
            };
            assert(sp_task(s@, i as int) == Some((tv, j4 + 1 as int)));
            assert(task@ == tv);
        }
        Some((task, j4 + 1))
    } else {
        None
    }
}

fn p_task_list(s: &Vec<char>, start: usize) -> (r: Option<(Vec<Task>, usize)>)
    requires
        start <= s@.len(),
    ensures
        match r {
            Some((ts, j)) => sp_task_list(s@, start as int) == Some((views_of(ts@), j as int)),
            None => sp_task_list(s@, start as int) is None,
        },
{
    let n = s.len();
    let mut cur: usize = start;
    let mut acc: Vec<Task> = Vec::new();
    loop
        invariant
            n == s@.len(),
            start <= cur <= n,
            match sp_task_list(s@, cur as int) {
                Some((ts, k)) => sp_task_list(s@, start as int) == Some((views_of(acc@) + ts, k)),
                None => sp_task_list(s@, start as int) is None,
            },
        decreases n - cur,
    {
        let (t, j) = match p_task(s, cur) {
            None => {
                return None;
            },
            Some(p) => p,
        };
        if !(cur < j && j <= n) {
            return None;
        }
        let ghost tv = t@;
        acc.push(t);
        proof {
            assert(views_of(acc@.drop_last()) =~= views_of(acc@).drop_last());
            assert(views_of(acc@).last() == tv);
        }
        if j < n && s[j] == ',' {
            proof {
                if let Some((ts2, k)) = sp_task_list(s@, j + 1 as int) {
                    assert(views_of(acc@) + ts2 =~= views_of(acc@).drop_last() + (seq![tv] + ts2));
                }
            }
            cur = j + 1;
        } else {
            proof {
                assert(views_of(acc@) =~= views_of(acc@).drop_last() + seq![tv]);
            }
            return Some((acc, j));
        }
    }
}

/// Reads a task list back from the file backend's on-disk text. Text that
/// does not spell a task list — in particular a corrupt or hand-edited file —
/// has no reading, and `None` comes back.
pub fn parse_tasks(content: &str) -> (r: Option<Vec<Task>>)
    ensures
        match r {
            Some(ts) => sp_tasks(content@) == Some(views_of(ts@)),
            None => sp_tasks(content@) is None,
        },
{
    let s = chars_of(content);
    let n = s.len();
    if n >= 2 && s[0] == '[' {
        if s[1] == ']' {
            if n == 2 {
                let empty_list: Vec<Task> = Vec::new();
                proof {
                    assert(views_of(Seq::<Task>::empty()) =~= Seq::<TaskView>::empty());
                }
                Some(empty_list)
            } else {
                None
            }
        } else {
            match p_task_list(&s, 1) {
                Some((ts, j)) => {
                    if j < n && s[j] == ']' && j + 1 == n {
                        Some(ts)
                    } else {
                        None
                    }
                },
                None => None,
            }
        }
    } else {
        None
    }
}

// ---------------------------------------------------------------------------
// The round trip: parsing an emitted list yields the records it was made from
// ---------------------------------------------------------------------------

/// A sequence that equals `a + b` splits into `a` and `b`.
pub(crate) proof fn lemma_subrange_concat(s: Seq<char>, i: int, a: Seq<char>, b: Seq<char>)
    requires
        0 <= i,
        i + a.len() + b.len() <= s.len(),
        s.subrange(i, i + a.len() + b.len()) == a + b,
    ensures
        s.subrange(i, i + a.len()) == a,
        s.subrange(i + a.len(), i + a.len() + b.len()) == b,
{
    let whole = s.subrange(i, i + a.len() + b.len());
    assert forall|k: int| 0 <= k < a.len() implies s[i + k] == a[k] by {
        assert(whole[k] == s[i + k]);
        assert((a + b)[k] == a[k]);
    }
    assert forall|k: int| 0 <= k < b.len() implies s[i + a.len() + k] == b[k] by {
        assert(whole[a.len() + k] == s[i + a.len() + k]);
        assert((a + b)[a.len() + k] == b[k]);
    }
    assert(s.subrange(i, i + a.len()) =~= a);
    assert(s.subrange(i + a.len(), i + a.len() + b.len()) =~= b);
}

spec fn pow10(k: nat) -> int
    decreases k,
{
    if k == 0 {
        1
    } else {
        10 * pow10((k - 1) as nat)
    }
}

proof fn lemma_digits_shape(n: nat)
    ensures
        spec_digits(n).len() >= 1,
        is_digit(spec_digits(n)[0]),
        forall|k: int| 0 <= k < spec_digits(n).len() ==> is_digit(#[trigger] spec_digits(n)[k]),
    decreases n,
{
    if n < 10 {
        assert(digit_val(digit_char(n as int)) == n);
    } else {
        lemma_digits_shape(n / 10);
        assert(digit_val(digit_char((n % 10) as int)) == n % 10);
        let d = spec_digits(n);
        let h = spec_digits(n / 10);
        assert forall|k: int| 0 <= k < d.len() implies is_digit(#[trigger] d[k]) by {
            if k < h.len() {
                assert(d[k] == h[k]);
            } else {
                assert(d[k] == digit_char((n % 10) as int));
            }
        }
        assert(d[0] == h[0]);
    }
}

/// Reading the digit text of `n` extends an accumulated value by `n`, in the
/// decimal sense, and stops right after it.
proof fn lemma_parse_digits(s: Seq<char>, i: int, acc: int, n: nat)
    requires
        0 <= i,
        i + spec_digits(n).len() <= s.len(),
        s.subrange(i, i + spec_digits(n).len()) == spec_digits(n),
    ensures
        sp_digits_loop(s, i, acc) == sp_digits_loop(
            s,
            i + spec_digits(n).len(),
            acc * pow10(spec_digits(n).len()) + n,
        ),
    decreases n,
{
    lemma_digits_shape(n);
    let d = spec_digits(n);
    if n < 10 {
        assert(s[i] == d[0]) by {
            assert(s.subrange(i, i + 1)[0] == s[i]);
        }
        assert(digit_val(digit_char(n as int)) == n);
        assert(sp_digits_loop(s, i, acc) == sp_digits_loop(s, i + 1, acc * 10 + n));
        assert(pow10(0) == 1);
        assert(pow10(1) == 10);
        assert(acc * pow10(1) + n == acc * 10 + n);
    } else {
        let h = spec_digits(n / 10);
        let lo = seq![digit_char((n % 10) as int)];
        assert(d == h + lo);
        lemma_subrange_concat(s, i, h, lo);
        lemma_parse_digits(s, i, acc, n / 10);
        let mid = i + h.len();
        assert(s[mid] == digit_char((n % 10) as int)) by {
            assert(s.subrange(mid, mid + 1)[0] == s[mid]);
        }
        assert(digit_val(digit_char((n % 10) as int)) == n % 10);
        let acc2 = acc * pow10(h.len()) + (n / 10);
        assert(sp_digits_loop(s, mid, acc2) == sp_digits_loop(s, mid + 1, acc2 * 10 + n % 10));
        assert(acc2 * 10 + n % 10 == acc * pow10(d.len()) + n) by {
            assert(pow10(d.len()) == 10 * pow10(h.len()));
            assert((acc * pow10(h.len()) + (n / 10)) * 10 + n % 10 == acc * (10 * pow10(h.len()))
                + ((n / 10) * 10 + n % 10)) by (nonlinear_arith);
            assert((n / 10) * 10 + n % 10 == n);
        }
    }
}

/// Reading the decimal text of an integer in 32-bit range yields that
/// integer, provided no digit follows it.
proof fn lemma_parse_int(s: Seq<char>, i: int, v: int)
    requires
        0 <= i,
        i32::MIN <= v <= i32::MAX,
        i + spec_emit_int(v).len() <= s.len(),
        s.subrange(i, i + spec_emit_int(v).len()) == spec_emit_int(v),
        i + spec_emit_int(v).len() == s.len() || !is_digit(s[i + spec_emit_int(v).len()]),
    ensures
        sp_int(s, i) == Some((v, i + spec_emit_int(v).len())),
{
    let e = spec_emit_int(v);
    if v < 0 {
        let m = (-v) as nat;
        let d = spec_digits(m);
        lemma_digits_shape(m);
        lemma_subrange_concat(s, i, seq!['-'], d);
        assert(s[i] == '-') by {
            assert(s.subrange(i, i + 1)[0] == s[i]);
        }
        assert(s[i + 1] == d[0]) by {
            assert(s.subrange(i + 1, i + 1 + d.len())[0] == s[i + 1]);
        }
        lemma_parse_digits(s, i + 1, 0, m);
        assert(sp_digits_loop(s, i + 1 + d.len(), 0 * pow10(d.len()) + m) == (
            m as int,
            i + 1 + d.len(),
        ));
        assert(sp_digits_loop(s, i + 1, 0) == (m as int, i + e.len()));
        assert(-(m as int) == v);
    } else {
        let m = v as nat;
        let d = spec_digits(m);
        lemma_digits_shape(m);
        assert(s[i] == d[0]) by {
            assert(s.subrange(i, i + d.len())[0] == s[i]);
        }
        assert(s[i] != '-') by {
            assert(digit_val('-') == -1);
        }
        lemma_parse_digits(s, i, 0, m);
        assert(sp_digits_loop(s, i + d.len(), 0 * pow10(d.len()) + m) == (m as int, i + d.len()));
        assert(sp_digits_loop(s, i, 0) == (m as int, i + e.len()));
    }
}

/// Reading escaped text followed by a closing quote yields the original
/// characters.
pub(crate) proof fn lemma_parse_str_chars(s: Seq<char>, i: int, v: Seq<char>)
    requires
        0 <= i,
        i + spec_escape(v).len() + 1 <= s.len(),
        s.subrange(i, i + spec_escape(v).len() + 1) == spec_escape(v) + seq!['"'],
    ensures
        sp_str_chars(s, i) == Some((v, i + spec_escape(v).len() + 1)),
    decreases v.len(),
{
    let e = spec_escape(v);
    if v.len() == 0 {
        assert(e =~= Seq::<char>::empty());
        assert(s[i] == '"') by {
            assert(s.subrange(i, i + 1)[0] == s[i]);
        }
    } else {
        let c = v[0];
        let rest = v.drop_first();
        let erest = spec_escape(rest);
        assert(e == esc_char(c) + erest);
        assert(e + seq!['"'] =~= esc_char(c) + (erest + seq!['"']));
        lemma_subrange_concat(s, i, esc_char(c), erest + seq!['"']);
        if c == '"' || c == '\\' {
            assert(s[i] == '\\' && s[i + 1] == c) by {
                assert(s.subrange(i, i + 2)[0] == s[i]);
                assert(s.subrange(i, i + 2)[1] == s[i + 1]);
            }
            lemma_parse_str_chars(s, i + 2, rest);
            assert(sp_str_chars(s, i) == Some((seq![c] + rest, i + e.len() + 1)));
            assert(seq![c] + rest =~= v);
        } else {
            assert(s[i] == c) by {
                assert(s.subrange(i, i + 1)[0] == s[i]);
            }
            lemma_parse_str_chars(s, i + 1, rest);
            assert(sp_str_chars(s, i) == Some((seq![c] + rest, i + e.len() + 1)));
            assert(seq![c] + rest =~= v);
        }
    }
}

/// Reading an emitted quoted string yields the original characters.
pub(crate) proof fn lemma_parse_string(s: Seq<char>, i: int, v: Seq<char>)
    requires
        0 <= i,
        i + spec_emit_string(v).len() <= s.len(),
        s.subrange(i, i + spec_emit_string(v).len()) == spec_emit_string(v),
    ensures
        sp_string(s, i) == Some((v, i + spec_emit_string(v).len())),
{
    let e = spec_emit_string(v);
    assert(e =~= seq!['"'] + (spec_escape(v) + seq!['"']));
    lemma_subrange_concat(s, i, seq!['"'], spec_escape(v) + seq!['"']);
    assert(s[i] == '"') by {
        assert(s.subrange(i, i + 1)[0] == s[i]);
    }
    lemma_parse_str_chars(s, i + 1, v);
}

/// Reading an emitted boolean yields that boolean.
pub(crate) proof fn lemma_parse_bool(s: Seq<char>, i: int, b: bool)
    requires
        0 <= i,
        i + spec_emit_bool(b).len() <= s.len(),
        s.subrange(i, i + spec_emit_bool(b).len()) == spec_emit_bool(b),
    ensures
        sp_bool(s, i) == Some((b, i + spec_emit_bool(b).len())),
{
    if b {
        assert(sp_lit_ok(s, i, lit_true()));
    } else {
        assert(sp_lit_ok(s, i, lit_false()));
        if sp_lit_ok(s, i, lit_true()) {
            assert(s.subrange(i, i + 4)[0] == s[i]);
            assert(s.subrange(i, i + 5)[0] == s[i]);
            assert(false);
        }
    }
}

/// Reading an emitted optional string yields the original value.
proof fn lemma_parse_opt(s: Seq<char>, i: int, o: Option<Seq<char>>)
    requires
        0 <= i,
        i + spec_emit_opt(o).len() <= s.len(),
        s.subrange(i, i + spec_emit_opt(o).len()) == spec_emit_opt(o),
    ensures
        sp_opt(s, i) == Some((o, i + spec_emit_opt(o).len())),
{
    match o {
        None => {
            assert(sp_lit_ok(s, i, lit_none()));
        },
        Some(v) => {
            let e = spec_emit_opt(o);
            assert(e =~= lit_some() + (spec_emit_string(v) + seq![')']));
            lemma_subrange_concat(s, i, lit_some(), spec_emit_string(v) + seq![')']);
            lemma_subrange_concat(
                s,
                i + 5,
                spec_emit_string(v),
                seq![')'],
            );
            assert(sp_lit_ok(s, i, lit_some()));
            if sp_lit_ok(s, i, lit_none()) {
                assert(s.subrange(i, i + 4)[0] == s[i]);
                assert(s.subrange(i, i + 5)[0] == s[i]);
                assert(false);
            }
            lemma_parse_string(s, i + 5, v);
            let j = i + 5 + spec_emit_string(v).len();
            assert(s[j] == ')') by {
                assert(s.subrange(j, j + 1)[0] == s[j]);
            }
        },
    }
}

/// Reading an emitted record yields that record.
#[verifier::rlimit(100)]
#[verifier::spinoff_prover]
proof fn lemma_parse_task(s: Seq<char>, i: int, t: TaskView)
    requires
        0 <= i,
        i32::MIN <= t.id <= i32::MAX,
        i + spec_emit_task(t).len() <= s.len(),
        s.subrange(i, i + spec_emit_task(t).len()) == spec_emit_task(t),
    ensures
        sp_task(s, i) == Some((t, i + spec_emit_task(t).len())),
        spec_emit_task(t).len() >= 4,
{
    let p1 = lit_id();
    let p2 = spec_emit_int(t.id);
    let p3 = lit_name();
    let p4 = spec_emit_string(t.name);
    let p5 = lit_description();
    let p6 = spec_emit_opt(t.description);
    let p7 = lit_completed();
    let p8 = spec_emit_bool(t.completed);
    let p9 = seq![')'];
    let e = spec_emit_task(t);
    let r2 = p3 + (p4 + (p5 + (p6 + (p7 + (p8 + p9)))));
    let r3 = p4 + (p5 + (p6 + (p7 + (p8 + p9))));
    let r4 = p5 + (p6 + (p7 + (p8 + p9)));
    let r5 = p6 + (p7 + (p8 + p9));
    let r6 = p7 + (p8 + p9);
    let r7 = p8 + p9;
    assert(e =~= p1 + (p2 + r2));
    let i1 = i + p1.len();
    let i2 = i1 + p2.len();
    let i3 = i2 + p3.len();
    let i4 = i3 + p4.len();
    let i5 = i4 + p5.len();
    let i6 = i5 + p6.len();
    let i7 = i6 + p7.len();
    let i8 = i7 + p8.len();
    lemma_subrange_concat(s, i, p1, p2 + r2);
    lemma_subrange_concat(s, i1, p2, r2);
    assert(r2 == p3 + (p4 + (p5 + (p6 + (p7 + (p8 + p9))))));
    lemma_subrange_concat(s, i2, p3, r3);
    lemma_subrange_concat(s, i3, p4, r4);
    lemma_subrange_concat(s, i4, p5, r5);
    lemma_subrange_concat(s, i5, p6, r6);
    lemma_subrange_concat(s, i6, p7, r7);
    lemma_subrange_concat(s, i7, p8, p9);
    assert(sp_lit_ok(s, i, lit_id()));
    assert(s[i2] == ',') by {
        assert(s.subrange(i2, i2 + p3.len())[0] == s[i2]);
        assert(p3[0] == ',');
    }
    assert(digit_val(',') == -1);
    lemma_parse_int(s, i1, t.id);
    assert(sp_lit_ok(s, i2, lit_name()));
    lemma_parse_string(s, i3, t.name);
    assert(sp_lit_ok(s, i4, lit_description()));
    lemma_parse_opt(s, i5, t.description);
    assert(sp_lit_ok(s, i6, lit_completed()));
    lemma_parse_bool(s, i7, t.completed);
    assert(s[i8] == ')') by {
        assert(s.subrange(i8, i8 + 1)[0] == s[i8]);
    }
    assert(sp_task(s, i) == Some((t, i8 + 1)));
}

/// Reading an emitted record list yields those records, provided no comma
/// follows the list.
proof fn lemma_parse_list(s: Seq<char>, i: int, ts: Seq<TaskView>)
    requires
        0 <= i,
        ts.len() >= 1,
        ids_in_range(ts),
        i + spec_emit_list(ts).len() <= s.len(),
        s.subrange(i, i + spec_emit_list(ts).len()) == spec_emit_list(ts),
        i + spec_emit_list(ts).len() == s.len() || s[i + spec_emit_list(ts).len()] != ',',
    ensures
        sp_task_list(s, i) == Some((ts, i + spec_emit_list(ts).len())),
    decreases ts.len(),
{
    let e = spec_emit_list(ts);
    let t0 = ts[0];
    if ts.len() == 1 {
        lemma_parse_task(s, i, t0);
        let j = i + spec_emit_task(t0).len();
        assert(sp_task_list(s, i) == Some((seq![t0], j)));
        assert(seq![t0] =~= ts);
    } else {
        let rest = ts.drop_first();
        let erest = spec_emit_list(rest);
        assert(e == spec_emit_task(t0) + seq![','] + erest);
        assert(e =~= spec_emit_task(t0) + (seq![','] + erest));
        lemma_subrange_concat(s, i, spec_emit_task(t0), seq![','] + erest);
        let j = i + spec_emit_task(t0).len();
        lemma_subrange_concat(s, j, seq![','], erest);
        lemma_parse_task(s, i, t0);
        assert(s[j] == ',') by {
            assert(s.subrange(j, j + 1)[0] == s[j]);
        }
        assert(ids_in_range(rest)) by {
            assert(forall|k: int|
                0 <= k < rest.len() ==> #[trigger] rest[k] == ts[k + 1]);
        }
        lemma_parse_list(s, j + 1, rest);
        assert(sp_task_list(s, i) == Some((seq![t0] + rest, i + e.len())));
        assert(seq![t0] + rest =~= ts);
    }
}

/// The round trip of the on-disk format: the emitted text of any record
/// sequence, read back, yields an equal record sequence. Identifiers must
/// fit the signed 32-bit field of the format.
#[verifier::rlimit(60)]
#[verifier::spinoff_prover]
pub proof fn lemma_parse_emitted(ts: Seq<TaskView>)
    requires
        ids_in_range(ts),
    ensures
        sp_tasks(spec_emit_tasks(ts)) == Some(ts),
{
    let s = spec_emit_tasks(ts);
    let e = spec_emit_list(ts);
    assert(s[0] == '[') by {
        assert(s == seq!['['] + e + seq![']']);
    }
    if ts.len() == 0 {
        assert(e =~= Seq::<char>::empty());
        assert(s =~= seq!['[', ']']);
        assert(sp_tasks(s) == Some(Seq::<TaskView>::empty()));
        assert(Seq::<TaskView>::empty() =~= ts);
    } else {
        let el = e.len() as int;
        assert(s =~= seq!['['] + (e + seq![']']));
        assert(s.len() == 2 + el);
        assert(s.subrange(0, 2 + el) =~= s);
        lemma_subrange_concat(s, 0, seq!['['], e + seq![']']);
        lemma_subrange_concat(s, 1, e, seq![']']);
        assert(s[1 + el] == ']') by {
            assert(s.subrange(1 + el, 1 + el + 1)[0] == s[1 + el]);
        }
        assert(s.subrange(1, 1 + el) == e);
        assert(s[1] == e[0]) by {
            assert(s.subrange(1, 1 + el)[0] == s[1]);
        }
        assert(e[0] == '(') by {
            let et = spec_emit_task(ts[0]);
            assert(et[0] == '(') by {
                assert(lit_id()[0] == '(');
            }
            if ts.len() == 1 {
                assert(e[0] == et[0]);
            } else {
                assert(e == et + seq![','] + spec_emit_list(ts.drop_first()));
                assert(e[0] == et[0]);
            }
        }
        lemma_parse_list(s, 1, ts);
        assert(sp_tasks(s) == Some(ts));
    }
}

} // verus!
