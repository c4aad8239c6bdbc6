//! A file store for the earlier record shape (see `crate::task`): the same
//! compact RON text, `[(name:"x",description:"y",completed:false)]`, without
//! identifiers. The store remembers where its file lives and turns record
//! lists into the file's text and back; reading and writing the file itself
//! is the caller's part.

use vstd::prelude::*;

use crate::codec::{
    chars_of, lemma_parse_bool, lemma_parse_string, lemma_subrange_concat, lit_at, p_bool,
    p_string, push_bool, push_quoted, sp_bool, sp_lit_ok, sp_string, spec_emit_bool,
    spec_emit_string, string_of,
};
use crate::error::TodoError;
use crate::task::Task;

verus! {

/// The record images of a sequence of the earlier task records: name,
/// description, completion flag.
pub open spec fn legacy_views_of(tasks: Seq<Task>) -> Seq<(Seq<char>, Seq<char>, bool)> {
    tasks.map_values(|t: Task| (t.name@, t.description@, t.completed))
}

pub open spec fn lit_lname() -> Seq<char> {
    seq!['(', 'n', 'a', 'm', 'e', ':']
}

pub open spec fn lit_ldesc() -> Seq<char> {
    seq![',', 'd', 'e', 's', 'c', 'r', 'i', 'p', 't', 'i', 'o', 'n', ':']
}

pub open spec fn lit_lcomp() -> Seq<char> {
    seq![',', 'c', 'o', 'm', 'p', 'l', 'e', 't', 'e', 'd', ':']
}

/// One record of the earlier shape.
pub open spec fn spec_emit_legacy_task(t: (Seq<char>, Seq<char>, bool)) -> Seq<char> {
    lit_lname() + spec_emit_string(t.0) + lit_ldesc() + spec_emit_string(t.1) + lit_lcomp()
        + spec_emit_bool(t.2) + seq![')']
}

/// Records joined by commas, without a trailing comma.
pub open spec fn spec_emit_legacy_list(ts: Seq<(Seq<char>, Seq<char>, bool)>) -> Seq<char>
    decreases ts.len(),
{
    if ts.len() == 0 {
        Seq::empty()
    } else if ts.len() == 1 {
        spec_emit_legacy_task(ts[0])
    } else {
        spec_emit_legacy_task(ts[0]) + seq![','] + spec_emit_legacy_list(ts.drop_first())
    }
}

/// The whole file: the record list between square brackets.
pub open spec fn spec_emit_legacy_tasks(ts: Seq<(Seq<char>, Seq<char>, bool)>) -> Seq<char> {
    seq!['['] + spec_emit_legacy_list(ts) + seq![']']
}

/// One record of the earlier shape at position `i`.
pub open spec fn sp_legacy_task(s: Seq<char>, i: int) -> Option<((Seq<char>, Seq<char>, bool), int)> {
    if !sp_lit_ok(s, i, lit_lname()) {
        None
    } else {
        match sp_string(s, i + 6) {
            None => None,
            Some((name, j1)) => {
                if !sp_lit_ok(s, j1, lit_ldesc()) {
                    None
                } else {
                    match sp_string(s, j1 + 13) {
                        None => None,
                        Some((description, j2)) => {
                            if !sp_lit_ok(s, j2, lit_lcomp()) {
                                None
                            } else {
                                match sp_bool(s, j2 + 11) {
                                    None => None,
                                    Some((completed, j3)) => {
                                        if j3 < s.len() && s[j3] == ')' {
                                            Some(((name, description, completed), j3 + 1))
                                        } else {
                                            None
                                        }
                                    },
                                }
                            }
                        },
                    }
                }
            },
        }
    }
}

/// One or more records of the earlier shape separated by commas.
pub open spec fn sp_legacy_list(s: Seq<char>, i: int) -> Option<
    (Seq<(Seq<char>, Seq<char>, bool)>, int),
>
    decreases s.len() - i,
    when 0 <= i <= s.len()
{
    match sp_legacy_task(s, i) {
        None => None,
        Some((t, j)) => {
            if i < j && j <= s.len() {
                if j < s.len() && s[j] == ',' {
                    match sp_legacy_list(s, j + 1) {
                        Some((ts, k)) => Some((seq![t] + ts, k)),
                        None => None,
                    }
                } else {
                    Some((seq![t], j))
                }
            } else {
                None
            }
        },
    }
}

/// The whole text: a record list of the earlier shape between square
/// brackets, and nothing after it.
pub open spec fn sp_legacy_tasks(s: Seq<char>) -> Option<Seq<(Seq<char>, Seq<char>, bool)>> {
    if s.len() >= 2 && s[0] == '[' {
        if s[1] == ']' {
            if s.len() == 2 {
                Some(Seq::empty())
            } else {
                None
            }
        } else {
            match sp_legacy_list(s, 1) {
                Some((ts, j)) => {
                    if j + 1 == s.len() && s[j] == ']' {
                        Some(ts)
                    } else {
                        None
                    }
                },
                None => None,
            }
        }
    } else {
        None
    }
}

#[verifier::rlimit(100)]
#[verifier::spinoff_prover]
fn push_legacy_task(t: &Task, out: &mut Vec<char>)
    ensures
        final(out)@ == old(out)@ + spec_emit_legacy_task((t.name@, t.description@, t.completed)),
{
    let ghost o0 = out@;
    out.push('(');
    out.push('n');
    out.push('a');
    out.push('m');
    out.push('e');
    out.push(':');
    let ghost a1 = lit_lname();
    assert(out@ =~= o0 + a1);
    let name_chars = chars_of(t.name.as_str());
    push_quoted(&name_chars, out);
    let ghost a2 = a1 + spec_emit_string(t.name@);
    assert(out@ =~= o0 + a2);
    out.push(',');
    out.push('d');
    out.push('e');
    out.push('s');
    out.push('c');
    out.push('r');
    out.push('i');
    out.push('p');
    out.push('t');
    out.push('i');
    out.push('o');
    out.push('n');
    out.push(':');
    let ghost a3 = a2 + lit_ldesc();
    assert(out@ =~= o0 + a3);
    let desc_chars = chars_of(t.description.as_str());
    push_quoted(&desc_chars, out);
    let ghost a4 = a3 + spec_emit_string(t.description@);
    assert(out@ =~= o0 + a4);
    out.push(',');
    out.push('c');
    out.push('o');
    out.push('m');
    out.push('p');
    out.push('l');
    out.push('e');
    out.push('t');
    out.push('e');
    out.push('d');
    out.push(':');
    let ghost a5 = a4 + lit_lcomp();
    assert(out@ =~= o0 + a5);
    push_bool(t.completed, out);
    let ghost a6 = a5 + spec_emit_bool(t.completed);
    assert(out@ =~= o0 + a6);
    out.push(')');
    assert(out@ =~= o0 + (a6 + seq![')']));
    assert(a6 + seq![')'] == spec_emit_legacy_task((t.name@, t.description@, t.completed)));
}

fn p_legacy_task(s: &Vec<char>, i: usize) -> (r: Option<(Task, usize)>)
    ensures
        match r {
            Some((t, j)) => sp_legacy_task(s@, i as int) == Some(
                ((t.name@, t.description@, t.completed), j as int),
            ),
            None => sp_legacy_task(s@, i as int) is None,
        },
{
    let name_lit: [char; 6] = ['(', 'n', 'a', 'm', 'e', ':'];
    let desc_lit: [char; 13] = [
        ',',
        'd',
        'e',
        's',
        'c',
        'r',
        'i',
        'p',
        't',
        'i',
        'o',
        'n',
        ':',
    ];
    let comp_lit: [char; 11] = [',', 'c', 'o', 'm', 'p', 'l', 'e', 't', 'e', 'd', ':'];
    proof {
        assert(name_lit@ =~= lit_lname());
        assert(desc_lit@ =~= lit_ldesc());
        assert(comp_lit@ =~= lit_lcomp());
    }
    let n = s.len();
    if !lit_at(s, i, name_lit.as_slice()) {
        return None;
    }
    proof {
        assert(i + 6 <= n);
    }
    let (name_chars, j1) = match p_string(s, i + 6) {
        None => {
            return None;
        },
        Some(p) => p,
    };
    if !lit_at(s, j1, desc_lit.as_slice()) {
        return None;
    }
    proof {
        assert(j1 + 13 <= n);
    }
    let (desc_chars, j2) = match p_string(s, j1 + 13) {
        None => {
            return None;
        },
        Some(p) => p,
    };
    if !lit_at(s, j2, comp_lit.as_slice()) {
        return None;
    }
    proof {
        assert(j2 + 11 <= n);
    }
    let (completed, j3) = match p_bool(s, j2 + 11) {
        None => {
            return None;
        },
        Some(p) => p,
    };
    if j3 < n && s[j3] == ')' {
        let task = Task {
            name: string_of(&name_chars),
            description: string_of(&desc_chars),
            completed,
        };
        Some((task, j3 + 1))
    } else {
        None
    }
}

/// A task file's location, for the earlier record shape.
pub struct RonFilePersistence {
    pub location: String,
}

impl RonFilePersistence {
    /// Remembers the given location.
    pub fn new(location: String) -> (r: RonFilePersistence)
        ensures
            r.location@ == location@,
    {
        RonFilePersistence { location }
    }

    /// The full text the file must hold to carry the given records: the
    /// caller writes exactly this.
    pub fn save_text(&self, data: &Vec<Task>) -> (r: String)
        ensures
            r@ == spec_emit_legacy_tasks(legacy_views_of(data@)),
    {
        let mut out: Vec<char> = Vec::new();
        out.push('[');
        let n = data.len();
        let mut i: usize = 0;
        while i < n
            invariant
                n == data@.len(),
                i <= n,
                i == 0 ==> out@ == seq!['['],
                0 < i <= n ==> out@ == seq!['['] + spec_emit_legacy_list(
                    legacy_views_of(data@.take(i as int)),
                ),
            decreases n - i,
        {
            if i > 0 {
                out.push(',');
            }
            push_legacy_task(&data[i], &mut out);
            proof {
                lemma_emit_legacy_list_snoc(legacy_views_of(data@), i as int);
                assert(legacy_views_of(data@.take(i as int)) =~= legacy_views_of(data@).take(
                    i as int,
                ));
                assert(legacy_views_of(data@.take(i + 1 as int)) =~= legacy_views_of(data@).take(
                    i + 1 as int,
                ));
                if i == 0 {
                    assert(out@ =~= seq!['['] + spec_emit_legacy_list(
                        legacy_views_of(data@.take(1)),
                    ));
                } else {
                    assert(out@ =~= seq!['['] + spec_emit_legacy_list(
                        legacy_views_of(data@.take(i + 1 as int)),
                    ));
                }
            }
            i = i + 1;
        }
        out.push(']');
        proof {
            assert(legacy_views_of(data@.take(n as int)) =~= legacy_views_of(data@));
            if n == 0 {
                assert(spec_emit_legacy_list(legacy_views_of(data@)) =~= Seq::<char>::empty());
            }
            assert(out@ =~= spec_emit_legacy_tasks(legacy_views_of(data@)));
        }
        string_of(&out)
    }

    /// Reads the records back from the file's text; text of any other shape
    /// is corrupt persisted content.
    pub fn load_text(&self, content: &str) -> (r: Result<Vec<Task>, TodoError>)
        ensures
            match r {
                Ok(ts) => sp_legacy_tasks(content@) == Some(legacy_views_of(ts@)),
                Err(e) => sp_legacy_tasks(content@) is None && e is SerializationFailure,
            },
    {
        let s = chars_of(content);
        let n = s.len();
        if n >= 2 && s[0] == '[' {
            if s[1] == ']' {
                if n == 2 {
                    let empty_list: Vec<Task> = Vec::new();
                    proof {
                        assert(legacy_views_of(Seq::<Task>::empty()) =~= Seq::<
                            (Seq<char>, Seq<char>, bool),
                        >::empty());
                    }
                    Ok(empty_list)
                } else {
                    Err(TodoError::SerializationFailure)
                }
            } else {
                match p_legacy_list(&s, 1) {
                    Some((ts, j)) => {
                        if j < n && s[j] == ']' && j + 1 == n {
                            Ok(ts)
                        } else {
                            Err(TodoError::SerializationFailure)
                        }
                    },
                    None => Err(TodoError::SerializationFailure),
                }
            }
        } else {
            Err(TodoError::SerializationFailure)
        }
    }
}

fn p_legacy_list(s: &Vec<char>, start: usize) -> (r: Option<(Vec<Task>, usize)>)
    requires
        start <= s@.len(),
    ensures
        match r {
            Some((ts, j)) => sp_legacy_list(s@, start as int) == Some(
                (legacy_views_of(ts@), j as int),
            ),
            None => sp_legacy_list(s@, start as int) is None,
        },
{
    let n = s.len();
    let mut cur: usize = start;
    let mut acc: Vec<Task> = Vec::new();
    loop
        invariant
            n == s@.len(),
            start <= cur <= n,
            match sp_legacy_list(s@, cur as int) {
                Some((ts, k)) => sp_legacy_list(s@, start as int) == Some(
                    (legacy_views_of(acc@) + ts, k),
                ),
                None => sp_legacy_list(s@, start as int) is None,
            },
        decreases n - cur,
    {
        let (t, j) = match p_legacy_task(s, cur) {
            None => {
                return None;
            },
            Some(p) => p,
        };
        if !(cur < j && j <= n) {
            return None;
        }
        let ghost tv = (t.name@, t.description@, t.completed);
        acc.push(t);
        proof {
            assert(legacy_views_of(acc@.drop_last()) =~= legacy_views_of(acc@).drop_last());
            assert(legacy_views_of(acc@).last() == tv);
        }
        if j < n && s[j] == ',' {
            proof {
                if let Some((ts2, k)) = sp_legacy_list(s@, j + 1 as int) {
                    assert(legacy_views_of(acc@) + ts2 =~= legacy_views_of(acc@).drop_last() + (
                    seq![tv] + ts2));
                }
            }
            cur = j + 1;
        } else {
            proof {
                assert(legacy_views_of(acc@) =~= legacy_views_of(acc@).drop_last() + seq![tv]);
            }
            return Some((acc, j));
        }
    }
}

/// Extending the record sequence by one appends a comma (after a first
/// record) and the record's text.
proof fn lemma_emit_legacy_list_snoc(ts: Seq<(Seq<char>, Seq<char>, bool)>, i: int)
    requires
        0 <= i < ts.len(),
    ensures
        i == 0 ==> spec_emit_legacy_list(ts.take(1)) == spec_emit_legacy_task(ts[0]),
        i > 0 ==> spec_emit_legacy_list(ts.take(i + 1)) == spec_emit_legacy_list(ts.take(i))
            + seq![','] + spec_emit_legacy_task(ts[i]),
    decreases i,
{
    if i == 0 {
        assert(ts.take(1).len() == 1);
        assert(ts.take(1)[0] == ts[0]);
    } else {
        let t = ts.drop_first();
        assert(ts.take(i + 1).len() == i + 1 >= 2);
        assert(ts.take(i + 1)[0] == ts[0]);
        assert(ts.take(i)[0] == ts[0]);
        assert(ts.take(i + 1).drop_first() =~= t.take(i));
        assert(ts.take(i).drop_first() =~= t.take(i - 1));
        lemma_emit_legacy_list_snoc(t, i - 1);
        if i == 1 {
            assert(spec_emit_legacy_list(ts.take(2)) == spec_emit_legacy_task(ts[0]) + seq![',']
                + spec_emit_legacy_list(t.take(1)));
            assert(spec_emit_legacy_list(ts.take(1)) == spec_emit_legacy_task(ts[0]));
            assert(t.take(1)[0] == ts[1]);
            assert(spec_emit_legacy_list(t.take(1)) == spec_emit_legacy_task(ts[1]));
            assert(spec_emit_legacy_list(ts.take(i + 1)) =~= spec_emit_legacy_list(ts.take(i))
                + seq![','] + spec_emit_legacy_task(ts[i]));
        } else {
            assert(t[i - 1] == ts[i]);
            assert(spec_emit_legacy_list(ts.take(i + 1)) =~= spec_emit_legacy_list(ts.take(i))
                + seq![','] + spec_emit_legacy_task(ts[i]));
        }
    }
}

// ---------------------------------------------------------------------------
// The round trip of the earlier shape's format
// ---------------------------------------------------------------------------

/// Reading an emitted record of the earlier shape yields that record.
#[verifier::rlimit(100)]
#[verifier::spinoff_prover]
proof fn lemma_parse_legacy_task(s: Seq<char>, i: int, t: (Seq<char>, Seq<char>, bool))
    requires
        0 <= i,
        i + spec_emit_legacy_task(t).len() <= s.len(),
        s.subrange(i, i + spec_emit_legacy_task(t).len()) == spec_emit_legacy_task(t),
    ensures
        sp_legacy_task(s, i) == Some((t, i + spec_emit_legacy_task(t).len())),
        spec_emit_legacy_task(t).len() >= 4,
{
    let p1 = lit_lname();
    let p2 = spec_emit_string(t.0);
    let p3 = lit_ldesc();
    let p4 = spec_emit_string(t.1);
    let p5 = lit_lcomp();
    let p6 = spec_emit_bool(t.2);
    let p7 = seq![')'];
    let e = spec_emit_legacy_task(t);
    let r2 = p2 + (p3 + (p4 + (p5 + (p6 + p7))));
    let r3 = p3 + (p4 + (p5 + (p6 + p7)));
    let r4 = p4 + (p5 + (p6 + p7));
    let r5 = p5 + (p6 + p7);
    let r6 = p6 + p7;
    assert(e =~= p1 + r2);
    let i1 = i + p1.len();
    let i2 = i1 + p2.len();
    let i3 = i2 + p3.len();
    let i4 = i3 + p4.len();
    let i5 = i4 + p5.len();
    let i6 = i5 + p6.len();
    lemma_subrange_concat(s, i, p1, r2);
    lemma_subrange_concat(s, i1, p2, r3);
    lemma_subrange_concat(s, i2, p3, r4);
    lemma_subrange_concat(s, i3, p4, r5);
    lemma_subrange_concat(s, i4, p5, r6);
    lemma_subrange_concat(s, i5, p6, p7);
    assert(sp_lit_ok(s, i, lit_lname()));
    lemma_parse_string(s, i1, t.0);
    assert(sp_lit_ok(s, i2, lit_ldesc()));
    lemma_parse_string(s, i3, t.1);
    assert(sp_lit_ok(s, i4, lit_lcomp()));
    lemma_parse_bool(s, i5, t.2);
    assert(s[i6] == ')') by {
        assert(s.subrange(i6, i6 + 1)[0] == s[i6]);
    }
    assert(sp_legacy_task(s, i) == Some((t, i6 + 1)));
}

/// Reading an emitted record list of the earlier shape yields those records,
/// provided no comma follows the list.
proof fn lemma_parse_legacy_list(s: Seq<char>, i: int, ts: Seq<(Seq<char>, Seq<char>, bool)>)
    requires
        0 <= i,
        ts.len() >= 1,
        i + spec_emit_legacy_list(ts).len() <= s.len(),
        s.subrange(i, i + spec_emit_legacy_list(ts).len()) == spec_emit_legacy_list(ts),
        i + spec_emit_legacy_list(ts).len() == s.len() || s[i + spec_emit_legacy_list(ts).len()]
            != ',',
    ensures
        sp_legacy_list(s, i) == Some((ts, i + spec_emit_legacy_list(ts).len())),
    decreases ts.len(),
{
    let e = spec_emit_legacy_list(ts);
    let t0 = ts[0];
    if ts.len() == 1 {
        lemma_parse_legacy_task(s, i, t0);
        let j = i + spec_emit_legacy_task(t0).len();
        assert(sp_legacy_list(s, i) == Some((seq![t0], j)));
        assert(seq![t0] =~= ts);
    } else {
        let rest = ts.drop_first();
        let erest = spec_emit_legacy_list(rest);
        assert(e == spec_emit_legacy_task(t0) + seq![','] + erest);
        assert(e =~= spec_emit_legacy_task(t0) + (seq![','] + erest));
        lemma_subrange_concat(s, i, spec_emit_legacy_task(t0), seq![','] + erest);
        let j = i + spec_emit_legacy_task(t0).len();
        lemma_subrange_concat(s, j, seq![','], erest);
        lemma_parse_legacy_task(s, i, t0);
        assert(s[j] == ',') by {
            assert(s.subrange(j, j + 1)[0] == s[j]);
        }
        lemma_parse_legacy_list(s, j + 1, rest);
        assert(sp_legacy_list(s, i) == Some((seq![t0] + rest, i + e.len())));
        assert(seq![t0] + rest =~= ts);
    }
}

/// The round trip of the earlier shape's format: the emitted text of any
/// record sequence, read back, yields an equal record sequence — including
/// the empty one.
pub proof fn lemma_parse_legacy_emitted(ts: Seq<(Seq<char>, Seq<char>, bool)>)
    ensures
        sp_legacy_tasks(spec_emit_legacy_tasks(ts)) == Some(ts),
{
    let s = spec_emit_legacy_tasks(ts);
    let e = spec_emit_legacy_list(ts);
    assert(s[0] == '[') by {
        assert(s == seq!['['] + e + seq![']']);
    }
    if ts.len() == 0 {
        assert(e =~= Seq::<char>::empty());
        assert(s =~= seq!['[', ']']);
        assert(sp_legacy_tasks(s) == Some(Seq::<(Seq<char>, Seq<char>, bool)>::empty()));
        assert(Seq::<(Seq<char>, Seq<char>, bool)>::empty() =~= ts);
    } else {
        let el = e.len() as int;
        assert(s =~= seq!['['] + (e + seq![']']));
        assert(s.len() == 2 + el);
        assert(s.subrange(0, 2 + el) =~= s);
        lemma_subrange_concat(s, 0, seq!['['], e + seq![']']);
        lemma_subrange_concat(s, 1, e, seq![']']);
        assert(s[1 + el] == ']') by {
            assert(s.subrange(1 + el, 1 + el + 1)[0] == s[1 + el]);
        }
        assert(s.subrange(1, 1 + el) == e);
        assert(s[1] == e[0]) by {
            assert(s.subrange(1, 1 + el)[0] == s[1]);
        }
        assert(e[0] == '(') by {
            let et = spec_emit_legacy_task(ts[0]);
            assert(et[0] == '(') by {
                assert(lit_lname()[0] == '(');
            }
            if ts.len() == 1 {
                assert(e[0] == et[0]);
            } else {
                assert(e == et + seq![','] + spec_emit_legacy_list(ts.drop_first()));
                assert(e[0] == et[0]);
            }
        }
        lemma_parse_legacy_list(s, 1, ts);
        assert(sp_legacy_tasks(s) == Some(ts));
    }
}

} // verus!
