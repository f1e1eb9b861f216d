use vstd::prelude::*;
use crate::process::{ProcessNode, ProcessState};
use vstd::std_specs::iter::IteratorSpec;

verus! {

broadcast use vstd::string::group_string_axioms;

/// Why a process's status text could not be read as a record.
#[derive(Debug, Clone, Copy, PartialEq, Eq, Structural)]
pub enum StatusError {
    /// The value after `PPid:` is not a pid.
    BadParentPid,
}

pub open spec fn is_space(c: char) -> bool {
    c == ' ' || c == '\t' || c == '\r' || c == '\x0B' || c == '\x0C'
}

pub open spec fn is_newline(c: char) -> bool {
    c == '\n'
}

/// How many leading characters of `s` are not `stop` characters.
pub open spec fn run_len(s: Seq<char>, stop: spec_fn(char) -> bool) -> nat
    decreases s.len(),
{
    if s.len() == 0 || stop(s[0]) {
        0
    } else {
        1 + run_len(s.drop_first(), stop)
    }
}

/// The lines of `s`: the pieces between newlines, without a last empty piece
/// after a final newline.
pub open spec fn lines_of(s: Seq<char>) -> Seq<Seq<char>>
    decreases s.len(),
{
    if s.len() == 0 {
        seq![]
    } else {
        let k = run_len(s, |c: char| is_newline(c));
        if k >= s.len() {
            seq![s]
        } else {
            seq![s.take(k as int)] + lines_of(s.skip(k + 1 as int))
        }
    }
}

/// The whitespace-separated words of `s`, in order.
pub open spec fn tokens_of(s: Seq<char>) -> Seq<Seq<char>>
    decreases s.len(),
{
    if s.len() == 0 {
        seq![]
    } else if is_space(s[0]) {
        tokens_of(s.drop_first())
    } else {
        let k = run_len(s, |c: char| is_space(c));
        if k >= s.len() {
            seq![s]
        } else {
            seq![s.take(k as int)] + tokens_of(s.skip(k as int))
        }
    }
}

/// The labelled values found in a status text; a later line with the same
/// label replaces an earlier one.
pub struct StatusFields {
    pub name: Option<Seq<char>>,
    pub ppid: Option<Seq<char>>,
    pub state: Option<Seq<char>>,
}

/// `f` after reading one line of words: a known label followed by a value
/// sets that field.
pub open spec fn read_line(f: StatusFields, toks: Seq<Seq<char>>) -> StatusFields {
    if toks.len() < 2 {
        f
    } else if toks[0] == "Name:"@ {
        StatusFields { name: Some(toks[1]), ..f }
    } else if toks[0] == "PPid:"@ {
        StatusFields { ppid: Some(toks[1]), ..f }
    } else if toks[0] == "State:"@ {
        StatusFields { state: Some(toks[1]), ..f }
    } else {
        f
    }
}

/// The fields of a status text given as its lines.
pub open spec fn fields_of(lines: Seq<Seq<char>>) -> StatusFields
    decreases lines.len(),
{
    if lines.len() == 0 {
        StatusFields { name: None, ppid: None, state: None }
    } else {
        read_line(fields_of(lines.drop_last()), tokens_of(lines.last()))
    }
}

pub open spec fn is_digit(c: char) -> bool {
    '0' <= c <= '9'
}

/// The number written by the decimal digits `s`.
pub open spec fn digits_value(s: Seq<char>) -> nat
    decreases s.len(),
{
    if s.len() == 0 {
        0
    } else {
        digits_value(s.drop_last()) * 10 + (s.last() as nat - '0' as nat) as nat
    }
}

/// The pid written by `s`: one or more decimal digits whose value fits an `i32`.
pub open spec fn pid_of(s: Seq<char>) -> Option<i32> {
    if s.len() > 0 && (forall|i: int| 0 <= i < s.len() ==> is_digit(#[trigger] s[i]))
        && digits_value(s) <= i32::MAX {
        Some(digits_value(s) as i32)
    } else {
        None
    }
}

/// The run state named by a status code.
pub open spec fn state_of(code: Seq<char>) -> ProcessState {
    if code == seq!['R'] {
        ProcessState::Running
    } else if code == seq!['S'] {
        ProcessState::Sleeping
    } else if code == seq!['Z'] {
        ProcessState::Zombie
    } else if code == seq!['T'] {
        ProcessState::TracingStop
    } else if code == seq!['X'] {
        ProcessState::Dead
    } else {
        ProcessState::Idle
    }
}

proof fn lemma_run_len(s: Seq<char>, stop: spec_fn(char) -> bool, k: int)
    requires
        0 <= k <= s.len(),
        forall|j: int| 0 <= j < k ==> !stop(#[trigger] s[j]),
        k == s.len() || stop(s[k]),
    ensures
        run_len(s, stop) == k,
    decreases s.len(),
{
    if s.len() > 0 && k > 0 {
        let t = s.drop_first();
        assert forall|j: int| 0 <= j < k - 1 implies !stop(#[trigger] t[j]) by {
            assert(t[j] == s[j + 1]);
        }
        if k < s.len() {
            assert(t[k - 1] == s[k]);
        }
        lemma_run_len(t, stop, k - 1);
    }
}

/// Relies on `String::from_iter` over `char`s: the string holds exactly
/// those characters, in order.
#[verifier::external_body]
fn string_from_chars(v: &Vec<char>) -> (r: String)
    ensures
        r@ == v@,
{
    String::from_iter(v.iter())
}

/// The characters of `s`, in order.
pub fn text_chars(s: &str) -> (r: Vec<char>)
    ensures
        r@ == s@,
{
    let mut it = s.chars();
    let mut out: Vec<char> = Vec::new();
    let ghost n = s@.len();
    loop
        invariant
            it.obeys_prophetic_iter_laws(),
            it.remaining() == s@.skip(out@.len() as int),
            out@ == s@.take(out@.len() as int),
            out@.len() <= n,
            n == s@.len(),
        decreases n - out@.len(),
    {
        match it.next() {
            Some(c) => {
                assert(s@.skip(out@.len() as int)[0] == s@[out@.len() as int]);
                assert(s@.skip(out@.len() as int).drop_first() =~= s@.skip(out@.len() + 1 as int));
                out.push(c);
                assert(out@ =~= s@.take(out@.len() as int));
            },
            None => {
                assert(out@ =~= s@);
                return out;
            },
        }
    }
}

fn slice_chars(v: &Vec<char>, lo: usize, hi: usize) -> (r: Vec<char>)
    requires
        lo <= hi <= v.len(),
    ensures
        r@ == v@.subrange(lo as int, hi as int),
{
    let mut r: Vec<char> = Vec::new();
    let mut i = lo;
    while i < hi
        invariant
            lo <= i <= hi <= v.len(),
            r@ == v@.subrange(lo as int, i as int),
        decreases hi - i,
    {
        r.push(v[i]);
        assert(r@ =~= v@.subrange(lo as int, i + 1));
        i = i + 1;
    }
    r
}

/// The lines of the text `v`.
pub fn split_lines(v: &Vec<char>) -> (r: Vec<Vec<char>>)
    ensures
        r@.map_values(|l: Vec<char>| l@) == lines_of(v@),
{
    let mut out: Vec<Vec<char>> = Vec::new();
    let mut pos: usize = 0;
    assert(v@.skip(0) =~= v@);
    while pos < v.len()
        invariant
            pos <= v.len(),
            out@.map_values(|l: Vec<char>| l@) + lines_of(v@.skip(pos as int)) == lines_of(v@),
        decreases v.len() - pos,
    {
        let ghost s = v@.skip(pos as int);
        let mut end = pos;
        while end < v.len() && v[end] != '\n'
            invariant
                pos <= end <= v.len(),
                forall|j: int| pos <= j < end ==> v@[j] != '\n',
            decreases v.len() - end,
        {
            end = end + 1;
        }
        proof {
            let k = end - pos;
            assert forall|j: int| 0 <= j < k implies !is_newline(#[trigger] s[j]) by {
                assert(s[j] == v@[pos + j]);
            }
            if end < v.len() {
                assert(s[k] == v@[end as int]);
            }
            lemma_run_len(s, |c: char| is_newline(c), k);
        }
        let line = slice_chars(v, pos, end);
        let ghost before = out@.map_values(|l: Vec<char>| l@);
        assert(line@ =~= s.take(end - pos));
        out.push(line);
        assert(out@.map_values(|l: Vec<char>| l@) =~= before.push(line@));
        if end < v.len() {
            assert(s.skip(end - pos + 1) =~= v@.skip(end + 1));
            assert(before + lines_of(s) =~= before.push(line@) + lines_of(v@.skip(end + 1)));
            pos = end + 1;
        } else {
            assert(s =~= line@);
            assert(v@.skip(end as int) =~= Seq::<char>::empty());
            assert(before.push(line@) + lines_of(v@.skip(end as int)) =~= before + lines_of(s));
            pos = end;
        }
    }
    assert(v@.skip(pos as int) =~= Seq::<char>::empty());
    assert(out@.map_values(|l: Vec<char>| l@) + lines_of(v@.skip(pos as int)) =~= out@.map_values(
        |l: Vec<char>| l@,
    ));
    out
}

fn is_space_char(c: char) -> (r: bool)
    ensures
        r == is_space(c),
{
    c == ' ' || c == '\t' || c == '\r' || c == '\x0B' || c == '\x0C'
}

/// The whitespace-separated words of the line `v`.
pub fn split_tokens(v: &Vec<char>) -> (r: Vec<Vec<char>>)
    ensures
        r@.map_values(|l: Vec<char>| l@) == tokens_of(v@),
{
    let mut out: Vec<Vec<char>> = Vec::new();
    let mut pos: usize = 0;
    assert(v@.skip(0) =~= v@);
    while pos < v.len()
        invariant
            pos <= v.len(),
            out@.map_values(|l: Vec<char>| l@) + tokens_of(v@.skip(pos as int)) == tokens_of(v@),
        decreases v.len() - pos,
    {
        let ghost s = v@.skip(pos as int);
        assert(s[0] == v@[pos as int]);
        if is_space_char(v[pos]) {
            assert(s.drop_first() =~= v@.skip(pos + 1));
            pos = pos + 1;
        } else {
            let mut end = pos;
            while end < v.len() && !is_space_char(v[end])
                invariant
                    pos <= end <= v.len(),
                    forall|j: int| pos <= j < end ==> !is_space(v@[j]),
                decreases v.len() - end,
            {
                end = end + 1;
            }
            proof {
                let k = end - pos;
                assert forall|j: int| 0 <= j < k implies !is_space(#[trigger] s[j]) by {
                    assert(s[j] == v@[pos + j]);
                }
                if end < v.len() {
                    assert(s[k] == v@[end as int]);
                }
                lemma_run_len(s, |c: char| is_space(c), k);
            }
            let word = slice_chars(v, pos, end);
            let ghost before = out@.map_values(|l: Vec<char>| l@);
            assert(word@ =~= s.take(end - pos));
            out.push(word);
            assert(out@.map_values(|l: Vec<char>| l@) =~= before.push(word@));
            assert(s.skip(end - pos) =~= v@.skip(end as int));
            if end == v.len() {
                assert(word@ =~= s);
                assert(v@.skip(end as int) =~= Seq::<char>::empty());
            }
            assert(before + tokens_of(s) =~= before.push(word@) + tokens_of(v@.skip(end as int)));
            pos = end;
        }
    }
    assert(v@.skip(pos as int) =~= Seq::<char>::empty());
    assert(out@.map_values(|l: Vec<char>| l@) + tokens_of(v@.skip(pos as int)) =~= out@.map_values(
        |l: Vec<char>| l@,
    ));
    out
}

fn chars_are(v: &Vec<char>, lit: &str) -> (r: bool)
    ensures
        r == (v@ == lit@),
{
    let w = text_chars(lit);
    if v.len() != w.len() {
        return false;
    }
    let mut i: usize = 0;
    while i < v.len()
        invariant
            v.len() == w.len(),
            w@ == lit@,
            i <= v.len(),
            forall|j: int| 0 <= j < i ==> v@[j] == w@[j],
        decreases v.len() - i,
    {
        if v[i] != w[i] {
            return false;
        }
        i = i + 1;
    }
    assert(v@ =~= w@);
    true
}

proof fn lemma_digits_value_grows(s: Seq<char>, i: int)
    requires
        0 <= i <= s.len(),
    ensures
        digits_value(s.take(i)) <= digits_value(s),
    decreases s.len() - i,
{
    if i < s.len() {
        lemma_digits_value_grows(s, i + 1);
        let t = s.take(i + 1);
        assert(t.drop_last() =~= s.take(i));
        assert(digits_value(t) >= digits_value(t.drop_last()));
    } else {
        assert(s.take(i) =~= s);
    }
}

/// The pid written by the characters `v`, if they are one.
pub fn parse_pid(v: &Vec<char>) -> (r: Option<i32>)
    ensures
        r == pid_of(v@),
{
    if v.len() == 0 {
        return None;
    }
    let mut acc: u64 = 0;
    let mut i: usize = 0;
    while i < v.len()
        invariant
            i <= v.len(),
            forall|j: int| 0 <= j < i ==> is_digit(#[trigger] v@[j]),
            acc == digits_value(v@.take(i as int)),
            acc <= i32::MAX,
        decreases v.len() - i,
    {
        let c = v[i];
        if !('0' <= c && c <= '9') {
            assert(!is_digit(v@[i as int]));
            return None;
        }
        let d = (c as u32 - '0' as u32) as u64;
        acc = acc * 10 + d;
        assert(v@.take(i + 1).drop_last() =~= v@.take(i as int));
        if acc > i32::MAX as u64 {
            proof {
                lemma_digits_value_grows(v@, i + 1);
            }
            return None;
        }
        i = i + 1;
    }
    assert(v@.take(v.len() as int) =~= v@);
    Some(acc as i32)
}

/// The run state named by the status code `v`.
pub fn parse_state(v: &Vec<char>) -> (r: ProcessState)
    ensures
        r == state_of(v@),
{
    if v.len() != 1 {
        assert(v@ != seq!['R'] && v@ != seq!['S'] && v@ != seq!['Z']);
        assert(v@ != seq!['T'] && v@ != seq!['X']);
        return ProcessState::Idle;
    }
    let c = v[0];
    assert(v@ =~= seq![c]);
    if c == 'R' {
        ProcessState::Running
    } else if c == 'S' {
        ProcessState::Sleeping
    } else if c == 'Z' {
        ProcessState::Zombie
    } else if c == 'T' {
        ProcessState::TracingStop
    } else if c == 'X' {
        ProcessState::Dead
    } else {
        ProcessState::Idle
    }
}

/// The record that a status text describes for `pid`: `Name:` gives the
/// name, `PPid:` the parent pid and `State:` the run state, each read from the
/// first word after the label, wherever the lines stand. A missing name is
/// empty, a missing parent pid is 0 and a missing or unknown state is `Idle`.
/// Fails when the value after `PPid:` is not a pid.
pub fn parse_status(pid: i32, text: &str) -> (r: Result<ProcessNode, StatusError>)
    ensures
        ({
            let f = fields_of(lines_of(text@));
            match r {
                Ok(n) => {
                    &&& f.ppid is Some ==> pid_of(f.ppid->Some_0) is Some
                    &&& n.pid == pid
                    &&& n.ppid == (if f.ppid is Some {
                        pid_of(f.ppid->Some_0)->Some_0
                    } else {
                        0
                    })
                    &&& n.name@ == (if f.name is Some {
                        f.name->Some_0
                    } else {
                        Seq::empty()
                    })
                    &&& n.state == (if f.state is Some {
                        state_of(f.state->Some_0)
                    } else {
                        ProcessState::Idle
                    })
                    &&& n.children@.len() == 0
                },
                Err(StatusError::BadParentPid) => f.ppid is Some && pid_of(f.ppid->Some_0) is None,
            }
        }),
{
    let chars = text_chars(text);
    let lines = split_lines(&chars);
    let ghost ls = lines@.map_values(|l: Vec<char>| l@);
    let mut name: Option<Vec<char>> = None;
    let mut ppid: Option<Vec<char>> = None;
    let mut state: Option<Vec<char>> = None;
    let mut i: usize = 0;
    while i < lines.len()
        invariant
            i <= lines.len(),
            ls == lines@.map_values(|l: Vec<char>| l@),
            ({
                let f = fields_of(ls.take(i as int));
                &&& f.name == (match name {
                    Some(v) => Some(v@),
                    None => None::<Seq<char>>,
                })
                &&& f.ppid == (match ppid {
                    Some(v) => Some(v@),
                    None => None::<Seq<char>>,
                })
                &&& f.state == (match state {
                    Some(v) => Some(v@),
                    None => None::<Seq<char>>,
                })
            }),
        decreases lines.len() - i,
    {
        let toks = split_tokens(&lines[i]);
        let ghost tv = toks@.map_values(|l: Vec<char>| l@);
        assert(ls.take(i + 1).drop_last() =~= ls.take(i as int));
        assert(ls.take(i + 1).last() == lines@[i as int]@);
        if toks.len() >= 2 {
            assert(tv[0] == toks@[0]@ && tv[1] == toks@[1]@);
            if chars_are(&toks[0], "Name:") {
                name = Some(slice_chars(&toks[1], 0, toks[1].len()));
                assert(toks@[1]@.subrange(0, toks@[1]@.len() as int) =~= toks@[1]@);
            } else if chars_are(&toks[0], "PPid:") {
                ppid = Some(slice_chars(&toks[1], 0, toks[1].len()));
                assert(toks@[1]@.subrange(0, toks@[1]@.len() as int) =~= toks@[1]@);
            } else if chars_are(&toks[0], "State:") {
                state = Some(slice_chars(&toks[1], 0, toks[1].len()));
                assert(toks@[1]@.subrange(0, toks@[1]@.len() as int) =~= toks@[1]@);
            }
        }
        i = i + 1;
    }
    assert(ls.take(lines.len() as int) =~= ls);
    let mut node = ProcessNode::new();
    node.pid = pid;
    match name {
        Some(v) => {
            node.name = string_from_chars(&v);
        },
        None => {},
    }
    match ppid {
        Some(v) => match parse_pid(&v) {
            Some(p) => node.ppid = p,
            None => return Err(StatusError::BadParentPid),
        },
        None => {},
    }
    match state {
        Some(v) => node.state = parse_state(&v),
        None => {},
    }
    Ok(node)
}

} // verus!
