//! The command line of the interactive interface: what a finished line of
//! input asks for (`show 12`, `delete recur 3`, `entry tomorrow at 8pm x`,
//! `edit 4`, `/ detail foo`, `quit`).

use crate::commands::{CommandType, ListType};
use crate::error::Outcome;
use crate::record::push_all;
use crate::text::{
    chars_occur_at, from_chars, occurs_at, parse_u64, parse_unsigned, split_at_char, split_on,
    to_chars, trim, trim_chars,
};
use vstd::prelude::*;

verus! {

/// The abstract form of a command.
pub enum CommandView {
    Delete(Seq<u64>),
    DeleteRecurring(Seq<u64>),
    Entry(Seq<char>),
    Edit(bool, u64),
    Show(bool, u64),
    Search(Seq<Seq<char>>),
}

impl View for CommandType {
    type V = CommandView;

    open spec fn view(&self) -> CommandView {
        match self {
            CommandType::Delete(v) => CommandView::Delete(v@),
            CommandType::DeleteRecurring(v) => CommandView::DeleteRecurring(v@),
            CommandType::Entry(s) => CommandView::Entry(s@),
            CommandType::Edit(b, k) => CommandView::Edit(*b, *k),
            CommandType::Show(b, k) => CommandView::Show(*b, *k),
            CommandType::Search(w) => CommandView::Search(w@.map_values(|s: String| s@)),
        }
    }
}

/// What a line of input asks for, in the order it is carried out: the
/// errors to report, whether to stop showing a record, the listing to
/// switch to, and the command to queue; or to quit.
pub struct ResponseView {
    pub quit: bool,
    pub errors: Seq<Seq<char>>,
    pub clear_shown: bool,
    pub list: Option<ListType>,
    pub command: Option<CommandView>,
}

/// What a line of input asks for.
#[derive(Debug)]
pub struct InputResponse {
    pub quit: bool,
    pub errors: Vec<String>,
    pub clear_shown: bool,
    pub list: Option<ListType>,
    pub command: Option<CommandType>,
}

impl View for InputResponse {
    type V = ResponseView;

    open spec fn view(&self) -> ResponseView {
        ResponseView {
            quit: self.quit,
            errors: self.errors@.map_values(|s: String| s@),
            clear_shown: self.clear_shown,
            list: self.list,
            command: match self.command {
                Some(c) => Some(c@),
                None => None,
            },
        }
    }
}

/// Whether `s` begins with `p`.
pub open spec fn starts_with(s: Seq<char>, p: Seq<char>) -> bool {
    occurs_at(s, p, 0)
}

/// `s` with every leading repetition of the non-empty `p` taken off.
pub open spec fn strip_all(s: Seq<char>, p: Seq<char>) -> Seq<char>
    decreases s.len(),
{
    if p.len() > 0 && starts_with(s, p) {
        strip_all(s.subrange(p.len() as int, s.len() as int), p)
    } else {
        s
    }
}

/// The non-empty pieces among the first `n` of `pieces`.
pub open spec fn non_empty(pieces: Seq<Seq<char>>, n: int) -> Seq<Seq<char>>
    decreases n,
{
    if n <= 0 {
        Seq::empty()
    } else if pieces[n - 1].len() > 0 {
        non_empty(pieces, n - 1).push(pieces[n - 1])
    } else {
        non_empty(pieces, n - 1)
    }
}

/// The words of `s`: its non-empty pieces between spaces.
pub open spec fn words_of(s: Seq<char>) -> Seq<Seq<char>> {
    let p = split_at_char(s, ' ');
    non_empty(p, p.len() as int)
}

/// A response with nothing but `errors`.
pub open spec fn only_errors(errors: Seq<Seq<char>>) -> ResponseView {
    ResponseView { quit: false, errors, clear_shown: false, list: None, command: None }
}

/// The keys among the first `n` of `ids`, whether `recur` was among them,
/// and an error for each other word.
pub open spec fn delete_ids(ids: Seq<Seq<char>>, n: int) -> (Seq<u64>, bool, Seq<Seq<char>>)
    decreases n,
{
    if n <= 0 {
        (Seq::empty(), false, Seq::empty())
    } else {
        let (keys, recur, errs) = delete_ids(ids, n - 1);
        let id = ids[n - 1];
        if id == "recur"@ {
            (keys, true, errs)
        } else {
            match parse_unsigned(id, u64::MAX as int) {
                Some(k) => (keys.push(k as u64), recur, errs),
                None => (keys, recur, errs.push("Invalid ID "@ + id)),
            }
        }
    }
}

/// Reads the words `ids[i..]` of an edit: the first key ends the reading;
/// `recur` marks a recurrence and any other word is reported.
pub open spec fn edit_ids(ids: Seq<Seq<char>>, i: int, recur: bool, errs: Seq<Seq<char>>) -> (Option<u64>, bool, Seq<Seq<char>>)
    decreases ids.len() - i,
{
    if i < 0 || i >= ids.len() {
        (None, recur, errs)
    } else if ids[i] == "recur"@ {
        edit_ids(ids, i + 1, true, errs)
    } else {
        match parse_unsigned(ids[i], u64::MAX as int) {
            Some(k) => (Some(k as u64), recur, errs),
            None => edit_ids(ids, i + 1, recur, errs.push("Invalid ID "@ + ids[i])),
        }
    }
}

/// The response to a `show` line with the words `m`; `x` is the line.
pub open spec fn show_response(x: Seq<char>, m: Seq<Seq<char>>) -> Outcome<ResponseView> {
    let base = ResponseView {
        quit: false,
        errors: Seq::empty(),
        clear_shown: true,
        list: None,
        command: None,
    };
    let invalid = ResponseView {
        errors: seq!["Invalid Command '"@ + x + "'"@],
        ..base
    };
    if m.len() == 0 {
        Outcome::Halt
    } else if m[0] == "all"@ || m[0] == "a"@ {
        Outcome::Value(ResponseView { list: Some(ListType::All), ..base })
    } else if m[0] == "today"@ || m[0] == "t"@ {
        Outcome::Value(ResponseView { list: Some(ListType::Today), ..base })
    } else if m[0] == "recur"@ || m[0] == "recurring"@ || m[0] == "recurrence"@ || m[0] == "r"@ {
        if m.len() == 2 {
            match parse_unsigned(m[1], u64::MAX as int) {
                Some(id) => Outcome::Value(
                    ResponseView { command: Some(CommandView::Show(true, id as u64)), ..base },
                ),
                None => Outcome::Value(invalid),
            }
        } else {
            Outcome::Value(ResponseView { list: Some(ListType::Recurring), ..base })
        }
    } else {
        match parse_unsigned(m[0], u64::MAX as int) {
            Some(id) => Outcome::Value(
                ResponseView { command: Some(CommandView::Show(false, id as u64)), ..base },
            ),
            None => Outcome::Value(invalid),
        }
    }
}

/// The response to a finished line of input `line`.
pub open spec fn input_response(line: Seq<char>) -> Outcome<ResponseView> {
    let x = trim(line);
    let nothing = only_errors(Seq::empty());
    if x == "quit"@ {
        Outcome::Value(ResponseView { quit: true, ..nothing })
    } else if starts_with(x, "s "@) || starts_with(x, "show "@) {
        let rest = if starts_with(x, "show "@) {
            strip_all(x, "show "@)
        } else {
            strip_all(x, "s "@)
        };
        show_response(x, words_of(trim(rest)))
    } else if starts_with(x, "d "@) || starts_with(x, "delete "@) {
        let rest = if starts_with(x, "delete "@) {
            strip_all(x, "delete "@)
        } else {
            strip_all(x, "d "@)
        };
        let ids = words_of(rest);
        let (keys, recur, errs) = delete_ids(ids, ids.len() as int);
        Outcome::Value(
            ResponseView {
                errors: errs,
                command: Some(
                    if recur {
                        CommandView::DeleteRecurring(keys)
                    } else {
                        CommandView::Delete(keys)
                    },
                ),
                ..nothing
            },
        )
    } else if starts_with(x, "e "@) || starts_with(x, "entry "@) {
        let rest = if starts_with(x, "entry "@) {
            strip_all(x, "entry "@)
        } else {
            strip_all(x, "e "@)
        };
        Outcome::Value(ResponseView { command: Some(CommandView::Entry(rest)), ..nothing })
    } else if starts_with(x, "edit "@) {
        let (id, recur, errs) = edit_ids(words_of(strip_all(x, "edit "@)), 0, false, Seq::empty());
        match id {
            Some(k) => Outcome::Value(
                ResponseView { errors: errs, command: Some(CommandView::Edit(recur, k)), ..nothing },
            ),
            None => Outcome::Value(only_errors(errs.push("Edit requires an ID"@))),
        }
    } else if starts_with(x, "/ "@) || starts_with(x, "search"@) {
        let rest = if starts_with(x, "search "@) {
            strip_all(x, "search "@)
        } else {
            strip_all(x, "/ "@)
        };
        Outcome::Value(ResponseView { command: Some(CommandView::Search(words_of(rest))), ..nothing })
    } else {
        Outcome::Value(only_errors(seq!["Invalid Command"@]))
    }
}

/// Whether `s` begins with the literal `p`.
fn begins(s: &[char], p: &str) -> (res: bool)
    ensures
        res == starts_with(s@, p@),
{
    let pc = to_chars(p);
    chars_occur_at(s, pc.as_slice(), 0)
}

/// Takes every leading repetition of the literal `p` off `s`.
fn strip_all_exec(s: &[char], p: &str) -> (res: Vec<char>)
    ensures
        res@ == strip_all(s@, p@),
{
    let pc = to_chars(p);
    let n = s.len();
    let m = pc.len();
    let mut i: usize = 0;
    if m == 0 {
        return vstd::slice::slice_to_vec(s);
    }
    assert(s@.subrange(0, n as int) =~= s@);
    while m <= n - i && chars_occur_at(s, pc.as_slice(), i)
        invariant
            n == s@.len(),
            m == pc@.len(),
            pc@ == p@,
            m > 0,
            i <= n,
            strip_all(s@, p@) == strip_all(s@.subrange(i as int, n as int), p@),
        decreases n - i,
    {
        let ghost rest = s@.subrange(i as int, n as int);
        assert(rest.subrange(0, m as int) =~= s@.subrange(i as int, i + m));
        assert(rest.subrange(m as int, rest.len() as int) =~= s@.subrange(i + m, n as int));
        i = i + m;
    }
    proof {
        let rest = s@.subrange(i as int, n as int);
        if starts_with(rest, p@) {
            assert(rest.subrange(0, m as int) =~= s@.subrange(i as int, i + m));
        }
    }
    vstd::slice::slice_to_vec(vstd::slice::slice_subrange(s, i, n))
}

/// The words of `s` (see `words_of`).
fn words_exec(s: &[char]) -> (res: Vec<Vec<char>>)
    ensures
        res@.len() == words_of(s@).len(),
        forall|i: int| 0 <= i < res@.len() ==> #[trigger] res@[i]@ == words_of(s@)[i],
{
    let pieces = split_on(s, ' ');
    let ghost p = split_at_char(s@, ' ');
    let mut out: Vec<Vec<char>> = Vec::new();
    let n = pieces.len();
    for i in 0..n
        invariant
            n == p.len(),
            pieces@.len() == n,
            forall|k: int| 0 <= k < n ==> #[trigger] pieces@[k]@ == p[k],
            out@.len() == non_empty(p, i as int).len(),
            forall|k: int| 0 <= k < out@.len() ==> #[trigger] out@[k]@ == non_empty(p, i as int)[k],
    {
        assert(pieces@[i as int]@ == p[i as int]);
        if pieces[i].len() > 0 {
            out.push(vstd::slice::slice_to_vec(pieces[i].as_slice()));
        }
    }
    out
}

/// The string made of `a` followed by `b`.
fn join(a: &str, b: &[char]) -> (res: String)
    ensures
        res@ == a@ + b@,
{
    let mut v = to_chars(a);
    push_all(&mut v, b);
    from_chars(v.as_slice())
}

/// The keys among `ids`, whether `recur` was among them, and an error
/// for each other word (see `delete_ids`).
fn delete_ids_exec(ids: &Vec<Vec<char>>) -> (res: (Vec<u64>, bool, Vec<String>))
    ensures
        (res.0@, res.1, res.2@.map_values(|s: String| s@)) == delete_ids(
            ids@.map_values(|w: Vec<char>| w@),
            ids@.len() as int,
        ),
{
    let ghost iv = ids@.map_values(|w: Vec<char>| w@);
    let mut keys: Vec<u64> = Vec::new();
    let mut recur = false;
    let mut errs: Vec<String> = Vec::new();
    let n = ids.len();
    for i in 0..n
        invariant
            n == ids@.len(),
            iv == ids@.map_values(|w: Vec<char>| w@),
            (keys@, recur, errs@.map_values(|s: String| s@)) == delete_ids(iv, i as int),
    {
        assert(iv[i as int] == ids@[i as int]@);
        let w = ids[i].as_slice();
        if crate::text::chars_are(w, "recur") {
            recur = true;
        } else {
            match parse_u64(w) {
                Some(k) => {
                    keys.push(k);
                },
                None => {
                    let ghost before = errs@;
                    errs.push(join("Invalid ID ", w));
                    assert(errs@.map_values(|s: String| s@) =~= before.map_values(
                        |s: String| s@,
                    ).push("Invalid ID "@ + iv[i as int]));
                },
            }
        }
    }
    (keys, recur, errs)
}

/// Reads the words of an edit (see `edit_ids`).
fn edit_ids_exec(ids: &Vec<Vec<char>>) -> (res: (Option<u64>, bool, Vec<String>))
    ensures
        (res.0, res.1, res.2@.map_values(|s: String| s@)) == edit_ids(
            ids@.map_values(|w: Vec<char>| w@),
            0,
            false,
            Seq::empty(),
        ),
{
    let ghost iv = ids@.map_values(|w: Vec<char>| w@);
    let mut recur = false;
    let mut errs: Vec<String> = Vec::new();
    let n = ids.len();
    let mut i: usize = 0;
    assert(errs@.map_values(|s: String| s@) =~= Seq::<Seq<char>>::empty());
    while i < n
        invariant
            n == ids@.len(),
            iv == ids@.map_values(|w: Vec<char>| w@),
            i <= n,
            edit_ids(iv, 0, false, Seq::empty()) == edit_ids(
                iv,
                i as int,
                recur,
                errs@.map_values(|s: String| s@),
            ),
        decreases n - i,
    {
        assert(iv[i as int] == ids@[i as int]@);
        let w = ids[i].as_slice();
        if crate::text::chars_are(w, "recur") {
            recur = true;
        } else {
            match parse_u64(w) {
                Some(k) => {
                    return (Some(k), recur, errs);
                },
                None => {
                    let ghost before = errs@;
                    errs.push(join("Invalid ID ", w));
                    assert(errs@.map_values(|s: String| s@) =~= before.map_values(
                        |s: String| s@,
                    ).push("Invalid ID "@ + iv[i as int]));
                },
            }
        }
        i = i + 1;
    }
    (None, recur, errs)
}

/// Turns a list of words into strings.
fn word_strings(ws: &Vec<Vec<char>>) -> (res: Vec<String>)
    ensures
        res@.map_values(|s: String| s@) == ws@.map_values(|w: Vec<char>| w@),
{
    let mut out: Vec<String> = Vec::new();
    let n = ws.len();
    for i in 0..n
        invariant
            n == ws@.len(),
            out@.map_values(|s: String| s@) == ws@.subrange(0, i as int).map_values(
                |w: Vec<char>| w@,
            ),
    {
        let ghost before = out@;
        let w = from_chars(ws[i].as_slice());
        assert(w@ == ws@[i as int]@);
        out.push(w);
        assert(out@.map_values(|s: String| s@) =~= before.map_values(|s: String| s@).push(w@));
        assert(out@.map_values(|s: String| s@) =~= ws@.subrange(0, i + 1).map_values(
            |w: Vec<char>| w@,
        ));
    }
    assert(ws@.subrange(0, n as int) =~= ws@);
    out
}

/// A response with nothing but the errors `errors`.
fn errors_only(errors: Vec<String>) -> (res: InputResponse)
    ensures
        res@ == only_errors(errors@.map_values(|s: String| s@)),
{
    InputResponse { quit: false, errors, clear_shown: false, list: None, command: None }
}

/// The response to a `show` line with the words `m`; `x` is the line.
fn show_exec(x: &[char], m: &Vec<Vec<char>>) -> (res: Outcome<InputResponse>)
    ensures
        match show_response(x@, m@.map_values(|w: Vec<char>| w@)) {
            Outcome::Value(v) => res matches Outcome::Value(r) && r@ == v,
            Outcome::Fail(e) => res == Outcome::<InputResponse>::Fail(e),
            Outcome::Halt => res is Halt,
        },
{
    let ghost mv = m@.map_values(|w: Vec<char>| w@);
    if m.len() == 0 {
        return Outcome::Halt;
    }
    assert(mv[0] == m@[0]@);
    let w = m[0].as_slice();
    let mut r = InputResponse {
        quit: false,
        errors: Vec::new(),
        clear_shown: true,
        list: None,
        command: None,
    };
    assert(r.errors@.map_values(|s: String| s@) =~= Seq::<Seq<char>>::empty());
    let mut invalid = join("Invalid Command '", x);
    let close = to_chars("'");
    invalid = join(invalid.as_str(), close.as_slice());
    if crate::text::chars_are(w, "all") || crate::text::chars_are(w, "a") {
        r.list = Some(ListType::All);
        return Outcome::Value(r);
    }
    if crate::text::chars_are(w, "today") || crate::text::chars_are(w, "t") {
        r.list = Some(ListType::Today);
        return Outcome::Value(r);
    }
    let recur = crate::text::chars_are(w, "recur") || crate::text::chars_are(w, "recurring")
        || crate::text::chars_are(w, "recurrence") || crate::text::chars_are(w, "r");
    if recur && m.len() != 2 {
        r.list = Some(ListType::Recurring);
        return Outcome::Value(r);
    }
    let id_word = if recur {
        assert(mv[1] == m@[1]@);
        m[1].as_slice()
    } else {
        w
    };
    match parse_u64(id_word) {
        Some(id) => {
            r.command = Some(CommandType::Show(recur, id));
        },
        None => {
            r.errors.push(invalid);
            assert(r.errors@.map_values(|s: String| s@) =~= seq!["Invalid Command '"@ + x@ + "'"@]);
        },
    }
    Outcome::Value(r)
}

/// The response to a finished line of input `line` (see
/// `input_response`); a `show` line without words stops the program.
pub fn interpret_input(line: &str) -> (res: Outcome<InputResponse>)
    ensures
        match input_response(line@) {
            Outcome::Value(v) => res matches Outcome::Value(r) && r@ == v,
            Outcome::Fail(e) => res == Outcome::<InputResponse>::Fail(e),
            Outcome::Halt => res is Halt,
        },
{
    let raw = to_chars(line);
    let xv = trim_chars(raw.as_slice());
    let x = xv.as_slice();
    if crate::text::chars_are(x, "quit") {
        let mut r = errors_only(Vec::new());
        assert(r.errors@.map_values(|s: String| s@) =~= Seq::<Seq<char>>::empty());
        r.quit = true;
        return Outcome::Value(r);
    }
    if begins(x, "s ") || begins(x, "show ") {
        let rest = if begins(x, "show ") {
            strip_all_exec(x, "show ")
        } else {
            strip_all_exec(x, "s ")
        };
        let t = trim_chars(rest.as_slice());
        let m = words_exec(t.as_slice());
        assert(m@.map_values(|w: Vec<char>| w@) =~= words_of(t@));
        return show_exec(x, &m);
    }
    if begins(x, "d ") || begins(x, "delete ") {
        let rest = if begins(x, "delete ") {
            strip_all_exec(x, "delete ")
        } else {
            strip_all_exec(x, "d ")
        };
        let ids = words_exec(rest.as_slice());
        assert(ids@.map_values(|w: Vec<char>| w@) =~= words_of(rest@));
        let (keys, recur, errs) = delete_ids_exec(&ids);
        let command = if recur {
            CommandType::DeleteRecurring(keys)
        } else {
            CommandType::Delete(keys)
        };
        let mut r = errors_only(errs);
        r.command = Some(command);
        return Outcome::Value(r);
    }
    if begins(x, "e ") || begins(x, "entry ") {
        let rest = if begins(x, "entry ") {
            strip_all_exec(x, "entry ")
        } else {
            strip_all_exec(x, "e ")
        };
        let mut r = errors_only(Vec::new());
        assert(r.errors@.map_values(|s: String| s@) =~= Seq::<Seq<char>>::empty());
        r.command = Some(CommandType::Entry(from_chars(rest.as_slice())));
        return Outcome::Value(r);
    }
    if begins(x, "edit ") {
        let rest = strip_all_exec(x, "edit ");
        let ids = words_exec(rest.as_slice());
        assert(ids@.map_values(|w: Vec<char>| w@) =~= words_of(rest@));
        let (id, recur, errs) = edit_ids_exec(&ids);
        match id {
            Some(k) => {
                let mut r = errors_only(errs);
                r.command = Some(CommandType::Edit(recur, k));
                return Outcome::Value(r);
            },
            None => {
                let mut errs = errs;
                let ghost before = errs@;
                errs.push("Edit requires an ID".to_owned());
                assert(errs@.map_values(|s: String| s@) =~= before.map_values(|s: String| s@).push(
                    "Edit requires an ID"@,
                ));
                return Outcome::Value(errors_only(errs));
            },
        }
    }
    if begins(x, "/ ") || begins(x, "search") {
        let rest = if begins(x, "search ") {
            strip_all_exec(x, "search ")
        } else {
            strip_all_exec(x, "/ ")
        };
        let ws = words_exec(rest.as_slice());
        assert(ws@.map_values(|w: Vec<char>| w@) =~= words_of(rest@));
        let strings = word_strings(&ws);
        let mut r = errors_only(Vec::new());
        assert(r.errors@.map_values(|s: String| s@) =~= Seq::<Seq<char>>::empty());
        r.command = Some(CommandType::Search(strings));
        return Outcome::Value(r);
    }
    let mut errs: Vec<String> = Vec::new();
    errs.push("Invalid Command".to_owned());
    assert(errs@.map_values(|s: String| s@) =~= seq!["Invalid Command"@]);
    Outcome::Value(errors_only(errs))
}

} // verus!
