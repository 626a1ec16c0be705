//! The interactive grammar: table selections (`1,3-5`, `all`) and commands.

use vstd::prelude::*;
use vstd::string::StrSliceExecFns;
use vstd::string::StringExecFns;

verus! {

/// Unicode White_Space, the characters that `trim` removes.
pub open spec fn is_space(c: char) -> bool {
    let u = c as u32;
    (0x9 <= u && u <= 0xd) || u == 0x20 || u == 0x85 || u == 0xa0 || u == 0x1680 || (0x2000 <= u
        && u <= 0x200a) || u == 0x2028 || u == 0x2029 || u == 0x202f || u == 0x205f || u == 0x3000
}

pub open spec fn trim_start(s: Seq<char>) -> Seq<char>
    decreases s.len(),
{
    if s.len() > 0 && is_space(s[0]) {
        trim_start(s.drop_first())
    } else {
        s
    }
}

pub open spec fn trim_end(s: Seq<char>) -> Seq<char>
    decreases s.len(),
{
    if s.len() > 0 && is_space(s.last()) {
        trim_end(s.drop_last())
    } else {
        s
    }
}

/// `s` without leading and trailing white space.
pub open spec fn trim(s: Seq<char>) -> Seq<char> {
    trim_end(trim_start(s))
}

/// The pieces of `s` between occurrences of `c` (at least one piece).
pub open spec fn split_on(s: Seq<char>, c: char) -> Seq<Seq<char>> {
    split_from(s, c, Seq::empty(), Seq::empty())
}

/// Splitting the rest `s`, with the pieces `done` and the open piece `cur`.
pub open spec fn split_from(s: Seq<char>, c: char, done: Seq<Seq<char>>, cur: Seq<char>) -> Seq<Seq<char>>
    decreases s.len(),
{
    if s.len() == 0 {
        done.push(cur)
    } else if s[0] == c {
        split_from(s.drop_first(), c, done.push(cur), Seq::empty())
    } else {
        split_from(s.drop_first(), c, done, cur.push(s[0]))
    }
}

pub open spec fn is_digit(c: char) -> bool {
    '0' <= c && c <= '9'
}

/// The value of a string of decimal digits.
pub open spec fn digits_value(s: Seq<char>) -> nat
    decreases s.len(),
{
    if s.len() == 0 {
        0
    } else {
        digits_value(s.drop_last()) * 10 + ((s.last() as u32) - ('0' as u32)) as nat
    }
}

/// The digits of a number: `s` without one leading `+`.
pub open spec fn number_body(s: Seq<char>) -> Seq<char> {
    if s.len() > 0 && s[0] == '+' {
        s.drop_first()
    } else {
        s
    }
}

pub open spec fn all_digits(s: Seq<char>) -> bool {
    forall|i: int| 0 <= i < s.len() ==> is_digit(#[trigger] s[i])
}

/// An unsigned number as `usize` parsing reads it: an optional `+`, then
/// at least one decimal digit, and a value that fits.
pub open spec fn parse_number(s: Seq<char>) -> Option<nat> {
    let body = number_body(s);
    if body.len() > 0 && all_digits(body) && digits_value(body) <= usize::MAX {
        Some(digits_value(body))
    } else {
        None
    }
}

fn chars_of(s: &str) -> (r: Vec<char>)
    ensures
        r@ == s@,
{
    let n = s.unicode_len();
    let mut out: Vec<char> = Vec::new();
    let mut i: usize = 0;
    while i < n
        invariant
            n == s@.len(),
            i <= n,
            out@ == s@.subrange(0, i as int),
        decreases n - i,
    {
        out.push(s.get_char(i));
        assert(out@ =~= s@.subrange(0, i + 1));
        i = i + 1;
    }
    assert(s@.subrange(0, n as int) =~= s@);
    out
}

fn space(c: char) -> (r: bool)
    ensures
        r == is_space(c),
{
    let u = c as u32;
    (0x9 <= u && u <= 0xd) || u == 0x20 || u == 0x85 || u == 0xa0 || u == 0x1680 || (0x2000 <= u
        && u <= 0x200a) || u == 0x2028 || u == 0x2029 || u == 0x202f || u == 0x205f || u == 0x3000
}

fn slice_chars(s: &Vec<char>, lo: usize, hi: usize) -> (r: Vec<char>)
    requires
        lo <= hi <= s@.len(),
    ensures
        r@ == s@.subrange(lo as int, hi as int),
{
    let mut out: Vec<char> = Vec::new();
    let mut i: usize = lo;
    while i < hi
        invariant
            lo <= i <= hi <= s@.len(),
            out@ == s@.subrange(lo as int, i as int),
        decreases hi - i,
    {
        out.push(s[i]);
        assert(out@ =~= s@.subrange(lo as int, i + 1));
        i = i + 1;
    }
    out
}

/// `s` without leading and trailing white space.
fn trim_chars(s: &Vec<char>) -> (r: Vec<char>)
    ensures
        r@ == trim(s@),
{
    let (lo, hi) = trim_bounds(s);
    slice_chars(s, lo, hi)
}

/// Where the trimmed part of `s` begins and ends.
fn trim_bounds(s: &Vec<char>) -> (r: (usize, usize))
    ensures
        r.0 <= r.1 <= s@.len(),
        s@.subrange(r.0 as int, r.1 as int) == trim(s@),
{
    let n = s.len();
    let mut lo: usize = 0;
    assert(s@.subrange(0, n as int) =~= s@);
    while lo < n && space(s[lo])
        invariant
            lo <= n == s@.len(),
            trim_start(s@) == trim_start(s@.subrange(lo as int, n as int)),
        decreases n - lo,
    {
        assert(s@.subrange(lo as int, n as int).drop_first() =~= s@.subrange(lo + 1, n as int));
        lo = lo + 1;
    }
    let mut hi: usize = n;
    while hi > lo && space(s[hi - 1])
        invariant
            lo <= hi <= n == s@.len(),
            trim_start(s@) == s@.subrange(lo as int, n as int),
            trim(s@) == trim_end(s@.subrange(lo as int, hi as int)),
        decreases hi,
    {
        assert(s@.subrange(lo as int, hi as int).drop_last() =~= s@.subrange(lo as int, hi - 1));
        hi = hi - 1;
    }
    (lo, hi)
}

/// The pieces of `s` between occurrences of `c`.
fn split_chars(s: &Vec<char>, c: char) -> (r: Vec<Vec<char>>)
    ensures
        r@.map_values(|p: Vec<char>| p@) == split_on(s@, c),
{
    let n = s.len();
    let mut done: Vec<Vec<char>> = Vec::new();
    let mut cur: Vec<char> = Vec::new();
    let mut i: usize = 0;
    assert(s@.subrange(0, n as int) =~= s@);
    assert(done@.map_values(|p: Vec<char>| p@) =~= Seq::<Seq<char>>::empty());
    while i < n
        invariant
            i <= n == s@.len(),
            split_on(s@, c) == split_from(s@.subrange(i as int, n as int), c, done@.map_values(|p: Vec<char>| p@), cur@),
        decreases n - i,
    {
        let ghost rest = s@.subrange(i as int, n as int);
        assert(rest.drop_first() =~= s@.subrange(i + 1, n as int));
        assert(rest[0] == s@[i as int]);
        if s[i] == c {
            let ghost before = done@;
            let piece = cur;
            done.push(piece);
            assert(done@.map_values(|p: Vec<char>| p@) =~= before.map_values(|p: Vec<char>| p@).push(piece@));
            cur = Vec::new();
            assert(cur@ =~= Seq::<char>::empty());
        } else {
            cur.push(s[i]);
        }
        i = i + 1;
    }
    let ghost before = done@;
    let piece = cur;
    done.push(piece);
    assert(done@.map_values(|p: Vec<char>| p@) =~= before.map_values(|p: Vec<char>| p@).push(piece@));
    done
}

/// Reads an unsigned number as `usize` parsing does.
fn parse_number_chars(s: &Vec<char>) -> (r: Option<usize>)
    ensures
        match r {
            Some(v) => parse_number(s@) == Some(v as nat),
            None => parse_number(s@) is None,
        },
{
    let n = s.len();
    let start: usize = if n > 0 && s[0] == '+' { 1 } else { 0 };
    let ghost body = number_body(s@);
    assert(body =~= s@.subrange(start as int, n as int));
    if start >= n {
        return None;
    }
    let mut value: usize = 0;
    let mut over = false;
    let mut i: usize = start;
    while i < n
        invariant
            start <= i <= n == s@.len(),
            body == s@.subrange(start as int, n as int),
            body == number_body(s@),
            forall|j: int| start <= j < i ==> is_digit(#[trigger] s@[j]),
            !over ==> value as nat == digits_value(s@.subrange(start as int, i as int)),
            over ==> digits_value(s@.subrange(start as int, i as int)) > usize::MAX,
        decreases n - i,
    {
        let c = s[i];
        if !('0' <= c && c <= '9') {
            assert(body[i - start] == s@[i as int]);
            assert(!is_digit(body[i - start]));
            assert(!all_digits(body));
            return None;
        }
        let d = (c as u32 - '0' as u32) as usize;
        let ghost prev = digits_value(s@.subrange(start as int, i as int));
        assert(s@.subrange(start as int, i + 1).drop_last() =~= s@.subrange(start as int, i as int));
        assert(digits_value(s@.subrange(start as int, i + 1)) == prev * 10 + d);
        if !over {
            if value > (usize::MAX - d) / 10 {
                over = true;
                assert(prev * 10 + d > usize::MAX) by (nonlinear_arith)
                    requires
                        prev == value,
                        value > (usize::MAX - d) / 10,
                        d <= 9,
                ;
            } else {
                assert(value * 10 + d <= usize::MAX) by (nonlinear_arith)
                    requires
                        value <= (usize::MAX - d) / 10,
                        d <= 9,
                ;
                value = value * 10 + d;
            }
        } else {
            assert(prev * 10 + d > usize::MAX) by (nonlinear_arith)
                requires
                    prev > usize::MAX,
            ;
        }
        i = i + 1;
    }
    assert forall|j: int| 0 <= j < body.len() implies is_digit(#[trigger] body[j]) by {
        assert(body[j] == s@[start + j]);
    }
    assert(s@.subrange(start as int, n as int) == body);
    if over {
        None
    } else {
        Some(value)
    }
}


/// `acc` with `idx` added at the end, unless it holds it already.
pub open spec fn add_index(acc: Seq<usize>, idx: usize) -> Seq<usize> {
    if acc.contains(idx) {
        acc
    } else {
        acc.push(idx)
    }
}

/// `acc` with the indices `lo .. hi` added in turn.
pub open spec fn add_span(acc: Seq<usize>, lo: int, hi: int) -> Seq<usize>
    decreases hi - lo,
{
    if lo >= hi {
        acc
    } else {
        add_span(add_index(acc, lo as usize), lo + 1, hi)
    }
}

/// A range `a-b` of 1-based numbers: `a` raised to 1 and `b` cut to `max`;
/// anything else than two numbers around one `-` adds nothing.
pub open spec fn range_indices(acc: Seq<usize>, part: Seq<char>, max: nat) -> Seq<usize> {
    let pieces = split_on(part, '-');
    if pieces.len() != 2 {
        acc
    } else {
        match (parse_number(trim(pieces[0])), parse_number(trim(pieces[1]))) {
            (Some(a), Some(b)) => {
                let lo = if a < 1 {
                    1
                } else {
                    a
                };
                let hi = if b > max {
                    max
                } else {
                    b
                };
                if lo <= hi {
                    add_span(acc, lo - 1, hi as int)
                } else {
                    acc
                }
            },
            _ => acc,
        }
    }
}

/// A single 1-based number within `1 ..= max`.
pub open spec fn single_index(acc: Seq<usize>, part: Seq<char>, max: nat) -> Seq<usize> {
    match parse_number(part) {
        Some(n) => if 0 < n && n <= max {
            add_index(acc, (n - 1) as usize)
        } else {
            acc
        },
        None => acc,
    }
}

/// One comma-separated part: a range where it holds `-`, else a number.
pub open spec fn part_indices(acc: Seq<usize>, raw: Seq<char>, max: nat) -> Seq<usize> {
    let p = trim(raw);
    if p.contains('-') {
        range_indices(acc, p, max)
    } else {
        single_index(acc, p, max)
    }
}

pub open spec fn parts_indices(acc: Seq<usize>, parts: Seq<Seq<char>>, max: nat) -> Seq<usize>
    decreases parts.len(),
{
    if parts.len() == 0 {
        acc
    } else {
        parts_indices(part_indices(acc, parts[0], max), parts.drop_first(), max)
    }
}

/// The 0-based indices that a selection such as `1,3-5` picks from a list of
/// `max` items, in the order first named, each once.
pub open spec fn selection_indices(input: Seq<char>, max: nat) -> Seq<usize> {
    parts_indices(Seq::empty(), split_on(input, ','), max)
}

/// The single numbers of one part that name no item: 0 or above `max`.
pub open spec fn part_rejected(rej: Seq<usize>, raw: Seq<char>, max: nat) -> Seq<usize> {
    let p = trim(raw);
    if p.contains('-') {
        rej
    } else {
        match parse_number(p) {
            Some(n) => if n == 0 || n > max {
                rej.push(n as usize)
            } else {
                rej
            },
            None => rej,
        }
    }
}

pub open spec fn parts_rejected(rej: Seq<usize>, parts: Seq<Seq<char>>, max: nat) -> Seq<usize>
    decreases parts.len(),
{
    if parts.len() == 0 {
        rej
    } else {
        parts_rejected(part_rejected(rej, parts[0], max), parts.drop_first(), max)
    }
}

/// The numbers of a selection that were left out for naming no item.
pub open spec fn selection_rejected(input: Seq<char>, max: nat) -> Seq<usize> {
    parts_rejected(Seq::empty(), split_on(input, ','), max)
}

/// Each index once, and each below `max`.
pub open spec fn indices_ok(s: Seq<usize>, max: nat) -> bool {
    &&& forall|i: int, j: int| 0 <= i < j < s.len() ==> #[trigger] s[i] != #[trigger] s[j]
    &&& forall|i: int| 0 <= i < s.len() ==> #[trigger] s[i] < max
}

fn push_index(indices: &mut Vec<usize>, idx: usize, max: usize)
    requires
        indices_ok(old(indices)@, max as nat),
        idx < max,
    ensures
        final(indices)@ == add_index(old(indices)@, idx),
        indices_ok(final(indices)@, max as nat),
{
    let mut k: usize = 0;
    while k < indices.len()
        invariant
            k <= indices@.len(),
            indices@ == old(indices)@,
            indices_ok(indices@, max as nat),
            idx < max,
            forall|j: int| 0 <= j < k ==> indices@[j] != idx,
        decreases indices@.len() - k,
    {
        if indices[k] == idx {
            assert(indices@[k as int] == idx);
            assert(indices@.contains(idx));
            return;
        }
        k = k + 1;
    }
    assert(!indices@.contains(idx));
    indices.push(idx);
}

fn has_char(s: &Vec<char>, c: char) -> (r: bool)
    ensures
        r == s@.contains(c),
{
    let mut i: usize = 0;
    while i < s.len()
        invariant
            i <= s@.len(),
            forall|j: int| 0 <= j < i ==> s@[j] != c,
        decreases s@.len() - i,
    {
        if s[i] == c {
            assert(s@[i as int] == c);
            return true;
        }
        i = i + 1;
    }
    false
}

/// Adds the indices of a range part such as `2-4`.
fn parse_range(part: &Vec<char>, max: usize, indices: &mut Vec<usize>)
    requires
        indices_ok(old(indices)@, max as nat),
    ensures
        final(indices)@ == range_indices(old(indices)@, part@, max as nat),
        indices_ok(final(indices)@, max as nat),
{
    let pieces = split_chars(part, '-');
    let ghost pv = pieces@.map_values(|p: Vec<char>| p@);
    if pieces.len() != 2 {
        return;
    }
    assert(pv[0] == pieces@[0]@ && pv[1] == pieces@[1]@);
    let first = trim_chars(&pieces[0]);
    let second = trim_chars(&pieces[1]);
    let start = parse_number_chars(&first);
    let end = parse_number_chars(&second);
    if let (Some(a), Some(b)) = (start, end) {
        let lo: usize = if a < 1 { 1 } else { a };
        let hi: usize = if b > max { max } else { b };
        if lo <= hi {
            let mut i: usize = lo - 1;
            while i < hi
                invariant
                    lo - 1 <= i <= hi <= max,
                    indices_ok(indices@, max as nat),
                    range_indices(old(indices)@, part@, max as nat) == add_span(indices@, i as int, hi as int),
                decreases hi - i,
            {
                push_index(indices, i, max);
                i = i + 1;
            }
        }
    }
}

/// Adds the index of a single number such as `3`; keeps a number that names
/// no item in `rejected`.
fn parse_single(part: &Vec<char>, max: usize, indices: &mut Vec<usize>, rejected: &mut Vec<usize>)
    requires
        indices_ok(old(indices)@, max as nat),
    ensures
        final(indices)@ == single_index(old(indices)@, part@, max as nat),
        indices_ok(final(indices)@, max as nat),
        final(rejected)@ == match parse_number(part@) {
            Some(n) => if n == 0 || n > max {
                old(rejected)@.push(n as usize)
            } else {
                old(rejected)@
            },
            None => old(rejected)@,
        },
{
    if let Some(num) = parse_number_chars(part) {
        if num > 0 && num <= max {
            push_index(indices, num - 1, max);
        } else {
            rejected.push(num);
        }
    }
}

/// The indices and the rejected numbers of a selection.
fn parse_selection_parts(input: &str, max: usize) -> (r: (Vec<usize>, Vec<usize>))
    ensures
        r.0@ == selection_indices(input@, max as nat),
        r.1@ == selection_rejected(input@, max as nat),
        indices_ok(r.0@, max as nat),
{
    let chars = chars_of(input);
    let parts = split_chars(&chars, ',');
    let ghost pv = parts@.map_values(|p: Vec<char>| p@);
    let mut indices: Vec<usize> = Vec::new();
    let mut rejected: Vec<usize> = Vec::new();
    let mut i: usize = 0;
    assert(pv.subrange(0, pv.len() as int) =~= pv);
    while i < parts.len()
        invariant
            i <= parts@.len() == pv.len(),
            pv == parts@.map_values(|p: Vec<char>| p@),
            pv == split_on(input@, ','),
            indices_ok(indices@, max as nat),
            selection_indices(input@, max as nat) == parts_indices(indices@, pv.subrange(i as int, pv.len() as int), max as nat),
            selection_rejected(input@, max as nat) == parts_rejected(rejected@, pv.subrange(i as int, pv.len() as int), max as nat),
        decreases parts@.len() - i,
    {
        let ghost rest = pv.subrange(i as int, pv.len() as int);
        assert(rest.drop_first() =~= pv.subrange(i + 1, pv.len() as int));
        assert(rest[0] == parts@[i as int]@);
        let part = trim_chars(&parts[i]);
        if has_char(&part, '-') {
            parse_range(&part, max, &mut indices);
        } else {
            parse_single(&part, max, &mut indices, &mut rejected);
        }
        i = i + 1;
    }
    (indices, rejected)
}

/// The 0-based indices that a selection such as `1,4-6,9` picks from a list
/// of `max` items: comma-separated 1-based numbers and inclusive ranges, in
/// the order first named, each once. Parts that name no item, or that do not
/// parse, are left out.
pub fn parse_selection_input(input: &str, max: usize) -> (r: Vec<usize>)
    ensures
        r@ == selection_indices(input@, max as nat),
        forall|i: int, j: int| 0 <= i < j < r@.len() ==> #[trigger] r@[i] != #[trigger] r@[j],
        forall|i: int| 0 <= i < r@.len() ==> #[trigger] r@[i] < max,
{
    let (indices, _) = parse_selection_parts(input, max);
    indices
}

/// The single numbers of a selection that name no item of a list of `max`
/// (0, or above `max`), in order: what a caller warns about.
pub fn rejected_selection_numbers(input: &str, max: usize) -> (r: Vec<usize>)
    ensures
        r@ == selection_rejected(input@, max as nat),
{
    let (_, rejected) = parse_selection_parts(input, max);
    rejected
}


/// A line typed in the interactive session.
#[derive(Debug)]
pub enum Command {
    /// Nothing but white space.
    Empty,
    /// `q`, `quit` or `exit`.
    Quit,
    /// `h` or `help`.
    Help,
    /// `l` or `list`: the change history.
    List,
    /// `c` or `clear`: clear the history.
    Clear,
    /// `r`, `reset` or `reselect`: choose the watched tables anew.
    Reselect,
    /// `w` or `watching`: the watched tables.
    Watching,
    /// A number: the details of that change event.
    Detail(usize),
    /// Anything else, trimmed.
    Unknown(String),
}

/// Mathematical model of a command.
pub enum CommandView {
    Empty,
    Quit,
    Help,
    List,
    Clear,
    Reselect,
    Watching,
    Detail(nat),
    Unknown(Seq<char>),
}

impl View for Command {
    type V = CommandView;

    open spec fn view(&self) -> CommandView {
        match self {
            Command::Empty => CommandView::Empty,
            Command::Quit => CommandView::Quit,
            Command::Help => CommandView::Help,
            Command::List => CommandView::List,
            Command::Clear => CommandView::Clear,
            Command::Reselect => CommandView::Reselect,
            Command::Watching => CommandView::Watching,
            Command::Detail(n) => CommandView::Detail(*n as nat),
            Command::Unknown(s) => CommandView::Unknown(s@),
        }
    }
}

/// The command that a line names; commands are case-sensitive.
pub open spec fn command_of(line: Seq<char>) -> CommandView {
    let t = trim(line);
    if t.len() == 0 {
        CommandView::Empty
    } else if t == "q"@ || t == "quit"@ || t == "exit"@ {
        CommandView::Quit
    } else if t == "h"@ || t == "help"@ {
        CommandView::Help
    } else if t == "l"@ || t == "list"@ {
        CommandView::List
    } else if t == "c"@ || t == "clear"@ {
        CommandView::Clear
    } else if t == "r"@ || t == "reset"@ || t == "reselect"@ {
        CommandView::Reselect
    } else if t == "w"@ || t == "watching"@ {
        CommandView::Watching
    } else if parse_number(t) is Some {
        CommandView::Detail(parse_number(t)->0)
    } else {
        CommandView::Unknown(t)
    }
}

fn is_word(t: &Vec<char>, w: &str) -> (r: bool)
    ensures
        r == (t@ == w@),
{
    let n = w.unicode_len();
    if t.len() != n {
        return false;
    }
    let mut i: usize = 0;
    while i < n
        invariant
            n == w@.len() == t@.len(),
            i <= n,
            forall|j: int| 0 <= j < i ==> t@[j] == w@[j],
        decreases n - i,
    {
        if t[i] != w.get_char(i) {
            return false;
        }
        i = i + 1;
    }
    assert(t@ =~= w@);
    true
}

/// Reads a line of the interactive session as a command.
pub fn parse_command(input: &str) -> (r: Command)
    ensures
        r@ == command_of(input@),
{
    let chars = chars_of(input);
    let (lo, hi) = trim_bounds(&chars);
    let t = slice_chars(&chars, lo, hi);
    if t.len() == 0 {
        Command::Empty
    } else if is_word(&t, "q") || is_word(&t, "quit") || is_word(&t, "exit") {
        Command::Quit
    } else if is_word(&t, "h") || is_word(&t, "help") {
        Command::Help
    } else if is_word(&t, "l") || is_word(&t, "list") {
        Command::List
    } else if is_word(&t, "c") || is_word(&t, "clear") {
        Command::Clear
    } else if is_word(&t, "r") || is_word(&t, "reset") || is_word(&t, "reselect") {
        Command::Reselect
    } else if is_word(&t, "w") || is_word(&t, "watching") {
        Command::Watching
    } else {
        match parse_number_chars(&t) {
            Some(n) => Command::Detail(n),
            None => Command::Unknown(String::from_str(input.substring_char(lo, hi))),
        }
    }
}

/// The word `all` in any letter case.
pub open spec fn is_all_word(t: Seq<char>) -> bool {
    t.len() == 3 && (t[0] == 'a' || t[0] == 'A') && (t[1] == 'l' || t[1] == 'L') && (t[2] == 'l'
        || t[2] == 'L')
}

/// Mathematical model of a table list: (schema, table) pairs.
pub open spec fn tables_view(v: Seq<(String, String)>) -> Seq<(Seq<char>, Seq<char>)> {
    v.map_values(|t: (String, String)| (t.0@, t.1@))
}

/// The tables that a selection line picks from `all_tables`: `None` where
/// the line is blank (the selection is cancelled), every table for `all`,
/// else the tables at the selected positions.
pub open spec fn selected_tables(line: Seq<char>, all_tables: Seq<(Seq<char>, Seq<char>)>) -> Option<
    Seq<(Seq<char>, Seq<char>)>,
> {
    let t = trim(line);
    if t.len() == 0 {
        None
    } else if is_all_word(t) {
        Some(all_tables)
    } else {
        Some(selection_indices(t, all_tables.len()).map_values(|i: usize| all_tables[i as int]))
    }
}

fn copy_table(t: &(String, String)) -> (r: (String, String))
    ensures
        r.0@ == t.0@ && r.1@ == t.1@,
{
    (t.0.clone(), t.1.clone())
}

/// Picks tables from `all_tables` by a selection line (see `selected_tables`).
pub fn select_tables(input: &str, all_tables: &Vec<(String, String)>) -> (r: Option<Vec<(String, String)>>)
    ensures
        match r {
            Some(v) => selected_tables(input@, tables_view(all_tables@)) == Some(tables_view(v@)),
            None => selected_tables(input@, tables_view(all_tables@)) is None,
        },
{
    let chars = chars_of(input);
    let (lo, hi) = trim_bounds(&chars);
    let t = slice_chars(&chars, lo, hi);
    let ghost av = tables_view(all_tables@);
    if t.len() == 0 {
        return None;
    }
    let is_all = t.len() == 3 && (t[0] == 'a' || t[0] == 'A') && (t[1] == 'l' || t[1] == 'L') && (
    t[2] == 'l' || t[2] == 'L');
    let indices: Vec<usize> = if is_all {
        let mut v: Vec<usize> = Vec::new();
        let mut i: usize = 0;
        while i < all_tables.len()
            invariant
                i <= all_tables@.len(),
                forall|j: int| 0 <= j < i ==> #[trigger] v@[j] == j,
                v@.len() == i,
            decreases all_tables@.len() - i,
        {
            v.push(i);
            i = i + 1;
        }
        v
    } else {
        parse_selection_input(input.substring_char(lo, hi), all_tables.len())
    };
    let ghost chosen = if is_all {
        av
    } else {
        selection_indices(t@, av.len()).map_values(|i: usize| av[i as int])
    };
    let mut out: Vec<(String, String)> = Vec::new();
    let mut k: usize = 0;
    while k < indices.len()
        invariant
            k <= indices@.len(),
            av == tables_view(all_tables@),
            forall|j: int| 0 <= j < indices@.len() ==> #[trigger] indices@[j] < all_tables@.len(),
            chosen.len() == indices@.len(),
            forall|j: int| 0 <= j < indices@.len() ==> #[trigger] chosen[j] == av[indices@[j] as int],
            tables_view(out@) =~= chosen.subrange(0, k as int),
        decreases indices@.len() - k,
    {
        let idx = indices[k];
        let pair = copy_table(&all_tables[idx]);
        let ghost before = out@;
        out.push(pair);
        assert(tables_view(out@) =~= tables_view(before).push((pair.0@, pair.1@)));
        assert(chosen.subrange(0, k + 1) =~= chosen.subrange(0, k as int).push(chosen[k as int]));
        k = k + 1;
    }
    assert(chosen.subrange(0, indices@.len() as int) =~= chosen);
    if is_all {
        assert(chosen =~= av);
    }
    Some(out)
}


/// `s` with each element kept at its first occurrence only.
pub open spec fn first_occurrences<A>(s: Seq<A>) -> Seq<A>
    decreases s.len(),
{
    if s.len() == 0 {
        s
    } else if first_occurrences(s.drop_last()).contains(s.last()) {
        first_occurrences(s.drop_last())
    } else {
        first_occurrences(s.drop_last()).push(s.last())
    }
}

/// The tables of `tables`, each (schema, table) pair once, in the order
/// first listed.
pub fn unique_tables(tables: Vec<(String, String)>) -> (r: Vec<(String, String)>)
    ensures
        tables_view(r@) == first_occurrences(tables_view(tables@)),
{
    let ghost tv = tables_view(tables@);
    let mut out: Vec<(String, String)> = Vec::new();
    let mut i: usize = 0;
    let n = tables.len();
    assert(tv.subrange(0, 0) =~= Seq::<(Seq<char>, Seq<char>)>::empty());
    assert(tables_view(out@) =~= Seq::<(Seq<char>, Seq<char>)>::empty());
    while i < n
        invariant
            n == tables@.len() == tv.len(),
            i <= n,
            tv == tables_view(tables@),
            tables_view(out@) == first_occurrences(tv.subrange(0, i as int)),
        decreases n - i,
    {
        let t = copy_table(&tables[i]);
        assert(tv.subrange(0, i + 1).drop_last() =~= tv.subrange(0, i as int));
        assert(tv.subrange(0, i + 1).last() == tv[i as int]);
        assert(tv[i as int] == (t.0@, t.1@));
        let ghost ov = tables_view(out@);
        let mut seen = false;
        let mut k: usize = 0;
        while k < out.len()
            invariant
                k <= out@.len(),
                ov == tables_view(out@),
                seen == exists|j: int| 0 <= j < k && #[trigger] ov[j] == (t.0@, t.1@),
            decreases out@.len() - k,
        {
            if out[k].0 == t.0 && out[k].1 == t.1 {
                seen = true;
                assert(ov[k as int] == (t.0@, t.1@));
            }
            k = k + 1;
        }
        assert(seen == ov.contains((t.0@, t.1@)));
        if !seen {
            out.push(t);
            assert(tables_view(out@) =~= ov.push((t.0@, t.1@)));
        }
        i = i + 1;
    }
    assert(tv.subrange(0, n as int) =~= tv);
    out
}

} // verus!
