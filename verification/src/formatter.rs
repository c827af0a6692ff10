//! A listing of compact JSON text over several lines, with its values
//! wrapped in coloured spans.

use vstd::prelude::*;
use crate::builder::value::same_chars;
use crate::text::{chars_of, spaces, string_of};

verus! {

/// Where the formatter stands between two characters.
pub struct FormatState {
    /// The listing so far.
    pub formatted: Seq<char>,
    /// The value that is being gathered.
    pub temp: Seq<char>,
    pub is_quoted: bool,
    /// The indent of the current line.
    pub tab: int,
    /// For each open container and each entry in turn, whether what comes
    /// next belongs to a value.
    pub value_queue: Seq<bool>,
    /// For each open container, whether it is an object.
    pub colon_queue: Seq<bool>,
}

pub open spec fn span_open(colour: Seq<char>) -> Seq<char> {
    "<span style=\"color: "@ + colour + "\">"@
}

pub open spec fn span_close() -> Seq<char> {
    "</span>"@
}

/// The colour of a gathered value: green between quotes, gray for `null`,
/// orange for `true` and `false`, red for anything else.
pub open spec fn colour_of(x: Seq<char>) -> Seq<char> {
    if x.len() > 0 && x[0] == '"' && x.last() == '"' {
        "green"@
    } else if x == "null"@ {
        "gray"@
    } else if x == "true"@ || x == "false"@ {
        "orange"@
    } else {
        "red"@
    }
}

/// Gives the gathered value to the listing: all but its last character in
/// a span, then the last character, which ended it.
pub open spec fn paint(s: FormatState) -> FormatState {
    if s.temp.len() == 0 {
        s
    } else {
        let x = s.temp.drop_last();
        FormatState {
            formatted: s.formatted + span_open(colour_of(x)) + x + span_close() + seq![
                s.temp.last(),
            ],
            temp: Seq::empty(),
            ..s
        }
    }
}

pub open spec fn in_i32(v: int) -> bool {
    i32::MIN <= v <= i32::MAX
}

pub open spec fn new_line(formatted: Seq<char>, tab: int) -> Seq<char> {
    formatted + seq!['\n'] + spaces(tab as nat)
}

/// `formatted` without its last `n` characters, or without any if it has
/// fewer.
pub open spec fn pop_many(formatted: Seq<char>, n: int) -> Seq<char> {
    if n <= 0 {
        formatted
    } else if n >= formatted.len() {
        Seq::empty()
    } else {
        formatted.take(formatted.len() - n)
    }
}

/// An opening delimiter: what was gathered goes to the listing, and a new
/// line begins one level further in.
pub open spec fn step_open(s: FormatState, array: bool, tab_size: int) -> Option<FormatState> {
    let tab = s.tab + tab_size;
    if !in_i32(tab) || tab < 0 {
        None
    } else {
        Some(
            FormatState {
                formatted: new_line(s.formatted + s.temp, tab),
                temp: Seq::empty(),
                tab,
                value_queue: s.value_queue.push(array),
                colon_queue: s.colon_queue.push(!array),
                ..s
            },
        )
    }
}

/// The listing before a closing delimiter `last`: on a new line one level
/// further out, unless the line is still empty, which is then shortened.
pub open spec fn close_line(body: Seq<char>, before: int, tab: int, tab_size: int) -> Option<
    Seq<char>,
> {
    if before < 0 || before >= body.len() {
        None
    } else if body[body.len() - 1 - before] != '\n' {
        if tab < 0 {
            None
        } else {
            Some(new_line(body, tab))
        }
    } else {
        Some(pop_many(body, tab - tab_size))
    }
}

/// A closing delimiter: what was gathered is painted, and the delimiter
/// goes to its own line.
pub open spec fn step_close(s: FormatState, tab_size: int) -> Option<FormatState> {
    let tab = s.tab - tab_size;
    let s2 = paint(s);
    if !in_i32(tab) || s2.formatted.len() == 0 || s2.value_queue.len() == 0 {
        None
    } else {
        match close_line(s2.formatted.drop_last(), s.tab, tab, tab_size) {
            None => None,
            Some(f) => Some(
                FormatState {
                    formatted: f.push(s2.formatted.last()),
                    tab,
                    value_queue: s2.value_queue.drop_last(),
                    colon_queue: if s2.colon_queue.len() > 0 {
                        s2.colon_queue.drop_last()
                    } else {
                        s2.colon_queue
                    },
                    ..s2
                },
            ),
        }
    }
}

/// A comma: what was gathered is painted, and a new line begins. In an
/// object a key comes next.
pub open spec fn step_comma(s: FormatState) -> Option<FormatState> {
    let s2 = paint(s);
    if s2.tab < 0 || s2.colon_queue.len() == 0 {
        None
    } else {
        Some(
            FormatState {
                formatted: new_line(s2.formatted, s2.tab),
                value_queue: if s2.colon_queue.last() {
                    s2.value_queue.push(false)
                } else {
                    s2.value_queue
                },
                ..s2
            },
        )
    }
}

/// A colon: a space follows it, and a value comes next.
pub open spec fn step_colon(s: FormatState) -> FormatState {
    FormatState { formatted: s.formatted.push(' '), value_queue: s.value_queue.push(true), ..s }
}

/// What one character does. Nothing comes of it where the indent leaves the
/// range of the machine integer or falls below zero where a line begins,
/// where no container is open for the character, or where the listing is
/// too short for a closing delimiter.
pub open spec fn format_step(s: FormatState, ch: char, tab_size: int) -> Option<FormatState> {
    let quoted = if ch == '"' {
        !s.is_quoted
    } else {
        s.is_quoted
    };
    if (ch == ' ' || ch == '\n') && !quoted {
        Some(FormatState { is_quoted: quoted, ..s })
    } else if s.value_queue.len() == 0 {
        None
    } else {
        let s1 = if s.value_queue.last() {
            FormatState { temp: s.temp.push(ch), is_quoted: quoted, ..s }
        } else {
            FormatState { formatted: s.formatted.push(ch), is_quoted: quoted, ..s }
        };
        if ch == '{' || ch == '[' {
            step_open(s1, ch == '[', tab_size)
        } else if ch == '}' || ch == ']' {
            step_close(s1, tab_size)
        } else if ch == ',' {
            step_comma(s1)
        } else if ch == ':' {
            Some(step_colon(s1))
        } else {
            Some(s1)
        }
    }
}

/// What a run of characters does, one after the other.
pub open spec fn format_run(s: FormatState, chars: Seq<char>, tab_size: int) -> Option<FormatState>
    decreases chars.len(),
{
    if chars.len() == 0 {
        Some(s)
    } else {
        match format_run(s, chars.drop_last(), tab_size) {
            Some(before) => format_step(before, chars.last(), tab_size),
            None => None,
        }
    }
}

pub open spec fn format_start() -> FormatState {
    FormatState {
        formatted: Seq::empty(),
        temp: Seq::empty(),
        is_quoted: false,
        tab: 0,
        value_queue: seq![false],
        colon_queue: Seq::empty(),
    }
}

/// The listing of `json` with `tab_size` spaces more for each level.
pub open spec fn format_spec(json: Seq<char>, tab_size: int) -> Option<Seq<char>> {
    match format_run(format_start(), json, tab_size) {
        Some(s) => Some(s.formatted),
        None => None,
    }
}

pub struct Logic {}

struct Formatter {
    formatted: Vec<char>,
    temp: Vec<char>,
    is_quoted: bool,
    tab: i32,
    value_queue: Vec<bool>,
    colon_queue: Vec<bool>,
}

fn push_text(out: &mut Vec<char>, text: &str)
    ensures
        final(out)@ == old(out)@ + text@,
{
    let chars = chars_of(text);
    push_chars(out, &chars);
}

fn push_chars(out: &mut Vec<char>, chars: &Vec<char>)
    ensures
        final(out)@ == old(out)@ + chars@,
{
    let mut i: usize = 0;
    assert(out@ =~= old(out)@ + chars@.take(0));
    while i < chars.len()
        invariant
            i <= chars.len(),
            out@ == old(out)@ + chars@.take(i as int),
        decreases chars.len() - i,
    {
        out.push(chars[i]);
        i += 1;
        assert(out@ =~= old(out)@ + chars@.take(i as int));
    }
    assert(chars@.take(chars.len() as int) =~= chars@);
}

fn push_line(out: &mut Vec<char>, tab: i32)
    requires
        tab >= 0,
    ensures
        final(out)@ == new_line(old(out)@, tab as int),
{
    out.push('\n');
    let mut i: i32 = 0;
    assert(out@ =~= old(out)@ + seq!['\n'] + spaces(0));
    while i < tab
        invariant
            0 <= i <= tab,
            out@ == old(out)@ + seq!['\n'] + spaces(i as nat),
        decreases tab - i,
    {
        out.push(' ');
        i += 1;
        assert(out@ =~= old(out)@ + seq!['\n'] + spaces(i as nat));
    }
}

fn same_as(x: &Vec<char>, text: &str) -> (r: bool)
    ensures
        r == (x@ == text@),
{
    let chars = chars_of(text);
    same_chars(x, &chars)
}

fn colour(x: &Vec<char>) -> (c: &'static str)
    ensures
        c@ == colour_of(x@),
{
    if x.len() > 0 && x[0] == '"' && x[x.len() - 1] == '"' {
        "green"
    } else if same_as(x, "null") {
        "gray"
    } else if same_as(x, "true") || same_as(x, "false") {
        "orange"
    } else {
        "red"
    }
}

impl Formatter {
    spec fn view(&self) -> FormatState {
        FormatState {
            formatted: self.formatted@,
            temp: self.temp@,
            is_quoted: self.is_quoted,
            tab: self.tab as int,
            value_queue: self.value_queue@,
            colon_queue: self.colon_queue@,
        }
    }

    fn paint(&mut self)
        ensures
            final(self).view() == paint(old(self).view()),
    {
        match self.temp.pop() {
            None => {},
            Some(last) => {
                assert(self.temp@ == old(self).temp@.drop_last());
                let c = colour(&self.temp);
                push_text(&mut self.formatted, "<span style=\"color: ");
                push_text(&mut self.formatted, c);
                push_text(&mut self.formatted, "\">");
                push_chars(&mut self.formatted, &self.temp);
                push_text(&mut self.formatted, "</span>");
                self.formatted.push(last);
                self.temp.clear();
                assert(self.formatted@ =~= paint(old(self).view()).formatted);
            },
        }
    }

    fn open(&mut self, array: bool, tab_size: i32) -> (r: bool)
        ensures
            match step_open(old(self).view(), array, tab_size as int) {
                Some(s) => r && final(self).view() == s,
                None => !r,
            },
    {
        let tab = match self.tab.checked_add(tab_size) {
            Some(t) => t,
            None => {
                return false;
            },
        };
        if tab < 0 {
            return false;
        }
        self.tab = tab;
        push_chars(&mut self.formatted, &self.temp);
        self.temp.clear();
        push_line(&mut self.formatted, tab);
        self.value_queue.push(array);
        self.colon_queue.push(!array);
        true
    }

    fn close_line(&mut self, before: i32, tab: i32, tab_size: i32) -> (r: bool)
        requires
            tab == before - tab_size,
        ensures
            final(self).temp == old(self).temp,
            final(self).is_quoted == old(self).is_quoted,
            final(self).tab == old(self).tab,
            final(self).value_queue == old(self).value_queue,
            final(self).colon_queue == old(self).colon_queue,
            match close_line(old(self).formatted@, before as int, tab as int, tab_size as int) {
                Some(f) => r && final(self).formatted@ == f,
                None => !r,
            },
    {
        let n = self.formatted.len();
        if before < 0 || before as usize >= n {
            return false;
        }
        if self.formatted[n - 1 - before as usize] != '\n' {
            if tab < 0 {
                return false;
            }
            push_line(&mut self.formatted, tab);
        } else {
            let ghost body = self.formatted@;
            let count: i64 = if tab > tab_size {
                tab as i64 - tab_size as i64
            } else {
                0
            };
            let mut k: i64 = 0;
            assert(self.formatted@ =~= pop_many(body, 0));
            while k < count
                invariant
                    0 <= k <= count,
                    self.formatted@ == pop_many(body, k as int),
                    self.temp == old(self).temp,
                    self.is_quoted == old(self).is_quoted,
                    self.tab == old(self).tab,
                    self.value_queue == old(self).value_queue,
                    self.colon_queue == old(self).colon_queue,
                decreases count - k,
            {
                let _ = self.formatted.pop();
                k += 1;
                assert(self.formatted@ =~= pop_many(body, k as int));
            }
            assert(self.formatted@ =~= pop_many(body, tab - tab_size));
        }
        true
    }

    fn close(&mut self, tab_size: i32) -> (r: bool)
        ensures
            match step_close(old(self).view(), tab_size as int) {
                Some(s) => r && final(self).view() == s,
                None => !r,
            },
    {
        let before = self.tab;
        let tab = match self.tab.checked_sub(tab_size) {
            Some(t) => t,
            None => {
                return false;
            },
        };
        self.paint();
        let ghost painted = self.view();
        if self.value_queue.len() == 0 {
            return false;
        }
        let last = match self.formatted.pop() {
            Some(c) => c,
            None => {
                return false;
            },
        };
        assert(self.formatted@ == painted.formatted.drop_last());
        if !self.close_line(before, tab, tab_size) {
            return false;
        }
        self.formatted.push(last);
        self.tab = tab;
        let _ = self.value_queue.pop();
        let _ = self.colon_queue.pop();
        true
    }

    fn comma(&mut self) -> (r: bool)
        ensures
            match step_comma(old(self).view()) {
                Some(s) => r && final(self).view() == s,
                None => !r,
            },
    {
        self.paint();
        if self.tab < 0 || self.colon_queue.len() == 0 {
            return false;
        }
        push_line(&mut self.formatted, self.tab);
        if self.colon_queue[self.colon_queue.len() - 1] {
            self.value_queue.push(false);
        }
        true
    }

    fn colon(&mut self)
        ensures
            final(self).view() == step_colon(old(self).view()),
    {
        self.formatted.push(' ');
        self.value_queue.push(true);
    }

    fn step(&mut self, ch: char, tab_size: i32) -> (r: bool)
        ensures
            match format_step(old(self).view(), ch, tab_size as int) {
                Some(s) => r && final(self).view() == s,
                None => !r,
            },
    {
        if ch == '"' {
            self.is_quoted = !self.is_quoted;
        }
        if (ch == ' ' || ch == '\n') && !self.is_quoted {
            return true;
        }
        if self.value_queue.len() == 0 {
            return false;
        }
        if self.value_queue[self.value_queue.len() - 1] {
            self.temp.push(ch);
        } else {
            self.formatted.push(ch);
        }
        if ch == '{' || ch == '[' {
            self.open(ch == '[', tab_size)
        } else if ch == '}' || ch == ']' {
            self.close(tab_size)
        } else if ch == ',' {
            self.comma()
        } else if ch == ':' {
            self.colon();
            true
        } else {
            true
        }
    }
}

impl Logic {
    /// The listing of `json`, or nothing where the text is not nested as a
    /// document is.
    pub fn format(json: &str, tab_size: i32) -> (r: Option<String>)
        ensures
            match r {
                Some(s) => format_spec(json@, tab_size as int) == Some(s@),
                None => format_spec(json@, tab_size as int) is None,
            },
    {
        let chars = chars_of(json);
        let mut value_queue: Vec<bool> = Vec::new();
        value_queue.push(false);
        let mut f = Formatter {
            formatted: Vec::new(),
            temp: Vec::new(),
            is_quoted: false,
            tab: 0,
            value_queue,
            colon_queue: Vec::new(),
        };
        assert(f.view().value_queue =~= seq![false]);
        assert(f.view() == format_start()) by {
            assert(f.view().formatted =~= Seq::<char>::empty());
            assert(f.view().temp =~= Seq::<char>::empty());
            assert(f.view().colon_queue =~= Seq::<bool>::empty());
        }
        let mut i: usize = 0;
        assert(chars@.take(0) =~= Seq::<char>::empty());
        while i < chars.len()
            invariant
                i <= chars.len(),
                chars@ == json@,
                format_run(format_start(), chars@.take(i as int), tab_size as int) == Some(
                    f.view(),
                ),
            decreases chars.len() - i,
        {
            let ghost next = chars@.take(i + 1);
            assert(next.drop_last() =~= chars@.take(i as int));
            assert(next.last() == chars@[i as int]);
            if !f.step(chars[i], tab_size) {
                proof {
                    lemma_run_fails(format_start(), chars@, i + 1, tab_size as int);
                }
                return None;
            }
            i += 1;
        }
        assert(chars@.take(i as int) =~= chars@);
        Some(string_of(&f.formatted, 0, f.formatted.len()))
    }
}

/// A run that fails after some of its characters fails as a whole.
pub proof fn lemma_run_fails(s: FormatState, chars: Seq<char>, n: int, tab_size: int)
    requires
        0 <= n <= chars.len(),
        format_run(s, chars.take(n), tab_size) is None,
    ensures
        format_run(s, chars, tab_size) is None,
    decreases chars.len() - n,
{
    if n < chars.len() {
        assert(chars.take(n + 1).drop_last() =~= chars.take(n));
        lemma_run_fails(s, chars, n + 1, tab_size);
    } else {
        assert(chars.take(n) =~= chars);
    }
}

} // verus!
