use vstd::prelude::*;
use vstd::string::StringExecFns;
use crate::server::enums::{HttpMethod, HttpRequestMethod, method_of};
use crate::text::{chars_of, string_of, strings_view};

verus! {

/// Whether a character is white space: the characters with the Unicode
/// property of that name.
pub open spec fn is_white(c: char) -> bool {
    ||| '\u{9}' <= c <= '\u{d}'
    ||| c == ' '
    ||| c == '\u{85}'
    ||| c == '\u{a0}'
    ||| c == '\u{1680}'
    ||| '\u{2000}' <= c <= '\u{200a}'
    ||| c == '\u{2028}'
    ||| c == '\u{2029}'
    ||| c == '\u{202f}'
    ||| c == '\u{205f}'
    ||| c == '\u{3000}'
}

pub fn white(c: char) -> (b: bool)
    ensures
        b == is_white(c),
{
    ('\u{9}' <= c && c <= '\u{d}') || c == ' ' || c == '\u{85}' || c == '\u{a0}' || c
        == '\u{1680}' || ('\u{2000}' <= c && c <= '\u{200a}') || c == '\u{2028}' || c
        == '\u{2029}' || c == '\u{202f}' || c == '\u{205f}' || c == '\u{3000}'
}

/// The first place from `i` on that holds no white space.
pub open spec fn skip_white(s: Seq<char>, i: int) -> int
    decreases s.len() - i,
{
    if 0 <= i < s.len() && is_white(s[i]) {
        skip_white(s, i + 1)
    } else {
        i
    }
}

/// The first place from `i` on that holds white space.
pub open spec fn word_end(s: Seq<char>, i: int) -> int
    decreases s.len() - i,
{
    if 0 <= i < s.len() && !is_white(s[i]) {
        word_end(s, i + 1)
    } else {
        i
    }
}

pub proof fn lemma_scan_bounds(s: Seq<char>, i: int)
    requires
        0 <= i <= s.len(),
    ensures
        i <= skip_white(s, i) <= s.len(),
        i <= word_end(s, i) <= s.len(),
        i < s.len() && !is_white(s[i]) ==> word_end(s, i) > i,
    decreases s.len() - i,
{
    if i < s.len() {
        lemma_scan_bounds(s, i + 1);
    }
}

/// The word of `s` that is number `n` from `i` on, counting from zero.
/// Words are the stretches between white space.
pub open spec fn nth_word(s: Seq<char>, i: int, n: nat) -> Option<Seq<char>>
    decreases n,
{
    let a = skip_white(s, i);
    if i < 0 || a >= s.len() {
        None
    } else {
        let b = word_end(s, a);
        if n == 0 {
            Some(s.subrange(a, b))
        } else {
            nth_word(s, b, (n - 1) as nat)
        }
    }
}

/// The place of the first character that is no colon.
pub open spec fn colons(s: Seq<char>, i: int) -> int
    decreases s.len() - i,
{
    if 0 <= i < s.len() && s[i] == ':' {
        colons(s, i + 1)
    } else {
        i
    }
}

/// A header line without the first of its characters that is no colon.
pub open spec fn after_first(s: Seq<char>) -> Seq<char> {
    let k = colons(s, 0);
    if k < s.len() {
        s.take(k) + s.skip(k + 1)
    } else {
        s
    }
}

/// `s` without the white space at its ends.
pub open spec fn trimmed(s: Seq<char>) -> Seq<char>
    decreases s.len(),
{
    if s.len() > 0 && is_white(s[0]) {
        trimmed(s.drop_first())
    } else if s.len() > 0 && is_white(s.last()) {
        trimmed(s.drop_last())
    } else {
        s
    }
}

/// The place of the first `c` from `i` on, or the end.
pub open spec fn find_char(s: Seq<char>, c: char, i: int) -> int
    decreases s.len() - i,
{
    if 0 <= i < s.len() && s[i] != c {
        find_char(s, c, i + 1)
    } else {
        i
    }
}

/// The pieces of `s` from `i` on between each two `c`, each trimmed.
pub open spec fn pieces(s: Seq<char>, c: char, i: int) -> Seq<Seq<char>>
    decreases s.len() - i,
{
    let k = find_char(s, c, i);
    if i < 0 || k < i {
        Seq::empty()
    } else if k >= s.len() {
        seq![trimmed(s.subrange(i, s.len() as int))]
    } else {
        seq![trimmed(s.subrange(i, k))] + pieces(s, c, k + 1)
    }
}

/// A request, as far as its first twelve lines tell.
#[derive(Debug)]
pub struct HttpRequest {
    pub method: HttpRequestMethod,
    pub path: String,
    pub http_version: String,
    pub host: String,
    pub user_agent: String,
    pub accept: String,
    pub accept_language: String,
    pub accept_encoding: Vec<String>,
    pub connection: String,
    pub upgrade_insecure_requests: String,
    pub sec_fetch_dest: String,
    pub sec_fetch_mode: String,
    pub sec_fetch_site: String,
    pub priority: String,
}

/// Word `at` of line `index`: nothing asked of a line that is not there,
/// and no answer from a line that has too few words.
pub open spec fn line_word(request: Seq<Seq<char>>, index: int, at: nat) -> Option<Seq<char>> {
    if 0 <= index < request.len() {
        nth_word(request[index], 0, at)
    } else {
        Some(Seq::empty())
    }
}

/// Header line `index` without its first character; empty if the line is
/// not there.
pub open spec fn header(request: Seq<Seq<char>>, index: int) -> Seq<char> {
    if 0 <= index < request.len() {
        after_first(request[index])
    } else {
        Seq::empty()
    }
}

/// The last header read up to line `index`.
pub open spec fn last_header(request: Seq<Seq<char>>, index: int) -> Seq<char>
    decreases index,
{
    if index < 1 {
        Seq::empty()
    } else if index < request.len() {
        after_first(request[index])
    } else {
        last_header(request, index - 1)
    }
}

struct HttpRequestParser {
    request: Vec<String>,
    temp: String,
}

fn scan_white(chars: &Vec<char>, from: usize) -> (r: usize)
    requires
        from <= chars.len(),
    ensures
        from <= r <= chars.len(),
        r == skip_white(chars@, from as int),
{
    let mut i = from;
    while i < chars.len() && white(chars[i])
        invariant
            from <= i <= chars.len(),
            skip_white(chars@, from as int) == skip_white(chars@, i as int),
        decreases chars.len() - i,
    {
        i += 1;
    }
    i
}

fn scan_word(chars: &Vec<char>, from: usize) -> (r: usize)
    requires
        from <= chars.len(),
    ensures
        from <= r <= chars.len(),
        r == word_end(chars@, from as int),
{
    let mut i = from;
    while i < chars.len() && !white(chars[i])
        invariant
            from <= i <= chars.len(),
            word_end(chars@, from as int) == word_end(chars@, i as int),
        decreases chars.len() - i,
    {
        i += 1;
    }
    i
}

/// Word `at` of `line`.
pub fn word_at(line: &str, at: usize) -> (r: Option<String>)
    ensures
        match r {
            Some(w) => nth_word(line@, 0, at as nat) == Some(w@),
            None => nth_word(line@, 0, at as nat) is None,
        },
{
    let chars = chars_of(line);
    let mut i: usize = 0;
    let mut n: usize = at;
    loop
        invariant
            i <= chars.len(),
            chars@ == line@,
            nth_word(line@, 0, at as nat) == nth_word(chars@, i as int, n as nat),
        decreases n,
    {
        let a = scan_white(&chars, i);
        if a >= chars.len() {
            return None;
        }
        let b = scan_word(&chars, a);
        proof {
            lemma_scan_bounds(chars@, a as int);
        }
        if n == 0 {
            return Some(string_of(&chars, a, b));
        }
        i = b;
        n -= 1;
    }
}

/// `line` without the first of its characters that is no colon.
pub fn drop_first_plain(line: &str) -> (r: String)
    ensures
        r@ == after_first(line@),
{
    let chars = chars_of(line);
    let mut k: usize = 0;
    while k < chars.len() && chars[k] == ':'
        invariant
            k <= chars.len(),
            colons(chars@, 0) == colons(chars@, k as int),
        decreases chars.len() - k,
    {
        k += 1;
    }
    let mut r = string_of(&chars, 0, k);
    if k < chars.len() {
        let rest = string_of(&chars, k + 1, chars.len());
        r.append(rest.as_str());
        assert(chars@.take(k as int) =~= chars@.subrange(0, k as int));
        assert(chars@.skip(k + 1) =~= chars@.subrange(k + 1, chars.len() as int));
    } else {
        assert(chars@.subrange(0, k as int) =~= chars@);
    }
    r
}

/// `chars[from..to]` without the white space at its ends.
fn trim_range(chars: &Vec<char>, from: usize, to: usize) -> (r: String)
    requires
        from <= to <= chars.len(),
    ensures
        r@ == trimmed(chars@.subrange(from as int, to as int)),
{
    let mut a = from;
    let mut b = to;
    loop
        invariant
            from <= a <= b <= to <= chars.len(),
            trimmed(chars@.subrange(from as int, to as int)) == trimmed(
                chars@.subrange(a as int, b as int),
            ),
        decreases b - a,
    {
        let ghost cur = chars@.subrange(a as int, b as int);
        if a < b && white(chars[a]) {
            assert(cur[0] == chars@[a as int]);
            assert(cur.drop_first() =~= chars@.subrange(a + 1, b as int));
            a += 1;
        } else if a < b && white(chars[b - 1]) {
            assert(cur[0] == chars@[a as int]);
            assert(cur.last() == chars@[b - 1]);
            assert(cur.drop_last() =~= chars@.subrange(a as int, b - 1));
            b -= 1;
        } else {
            if a < b {
                assert(cur[0] == chars@[a as int]);
                assert(cur.last() == chars@[b - 1]);
            }
            return string_of(chars, a, b);
        }
    }
}

/// The pieces of `text` between each two `c`, each trimmed.
pub fn split_trimmed(text: &str, c: char) -> (r: Vec<String>)
    ensures
        strings_view(r@) == pieces(text@, c, 0),
{
    let chars = chars_of(text);
    let mut out: Vec<String> = Vec::new();
    let mut i: usize = 0;
    assert(strings_view(out@) =~= Seq::<Seq<char>>::empty());
    loop
        invariant
            i <= chars.len(),
            chars@ == text@,
            pieces(text@, c, 0) == strings_view(out@) + pieces(chars@, c, i as int),
        decreases chars.len() - i,
    {
        let mut k = i;
        while k < chars.len() && chars[k] != c
            invariant
                i <= k <= chars.len(),
                find_char(chars@, c, i as int) == find_char(chars@, c, k as int),
            decreases chars.len() - k,
        {
            k += 1;
        }
        let ghost before = strings_view(out@);
        let piece = trim_range(&chars, i, k);
        out.push(piece);
        assert(strings_view(out@) =~= before + seq![piece@]);
        if k >= chars.len() {
            assert(before + seq![piece@] =~= before + pieces(chars@, c, i as int));
            return out;
        }
        assert(before + pieces(chars@, c, i as int) =~= strings_view(out@) + pieces(
            chars@,
            c,
            k + 1,
        ));
        i = k + 1;
    }
}

impl HttpRequestParser {
    spec fn lines(&self) -> Seq<Seq<char>> {
        strings_view(self.request@)
    }

    fn new(request: Vec<String>) -> (p: Self)
        ensures
            p.lines() == strings_view(request@),
            p.temp@ == Seq::<char>::empty(),
    {
        Self { request, temp: String::new() }
    }

    fn separate_with(&self, c: char) -> (r: Option<Vec<String>>)
        ensures
            match r {
                Some(v) => self.temp@.len() > 0 && strings_view(v@) == pieces(self.temp@, c, 0),
                None => self.temp@.len() == 0,
            },
    {
        if chars_of(self.temp.as_str()).len() == 0 {
            return None;
        }
        Some(split_trimmed(self.temp.as_str(), c))
    }

    fn parse_line(&self, index: usize, at: usize) -> (r: Option<String>)
        ensures
            match r {
                Some(w) => line_word(self.lines(), index as int, at as nat) == Some(w@),
                None => line_word(self.lines(), index as int, at as nat) is None,
            },
    {
        if index < self.request.len() {
            word_at(self.request[index].as_str(), at)
        } else {
            Some(String::new())
        }
    }

    fn parse_colon(&mut self, index: usize) -> (r: String)
        ensures
            final(self).request == old(self).request,
            r@ == header(old(self).lines(), index as int),
            final(self).temp@ == (if index < old(self).request.len() {
                r@
            } else {
                old(self).temp@
            }),
    {
        if index < self.request.len() {
            let result = drop_first_plain(self.request[index].as_str());
            self.temp = result.clone();
            result
        } else {
            String::new()
        }
    }
}

impl HttpRequest {
    /// Whether the lines hold what a request must have: three words in
    /// the first line if there is one, and a header among the lines up to
    /// the sixth that is not empty.
    pub open spec fn complete(request: Seq<Seq<char>>) -> bool {
        &&& line_word(request, 0, 0) is Some
        &&& line_word(request, 0, 1) is Some
        &&& line_word(request, 0, 2) is Some
        &&& last_header(request, 5).len() > 0
    }

    /// Reads a request from its lines, or nothing where they are not
    /// complete.
    pub fn construct(request: Vec<String>) -> (r: Option<Self>)
        ensures
            match r {
                Some(q) => {
                    let lines = strings_view(request@);
                    &&& Self::complete(lines)
                    &&& q.method.method() == method_of(line_word(lines, 0, 0)->Some_0)
                    &&& q.path@ == line_word(lines, 0, 1)->Some_0
                    &&& q.http_version@ == line_word(lines, 0, 2)->Some_0
                    &&& q.host@ == header(lines, 1)
                    &&& q.user_agent@ == header(lines, 2)
                    &&& q.accept@ == header(lines, 3)
                    &&& q.accept_language@ == header(lines, 4)
                    &&& strings_view(q.accept_encoding@) == pieces(last_header(lines, 5), ',', 0)
                    &&& q.connection@ == header(lines, 6)
                    &&& q.upgrade_insecure_requests@ == header(lines, 7)
                    &&& q.sec_fetch_dest@ == header(lines, 8)
                    &&& q.sec_fetch_mode@ == header(lines, 9)
                    &&& q.sec_fetch_site@ == header(lines, 10)
                    &&& q.priority@ == header(lines, 11)
                },
                None => !Self::complete(strings_view(request@)),
            },
    {
        let mut parser = HttpRequestParser::new(request);
        let ghost lines = parser.lines();
        let method = match parser.parse_line(0, 0) {
            Some(w) => HttpRequestMethod::from(w),
            None => {
                return None;
            },
        };
        let path = match parser.parse_line(0, 1) {
            Some(w) => w,
            None => {
                return None;
            },
        };
        let http_version = match parser.parse_line(0, 2) {
            Some(w) => w,
            None => {
                return None;
            },
        };
        let host = parser.parse_colon(1);
        assert(parser.temp@ == last_header(lines, 1)) by {
            reveal_with_fuel(last_header, 2);
        }
        let user_agent = parser.parse_colon(2);
        assert(parser.temp@ == last_header(lines, 2));
        let accept = parser.parse_colon(3);
        assert(parser.temp@ == last_header(lines, 3));
        let accept_language = parser.parse_colon(4);
        assert(parser.temp@ == last_header(lines, 4));
        let _ = parser.parse_colon(5);
        assert(parser.temp@ == last_header(lines, 5));
        let accept_encoding = match parser.separate_with(',') {
            Some(v) => v,
            None => {
                return None;
            },
        };
        let connection = parser.parse_colon(6);
        let upgrade_insecure_requests = parser.parse_colon(7);
        let sec_fetch_dest = parser.parse_colon(8);
        let sec_fetch_mode = parser.parse_colon(9);
        let sec_fetch_site = parser.parse_colon(10);
        let priority = parser.parse_colon(11);
        Some(
            HttpRequest {
                method,
                path,
                http_version,
                host,
                user_agent,
                accept,
                accept_language,
                accept_encoding,
                connection,
                upgrade_insecure_requests,
                sec_fetch_dest,
                sec_fetch_mode,
                sec_fetch_site,
                priority,
            },
        )
    }
}

} // verus!
