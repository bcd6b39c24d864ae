//! The message grammar: one line without its delimiter, taken apart into
//! prefix, command, parameters and trailing text.

use vstd::prelude::*;
use vstd::string::*;
use crate::irc::{Host, HostView, Origin, OriginView};
use crate::text::{chars_of, find_char, is_digit, is_letter, lemma_scan_to, lemma_scan_to_is, opt_view, scan_to, string_of, strs_view};

verus! {

/// A line taken apart.
pub struct ParsedMsg {
    pub prefix: Option<Origin>,
    pub command: String,
    /// The parameters before the trailing text; `None` when there is none.
    pub opt_params: Option<Vec<String>>,
    /// The text after " :", which may hold spaces.
    pub trailing: Option<String>,
}

/// Mathematical value of a `ParsedMsg`.
pub struct ParsedMsgView {
    pub prefix: Option<OriginView>,
    pub command: Seq<char>,
    pub opt_params: Option<Seq<Seq<char>>>,
    pub trailing: Option<Seq<char>>,
}

/// View of an optional origin.
pub open spec fn opt_origin_view(o: Option<Origin>) -> Option<OriginView> {
    match o {
        Some(x) => Some(x@),
        None => None,
    }
}

/// View of an optional list of strings.
pub open spec fn opt_strs_view(o: Option<Vec<String>>) -> Option<Seq<Seq<char>>> {
    match o {
        Some(v) => Some(strs_view(v@)),
        None => None,
    }
}

impl View for ParsedMsg {
    type V = ParsedMsgView;

    open spec fn view(&self) -> ParsedMsgView {
        ParsedMsgView {
            prefix: opt_origin_view(self.prefix),
            command: self.command@,
            opt_params: opt_strs_view(self.opt_params),
            trailing: opt_view(self.trailing),
        }
    }
}

impl ParsedMsgView {
    /// The parameters before the trailing text.
    pub open spec fn params(self) -> Seq<Seq<char>> {
        match self.opt_params {
            Some(p) => p,
            None => Seq::empty(),
        }
    }

    /// All arguments in order: the parameters, then the trailing text.
    pub open spec fn args(self) -> Seq<Seq<char>> {
        match self.trailing {
            Some(t) => self.params().push(t),
            None => self.params(),
        }
    }
}

/// Why a line is no message.
#[derive(Debug, Clone, Copy, PartialEq, Eq, Structural)]
pub enum ParseError {
    /// A prefix marker with nothing behind it.
    EmptyPrefix,
    /// No command where one must stand.
    NoCommand,
    /// The command is neither a word of letters nor three digits.
    BadCommand,
    /// More than fifteen parameters.
    TooManyParams,
}

/// The first position at or after `from` where `s` holds no space, or the
/// length of `s` where there is none.
pub open spec fn skip_spaces(s: Seq<char>, from: int) -> int
    decreases s.len() - from,
{
    if from < 0 || from >= s.len() {
        s.len() as int
    } else if s[from] != ' ' {
        from
    } else {
        skip_spaces(s, from + 1)
    }
}

/// What `skip_spaces` finds: a position within bounds, with no space
/// there unless it is the end, and only spaces before it.
pub proof fn lemma_skip_spaces(s: Seq<char>, from: int)
    requires
        0 <= from <= s.len(),
    ensures
        from <= skip_spaces(s, from) <= s.len(),
        skip_spaces(s, from) < s.len() ==> s[skip_spaces(s, from)] != ' ',
        forall|k: int| from <= k < skip_spaces(s, from) ==> s[k] == ' ',
    decreases s.len() - from,
{
    if from < s.len() && s[from] == ' ' {
        lemma_skip_spaces(s, from + 1);
    }
}

/// The parameters and the trailing text that `s` holds from position
/// `from` on: words between spaces, up to a word that begins with a colon,
/// behind which all is trailing text.
pub open spec fn params_from(s: Seq<char>, from: int) -> (Seq<Seq<char>>, Option<Seq<char>>)
    decreases s.len() - from,
{
    let i = skip_spaces(s, from);
    if from < 0 || i < from || i >= s.len() {
        (Seq::empty(), None)
    } else if s[i] == ':' {
        (Seq::empty(), Some(s.subrange(i + 1, s.len() as int)))
    } else {
        let e = scan_to(s, ' ', i);
        if e <= i || e > s.len() {
            (Seq::empty(), None)
        } else {
            let rest = params_from(s, e);
            (seq![s.subrange(i, e)] + rest.0, rest.1)
        }
    }
}

/// Whether `c` is a command: a word of letters, or three digits.
pub open spec fn valid_command(c: Seq<char>) -> bool {
    c.len() > 0 && ((forall|i: int| 0 <= i < c.len() ==> is_letter(#[trigger] c[i])) || (c.len() == 3
        && forall|i: int| 0 <= i < c.len() ==> is_digit(#[trigger] c[i])))
}

/// Who the prefix `p` names: `nick`, `nick!user`, `nick@host` or
/// `nick!user@host` name a user; a name with a dot and neither `!` nor `@`
/// names a server.
pub open spec fn origin_of(p: Seq<char>) -> OriginView {
    let at = scan_to(p, '@', 0);
    let head = p.take(at);
    let bang = scan_to(head, '!', 0);
    if at >= p.len() && bang >= head.len() && scan_to(p, '.', 0) < p.len() {
        OriginView::Server(HostView::Hostname(p))
    } else {
        OriginView::User(
            head.take(bang),
            if bang < head.len() {
                Some(head.skip(bang + 1))
            } else {
                None
            },
            if at < p.len() {
                Some(HostView::Hostname(p.skip(at + 1)))
            } else {
                None
            },
        )
    }
}

/// The most parameters a message may have, the trailing text counted.
pub const MAX_PARAMS: usize = 15;

/// What a line means: the message that it writes, or why it writes none.
pub open spec fn parse_spec(line: Seq<char>) -> Result<ParsedMsgView, ParseError> {
    let has_prefix = line.len() > 0 && line[0] == ':';
    let pe = if has_prefix {
        scan_to(line, ' ', 1)
    } else {
        0
    };
    let cs = skip_spaces(line, pe);
    let ce = scan_to(line, ' ', cs);
    let command = line.subrange(cs, ce);
    let rest = params_from(line, ce);
    let count = rest.0.len() + (if rest.1 is Some {
        1nat
    } else {
        0nat
    });
    if has_prefix && pe == 1 {
        Err(ParseError::EmptyPrefix)
    } else if command.len() == 0 {
        Err(ParseError::NoCommand)
    } else if !valid_command(command) {
        Err(ParseError::BadCommand)
    } else if count > MAX_PARAMS {
        Err(ParseError::TooManyParams)
    } else {
        Ok(
            ParsedMsgView {
                prefix: if has_prefix {
                    Some(origin_of(line.subrange(1, pe)))
                } else {
                    None
                },
                command,
                opt_params: if rest.0.len() > 0 {
                    Some(rest.0)
                } else {
                    None
                },
                trailing: rest.1,
            },
        )
    }
}

/// View of a result of `parse_line`.
pub open spec fn parsed_view(r: Result<ParsedMsg, ParseError>) -> Result<ParsedMsgView, ParseError> {
    match r {
        Ok(m) => Ok(m@),
        Err(e) => Err(e),
    }
}

fn skip_blank(v: &Vec<char>, from: usize) -> (r: usize)
    requires
        from <= v.len(),
    ensures
        r == skip_spaces(v@, from as int),
        from <= r <= v.len(),
        r < v.len() ==> v@[r as int] != ' ',
{
    let mut i: usize = from;
    while i < v.len() && v[i] == ' '
        invariant
            from <= i <= v.len(),
            skip_spaces(v@, from as int) == skip_spaces(v@, i as int),
        decreases v.len() - i,
    {
        i += 1;
    }
    i
}

fn check_command(v: &Vec<char>, from: usize, to: usize) -> (r: bool)
    requires
        from <= to <= v.len(),
    ensures
        r == valid_command(v@.subrange(from as int, to as int)),
{
    let ghost c = v@.subrange(from as int, to as int);
    if to == from {
        return false;
    }
    let mut letters = true;
    let mut digits = true;
    let mut i: usize = from;
    while i < to
        invariant
            from <= i <= to,
            to <= v.len(),
            c == v@.subrange(from as int, to as int),
            letters == (forall|k: int| 0 <= k < i - from ==> is_letter(#[trigger] c[k])),
            digits == (forall|k: int| 0 <= k < i - from ==> is_digit(#[trigger] c[k])),
        decreases to - i,
    {
        let ch = v[i];
        proof {
            assert(c[i - from] == ch);
        }
        if !(('a' <= ch && ch <= 'z') || ('A' <= ch && ch <= 'Z')) {
            letters = false;
        }
        if !('0' <= ch && ch <= '9') {
            digits = false;
        }
        i += 1;
    }
    letters || (to - from == 3 && digits)
}

/// Who the prefix `v[from..to]` names.
fn parse_origin(v: &Vec<char>, from: usize, to: usize) -> (r: Origin)
    requires
        from <= to <= v.len(),
    ensures
        r@ == origin_of(v@.subrange(from as int, to as int)),
{
    let p = crate::text::slice_of(v, from, to);
    let at = find_char(&p, '@', 0);
    let head = crate::text::slice_of(&p, 0, at);
    let bang = find_char(&head, '!', 0);
    let dot = find_char(&p, '.', 0);
    proof {
        assert(p@.take(at as int) =~= p@.subrange(0, at as int));
        assert(head@.take(bang as int) =~= head@.subrange(0, bang as int));
    }
    if at >= p.len() && bang >= head.len() && dot < p.len() {
        proof {
            assert(p@.subrange(0, p.len() as int) =~= p@);
        }
        Origin::Server(Host::Hostname(string_of(&p, 0, p.len())))
    } else {
        let nick = string_of(&head, 0, bang);
        let user = if bang < head.len() {
            proof {
                assert(head@.skip(bang + 1) =~= head@.subrange(bang + 1, head.len() as int));
            }
            Some(string_of(&head, bang + 1, head.len()))
        } else {
            None
        };
        let host = if at < p.len() {
            proof {
                assert(p@.skip(at + 1) =~= p@.subrange(at + 1, p.len() as int));
            }
            Some(Host::Hostname(string_of(&p, at + 1, p.len())))
        } else {
            None
        };
        Origin::User(nick, user, host)
    }
}

/// Takes a line without its delimiter apart.
pub fn parse_line(line: &str) -> (r: Result<ParsedMsg, ParseError>)
    ensures
        parsed_view(r) == parse_spec(line@),
{
    let v = chars_of(line);
    let n: usize = v.len();
    let has_prefix = n > 0 && v[0] == ':';
    let pe: usize = if has_prefix {
        find_char(&v, ' ', 1)
    } else {
        0
    };
    let cs = skip_blank(&v, pe);
    let ce = find_char(&v, ' ', cs);
    if has_prefix && pe == 1 {
        return Err(ParseError::EmptyPrefix);
    }
    if ce == cs {
        proof {
            assert(v@.subrange(cs as int, ce as int).len() == 0);
        }
        return Err(ParseError::NoCommand);
    }
    if !check_command(&v, cs, ce) {
        return Err(ParseError::BadCommand);
    }
    let ghost total = params_from(v@, ce as int);
    let mut params: Vec<String> = Vec::new();
    let mut trailing: Option<String> = None;
    let mut i: usize = ce;
    proof {
        assert(strs_view(params@) =~= Seq::<Seq<char>>::empty());
        assert(strs_view(params@) + total.0 =~= total.0);
    }
    while i < n
        invariant_except_break
            trailing is None,
            total.0 == strs_view(params@) + params_from(v@, i as int).0,
            total.1 == params_from(v@, i as int).1,
        invariant
            ce <= i <= n,
            n == v.len(),
            total == params_from(v@, ce as int),
        ensures
            total.0 == strs_view(params@),
            total.1 == opt_view(trailing),
        decreases n - i,
    {
        let j = skip_blank(&v, i);
        if j >= n {
            proof {
                assert(strs_view(params@) + Seq::<Seq<char>>::empty() =~= strs_view(params@));
            }
            break ;
        }
        if v[j] == ':' {
            trailing = Some(string_of(&v, j + 1, n));
            proof {
                assert(strs_view(params@) + Seq::<Seq<char>>::empty() =~= strs_view(params@));
            }
            break ;
        }
        let e = find_char(&v, ' ', j);
        let ghost before = strs_view(params@);
        let ghost rest = params_from(v@, e as int);
        params.push(string_of(&v, j, e));
        proof {
            assert(strs_view(params@) =~= before.push(v@.subrange(j as int, e as int)));
            assert(before + (seq![v@.subrange(j as int, e as int)] + rest.0) =~= strs_view(params@) + rest.0);
        }
        i = e;
    }
    proof {
        if i >= n && trailing is None {
            assert(strs_view(params@) + Seq::<Seq<char>>::empty() =~= strs_view(params@));
        }
    }
    let count: usize = params.len();
    let extra: usize = if trailing.is_some() {
        1
    } else {
        0
    };
    if count > MAX_PARAMS || count + extra > MAX_PARAMS {
        return Err(ParseError::TooManyParams);
    }
    let prefix = if has_prefix {
        Some(parse_origin(&v, 1, pe))
    } else {
        None
    };
    let command = string_of(&v, cs, ce);
    let opt_params = if params.len() > 0 {
        Some(params)
    } else {
        None
    };
    Ok(ParsedMsg { prefix, command, opt_params, trailing })
}

// ----- from a message back to its line -----

/// The prefix that names `o`.
pub open spec fn origin_text(o: OriginView) -> Seq<char> {
    match o {
        OriginView::Server(h) => h.text(),
        OriginView::User(n, u, h) => n + (match u {
            Some(x) => "!"@ + x,
            None => Seq::empty(),
        }) + (match h {
            Some(x) => "@"@ + x.text(),
            None => Seq::empty(),
        }),
    }
}

/// The parameters and the trailing text as they stand in a line: each
/// parameter behind a space, the trailing text behind a space and a colon.
pub open spec fn tail_text(params: Seq<Seq<char>>, trailing: Option<Seq<char>>) -> Seq<char>
    decreases params.len(),
{
    if params.len() == 0 {
        match trailing {
            Some(t) => " :"@ + t,
            None => Seq::empty(),
        }
    } else {
        " "@ + params[0] + tail_text(params.drop_first(), trailing)
    }
}

/// The line that writes the message `m`.
pub open spec fn format_spec(m: ParsedMsgView) -> Seq<char> {
    (match m.prefix {
        Some(o) => ":"@ + origin_text(o) + " "@,
        None => Seq::empty(),
    }) + m.command + tail_text(m.params(), m.trailing)
}

/// Whether `s` holds the character `c`.
pub open spec fn holds(s: Seq<char>, c: char) -> bool {
    exists|i: int| 0 <= i < s.len() && s[i] == c
}

/// Whether a line can name the origin `o` so that it is read back: names
/// are not empty and hold no separator of the part that follows them; a
/// server's name holds a dot, a nick that stands alone holds none; a host
/// is a name, not an address.
pub open spec fn origin_writable(o: OriginView) -> bool {
    match o {
        OriginView::Server(h) => h is Hostname && h.text().len() > 0 && !holds(h.text(), ' ') && !holds(
            h.text(),
            '!',
        ) && !holds(h.text(), '@') && holds(h.text(), '.'),
        OriginView::User(n, u, h) => {
            &&& n.len() > 0
            &&& !holds(n, ' ') && !holds(n, '!') && !holds(n, '@')
            &&& u matches Some(x) ==> !holds(x, ' ') && !holds(x, '@')
            &&& h matches Some(x) ==> x is Hostname && !holds(x.text(), ' ')
            &&& (u is None && h is None) ==> !holds(n, '.')
        },
    }
}

/// Whether a line can write the parameter `p` so that it is read back: it
/// is not empty, holds no space and does not begin with a colon.
pub open spec fn param_writable(p: Seq<char>) -> bool {
    p.len() > 0 && !holds(p, ' ') && p[0] != ':'
}

/// Whether a line can write the message `m` so that it is read back.
pub open spec fn writable(m: ParsedMsgView) -> bool {
    &&& m.prefix matches Some(o) ==> origin_writable(o)
    &&& valid_command(m.command)
    &&& m.opt_params matches Some(ps) ==> ps.len() > 0
    &&& forall|i: int| 0 <= i < m.params().len() ==> param_writable(#[trigger] m.params()[i])
    &&& m.args().len() <= MAX_PARAMS
}

proof fn lemma_scan_past(s: Seq<char>, c: char, from: int, word: Seq<char>)
    requires
        0 <= from,
        from + word.len() <= s.len(),
        s.subrange(from, from + word.len()) == word,
        !holds(word, c),
        from + word.len() < s.len() ==> s[from + word.len()] == c,
    ensures
        scan_to(s, c, from) == from + word.len(),
{
    assert forall|k: int| from <= k < from + word.len() implies s[k] != c by {
        assert(s[k] == word[k - from]);
    }
    lemma_scan_to_is(s, c, from, from + word.len());
}

proof fn lemma_skip_to(s: Seq<char>, from: int, at: int)
    requires
        0 <= from <= at <= s.len(),
        at < s.len() ==> s[at] != ' ',
        forall|k: int| from <= k < at ==> s[k] == ' ',
    ensures
        skip_spaces(s, from) == at,
    decreases at - from,
{
    if from < at {
        lemma_skip_to(s, from + 1, at);
    }
}

/// The tail of a line that writes parameters and trailing text is read
/// back as these.
proof fn lemma_tail_parses(s: Seq<char>, from: int, params: Seq<Seq<char>>, trailing: Option<Seq<char>>)
    requires
        0 <= from <= s.len(),
        s.subrange(from, s.len() as int) == tail_text(params, trailing),
        forall|i: int| 0 <= i < params.len() ==> param_writable(#[trigger] params[i]),
    ensures
        params_from(s, from) == (params, trailing),
    decreases params.len(),
{
    let tail = tail_text(params, trailing);
    let n = s.len() as int;
    assert forall|k: int| 0 <= k < tail.len() implies s[from + k] == tail[k] by {
        assert(s.subrange(from, n)[k] == s[from + k]);
    }
    if params.len() == 0 {
        match trailing {
            Some(t) => {
                reveal_strlit(" :");
                assert(tail.len() == t.len() + 2);
                assert(tail[0] == ' ' && tail[1] == ':');
                assert(s[from] == ' ' && s[from + 1] == ':');
                lemma_skip_to(s, from, from + 1);
                assert(s.subrange(from + 2, n) =~= t) by {
                    assert forall|k: int| 0 <= k < t.len() implies s.subrange(from + 2, n)[k] == t[k] by {
                        assert(s[from + 2 + k] == tail[k + 2]);
                    }
                }
                assert(params_from(s, from).0 =~= params);
            },
            None => {
                assert(tail.len() == 0);
                assert(s.subrange(from, n).len() == n - from);
                assert(from == n);
                assert(params_from(s, from).0 =~= params);
            },
        }
    } else {
        reveal_strlit(" ");
        let p = params[0];
        let rest = tail_text(params.drop_first(), trailing);
        assert(param_writable(p));
        assert(tail.len() == 1 + p.len() + rest.len());
        assert(tail[0] == ' ');
        assert(s[from] == ' ');
        assert(s[from + 1] == tail[1]);
        assert(tail[1] == p[0]);
        if p[0] == ' ' {
            assert(holds(p, ' '));
        }
        lemma_skip_to(s, from, from + 1);
        let i = from + 1;
        let e = i + p.len();
        assert(s.subrange(i, e) =~= p) by {
            assert forall|k: int| 0 <= k < p.len() implies s.subrange(i, e)[k] == p[k] by {
                assert(s[i + k] == tail[1 + k]);
            }
        }
        assert(s.subrange(e, n) =~= rest) by {
            assert forall|k: int| 0 <= k < rest.len() implies s.subrange(e, n)[k] == rest[k] by {
                assert(s[e + k] == tail[1 + p.len() + k]);
            }
        }
        if e < n {
            assert(rest.len() > 0);
            assert(s[e] == rest[0]);
            if params.drop_first().len() == 0 {
                reveal_strlit(" :");
                assert(trailing is Some);
                assert(rest[0] == ' ');
            } else {
                assert(rest[0] == ' ');
            }
        }
        lemma_scan_past(s, ' ', i, p);
        assert forall|k: int| 0 <= k < params.drop_first().len() implies param_writable(
            #[trigger] params.drop_first()[k],
        ) by {
            assert(params.drop_first()[k] == params[k + 1]);
        }
        lemma_tail_parses(s, e, params.drop_first(), trailing);
        assert(seq![p] + params.drop_first() =~= params);
    }
}

proof fn lemma_holds_concat(a: Seq<char>, b: Seq<char>, c: char)
    ensures
        holds(a + b, c) == (holds(a, c) || holds(b, c)),
{
    if holds(a + b, c) {
        let i = choose|i: int| 0 <= i < (a + b).len() && (a + b)[i] == c;
        if i < a.len() {
            assert(a[i] == c);
        } else {
            assert(b[i - a.len()] == c);
        }
    }
    if holds(a, c) {
        let i = choose|i: int| 0 <= i < a.len() && a[i] == c;
        assert((a + b)[i] == c);
    }
    if holds(b, c) {
        let i = choose|i: int| 0 <= i < b.len() && b[i] == c;
        assert((a + b)[a.len() + i] == c);
    }
}

proof fn lemma_single(s: Seq<char>, c: char)
    requires
        s.len() == 1,
        s[0] != c,
    ensures
        !holds(s, c),
{
    if holds(s, c) {
        let i = choose|i: int| 0 <= i < s.len() && s[i] == c;
        assert(i == 0);
    }
}

proof fn lemma_scan_finds(s: Seq<char>, c: char)
    ensures
        holds(s, c) == (scan_to(s, c, 0) < s.len()),
{
    lemma_scan_to(s, c, 0);
    if holds(s, c) {
        let i = choose|i: int| 0 <= i < s.len() && s[i] == c;
        if scan_to(s, c, 0) >= s.len() {
            assert(s[i] != c);
        }
    }
}

/// The prefix that names an origin is read back as that origin.
pub proof fn lemma_origin_round_trip(o: OriginView)
    requires
        origin_writable(o),
    ensures
        origin_of(origin_text(o)) == o,
        origin_text(o).len() > 0,
        !holds(origin_text(o), ' '),
{
    let p = origin_text(o);
    reveal_strlit("!");
    reveal_strlit("@");
    match o {
        OriginView::Server(h) => {
            lemma_scan_finds(p, '@');
            lemma_scan_to(p, '@', 0);
            lemma_scan_finds(p, '.');
            let at = scan_to(p, '@', 0);
            assert(at == p.len());
            let head = p.take(at);
            assert(head =~= p);
            lemma_scan_finds(head, '!');
            lemma_scan_to(head, '!', 0);
            assert(h == crate::irc::HostView::Hostname(p));
        },
        OriginView::User(n, u, h) => {
            let up = match u {
                Some(x) => "!"@ + x,
                None => Seq::<char>::empty(),
            };
            let hp = match h {
                Some(x) => "@"@ + x.text(),
                None => Seq::<char>::empty(),
            };
            let head_want = n + up;
            assert(p == head_want + hp);
            // no space anywhere
            lemma_single("!"@, ' ');
            lemma_single("!"@, '@');
            lemma_single("@"@, ' ');
            lemma_holds_concat(n, up, ' ');
            lemma_holds_concat(head_want, hp, ' ');
            if u is Some {
                lemma_holds_concat("!"@, u->0, ' ');
                lemma_holds_concat("!"@, u->0, '@');
            }
            if h is Some {
                lemma_holds_concat("@"@, h->0.text(), ' ');
            }
            assert(!holds(up, ' ') && !holds(up, '@'));
            assert(!holds(hp, ' '));
            // the head holds no '@'
            lemma_holds_concat(n, up, '@');
            assert(!holds(head_want, '@'));
            if h is Some {
                assert(hp[0] == '@');
                assert(p[head_want.len() as int] == hp[0]);
                assert(p.subrange(0, head_want.len() as int) =~= head_want);
                lemma_scan_past(p, '@', 0, head_want);
            } else {
                assert(p =~= head_want);
                lemma_scan_finds(p, '@');
                lemma_scan_to(p, '@', 0);
            }
            let at = scan_to(p, '@', 0);
            assert(at == head_want.len());
            let head = p.take(at);
            assert(head =~= head_want);
            if u is Some {
                assert(up[0] == '!');
                assert(head[n.len() as int] == up[0]);
                assert(head.subrange(0, n.len() as int) =~= n);
                lemma_scan_past(head, '!', 0, n);
            } else {
                assert(head =~= n);
                lemma_scan_finds(head, '!');
                lemma_scan_to(head, '!', 0);
            }
            let bang = scan_to(head, '!', 0);
            assert(bang == n.len());
            assert(head.take(bang) =~= n);
            if u is Some {
                assert(head.skip(bang + 1) =~= u->0);
            }
            if h is Some {
                assert(p.skip(at + 1) =~= h->0.text());
            }
            if u is None && h is None {
                assert(p =~= n);
                lemma_scan_finds(p, '.');
            }
        },
    }
}

/// Round trip: the line that writes a message is read back as that
/// message.
pub proof fn lemma_parse_format_round_trip(m: ParsedMsgView)
    requires
        writable(m),
    ensures
        parse_spec(format_spec(m)) == Ok::<ParsedMsgView, ParseError>(m),
{
    let line = format_spec(m);
    let c = m.command;
    let tail = tail_text(m.params(), m.trailing);
    let n = line.len() as int;
    reveal_strlit(":");
    reveal_strlit(" ");
    reveal_strlit(" :");
    assert(c.len() > 0);
    assert(c[0] != ':' && c[0] != ' ') by {
        assert(is_letter(c[0]) || is_digit(c[0]));
    }
    assert(!holds(c, ' ')) by {
        if holds(c, ' ') {
            let i = choose|i: int| 0 <= i < c.len() && c[i] == ' ';
            assert(is_letter(c[i]) || is_digit(c[i]));
        }
    }
    // the tail is empty or begins with a space
    assert(tail.len() > 0 ==> tail[0] == ' ') by {
        if m.params().len() == 0 {
            if m.trailing is Some {
            }
        }
    }
    let lead: Seq<char> = match m.prefix {
        Some(o) => ":"@ + origin_text(o) + " "@,
        None => Seq::empty(),
    };
    assert(line == lead + c + tail);
    let cs = lead.len() as int;
    let ce = cs + c.len();
    assert(line.subrange(cs, ce) =~= c);
    assert(line.subrange(ce, n) =~= tail);
    if ce < n {
        assert(line[ce] == tail[0]);
    }
    lemma_scan_past(line, ' ', cs, c);
    match m.prefix {
        Some(o) => {
            lemma_origin_round_trip(o);
            let ot = origin_text(o);
            let pe: int = 1 + (ot.len() as int);
            assert(line[0] == ':');
            assert(line.subrange(1, pe) =~= ot);
            assert(line[pe] == ' ');
            lemma_scan_past(line, ' ', 1, ot);
            assert(line[pe + 1] == c[0]);
            lemma_skip_to(line, pe, pe + 1);
            assert(cs == pe + 1);
        },
        None => {
            assert(line[0] == c[0]);
            lemma_skip_to(line, 0, 0);
        },
    }
    lemma_tail_parses(line, ce, m.params(), m.trailing);
    let rest = params_from(line, ce);
    assert(rest == (m.params(), m.trailing));
    let parsed = parse_spec(format_spec(m));
    assert(parsed is Ok);
    assert(parsed->Ok_0.prefix == m.prefix);
    assert(parsed->Ok_0.command == m.command);
    assert(parsed->Ok_0.trailing == m.trailing);
    assert(parsed->Ok_0.opt_params == m.opt_params);
}

impl Origin {
    /// The prefix that names the origin.
    pub fn text(&self) -> (r: String)
        ensures
            r@ == origin_text(self@),
    {
        match self {
            Origin::Server(h) => String::from_str(h.as_str()),
            Origin::User(n, u, h) => {
                let mut out = n.clone();
                match u {
                    Some(x) => {
                        let mut part = String::from_str("!");
                        part.append(x.as_str());
                        out.append(part.as_str());
                    },
                    None => {
                        proof {
                            assert(out@ + Seq::<char>::empty() =~= out@);
                        }
                    },
                }
                let ghost so_far = out@;
                match h {
                    Some(x) => {
                        let mut part = String::from_str("@");
                        part.append(x.as_str());
                        out.append(part.as_str());
                    },
                    None => {
                        proof {
                            assert(so_far + Seq::<char>::empty() =~= so_far);
                        }
                    },
                }
                out
            },
        }
    }
}

impl ParsedMsg {
    /// The line that writes the message, without delimiter.
    pub fn format(&self) -> (r: String)
        ensures
            r@ == format_spec(self@),
    {
        let mut out = String::new();
        match &self.prefix {
            Some(o) => {
                out.append(":");
                out.append(o.text().as_str());
                out.append(" ");
                proof {
                    assert(out@ =~= ":"@ + origin_text(o@) + " "@);
                }
            },
            None => {},
        }
        out.append(self.command.as_str());
        let ghost head = out@;
        let ghost all = self@.params();
        match &self.opt_params {
            Some(params) => {
                let mut i: usize = 0;
                proof {
                    assert(all.skip(0) =~= all);
                }
                while i < params.len()
                    invariant
                        i <= params.len(),
                        all == strs_view(params@),
                        head + tail_text(all, self@.trailing) == out@ + tail_text(all.skip(i as int), self@.trailing),
                    decreases params.len() - i,
                {
                    let ghost before = out@;
                    let ghost rest = tail_text(all.skip(i + 1), self@.trailing);
                    proof {
                        assert(all.skip(i as int)[0] == params@[i as int]@);
                        assert(all.skip(i as int).drop_first() =~= all.skip(i + 1));
                    }
                    out.append(" ");
                    out.append(params[i].as_str());
                    proof {
                        assert(before + (" "@ + params@[i as int]@ + rest) =~= out@ + rest);
                    }
                    i += 1;
                }
                proof {
                    assert(all.skip(params.len() as int) =~= Seq::<Seq<char>>::empty());
                }
            },
            None => {},
        }
        let ghost so_far = out@;
        match &self.trailing {
            Some(t) => {
                out.append(" :");
                out.append(t.as_str());
                proof {
                    assert(so_far + (" :"@ + t@) =~= out@);
                }
            },
            None => {
                proof {
                    assert(so_far + Seq::<char>::empty() =~= so_far);
                }
            },
        }
        out
    }
}

} // verus!
