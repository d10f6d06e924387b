//! Which templates are safe to render. The template engine panics, or does not end, on a few
//! forms: a subscript that runs backwards over something empty, a remainder by zero, a loop's
//! cycle over nothing, counting an empty text, sorting by an attribute that only some items have,
//! comparing what a chain could not list, a namespace that holds itself, and sizes that are no
//! machine numbers. A template is split into tokens as the engine splits it, and one that may hold
//! such a form is not tame.

use crate::text::chars_of;
use vstd::prelude::*;

verus! {

/// A piece of a template's code. Words and quoted texts are places in the source.
#[derive(Debug, Clone, Copy, PartialEq, Eq, Structural)]
pub enum Token {
    /// Code begins or ends.
    Edge,
    /// A name or a number.
    Word(usize, usize),
    Quoted(usize, usize),
    Sign(char),
    /// Something that does not end, or a bracket that nothing opened.
    Wrong,
}

/// What the source is at a place.
#[derive(Debug, Clone, Copy, PartialEq, Eq, Structural)]
pub enum Mode {
    Text,
    /// An expression, or a block where `block` says so, with so many brackets open.
    Code { block: bool, depth: usize },
}

pub open spec fn holds(s: Seq<char>, i: int, c: char) -> bool {
    0 <= i < s.len() && s[i] == c
}

pub open spec fn word_char(c: char) -> bool {
    c == '_' || ('0' <= c && c <= '9') || ('a' <= c && c <= 'z') || ('A' <= c && c <= 'Z')
}

pub open spec fn blank(c: char) -> bool {
    c == ' ' || c == '\t' || c == '\n' || c == '\r' || c == '\u{c}'
}

/// Where the word at `i` ends.
pub open spec fn word_end(s: Seq<char>, i: int) -> int
    decreases s.len() - i,
{
    if 0 <= i < s.len() && word_char(s[i]) {
        word_end(s, i + 1)
    } else {
        i
    }
}

/// Where the quote closes, or the source's end. A backslash takes the next character along.
pub open spec fn quote_end(s: Seq<char>, i: int, quote: char) -> int
    decreases s.len() - i,
{
    if i < 0 || i >= s.len() {
        s.len() as int
    } else if s[i] == '\\' {
        if i + 1 < s.len() {
            quote_end(s, i + 2, quote)
        } else {
            s.len() as int
        }
    } else if s[i] == quote {
        i
    } else {
        quote_end(s, i + 1, quote)
    }
}

/// Where a comment's closing mark stands, or the source's end.
pub open spec fn comment_end(s: Seq<char>, i: int) -> int
    decreases s.len() - i,
{
    if i < 0 || i >= s.len() {
        s.len() as int
    } else if s[i] == '#' && holds(s, i + 1, '}') {
        i
    } else {
        comment_end(s, i + 1)
    }
}

/// Where the opening mark at `i` ends, with the sign for blanks that it may have.
pub open spec fn open_end(s: Seq<char>, i: int) -> int {
    if holds(s, i + 2, '-') || holds(s, i + 2, '+') {
        i + 3
    } else {
        i + 2
    }
}

/// Whether code closes at `i`.
pub open spec fn closes(s: Seq<char>, i: int, block: bool) -> bool {
    holds(s, i, if block { '%' } else { '}' }) && holds(s, i + 1, '}')
}

/// The next step through a source: the token at `i`, if there is one, and what comes behind it.
pub open spec fn lexed(s: Seq<char>, i: int, mode: Mode) -> (Option<Token>, int, Mode) {
    let c = s[i];
    match mode {
        Mode::Text => if c == '{' && (holds(s, i + 1, '{') || holds(s, i + 1, '%')) {
            (Some(Token::Edge), open_end(s, i), Mode::Code { block: s[i + 1] == '%', depth: 0 })
        } else if c == '{' && holds(s, i + 1, '#') {
            let end = comment_end(s, open_end(s, i));
            if end < s.len() {
                (None, end + 2, Mode::Text)
            } else {
                (Some(Token::Wrong), s.len() as int, Mode::Text)
            }
        } else {
            (None, i + 1, Mode::Text)
        },
        Mode::Code { block, depth } => if blank(c) {
            (None, i + 1, mode)
        } else if depth == 0 && closes(s, i, block) {
            (Some(Token::Edge), i + 2, Mode::Text)
        } else if depth == 0 && (c == '-' || c == '+') && closes(s, i + 1, block) {
            (Some(Token::Edge), i + 3, Mode::Text)
        } else if c == '\'' || c == '"' {
            let end = quote_end(s, i + 1, c);
            if end < s.len() {
                (Some(Token::Quoted((i + 1) as usize, end as usize)), end + 1, mode)
            } else {
                (Some(Token::Wrong), s.len() as int, mode)
            }
        } else if word_char(c) {
            (Some(Token::Word(i as usize, word_end(s, i) as usize)), word_end(s, i), mode)
        } else if c == '(' || c == '[' || c == '{' {
            (Some(Token::Sign(c)), i + 1, Mode::Code { block, depth: (depth + 1) as usize })
        } else if c == ')' || c == ']' || c == '}' {
            if depth == 0 {
                (Some(Token::Wrong), i + 1, mode)
            } else {
                (Some(Token::Sign(c)), i + 1, Mode::Code { block, depth: (depth - 1) as usize })
            }
        } else {
            (Some(Token::Sign(c)), i + 1, mode)
        },
    }
}

/// The tokens of a source's code from `i` on.
pub open spec fn tokens(s: Seq<char>, i: int, mode: Mode) -> Seq<Token>
    decreases s.len() - i,
{
    if i < 0 || i >= s.len() {
        Seq::empty()
    } else {
        let (token, next, after) = lexed(s, i, mode);
        if next <= i || next > s.len() {
            Seq::empty()
        } else {
            match token {
                Some(t) => seq![t] + tokens(s, next, after),
                None => tokens(s, next, after),
            }
        }
    }
}

/// The token at a place; beyond the tokens there is no code.
pub open spec fn token(t: Seq<Token>, i: int) -> Token {
    if 0 <= i < t.len() {
        t[i]
    } else {
        Token::Edge
    }
}

/// Whether the token at a place is this sign.
pub open spec fn sign(t: Seq<Token>, i: int, c: char) -> bool {
    token(t, i) == Token::Sign(c)
}

/// Whether the token at a place is this word.
pub open spec fn word(s: Seq<char>, t: Seq<Token>, i: int, w: Seq<char>) -> bool {
    token(t, i) matches Token::Word(a, b) && a <= b <= s.len() && s.subrange(a as int, b as int) == w
}

/// Whether the token at a place is the quoted name of a filter or test that may be called by
/// name: it names none that is left out, none that takes a name itself, and holds no escape.
pub open spec fn harmless(s: Seq<char>, t: Seq<Token>, i: int) -> bool {
    token(t, i) matches Token::Quoted(a, b) && a <= b <= s.len() && {
        let name = s.subrange(a as int, b as int);
        &&& !name.contains('\\')
        &&& name != "divisibleby"@ && name != "batch"@ && name != "slice"@ && name != "indent"@ && name != "format"@
        &&& name != "chain"@
        &&& name != "map"@ && name != "select"@ && name != "reject"@ && name != "selectattr"@ && name != "rejectattr"@
    }
}

/// Whether an argument ends at a place.
pub open spec fn argument_ends(t: Seq<Token>, i: int) -> bool {
    sign(t, i, ',') || sign(t, i, ')')
}

/// The commas of a call's arguments from `i` on, at an inner depth.
pub open spec fn commas(t: Seq<Token>, i: int, depth: int) -> nat
    decreases t.len() - i,
{
    if i < 0 || i >= t.len() || t[i] is Edge || (depth == 0 && sign(t, i, ')')) {
        0
    } else {
        let inner = if sign(t, i, '(') || sign(t, i, '[') || sign(t, i, '{') {
            depth + 1
        } else if sign(t, i, ')') || sign(t, i, ']') || sign(t, i, '}') {
            depth - 1
        } else {
            depth
        };
        commas(t, i + 1, inner) + if depth == 0 && sign(t, i, ',') {
            1nat
        } else {
            0
        }
    }
}

/// Whether another colon stands before `i` in the same subscript.
pub open spec fn colon_before(t: Seq<Token>, i: int, depth: int) -> bool
    decreases i,
{
    if i <= 0 || i > t.len() || t[i - 1] is Edge {
        false
    } else if sign(t, i - 1, ')') || sign(t, i - 1, ']') || sign(t, i - 1, '}') {
        colon_before(t, i - 1, depth + 1)
    } else if sign(t, i - 1, '(') || sign(t, i - 1, '[') || sign(t, i - 1, '{') {
        depth != 0 && colon_before(t, i - 1, depth - 1)
    } else if depth == 0 && sign(t, i - 1, ':') {
        true
    } else if depth == 0 && sign(t, i - 1, ',') {
        false
    } else {
        colon_before(t, i - 1, depth)
    }
}

/// Whether the step behind a subscript's second colon is left out or is a number without a sign.
pub open spec fn forward(s: Seq<char>, t: Seq<Token>, i: int) -> bool {
    sign(t, i + 1, ']') || (sign(t, i + 2, ']') && match token(t, i + 1) {
        Token::Word(a, _) => a < s.len() && '0' <= s[a as int] && s[a as int] <= '9',
        _ => false,
    })
}

/// Whether a subscript's second colon belongs to `messages[::-1]`.
pub open spec fn messages_reversed(s: Seq<char>, t: Seq<Token>, i: int) -> bool {
    &&& word(s, t, i - 3, "messages"@)
    &&& !sign(t, i - 4, '.')
    &&& !sign(t, i - 4, '|')
    &&& sign(t, i - 2, '[')
    &&& sign(t, i - 1, ':')
    &&& sign(t, i + 1, '-')
    &&& word(s, t, i + 2, "1"@)
    &&& sign(t, i + 3, ']')
}

/// Whether a place does not give `messages` another value.
pub open spec fn keeps_messages(s: Seq<char>, t: Seq<Token>, i: int) -> bool {
    word(s, t, i, "messages"@) ==> {
        &&& !word(s, t, i - 1, "set"@)
        &&& !word(s, t, i + 1, "in"@)
        &&& !sign(t, i + 1, '=')
        &&& !sign(t, i + 1, ',')
        &&& !sign(t, i + 1, ')')
        &&& !sign(t, i + 1, ']')
    }
}

/// A step of a subscript goes forward, or reverses the conversation, which is never empty.
pub open spec fn step_rule(s: Seq<char>, t: Seq<Token>, i: int) -> bool {
    sign(t, i, ':') && colon_before(t, i, 0) ==> forward(s, t, i) || (messages_reversed(s, t, i) && forall|j: int|
        0 <= j < t.len() ==> #[trigger] keeps_messages(s, t, j))
}

/// A word is none of those that are left out, where it would be called.
pub open spec fn word_rule(s: Seq<char>, t: Seq<Token>, i: int) -> bool {
    &&& t[i] != Token::Wrong
    &&& !sign(t, i, '*')
    &&& !word(s, t, i, "divisibleby"@) && !word(s, t, i, "batch"@) && !word(s, t, i, "slice"@)
    &&& !word(s, t, i, "indent"@) && !word(s, t, i, "format"@) && !word(s, t, i, "chain"@)
    &&& !word(s, t, i, "import"@)
    &&& !(word(s, t, i, "raw"@) && token(t, i - 1) is Edge)
    &&& !(word(s, t, i, "count"@) && sign(t, i - 1, '.') && sign(t, i + 1, '('))
    &&& !(word(s, t, i, "cycle"@) && sign(t, i + 1, '(') && sign(t, i + 2, ')'))
    &&& !(word(s, t, i, "sort"@) && sign(t, i + 1, '('))
    &&& word(s, t, i, "range"@) ==> sign(t, i + 1, '(') && commas(t, i + 2, 0) <= 1
}

/// Filters and tests are called by name only where the name is written down and harmless.
pub open spec fn name_rule(s: Seq<char>, t: Seq<Token>, i: int) -> bool {
    &&& sign(t, i + 1, '(') && (word(s, t, i, "map"@) || word(s, t, i, "select"@) || word(s, t, i, "reject"@)) ==> {
        ||| sign(t, i + 2, ')')
        ||| harmless(s, t, i + 2) && argument_ends(t, i + 3)
        ||| word(s, t, i + 2, "attribute"@) && sign(t, i + 3, '=') && token(t, i + 4) is Quoted && sign(t, i + 5, ')')
    }
    &&& sign(t, i + 1, '(') && (word(s, t, i, "selectattr"@) || word(s, t, i, "rejectattr"@)) ==> {
        &&& token(t, i + 2) is Quoted
        &&& sign(t, i + 3, ')') || (sign(t, i + 3, ',') && harmless(s, t, i + 4) && argument_ends(t, i + 5))
    }
}

/// Whether a name is filled by attributes at a place.
pub open spec fn filled(s: Seq<char>, t: Seq<Token>, i: int) -> bool {
    word(s, t, i, "set"@) && token(t, i - 1) is Edge && token(t, i + 1) is Word && sign(t, i + 2, '.')
}

/// Whether a place that names the word at `i` reads an attribute, or makes a new namespace of it.
pub open spec fn keeps_name(s: Seq<char>, t: Seq<Token>, i: int, j: int) -> bool {
    (token(t, i) matches Token::Word(a, b) && a <= b <= s.len() && word(s, t, j, s.subrange(a as int, b as int))) ==> {
        ||| sign(t, j + 1, '.')
        ||| word(s, t, j - 1, "set"@) && sign(t, j + 1, '=') && word(s, t, j + 2, "namespace"@) && sign(t, j + 3, '(')
    }
}

/// Whether a dot stands between a place and the sign `=` or the end of the code.
pub open spec fn dotted(t: Seq<Token>, i: int) -> bool
    decreases t.len() - i,
{
    if i < 0 || i >= t.len() || t[i] is Edge || sign(t, i, '=') {
        false
    } else {
        sign(t, i, '.') || dotted(t, i + 1)
    }
}

/// An attribute is set of one name, which stands for nothing but a namespace of its own: no
/// namespace comes to hold itself.
pub open spec fn set_rule(s: Seq<char>, t: Seq<Token>, i: int) -> bool {
    word(s, t, i, "set"@) && token(t, i - 1) is Edge && dotted(t, i + 1) ==> {
        &&& filled(s, t, i)
        &&& token(t, i + 3) is Word
        &&& sign(t, i + 4, '=') || token(t, i + 4) is Edge
        &&& forall|j: int| 0 <= j < t.len() ==> #[trigger] keeps_name(s, t, i + 1, j)
    }
}

pub open spec fn tame_at(s: Seq<char>, t: Seq<Token>, i: int) -> bool {
    step_rule(s, t, i) && word_rule(s, t, i) && name_rule(s, t, i) && set_rule(s, t, i)
}

/// A template that holds no form on which rendering panics or does not end.
pub open spec fn tame(s: Seq<char>) -> bool {
    let t = tokens(s, 0, Mode::Text);
    forall|i: int| 0 <= i < t.len() ==> #[trigger] tame_at(s, t, i)
}

/// The column that the source has reached at a place.
pub open spec fn column(s: Seq<char>, i: int) -> nat
    decreases i,
{
    if i <= 0 || s[i - 1] == '\n' {
        0
    } else {
        column(s, i - 1) + 1
    }
}

/// A source whose places the engine can count: lines of less than 65535 characters, and bytes
/// within 32 bits.
pub open spec fn narrow(s: Seq<char>) -> bool {
    &&& s.len() < 0x4000_0000
    &&& forall|i: int| 0 <= i <= s.len() ==> #[trigger] column(s, i) < 65535
}

/// Tests whether the engine can count the places of a source.
pub fn is_narrow(source: &str) -> (r: bool)
    ensures
        r == narrow(source@),
{
    let s = chars_of(source);
    if s.len() >= 0x4000_0000 {
        return false;
    }
    let mut at: usize = 0;
    let mut i: usize = 0;
    while i < s.len()
        invariant
            i <= s@.len(),
            s@ == source@,
            at == column(s@, i as int),
            at < 65535,
            forall|k: int| 0 <= k <= i ==> #[trigger] column(s@, k) < 65535,
        decreases s@.len() - i,
    {
        at = if s[i] == '\n' {
            0
        } else {
            at + 1
        };
        i = i + 1;
        assert(at == column(s@, i as int));
        if at >= 65535 {
            return false;
        }
    }
    true
}

fn char_at(s: &Vec<char>, i: usize, off: usize, c: char) -> (r: bool)
    requires
        i <= s@.len(),
    ensures
        r == holds(s@, i + off, c),
{
    off < s.len() - i && s[i + off] == c
}

fn is_word_char(c: char) -> (r: bool)
    ensures
        r == word_char(c),
{
    c == '_' || ('0' <= c && c <= '9') || ('a' <= c && c <= 'z') || ('A' <= c && c <= 'Z')
}

fn find_word_end(s: &Vec<char>, from: usize) -> (r: usize)
    requires
        from < s@.len(),
    ensures
        r == word_end(s@, from as int),
        from <= r <= s@.len(),
        word_char(s@[from as int]) ==> from < r,
{
    let mut i: usize = from;
    while i < s.len() && is_word_char(s[i])
        invariant
            from <= i <= s@.len(),
            word_end(s@, i as int) == word_end(s@, from as int),
            word_char(s@[from as int]) && i == from ==> word_char(s@[i as int]),
        decreases s@.len() - i,
    {
        i = i + 1;
    }
    i
}

fn find_quote_end(s: &Vec<char>, from: usize, quote: char) -> (r: usize)
    requires
        from <= s@.len(),
    ensures
        r == quote_end(s@, from as int, quote),
        from <= r <= s@.len(),
{
    let mut i: usize = from;
    while i < s.len()
        invariant
            from <= i <= s@.len(),
            quote_end(s@, i as int, quote) == quote_end(s@, from as int, quote),
        decreases s@.len() - i,
    {
        if s[i] == '\\' {
            if s.len() - i < 2 {
                return s.len();
            }
            i = i + 2;
        } else if s[i] == quote {
            return i;
        } else {
            i = i + 1;
        }
    }
    i
}

fn find_comment_end(s: &Vec<char>, from: usize) -> (r: usize)
    requires
        from <= s@.len(),
    ensures
        r == comment_end(s@, from as int),
        r < s@.len() ==> from <= r && r + 2 <= s@.len(),
        r <= s@.len(),
{
    let mut i: usize = from;
    while i < s.len()
        invariant
            from <= i <= s@.len(),
            comment_end(s@, i as int) == comment_end(s@, from as int),
        decreases s@.len() - i,
    {
        if s[i] == '#' && i + 1 < s.len() && s[i + 1] == '}' {
            return i;
        }
        i = i + 1;
    }
    s.len()
}

fn is_closed(s: &Vec<char>, i: usize, block: bool) -> (r: bool)
    requires
        i <= s@.len(),
    ensures
        r == closes(s@, i as int, block),
{
    char_at(s, i, 0, if block { '%' } else { '}' }) && char_at(s, i, 1, '}')
}

fn lex(s: &Vec<char>, i: usize, mode: Mode) -> (r: (Option<Token>, usize, Mode))
    requires
        i < s@.len(),
        mode matches Mode::Code { depth, .. } ==> depth <= i,
    ensures
        (r.0, r.1 as int, r.2) == lexed(s@, i as int, mode),
        i < r.1 <= s@.len(),
        r.2 matches Mode::Code { depth, .. } ==> depth <= r.1,
{
    let c: char = s[i];
    let n: usize = s.len();
    match mode {
        Mode::Text => {
            let signed: bool = char_at(s, i, 2, '-') || char_at(s, i, 2, '+');
            if c == '{' && (char_at(s, i, 1, '{') || char_at(s, i, 1, '%')) {
                let start: usize = if signed { i + 3 } else { i + 2 };
                (Some(Token::Edge), start, Mode::Code { block: s[i + 1] == '%', depth: 0 })
            } else if c == '{' && char_at(s, i, 1, '#') {
                let start: usize = if signed { i + 3 } else { i + 2 };
                let end: usize = find_comment_end(s, start);
                if end < n {
                    (None, end + 2, Mode::Text)
                } else {
                    (Some(Token::Wrong), n, Mode::Text)
                }
            } else {
                (None, i + 1, Mode::Text)
            }
        },
        Mode::Code { block, depth } => {
            if c == ' ' || c == '\t' || c == '\n' || c == '\r' || c == '\u{c}' {
                (None, i + 1, mode)
            } else if depth == 0 && is_closed(s, i, block) {
                (Some(Token::Edge), i + 2, Mode::Text)
            } else if depth == 0 && (c == '-' || c == '+') && is_closed(s, i + 1, block) {
                (Some(Token::Edge), i + 3, Mode::Text)
            } else if c == '\'' || c == '"' {
                let end: usize = find_quote_end(s, i + 1, c);
                if end < n {
                    (Some(Token::Quoted(i + 1, end)), end + 1, mode)
                } else {
                    (Some(Token::Wrong), n, mode)
                }
            } else if is_word_char(c) {
                let end: usize = find_word_end(s, i);
                (Some(Token::Word(i, end)), end, mode)
            } else if c == '(' || c == '[' || c == '{' {
                (Some(Token::Sign(c)), i + 1, Mode::Code { block, depth: depth + 1 })
            } else if c == ')' || c == ']' || c == '}' {
                if depth == 0 {
                    (Some(Token::Wrong), i + 1, mode)
                } else {
                    (Some(Token::Sign(c)), i + 1, Mode::Code { block, depth: depth - 1 })
                }
            } else {
                (Some(Token::Sign(c)), i + 1, mode)
            }
        },
    }
}

fn split(s: &Vec<char>) -> (r: Vec<Token>)
    ensures
        r@ == tokens(s@, 0, Mode::Text),
{
    let mut out: Vec<Token> = Vec::new();
    let mut i: usize = 0;
    let mut mode: Mode = Mode::Text;
    assert(out@ + tokens(s@, 0, Mode::Text) =~= tokens(s@, 0, Mode::Text));
    while i < s.len()
        invariant
            i <= s@.len(),
            mode matches Mode::Code { depth, .. } ==> depth <= i,
            out@ + tokens(s@, i as int, mode) == tokens(s@, 0, Mode::Text),
        decreases s@.len() - i,
    {
        let (token, next, after) = lex(s, i, mode);
        let ghost rest = tokens(s@, next as int, after);
        match token {
            Some(t) => {
                assert(out@ + (seq![t] + rest) =~= out@.push(t) + rest);
                out.push(t);
            },
            None => {},
        }
        i = next;
        mode = after;
    }
    assert(out@ + Seq::<Token>::empty() =~= out@);
    out
}

/// The tokens of a source, looked up by places that may lie outside.
struct Code {
    source: Vec<char>,
    tokens: Vec<Token>,
}

impl Code {
    fn token(&self, i: i128) -> (r: Token)
        ensures
            r == token(self.tokens@, i as int),
    {
        if i >= 0 && i < self.tokens.len() as i128 {
            self.tokens[i as usize]
        } else {
            Token::Edge
        }
    }

    fn sign(&self, i: i128, c: char) -> (r: bool)
        ensures
            r == sign(self.tokens@, i as int, c),
    {
        match self.token(i) {
            Token::Sign(d) => d == c,
            _ => false,
        }
    }

    fn edge(&self, i: i128) -> (r: bool)
        ensures
            r == (token(self.tokens@, i as int) is Edge),
    {
        match self.token(i) {
            Token::Edge => true,
            _ => false,
        }
    }

    fn named(&self, i: i128) -> (r: bool)
        ensures
            r == (token(self.tokens@, i as int) is Word),
    {
        match self.token(i) {
            Token::Word(_, _) => true,
            _ => false,
        }
    }

    fn quoted(&self, i: i128) -> (r: bool)
        ensures
            r == (token(self.tokens@, i as int) is Quoted),
    {
        match self.token(i) {
            Token::Quoted(_, _) => true,
            _ => false,
        }
    }

    /// Whether a part of the source reads so.
    fn part(&self, a: usize, b: usize, w: &Vec<char>) -> (r: bool)
        ensures
            r == (a <= b <= self.source@.len() && self.source@.subrange(a as int, b as int) == w@),
    {
        if a > b || b > self.source.len() || b - a != w.len() {
            return false;
        }
        let mut i: usize = 0;
        while i < w.len()
            invariant
                i <= w@.len(),
                a <= b <= self.source@.len(),
                b - a == w@.len(),
                forall|k: int| 0 <= k < i ==> self.source@[a + k] == #[trigger] w@[k],
            decreases w@.len() - i,
        {
            if self.source[a + i] != w[i] {
                assert(self.source@.subrange(a as int, b as int)[i as int] != w@[i as int]);
                return false;
            }
            i = i + 1;
        }
        assert(self.source@.subrange(a as int, b as int) =~= w@);
        true
    }

    fn word(&self, i: i128, w: &'static str) -> (r: bool)
        ensures
            r == word(self.source@, self.tokens@, i as int, w@),
    {
        match self.token(i) {
            Token::Word(a, b) => self.part(a, b, &chars_of(w)),
            _ => false,
        }
    }

    fn harmless(&self, i: i128) -> (r: bool)
        ensures
            r == harmless(self.source@, self.tokens@, i as int),
    {
        match self.token(i) {
            Token::Quoted(a, b) => {
                if a > b || b > self.source.len() {
                    return false;
                }
                let ghost name = self.source@.subrange(a as int, b as int);
                let mut k: usize = a;
                while k < b
                    invariant
                        a <= k <= b <= self.source@.len(),
                        name == self.source@.subrange(a as int, b as int),
                        token(self.tokens@, i as int) == Token::Quoted(a, b),
                        forall|m: int| 0 <= m < k - a ==> #[trigger] name[m] != '\\',
                    decreases b - k,
                {
                    if self.source[k] == '\\' {
                        assert(name[k - a] == '\\');
                        assert(name.contains('\\'));
                        return false;
                    }
                    k = k + 1;
                }
                !self.part(a, b, &chars_of("divisibleby")) && !self.part(a, b, &chars_of("batch")) && !self.part(
                    a,
                    b,
                    &chars_of("slice"),
                ) && !self.part(a, b, &chars_of("indent")) && !self.part(a, b, &chars_of("format")) && !self.part(
                    a,
                    b,
                    &chars_of("chain"),
                ) && !self.part(
                    a,
                    b,
                    &chars_of("map"),
                ) && !self.part(a, b, &chars_of("select")) && !self.part(a, b, &chars_of("reject")) && !self.part(
                    a,
                    b,
                    &chars_of("selectattr"),
                ) && !self.part(a, b, &chars_of("rejectattr"))
            },
            _ => false,
        }
    }

    fn argument_ends(&self, i: i128) -> (r: bool)
        ensures
            r == argument_ends(self.tokens@, i as int),
    {
        self.sign(i, ',') || self.sign(i, ')')
    }

    fn opens(&self, i: i128) -> (r: bool)
        ensures
            r == (sign(self.tokens@, i as int, '(') || sign(self.tokens@, i as int, '[') || sign(
                self.tokens@,
                i as int,
                '{',
            )),
    {
        self.sign(i, '(') || self.sign(i, '[') || self.sign(i, '{')
    }

    fn shuts(&self, i: i128) -> (r: bool)
        ensures
            r == (sign(self.tokens@, i as int, ')') || sign(self.tokens@, i as int, ']') || sign(
                self.tokens@,
                i as int,
                '}',
            )),
    {
        self.sign(i, ')') || self.sign(i, ']') || self.sign(i, '}')
    }

    fn few_arguments(&self, from: usize) -> (r: bool)
        ensures
            r == (commas(self.tokens@, from as int, 0) <= 1),
    {
        let ghost t = self.tokens@;
        let mut i: usize = from;
        let mut depth: i128 = 0;
        let mut count: usize = 0;
        while i < self.tokens.len() && !self.edge(i as i128) && !(depth == 0 && self.sign(i as i128, ')'))
            invariant
                t == self.tokens@,
                from <= i,
                from <= t.len() ==> i <= t.len(),
                -(i - from) <= depth <= i - from,
                count <= 1,
                commas(t, from as int, 0) == count + commas(t, i as int, depth as int),
            decreases t.len() - i,
        {
            if depth == 0 && self.sign(i as i128, ',') {
                if count == 1 {
                    return false;
                }
                count = count + 1;
            }
            if self.opens(i as i128) {
                depth = depth + 1;
            } else if self.shuts(i as i128) {
                depth = depth - 1;
            }
            i = i + 1;
        }
        true
    }

    fn colon_before(&self, from: usize) -> (r: bool)
        requires
            from <= self.tokens@.len(),
        ensures
            r == colon_before(self.tokens@, from as int, 0),
    {
        let ghost t = self.tokens@;
        let mut i: usize = from;
        let mut depth: i128 = 0;
        while i > 0
            invariant
                t == self.tokens@,
                i <= from <= t.len(),
                0 <= depth <= from - i,
                colon_before(t, from as int, 0) == colon_before(t, i as int, depth as int),
            decreases i,
        {
            let k: i128 = i as i128 - 1;
            if self.edge(k) {
                return false;
            }
            if self.shuts(k) {
                depth = depth + 1;
            } else if self.opens(k) {
                if depth == 0 {
                    return false;
                }
                depth = depth - 1;
            } else if depth == 0 && self.sign(k, ':') {
                return true;
            } else if depth == 0 && self.sign(k, ',') {
                return false;
            }
            i = i - 1;
        }
        false
    }

    fn forward(&self, i: usize) -> (r: bool)
        ensures
            r == forward(self.source@, self.tokens@, i as int),
    {
        let i: i128 = i as i128;
        if self.sign(i + 1, ']') {
            return true;
        }
        match self.token(i + 1) {
            Token::Word(a, _) => self.sign(i + 2, ']') && a < self.source.len() && '0' <= self.source[a]
                && self.source[a] <= '9',
            _ => false,
        }
    }

    fn messages_reversed(&self, i: usize) -> (r: bool)
        ensures
            r == messages_reversed(self.source@, self.tokens@, i as int),
    {
        let i: i128 = i as i128;
        self.word(i - 3, "messages") && !self.sign(i - 4, '.') && !self.sign(i - 4, '|') && self.sign(i - 2, '[')
            && self.sign(i - 1, ':') && self.sign(i + 1, '-') && self.word(i + 2, "1") && self.sign(i + 3, ']')
    }

    fn keeps_messages(&self) -> (r: bool)
        ensures
            r == forall|j: int| 0 <= j < self.tokens@.len() ==> #[trigger] keeps_messages(self.source@, self.tokens@, j),
    {
        let mut j: usize = 0;
        while j < self.tokens.len()
            invariant
                j <= self.tokens@.len(),
                forall|k: int| 0 <= k < j ==> #[trigger] keeps_messages(self.source@, self.tokens@, k),
            decreases self.tokens@.len() - j,
        {
            let i: i128 = j as i128;
            if self.word(i, "messages") && (self.word(i - 1, "set") || self.word(i + 1, "in") || self.sign(i + 1, '=')
                || self.argument_ends(i + 1) || self.sign(i + 1, ']')) {
                assert(!keeps_messages(self.source@, self.tokens@, j as int));
                return false;
            }
            j = j + 1;
        }
        true
    }

    fn step_rule(&self, i: usize) -> (r: bool)
        requires
            i < self.tokens@.len(),
        ensures
            r == step_rule(self.source@, self.tokens@, i as int),
    {
        !self.sign(i as i128, ':') || !self.colon_before(i) || self.forward(i) || (self.messages_reversed(i)
            && self.keeps_messages())
    }

    fn word_rule(&self, at: usize) -> (r: bool)
        requires
            at < self.tokens@.len(),
        ensures
            r == word_rule(self.source@, self.tokens@, at as int),
    {
        let i: i128 = at as i128;
        match self.tokens[at] {
            Token::Wrong => return false,
            _ => {},
        }
        if self.sign(i, '*') || self.word(i, "divisibleby") || self.word(i, "batch") || self.word(i, "slice")
            || self.word(i, "indent") || self.word(i, "format") || self.word(i, "chain") || self.word(i, "import") {
            return false;
        }
        if self.word(i, "raw") && self.edge(i - 1) {
            return false;
        }
        if self.word(i, "count") && self.sign(i - 1, '.') && self.sign(i + 1, '(') {
            return false;
        }
        if self.word(i, "cycle") && self.sign(i + 1, '(') && self.sign(i + 2, ')') {
            return false;
        }
        if self.word(i, "sort") && self.sign(i + 1, '(') {
            return false;
        }
        if self.word(i, "range") {
            if at >= self.tokens.len() - 1 {
                return false;
            }
            return self.sign(i + 1, '(') && self.few_arguments(at + 2);
        }
        true
    }

    fn name_rule(&self, at: usize) -> (r: bool)
        requires
            at < self.tokens@.len(),
        ensures
            r == name_rule(self.source@, self.tokens@, at as int),
    {
        let i: i128 = at as i128;
        if !self.sign(i + 1, '(') {
            return true;
        }
        if self.word(i, "map") || self.word(i, "select") || self.word(i, "reject") {
            if !(self.sign(i + 2, ')') || (self.harmless(i + 2) && self.argument_ends(i + 3)) || (self.word(
                i + 2,
                "attribute",
            ) && self.sign(i + 3, '=') && self.quoted(i + 4) && self.sign(i + 5, ')'))) {
                return false;
            }
        }
        if self.word(i, "selectattr") || self.word(i, "rejectattr") {
            return self.quoted(i + 2) && (self.sign(i + 3, ')') || (self.sign(i + 3, ',') && self.harmless(i + 4)
                && self.argument_ends(i + 5)));
        }
        true
    }

    fn dotted(&self, from: usize) -> (r: bool)
        ensures
            r == dotted(self.tokens@, from as int),
    {
        let ghost t = self.tokens@;
        let mut i: usize = from;
        while i < self.tokens.len() && !self.edge(i as i128) && !self.sign(i as i128, '=')
            invariant
                t == self.tokens@,
                dotted(t, from as int) == dotted(t, i as int),
            decreases t.len() - i,
        {
            if self.sign(i as i128, '.') {
                return true;
            }
            i = i + 1;
        }
        false
    }

    fn keeps_name(&self, at: i128) -> (r: bool)
        requires
            -1 <= at <= usize::MAX,
        ensures
            r == forall|j: int| 0 <= j < self.tokens@.len() ==> #[trigger] keeps_name(self.source@, self.tokens@, at as int, j),
    {
        let (a, b): (usize, usize) = match self.token(at) {
            Token::Word(a, b) => (a, b),
            _ => return true,
        };
        if a > b || b > self.source.len() {
            return true;
        }
        let mut name: Vec<char> = Vec::new();
        let mut k: usize = a;
        while k < b
            invariant
                a <= k <= b <= self.source@.len(),
                name@ == self.source@.subrange(a as int, k as int),
            decreases b - k,
        {
            name.push(self.source[k]);
            assert(name@ =~= self.source@.subrange(a as int, k + 1));
            k = k + 1;
        }
        let mut j: usize = 0;
        while j < self.tokens.len()
            invariant
                j <= self.tokens@.len(),
                token(self.tokens@, at as int) == Token::Word(a, b),
                a <= b <= self.source@.len(),
                name@ == self.source@.subrange(a as int, b as int),
                forall|k: int| 0 <= k < j ==> #[trigger] keeps_name(self.source@, self.tokens@, at as int, k),
            decreases self.tokens@.len() - j,
        {
            let i: i128 = j as i128;
            let same: bool = match self.token(i) {
                Token::Word(c, d) => self.part(c, d, &name),
                _ => false,
            };
            if same && !self.sign(i + 1, '.') && !(self.word(i - 1, "set") && self.sign(i + 1, '=') && self.word(
                i + 2,
                "namespace",
            ) && self.sign(i + 3, '(')) {
                assert(!keeps_name(self.source@, self.tokens@, at as int, j as int));
                return false;
            }
            j = j + 1;
        }
        true
    }

    fn set_rule(&self, at: usize) -> (r: bool)
        requires
            at < self.tokens@.len(),
        ensures
            r == set_rule(self.source@, self.tokens@, at as int),
    {
        let i: i128 = at as i128;
        if at >= self.tokens.len() - 1 {
            return true;
        }
        if !self.word(i, "set") || !self.edge(i - 1) || !self.dotted(at + 1) {
            return true;
        }
        self.named(i + 1) && self.sign(i + 2, '.') && self.named(i + 3) && (self.sign(i + 4, '=') || self.edge(i + 4))
            && self.keeps_name(i + 1)
    }
}

/// Tests whether a template is tame.
pub fn is_tame(source: &str) -> (r: bool)
    ensures
        r == tame(source@),
{
    let s = chars_of(source);
    let t = split(&s);
    let code = Code { source: s, tokens: t };
    let mut i: usize = 0;
    while i < code.tokens.len()
        invariant
            i <= code.tokens@.len(),
            code.source@ == source@,
            code.tokens@ == tokens(source@, 0, Mode::Text),
            forall|k: int| 0 <= k < i ==> #[trigger] tame_at(source@, code.tokens@, k),
        decreases code.tokens@.len() - i,
    {
        if !(code.step_rule(i) && code.word_rule(i) && code.name_rule(i) && code.set_rule(i)) {
            assert(!tame_at(source@, code.tokens@, i as int));
            return false;
        }
        i = i + 1;
    }
    true
}

proof fn lemma_no_code(s: Seq<char>, i: int)
    requires
        !s.contains('{'),
        0 <= i,
    ensures
        tokens(s, i, Mode::Text).len() == 0,
    decreases s.len() - i,
{
    if i < s.len() {
        assert(s.contains(s[i]));
        lemma_no_code(s, i + 1);
    }
}

/// A template without code is tame.
pub proof fn law_plain_text_is_tame(s: Seq<char>)
    requires
        !s.contains('{'),
    ensures
        tame(s),
{
    lemma_no_code(s, 0);
}

} // verus!
