//! The tokenizer: a forward cursor over one source file's text that
//! produces one token per call, skipping whitespace and classifying
//! identifiers, the `block` keyword, and punctuation. Spans are byte
//! offsets into the file's UTF-8 text.

use crate::source::SourceFile;
use crate::span::Span;
use vstd::prelude::*;
use vstd::string::StrSliceExecFns;
use vstd::string::StringExecFns;
use vstd::utf8::encode_scalar;
use vstd::utf8::encode_utf8;

verus! {

/// The closed set of terminal categories a token can have.
#[derive(PartialEq, Eq, Structural, Copy, Clone, Debug)]
pub enum TokenType {
    Equal,
    Ident,
    KWBlock,
    LParen,
    RParen,
    Colon,
    Comma,
    Open,
    Close,
    LAngle,
    RAngle,
    Eof,
    Invalid,
}

impl TokenType {
    /// What this kind reads as inside a diagnostic message.
    pub open spec fn spec_describe(self) -> Seq<char> {
        match self {
            TokenType::Equal => "'='"@,
            TokenType::Ident => "<identifier>"@,
            TokenType::KWBlock => "'block'"@,
            TokenType::LParen => "'('"@,
            TokenType::RParen => "')'"@,
            TokenType::Colon => "':'"@,
            TokenType::Comma => "','"@,
            TokenType::Open => "'{'"@,
            TokenType::Close => "'}'"@,
            TokenType::LAngle => "'<'"@,
            TokenType::RAngle => "'>'"@,
            TokenType::Eof => "<eof>"@,
            TokenType::Invalid => "<invalid>"@,
        }
    }

    /// Renders this kind for a diagnostic message.
    pub fn describe(&self) -> (r: String)
        ensures
            r@ == self.spec_describe(),
    {
        match self {
            TokenType::Equal => String::from_str("'='"),
            TokenType::Ident => String::from_str("<identifier>"),
            TokenType::KWBlock => String::from_str("'block'"),
            TokenType::LParen => String::from_str("'('"),
            TokenType::RParen => String::from_str("')'"),
            TokenType::Colon => String::from_str("':'"),
            TokenType::Comma => String::from_str("','"),
            TokenType::Open => String::from_str("'{'"),
            TokenType::Close => String::from_str("'}'"),
            TokenType::LAngle => String::from_str("'<'"),
            TokenType::RAngle => String::from_str("'>'"),
            TokenType::Eof => String::from_str("<eof>"),
            TokenType::Invalid => String::from_str("<invalid>"),
        }
    }
}

/// The whitespace set the tokenizer skips between tokens: the ASCII
/// controls and space, the Latin-1 NEL, the two bidi marks, and the
/// Unicode line and paragraph separators.
pub open spec fn spec_is_whitespace(c: char) -> bool {
    ||| c == '\u{0009}'
    ||| c == '\u{000A}'
    ||| c == '\u{000B}'
    ||| c == '\u{000C}'
    ||| c == '\u{000D}'
    ||| c == '\u{0020}'
    ||| c == '\u{0085}'
    ||| c == '\u{200E}'
    ||| c == '\u{200F}'
    ||| c == '\u{2028}'
    ||| c == '\u{2029}'
}

/// Decides membership in the tokenizer's whitespace set.
pub fn is_whitespace(c: char) -> (r: bool)
    ensures
        r == spec_is_whitespace(c),
{
    match c {
        '\u{0009}' | '\u{000A}' | '\u{000B}' | '\u{000C}' | '\u{000D}' | '\u{0020}'
            | '\u{0085}' | '\u{200E}' | '\u{200F}' | '\u{2028}' | '\u{2029}' => true,
        _ => false,
    }
}

/// Whether `c` has the Unicode XID_Start property, as unicode_xid's
/// derived-property tables define it.
pub uninterp spec fn xid_start(c: char) -> bool;

/// Whether `c` has the Unicode XID_Continue property, as unicode_xid's
/// derived-property tables define it.
pub uninterp spec fn xid_continue(c: char) -> bool;

/// Relies on unicode_xid::UnicodeXID::is_xid_start: a pure table lookup
/// depending on the character alone. The tokenizer's whitespace
/// characters are all absent from the XID_Start table.
#[verifier::external_body]
fn is_xid_start(c: char) -> (r: bool)
    ensures
        r == xid_start(c),
        spec_is_whitespace(c) ==> !r,
{
    unicode_xid::UnicodeXID::is_xid_start(c)
}

/// Relies on unicode_xid::UnicodeXID::is_xid_continue: a pure table
/// lookup depending on the character alone. The tokenizer's whitespace
/// characters are all absent from the XID_Continue table.
#[verifier::external_body]
fn is_xid_continue(c: char) -> (r: bool)
    ensures
        r == xid_continue(c),
        spec_is_whitespace(c) ==> !r,
{
    unicode_xid::UnicodeXID::is_xid_continue(c)
}

/// The UTF-8 byte length of a character sequence.
pub open spec fn byte_len(s: Seq<char>) -> nat {
    encode_utf8(s).len()
}

/// The byte offset at which the character with index `i` starts.
pub open spec fn byte_at(s: Seq<char>, i: int) -> nat {
    byte_len(s.subrange(0, i))
}

/// Appending one character appends exactly its scalar encoding.
proof fn lemma_encode_push(t: Seq<char>, c: char)
    ensures
        encode_utf8(t.push(c)) == encode_utf8(t) + encode_scalar(c as u32),
    decreases t.len(),
{
    let u = t.push(c);
    if t.len() == 0 {
        assert(u.drop_first() =~= Seq::<char>::empty());
        assert(encode_utf8(u.drop_first()) =~= Seq::<u8>::empty());
        assert(u[0] == c);
        assert(encode_utf8(u) =~= encode_scalar(c as u32));
        assert(encode_utf8(t) =~= Seq::<u8>::empty());
        assert(encode_utf8(u) =~= encode_utf8(t) + encode_scalar(c as u32));
    } else {
        assert(u.drop_first() =~= t.drop_first().push(c));
        assert(u[0] == t[0]);
        lemma_encode_push(t.drop_first(), c);
        assert(encode_utf8(u) =~= encode_utf8(t) + encode_scalar(c as u32));
    }
}

/// Every scalar encodes to between one and four bytes.
proof fn lemma_scalar_len(c: char)
    ensures
        1 <= encode_scalar(c as u32).len() <= 4,
{
}

/// Stepping the cursor one character forward advances the byte offset
/// by that character's encoded length.
pub proof fn lemma_byte_at_step(s: Seq<char>, i: int)
    requires
        0 <= i < s.len(),
    ensures
        byte_at(s, i + 1) == byte_at(s, i) + encode_scalar(s[i] as u32).len(),
{
    assert(s.subrange(0, i + 1) =~= s.subrange(0, i).push(s[i]));
    lemma_encode_push(s.subrange(0, i), s[i]);
}

/// Byte offsets grow strictly with the character index.
pub proof fn lemma_byte_at_mono(s: Seq<char>, i: int, j: int)
    requires
        0 <= i <= j <= s.len(),
    ensures
        byte_at(s, i) <= byte_at(s, j),
        i < j ==> byte_at(s, i) < byte_at(s, j),
    decreases j - i,
{
    if i < j {
        lemma_byte_at_step(s, j - 1);
        lemma_scalar_len(s[j - 1]);
        lemma_byte_at_mono(s, i, j - 1);
    }
}

/// The byte offset past the last character is the text's byte length.
pub proof fn lemma_byte_at_end(s: Seq<char>)
    ensures
        byte_at(s, s.len() as int) == byte_len(s),
        byte_at(s, 0) == 0,
{
    assert(s.subrange(0, s.len() as int) =~= s);
    assert(s.subrange(0, 0) =~= Seq::<char>::empty());
}

/// Computes the UTF-8 byte length of one character.
fn utf8_len(c: char) -> (n: usize)
    ensures
        n == encode_scalar(c as u32).len(),
{
    let u = c as u32;
    if u < 0x80 {
        1
    } else if u < 0x800 {
        2
    } else if u < 0x10000 {
        3
    } else {
        4
    }
}

/// The character index at which a maximal whitespace run beginning at
/// `i` ends.
pub open spec fn skip_ws(s: Seq<char>, i: int) -> int
    decreases s.len() - i,
{
    if 0 <= i < s.len() && spec_is_whitespace(s[i]) {
        skip_ws(s, i + 1)
    } else {
        i
    }
}

/// The character index at which a maximal run of identifier-continue
/// characters beginning at `i` ends.
pub open spec fn ident_end(s: Seq<char>, i: int) -> int
    decreases s.len() - i,
{
    if 0 <= i < s.len() && xid_continue(s[i]) {
        ident_end(s, i + 1)
    } else {
        i
    }
}

/// What `skip_ws` yields: the run it skips is whitespace and maximal.
pub proof fn lemma_skip_ws_bounds(s: Seq<char>, i: int)
    requires
        0 <= i <= s.len(),
    ensures
        i <= skip_ws(s, i) <= s.len(),
        forall|m: int| i <= m < skip_ws(s, i) ==> spec_is_whitespace(#[trigger] s[m]),
        skip_ws(s, i) < s.len() ==> !spec_is_whitespace(s[skip_ws(s, i)]),
    decreases s.len() - i,
{
    if i < s.len() && spec_is_whitespace(s[i]) {
        lemma_skip_ws_bounds(s, i + 1);
    }
}

/// A run of whitespace from `i` that stops at `j` pins `skip_ws` down.
pub proof fn lemma_skip_ws_exact(s: Seq<char>, i: int, j: int)
    requires
        0 <= i <= j <= s.len(),
        forall|m: int| i <= m < j ==> spec_is_whitespace(#[trigger] s[m]),
        j == s.len() || !spec_is_whitespace(s[j]),
    ensures
        skip_ws(s, i) == j,
    decreases j - i,
{
    if i < j {
        lemma_skip_ws_exact(s, i + 1, j);
    }
}

/// What `ident_end` yields: the run it takes continues an identifier
/// and is maximal.
pub proof fn lemma_ident_end_bounds(s: Seq<char>, i: int)
    requires
        0 <= i <= s.len(),
    ensures
        i <= ident_end(s, i) <= s.len(),
        forall|m: int| i <= m < ident_end(s, i) ==> xid_continue(#[trigger] s[m]),
        ident_end(s, i) < s.len() ==> !xid_continue(s[ident_end(s, i)]),
    decreases s.len() - i,
{
    if i < s.len() && xid_continue(s[i]) {
        lemma_ident_end_bounds(s, i + 1);
    }
}

/// A run of identifier-continue characters from `i` that stops at `j`
/// pins `ident_end` down.
pub proof fn lemma_ident_end_exact(s: Seq<char>, i: int, j: int)
    requires
        0 <= i <= j <= s.len(),
        forall|m: int| i <= m < j ==> xid_continue(#[trigger] s[m]),
        j == s.len() || !xid_continue(s[j]),
    ensures
        ident_end(s, i) == j,
    decreases j - i,
{
    if i < j {
        lemma_ident_end_exact(s, i + 1, j);
    }
}

/// The characters of the keyword `block`.
pub open spec fn spec_kw_block() -> Seq<char> {
    seq!['b', 'l', 'o', 'c', 'k']
}

/// The kind a single punctuation character is classified as; a
/// character in no class yields `Invalid`.
pub open spec fn spec_punct(c: char) -> TokenType {
    if c == '=' {
        TokenType::Equal
    } else if c == '(' {
        TokenType::LParen
    } else if c == ')' {
        TokenType::RParen
    } else if c == ':' {
        TokenType::Colon
    } else if c == ',' {
        TokenType::Comma
    } else if c == '{' {
        TokenType::Open
    } else if c == '}' {
        TokenType::Close
    } else if c == '<' {
        TokenType::LAngle
    } else if c == '>' {
        TokenType::RAngle
    } else {
        TokenType::Invalid
    }
}

/// A token as the model sees it: its kind and the character range
/// `[begin, end)` it covers, with `begin` past the skipped whitespace.
pub struct SpecToken {
    pub kind: TokenType,
    pub begin: int,
    pub end: int,
}

/// The token that scanning `s` from character index `p` produces.
pub open spec fn spec_token(s: Seq<char>, p: int) -> SpecToken {
    let i = skip_ws(s, p);
    if i >= s.len() {
        SpecToken { kind: TokenType::Eof, begin: i, end: i }
    } else if xid_start(s[i]) {
        let j = ident_end(s, i + 1);
        let kind = if s.subrange(i, j) == spec_kw_block() {
            TokenType::KWBlock
        } else {
            TokenType::Ident
        };
        SpecToken { kind, begin: i, end: j }
    } else {
        SpecToken { kind: spec_punct(s[i]), begin: i, end: i + 1 }
    }
}

/// Where a token lies relative to the scan position: tokens sit inside
/// the text, only the end-of-file token is empty, and scanning from
/// anywhere short of the end makes progress.
pub proof fn lemma_spec_token_range(s: Seq<char>, p: int)
    requires
        0 <= p <= s.len(),
    ensures
        p <= spec_token(s, p).begin <= spec_token(s, p).end <= s.len(),
        spec_token(s, p).kind == TokenType::Eof <==> spec_token(s, p).begin == s.len(),
        spec_token(s, p).kind == TokenType::Eof ==> spec_token(s, p).end == s.len(),
        spec_token(s, p).kind != TokenType::Eof ==> spec_token(s, p).end > spec_token(s, p).begin,
        p < s.len() ==> spec_token(s, p).end > p,
{
    lemma_skip_ws_bounds(s, p);
    let i = skip_ws(s, p);
    if i < s.len() && xid_start(s[i]) {
        lemma_ident_end_bounds(s, i + 1);
    }
}

/// A token with kind and span. The span holds byte offsets into the
/// source text; only the end-of-file token is zero-width.
#[derive(Copy, Clone, Debug)]
pub struct Token {
    tt: TokenType,
    span: Span,
}

impl Token {
    /// The token's terminal category.
    pub closed spec fn spec_kind(self) -> TokenType {
        self.tt
    }

    /// The byte span the token covers.
    pub closed spec fn spec_span(self) -> Span {
        self.span
    }

    /// The token's terminal category.
    pub fn tok_type(&self) -> (t: TokenType)
        ensures
            t == self.spec_kind(),
    {
        self.tt
    }

    /// The byte span the token covers.
    pub fn span(&self) -> (s: &Span)
        ensures
            *s == self.spec_span(),
    {
        &self.span
    }
}

/// The byte span that the token scanned at character position `p`
/// carries.
pub open spec fn spec_token_span(s: Seq<char>, p: int) -> Span {
    Span {
        begin: byte_at(s, spec_token(s, p).begin) as usize,
        end: byte_at(s, spec_token(s, p).end) as usize,
    }
}

/// A stateful cursor over one source file's text.
pub struct Tokenizer<'a> {
    file: &'a SourceFile,
    pos: usize,
    off: usize,
    nchars: usize,
    nbytes: usize,
}

impl<'a> Tokenizer<'a> {
    /// The file being tokenized.
    pub closed spec fn spec_file(self) -> SourceFile {
        *self.file
    }

    /// The text being tokenized, as its character sequence.
    pub open spec fn text(self) -> Seq<char> {
        self.spec_file().spec_text()
    }

    /// The cursor, as a character index into the text.
    pub closed spec fn spec_pos(self) -> int {
        self.pos as int
    }

    /// The cursor's byte offset agrees with its character index, and
    /// the cached lengths are the text's.
    pub closed spec fn wf(self) -> bool {
        &&& self.pos <= self.nchars
        &&& self.nchars == self.text().len()
        &&& self.off == byte_at(self.text(), self.pos as int)
        &&& self.nbytes == byte_len(self.text())
    }

    /// A well-formed cursor sits inside its text.
    pub proof fn lemma_wf(self)
        requires
            self.wf(),
        ensures
            0 <= self.spec_pos() <= self.text().len(),
    {
    }

    /// The text behind a well-formed cursor fits in memory: its UTF-8
    /// byte length fits a machine word.
    pub proof fn lemma_byte_len_bound(self)
        requires
            self.wf(),
        ensures
            byte_len(self.text()) <= usize::MAX,
    {
    }

    /// Builds a cursor at the start of `file`'s text.
    pub fn new(file: &'a SourceFile) -> (t: Tokenizer<'a>)
        ensures
            t.wf(),
            t.spec_file() == *file,
            t.spec_pos() == 0,
    {
        let text = file.text();
        let nchars = text.unicode_len();
        let bytes = text.as_bytes();
        let nbytes = bytes.len();
        proof {
            lemma_byte_at_end(file.spec_text());
        }
        Tokenizer { file, pos: 0, off: 0, nchars, nbytes }
    }

    /// The file being tokenized.
    pub fn file(&self) -> (f: &'a SourceFile)
        ensures
            *f == self.spec_file(),
    {
        self.file
    }

    /// The next character, without consuming it.
    pub fn peek0(&self) -> (r: Option<char>)
        requires
            self.wf(),
        ensures
            r == if self.spec_pos() < self.text().len() {
                Some(self.text()[self.spec_pos()])
            } else {
                None::<char>
            },
    {
        if self.pos < self.nchars {
            Some(self.file.text().get_char(self.pos))
        } else {
            None
        }
    }

    /// True iff no characters remain.
    pub fn is_eof(&self) -> (r: bool)
        requires
            self.wf(),
        ensures
            r == (self.spec_pos() == self.text().len()),
    {
        self.peek0().is_none()
    }

    /// True iff every remaining character is whitespace, so the next
    /// token must be the end-of-file token.
    pub fn will_eof(&self) -> (r: bool)
        requires
            self.wf(),
        ensures
            r == forall|m: int|
                self.spec_pos() <= m < self.text().len() ==> spec_is_whitespace(
                    #[trigger] self.text()[m],
                ),
    {
        let text = self.file.text();
        let mut i = self.pos;
        while i < self.nchars
            invariant
                self.wf(),
                self.pos <= i <= self.nchars,
                text@ == self.text(),
                forall|m: int|
                    self.spec_pos() <= m < i ==> spec_is_whitespace(#[trigger] self.text()[m]),
            decreases self.nchars - i,
        {
            if !is_whitespace(text.get_char(i)) {
                return false;
            }
            i = i + 1;
        }
        true
    }

    /// Consumes one character, advancing the cursor past exactly it.
    pub fn advance(&mut self) -> (r: Option<char>)
        requires
            old(self).wf(),
        ensures
            final(self).wf(),
            final(self).spec_file() == old(self).spec_file(),
            old(self).spec_pos() < old(self).text().len() ==> {
                &&& r == Some(old(self).text()[old(self).spec_pos()])
                &&& final(self).spec_pos() == old(self).spec_pos() + 1
            },
            old(self).spec_pos() >= old(self).text().len() ==> r is None && *final(self) == *old(
                self,
            ),
    {
        if self.pos < self.nchars {
            let c = self.file.text().get_char(self.pos);
            proof {
                lemma_byte_at_step(self.text(), self.pos as int);
                lemma_byte_at_mono(self.text(), self.pos as int + 1, self.text().len() as int);
                lemma_byte_at_end(self.text());
            }
            let w = utf8_len(c);
            self.pos = self.pos + 1;
            self.off = self.off + w;
            Some(c)
        } else {
            None
        }
    }

    /// Consumes the maximal run of characters that `will_eat` accepts.
    pub fn eat_while<F: Fn(char) -> bool>(&mut self, will_eat: F)
        requires
            old(self).wf(),
            forall|c: char| #[trigger] call_requires(will_eat, (c,)),
        ensures
            final(self).wf(),
            final(self).spec_file() == old(self).spec_file(),
            old(self).spec_pos() <= final(self).spec_pos() <= final(self).text().len(),
            forall|m: int|
                old(self).spec_pos() <= m < final(self).spec_pos() ==> call_ensures(
                    will_eat,
                    (#[trigger] final(self).text()[m],),
                    true,
                ),
            final(self).spec_pos() < final(self).text().len() ==> call_ensures(
                will_eat,
                (final(self).text()[final(self).spec_pos()],),
                false,
            ),
    {
        loop
            invariant
                self.wf(),
                self.spec_file() == old(self).spec_file(),
                old(self).spec_pos() <= self.spec_pos() <= self.text().len(),
                forall|c: char| #[trigger] call_requires(will_eat, (c,)),
                forall|m: int|
                    old(self).spec_pos() <= m < self.spec_pos() ==> call_ensures(
                        will_eat,
                        (#[trigger] self.text()[m],),
                        true,
                    ),
            ensures
                self.spec_pos() < self.text().len() ==> call_ensures(
                    will_eat,
                    (self.text()[self.spec_pos()],),
                    false,
                ),
            decreases self.text().len() - self.spec_pos(),
        {
            let next = self.peek0();
            match next {
                Some(c) => {
                    if will_eat(c) {
                        self.advance();
                    } else {
                        break ;
                    }
                },
                None => {
                    break ;
                },
            }
        }
    }

    /// True iff the five characters starting at `from` spell `block`.
    fn matches_keyword(&self, from: usize) -> (r: bool)
        requires
            self.wf(),
            from + 5 <= self.text().len(),
        ensures
            r == (self.text().subrange(from as int, from as int + 5) == spec_kw_block()),
    {
        let text = self.file.text();
        let r = text.get_char(from) == 'b' && text.get_char(from + 1) == 'l' && text.get_char(
            from + 2,
        ) == 'o' && text.get_char(from + 3) == 'c' && text.get_char(from + 4) == 'k';
        proof {
            let w = self.text().subrange(from as int, from as int + 5);
            if r {
                assert(w =~= spec_kw_block());
            } else {
                if w == spec_kw_block() {
                    assert(self.text()[from as int] == w[0]);
                    assert(self.text()[from as int + 1] == w[1]);
                    assert(self.text()[from as int + 2] == w[2]);
                    assert(self.text()[from as int + 3] == w[3]);
                    assert(self.text()[from as int + 4] == w[4]);
                }
            }
        }
        r
    }

    /// Scans and returns the next token: skips the maximal whitespace
    /// run, then classifies what follows, consuming exactly the
    /// recognized token. At the end of the text it returns a zero-width
    /// end-of-file token and consumes nothing.
    pub fn token(&mut self) -> (t: Token)
        requires
            old(self).wf(),
        ensures
            final(self).wf(),
            final(self).spec_file() == old(self).spec_file(),
            final(self).spec_pos() == spec_token(old(self).text(), old(self).spec_pos()).end,
            t.spec_kind() == spec_token(old(self).text(), old(self).spec_pos()).kind,
            t.spec_span() == spec_token_span(old(self).text(), old(self).spec_pos()),
    {
        let ghost s = self.text();
        let ghost p0 = self.spec_pos();
        self.eat_while(is_whitespace);
        proof {
            assert forall|m: int| p0 <= m < self.spec_pos() implies spec_is_whitespace(
                #[trigger] s[m],
            ) by {}
            lemma_skip_ws_exact(s, p0, self.spec_pos());
        }
        let begin = self.off;
        let start_pos = self.pos;
        let ghost i = self.spec_pos();
        let init = match self.advance() {
            Some(c) => c,
            None => {
                return Token { tt: TokenType::Eof, span: Span::point(begin) };
            },
        };
        let tt = if is_xid_start(init) {
            self.eat_while(is_xid_continue);
            proof {
                assert forall|m: int| i + 1 <= m < self.spec_pos() implies xid_continue(
                    #[trigger] s[m],
                ) by {}
                lemma_ident_end_exact(s, i + 1, self.spec_pos());
            }
            if self.pos - start_pos == 5 {
                if self.matches_keyword(start_pos) {
                    TokenType::KWBlock
                } else {
                    TokenType::Ident
                }
            } else {
                proof {
                    let w = s.subrange(i, self.spec_pos());
                    assert(w.len() != 5);
                    assert(spec_kw_block().len() == 5);
                }
                TokenType::Ident
            }
        } else {
            match init {
                '=' => TokenType::Equal,
                '(' => TokenType::LParen,
                ')' => TokenType::RParen,
                ':' => TokenType::Colon,
                ',' => TokenType::Comma,
                '{' => TokenType::Open,
                '}' => TokenType::Close,
                '<' => TokenType::LAngle,
                '>' => TokenType::RAngle,
                _ => TokenType::Invalid,
            }
        };
        proof {
            lemma_byte_at_mono(s, i, self.spec_pos());
        }
        Token { tt, span: Span::new(begin..self.off) }
    }
}

/// The characters under the token scanned at position `p`: what its
/// span covers.
pub open spec fn token_text(s: Seq<char>, p: int) -> Seq<char> {
    s.subrange(spec_token(s, p).begin, spec_token(s, p).end)
}

/// Whether byte offset `b` falls on a character boundary of `s`.
pub open spec fn char_boundary(s: Seq<char>, b: int) -> bool {
    exists|i: int| 0 <= i <= s.len() && byte_at(s, i) == b
}

/// The character index sitting at byte offset `b`, when `b` is a
/// character boundary.
pub open spec fn char_index(s: Seq<char>, b: int) -> int {
    choose|i: int| 0 <= i <= s.len() && byte_at(s, i) == b
}

/// Each character index is the unique one at its own byte offset.
pub proof fn lemma_char_index_of(s: Seq<char>, i: int)
    requires
        0 <= i <= s.len(),
    ensures
        char_boundary(s, byte_at(s, i) as int),
        char_index(s, byte_at(s, i) as int) == i,
{
    let b = byte_at(s, i) as int;
    assert(0 <= i <= s.len() && byte_at(s, i) == b);
    let j = char_index(s, b);
    if j < i {
        lemma_byte_at_mono(s, j, i);
    } else if j > i {
        lemma_byte_at_mono(s, i, j);
    }
}

/// Returns the exact substring of `text` under the byte span `span`.
pub fn span_text<'b>(text: &'b str, span: Span) -> (r: &'b str)
    requires
        char_boundary(text@, span.begin as int),
        char_boundary(text@, span.end as int),
        span.begin <= span.end,
    ensures
        r@ == text@.subrange(
            char_index(text@, span.begin as int),
            char_index(text@, span.end as int),
        ),
{
    let ghost s = text@;
    let ghost ib = char_index(s, span.begin as int);
    let ghost ie = char_index(s, span.end as int);
    proof {
        assert(0 <= ib <= s.len() && byte_at(s, ib) == span.begin as int);
        assert(0 <= ie <= s.len() && byte_at(s, ie) == span.end as int);
        if ie < ib {
            lemma_byte_at_mono(s, ie, ib);
        }
    }
    let n = text.unicode_len();
    let mut i: usize = 0;
    let mut o: usize = 0;
    proof {
        lemma_byte_at_end(s);
        if 0 < ib {
            lemma_byte_at_mono(s, 0, ib);
        }
    }
    while o < span.begin
        invariant
            s == text@,
            n == s.len(),
            0 <= i <= ib <= ie <= s.len(),
            o == byte_at(s, i as int),
            o <= span.begin,
            byte_at(s, ib) == span.begin as int,
            byte_at(s, ie) == span.end as int,
        decreases span.begin - o,
    {
        proof {
            if i as int >= ib {
                lemma_byte_at_mono(s, ib, i as int);
            }
            lemma_byte_at_step(s, i as int);
            lemma_byte_at_mono(s, i as int + 1, ib);
        }
        let c = text.get_char(i);
        let w = utf8_len(c);
        i = i + 1;
        o = o + w;
    }
    let start = i;
    proof {
        if i as int != ib {
            lemma_byte_at_mono(s, i as int, ib);
        }
    }
    while o < span.end
        invariant
            s == text@,
            n == s.len(),
            0 <= start as int == ib <= i <= ie <= s.len(),
            o == byte_at(s, i as int),
            o <= span.end,
            byte_at(s, ie) == span.end as int,
        decreases span.end - o,
    {
        proof {
            if i as int >= ie {
                lemma_byte_at_mono(s, ie, i as int);
            }
            lemma_byte_at_step(s, i as int);
            lemma_byte_at_mono(s, i as int + 1, ie);
        }
        let c = text.get_char(i);
        let w = utf8_len(c);
        i = i + 1;
        o = o + w;
    }
    proof {
        if i as int != ie {
            lemma_byte_at_mono(s, i as int, ie);
        }
    }
    text.substring_char(start, i)
}

/// A valid identifier: a nonempty character run whose first character
/// may start an identifier and whose rest may continue one.
pub open spec fn is_identifier(w: Seq<char>) -> bool {
    &&& w.len() > 0
    &&& xid_start(w[0])
    &&& forall|k: int| 1 <= k < w.len() ==> xid_continue(#[trigger] w[k])
}

/// On input that is whitespace only from `p` on, the next scan yields
/// the zero-width end-of-file token at the end of the text.
pub proof fn lemma_whitespace_only_eof(s: Seq<char>, p: int)
    requires
        0 <= p <= s.len(),
        forall|m: int| p <= m < s.len() ==> spec_is_whitespace(#[trigger] s[m]),
    ensures
        spec_token(s, p) == (SpecToken {
            kind: TokenType::Eof,
            begin: s.len() as int,
            end: s.len() as int,
        }),
{
    lemma_skip_ws_exact(s, p, s.len() as int);
}

/// A valid identifier standing at `i`, not spelling `block`, not
/// starting with a whitespace character, and not continued by an
/// identifier character, is scanned from `i` as a single `Ident` token
/// spanning exactly its characters.
pub proof fn lemma_identifier_classified(s: Seq<char>, i: int, w: Seq<char>)
    requires
        0 <= i,
        i + w.len() <= s.len(),
        is_identifier(w),
        !spec_is_whitespace(w[0]),
        w != spec_kw_block(),
        s.subrange(i, i + w.len()) == w,
        i + w.len() == s.len() || !xid_continue(s[i + w.len()]),
    ensures
        spec_token(s, i) == (SpecToken { kind: TokenType::Ident, begin: i, end: i + w.len() }),
{
    assert(s[i] == s.subrange(i, i + w.len())[0]);
    lemma_skip_ws_exact(s, i, i);
    assert forall|m: int| i + 1 <= m < i + w.len() implies xid_continue(#[trigger] s[m]) by {
        assert(s[m] == s.subrange(i, i + w.len())[m - i]);
    }
    lemma_ident_end_exact(s, i + 1, i + w.len());
}

/// The character position at which the scan after the one at `p`
/// starts: the end of the token scanned at `p`.
pub open spec fn next_pos(s: Seq<char>, p: int) -> int {
    spec_token(s, p).end
}

/// What one scan from `p` covers: the whitespace run it skips followed
/// by the characters under the produced token's span.
pub open spec fn piece(s: Seq<char>, p: int) -> Seq<char> {
    s.subrange(p, next_pos(s, p))
}

/// The characters covered by `n` consecutive scans starting at `p`, in
/// order.
pub open spec fn scan_pieces(s: Seq<char>, p: int, n: nat) -> Seq<char>
    decreases n,
{
    if n == 0 {
        Seq::empty()
    } else {
        piece(s, p) + scan_pieces(s, next_pos(s, p), (n - 1) as nat)
    }
}

proof fn lemma_scan_pieces_cover(s: Seq<char>, p: int, n: nat)
    requires
        0 <= p <= s.len(),
        s.len() - p <= n,
    ensures
        scan_pieces(s, p, n) == s.subrange(p, s.len() as int),
    decreases n,
{
    if n == 0 {
        assert(s.subrange(p, s.len() as int) =~= Seq::<char>::empty());
    } else {
        lemma_spec_token_range(s, p);
        let q = next_pos(s, p);
        lemma_scan_pieces_cover(s, q, (n - 1) as nat);
        assert(s.subrange(p, q) + s.subrange(q, s.len() as int) =~= s.subrange(
            p,
            s.len() as int,
        ));
    }
}

/// Concatenating, in order, the whitespace runs skipped and the spans
/// of the tokens produced by the first `n` scans reconstructs the text
/// exactly, for every `n` large enough to reach the end-of-file token;
/// scans past it contribute nothing.
pub proof fn lemma_stream_reconstructs(s: Seq<char>, n: nat)
    requires
        n >= s.len(),
    ensures
        scan_pieces(s, 0, n) == s,
{
    lemma_scan_pieces_cover(s, 0, n);
    assert(s.subrange(0, s.len() as int) =~= s);
}

} // verus!
