//! Utilities for parsing pbrt scene files: the tokenizer, the parameter-list parser, and
//! the statement parser that turns a scene file into a list of commands.
//!
//! The behaviour of each stage is stated over the bytes of the scene file: `lex` says
//! what the tokenizer reads from a position, `token_step` what the parser's token reader
//! reads (comments skipped), and the `*_from` functions what the statement and parameter
//! parsers produce from a position.
use vstd::prelude::*;
use vstd::string::*;
use vstd::utf8::*;

pub mod params;
pub mod scene;

verus! {

broadcast use vstd::utf8::encode_utf8_decode_utf8;

/// Error type for tokenization and parsing errors.
#[derive(PartialEq, Debug)]
pub enum Error {
    /// Input data isn't valid utf-8.
    StrError(std::str::Utf8Error),
    /// Input isn't a valid number; holds the offending token.
    NumberErr(String),
    /// Quoted string without closing quote.
    UnterminatedString,
    /// Hit end-of-file unexpectedly while parsing.
    EOF,
    /// Unknown token resulting in invalid syntax.
    Syntax(String),
    /// Attempt to unquote a string that was not quoted.
    Unquoted(String),
    /// Mixed string and numeric parameters found.
    MixedParameters,
    /// Hit a part of the parser not yet implemented.
    NotImplemented(String),
}

/// The abstract contents of an `Error`: strings by their characters.  A `StrError` is seen
/// by its kind alone: the `Utf8Error` it carries is opaque, and no contract says where in the
/// bytes the invalid sequence was found.
pub enum ErrorView {
    /// The data was not valid UTF-8; the position of the fault is left out.
    StrError,
    NumberErr(Seq<char>),
    UnterminatedString,
    EOF,
    Syntax(Seq<char>),
    Unquoted(Seq<char>),
    MixedParameters,
    NotImplemented(Seq<char>),
}

impl View for Error {
    type V = ErrorView;

    open spec fn view(&self) -> ErrorView {
        match self {
            Error::StrError(_) => ErrorView::StrError,
            Error::NumberErr(s) => ErrorView::NumberErr(s@),
            Error::UnterminatedString => ErrorView::UnterminatedString,
            Error::EOF => ErrorView::EOF,
            Error::Syntax(s) => ErrorView::Syntax(s@),
            Error::Unquoted(s) => ErrorView::Unquoted(s@),
            Error::MixedParameters => ErrorView::MixedParameters,
            Error::NotImplemented(s) => ErrorView::NotImplemented(s@),
        }
    }
}

/// `std::str::Utf8Error`, carried by `Error::StrError`.
#[verifier::external_type_specification]
#[verifier::external_body]
pub struct ExUtf8Error(std::str::Utf8Error);

/// Calls `std::str::from_utf8`, which accepts exactly the byte strings that are valid
/// UTF-8 and then views them as a `str`.  What the error value holds is not stated.
#[verifier::external_body]
pub(crate) fn str_from_utf8<'b>(v: &'b [u8]) -> (r: Result<&'b str, std::str::Utf8Error>)
    ensures
        r is Ok <==> valid_utf8(v@),
        r matches Ok(s) ==> s.spec_bytes() == v@,
{
    std::str::from_utf8(v)
}

// ---------------------------------------------------------------------------
// Lexical structure.

/// Space, newline, tab and carriage return separate tokens.
pub open spec fn is_blank(b: u8) -> bool {
    b == 0x20 || b == 0x0a || b == 0x09 || b == 0x0d
}

/// Bytes that end a bare word: blanks, quotes and brackets.
pub open spec fn is_delimiter(b: u8) -> bool {
    is_blank(b) || b == 0x22 || b == 0x5b || b == 0x5d
}

/// The first position at or after `i` that holds no blank.
pub open spec fn skip_blanks(data: Seq<u8>, i: int) -> int
    decreases data.len() - i,
{
    if 0 <= i < data.len() && is_blank(data[i]) {
        skip_blanks(data, i + 1)
    } else {
        i
    }
}

/// The end of a bare word whose remaining bytes start at `i`.
pub open spec fn word_end(data: Seq<u8>, i: int) -> int
    decreases data.len() - i,
{
    if 0 <= i < data.len() && !is_delimiter(data[i]) {
        word_end(data, i + 1)
    } else {
        i
    }
}

/// The end of a comment whose remaining bytes start at `i`: the next newline or
/// carriage return, or the end of the data.
pub open spec fn line_end(data: Seq<u8>, i: int) -> int
    decreases data.len() - i,
{
    if 0 <= i < data.len() && data[i] != 0x0a && data[i] != 0x0d {
        line_end(data, i + 1)
    } else {
        i
    }
}

/// Why the tokenizer failed.
pub enum LexError {
    /// The data ended inside a quoted string.
    Eof,
    /// A newline came before the closing quote.
    Unterminated,
}

/// What the tokenizer reads next.
pub enum Lexed {
    /// Only blanks are left.
    End,
    /// The token held by `data[start..end]`.
    Token { start: int, end: int },
    /// A quoted string that could not be read; reading stopped at `end`.
    Failure { error: LexError, end: int },
    /// A quoted string holding a backslash escape, which the tokenizer does not decode.
    Escaped,
}

/// Scans a quoted string that starts at `start` and whose remaining bytes start at `i`;
/// `escaped` tells whether a backslash has been seen.
pub open spec fn quoted_end(data: Seq<u8>, start: int, i: int, escaped: bool) -> Lexed
    decreases data.len() - i,
{
    if i >= data.len() {
        Lexed::Failure { error: LexError::Eof, end: data.len() as int }
    } else if i < 0 {
        Lexed::End
    } else if data[i] == 0x22 {
        if escaped {
            Lexed::Escaped
        } else {
            Lexed::Token { start, end: i + 1 }
        }
    } else if data[i] == 0x0a {
        Lexed::Failure { error: LexError::Unterminated, end: i + 1 }
    } else if data[i] == 0x5c {
        if i + 1 >= data.len() {
            Lexed::Failure { error: LexError::Eof, end: data.len() as int }
        } else {
            quoted_end(data, start, i + 2, true)
        }
    } else {
        quoted_end(data, start, i + 1, escaped)
    }
}

/// What the tokenizer reads from position `pos`: blanks are skipped; a token is a
/// quoted string, a bracket, a comment running to the end of its line, or a bare word.
pub open spec fn lex(data: Seq<u8>, pos: int) -> Lexed {
    let p = skip_blanks(data, pos);
    if p >= data.len() {
        Lexed::End
    } else if data[p] == 0x22 {
        quoted_end(data, p, p + 1, false)
    } else if data[p] == 0x5b || data[p] == 0x5d {
        Lexed::Token { start: p, end: p + 1 }
    } else if data[p] == 0x23 {
        Lexed::Token { start: p, end: line_end(data, p + 1) }
    } else {
        Lexed::Token { start: p, end: word_end(data, p + 1) }
    }
}

/// The error the tokenizer reports for a failure.
pub open spec fn lex_error(e: LexError) -> Error {
    match e {
        LexError::Eof => Error::EOF,
        LexError::Unterminated => Error::UnterminatedString,
    }
}

/// Whether `r` is what the tokenizer returns for the token held by `bytes`: the token
/// itself when the bytes are valid UTF-8, else a `StrError`.
pub open spec fn token_result<'b>(r: Result<&'b str, Error>, bytes: Seq<u8>) -> bool {
    if valid_utf8(bytes) {
        r matches Ok(s) && s.spec_bytes() == bytes
    } else {
        r matches Err(e) && e is StrError
    }
}

/// Whether `r`, with the read position moved to `new_pos`, is what the tokenizer returns
/// when it reads from `pos`.
pub open spec fn next_post<'b>(
    data: Seq<u8>,
    pos: int,
    new_pos: int,
    r: Option<Result<&'b str, Error>>,
) -> bool {
    match lex(data, pos) {
        Lexed::End => r is None && new_pos == data.len(),
        Lexed::Token { start, end } => new_pos == end && (r matches Some(res) && token_result(
            res,
            data.subrange(start, end),
        )),
        Lexed::Failure { error, end } => new_pos == end && r == Some(
            Err::<&'b str, Error>(lex_error(error)),
        ),
        Lexed::Escaped => false,
    }
}

/// Whether `s` is a string in double quotes.
pub open spec fn quoted(s: Seq<char>) -> bool {
    s.len() >= 2 && s[0] == '"' && s.last() == '"'
}

/// `s` without its first and last characters.
pub open spec fn unquoted(s: Seq<char>) -> Seq<char> {
    s.subrange(1, s.len() - 1)
}

/// Whether `s` is a string in double quotes.
pub fn is_quoted_string(s: &str) -> (r: bool)
    ensures
        r == quoted(s@),
{
    let n = s.unicode_len();
    n >= 2 && s.get_char(0) == '"' && s.get_char(n - 1) == '"'
}

/// `s` without its surrounding double quotes; an error when `s` is not quoted.
pub fn dequote_string(s: &str) -> (r: Result<&str, Error>)
    ensures
        quoted(s@) ==> (r matches Ok(t) && t@ == unquoted(s@)),
        !quoted(s@) ==> (r matches Err(e) && e@ == ErrorView::Unquoted(s@)),
{
    if !is_quoted_string(s) {
        return Err(Error::Unquoted(s.to_owned()));
    }
    let n = s.unicode_len();
    Ok(s.substring_char(1, n - 1))
}

/// Quoting a string and removing the quotes again gives the string back.
pub proof fn law_dequote_of_quote(s: Seq<char>)
    ensures
        quoted(seq!['"'] + s + seq!['"']),
        unquoted(seq!['"'] + s + seq!['"']) == s,
{
    let q = seq!['"'] + s + seq!['"'];
    assert(q[0] == '"');
    assert(q.last() == '"');
    assert(q.subrange(1, q.len() - 1) =~= s);
}


proof fn lemma_skip_blanks(data: Seq<u8>, i: int)
    requires
        0 <= i <= data.len(),
    ensures
        i <= skip_blanks(data, i) <= data.len(),
        forall|k: int| i <= k < skip_blanks(data, i) ==> is_blank(#[trigger] data[k]),
        skip_blanks(data, i) < data.len() ==> !is_blank(data[skip_blanks(data, i)]),
    decreases data.len() - i,
{
    if i < data.len() && is_blank(data[i]) {
        lemma_skip_blanks(data, i + 1);
    }
}

proof fn lemma_word_end(data: Seq<u8>, i: int)
    requires
        0 <= i <= data.len(),
    ensures
        i <= word_end(data, i) <= data.len(),
        forall|k: int| i <= k < word_end(data, i) ==> !is_delimiter(#[trigger] data[k]),
    decreases data.len() - i,
{
    if i < data.len() && !is_delimiter(data[i]) {
        lemma_word_end(data, i + 1);
    }
}

proof fn lemma_line_end(data: Seq<u8>, i: int)
    requires
        0 <= i <= data.len(),
    ensures
        i <= line_end(data, i) <= data.len(),
        forall|k: int|
            i <= k < line_end(data, i) ==> #[trigger] data[k] != 0x0a && data[k] != 0x0d,
    decreases data.len() - i,
{
    if i < data.len() && data[i] != 0x0a && data[i] != 0x0d {
        lemma_line_end(data, i + 1);
    }
}

proof fn lemma_quoted_end(data: Seq<u8>, start: int, i: int, escaped: bool)
    requires
        0 <= start < i <= data.len(),
    ensures
        match quoted_end(data, start, i, escaped) {
            Lexed::Token { start: s, end } => {
                &&& s == start
                &&& i < end <= data.len()
                &&& !escaped
                &&& data[end - 1] == 0x22
                &&& forall|k: int|
                    i <= k < end - 1 ==> #[trigger] data[k] != 0x0a && data[k] != 0x5c && data[k]
                        != 0x22
            },
            Lexed::Failure { error, end } => i <= end <= data.len(),
            Lexed::End => false,
            Lexed::Escaped => true,
        },
    decreases data.len() - i,
{
    if i < data.len() && data[i] != 0x22 && data[i] != 0x0a {
        if data[i] == 0x5c {
            if i + 1 < data.len() {
                lemma_quoted_end(data, start, i + 2, true);
            }
        } else {
            lemma_quoted_end(data, start, i + 1, escaped);
        }
    }
}

/// A token lies after the read position and inside the data, and reading moves forward.
pub proof fn lemma_lex_bounds(data: Seq<u8>, pos: int)
    requires
        0 <= pos <= data.len(),
    ensures
        match lex(data, pos) {
            Lexed::Token { start, end } => pos <= start < end <= data.len(),
            Lexed::Failure { error, end } => pos < end <= data.len(),
            _ => true,
        },
{
    lemma_skip_blanks(data, pos);
    let p = skip_blanks(data, pos);
    if p < data.len() {
        if data[p] == 0x22 {
            lemma_quoted_end(data, p, p + 1, false);
        } else if data[p] == 0x23 {
            lemma_line_end(data, p + 1);
        } else if data[p] != 0x5b && data[p] != 0x5d {
            lemma_word_end(data, p + 1);
        }
    }
}

/// The token stream.  Reading from `pos` skips only blanks and yields a token that is not
/// empty and lies after `pos`, so the next read, which starts at the token's end, yields a
/// later token: tokens come in input order and never overlap.  No token holds a newline.  A
/// bracket outside quotes and comments is a token of its own, and a bare word holds no
/// blank, quote or bracket, so a token holds a blank only if it starts with a quote or `#`.
/// A quoted token ends with the closing quote and holds no backslash.  A failure moves the
/// read position forward.  Once only blanks are left reading gives the end, and it gives the
/// end again from the end of the data.
pub proof fn law_token_stream(data: Seq<u8>, pos: int)
    requires
        0 <= pos <= data.len(),
    ensures
        lex(data, data.len() as int) is End,
        match lex(data, pos) {
            Lexed::Token { start, end } => {
                &&& pos <= start < end <= data.len()
                &&& forall|k: int| pos <= k < start ==> is_blank(#[trigger] data[k])
                &&& forall|k: int| start <= k < end ==> #[trigger] data[k] != 0x0a
                &&& (data[start] == 0x5b || data[start] == 0x5d) ==> end == start + 1
                &&& data[start] != 0x22 && data[start] != 0x23 ==> forall|k: int|
                    start <= k < end ==> !is_blank(#[trigger] data[k])
                &&& data[start] != 0x22 && data[start] != 0x23 && data[start] != 0x5b
                    && data[start] != 0x5d ==> forall|k: int|
                    start <= k < end ==> !is_delimiter(#[trigger] data[k])
                &&& data[start] == 0x22 ==> start + 2 <= end && data[end - 1] == 0x22
                    && forall|k: int| start < k < end - 1 ==> #[trigger] data[k] != 0x5c
            },
            Lexed::Failure { error, end } => pos < end <= data.len(),
            Lexed::End => forall|k: int| pos <= k < data.len() ==> is_blank(#[trigger] data[k]),
            Lexed::Escaped => true,
        },
{
    lemma_skip_blanks(data, data.len() as int);
    lemma_skip_blanks(data, pos);
    lemma_lex_bounds(data, pos);
    let p = skip_blanks(data, pos);
    if p < data.len() {
        if data[p] == 0x22 {
            lemma_quoted_end(data, p, p + 1, false);
        } else if data[p] == 0x23 {
            lemma_line_end(data, p + 1);
        } else if data[p] != 0x5b && data[p] != 0x5d {
            lemma_word_end(data, p + 1);
        }
    }
}

/// Why reading stopped: an error, or a quoted string with a backslash escape, which the
/// tokenizer does not decode.
#[derive(Debug)]
pub enum Halt {
    /// Reading failed with this error.
    Failed(Error),
    /// A quoted string holds a backslash escape.
    Escaped,
}

/// `r` with a stop for an escape taken as an error (only where no escape is met).
pub open spec fn lowered<'b>(r: Option<Result<&'b str, Halt>>) -> Option<Result<&'b str, Error>> {
    match r {
        Some(Ok(s)) => Some(Ok(s)),
        Some(Err(Halt::Failed(e))) => Some(Err(e)),
        Some(Err(Halt::Escaped)) => Some(Err(Error::EOF)),
        None => None,
    }
}

/// Whether `r`, with the read position moved to `new_pos`, is what reading from `pos`
/// gives when escapes are reported instead of refused.
pub open spec fn read_post<'b>(
    data: Seq<u8>,
    pos: int,
    new_pos: int,
    r: Option<Result<&'b str, Halt>>,
) -> bool {
    if lex(data, pos) is Escaped {
        r matches Some(Err(Halt::Escaped))
    } else {
        !(r matches Some(Err(Halt::Escaped))) && next_post(data, pos, new_pos, lowered(r))
    }
}

/// `r` with an error taken as a stop.
fn lift<'b>(r: Option<Result<&'b str, Error>>) -> (l: Option<Result<&'b str, Halt>>)
    ensures
        lowered(l) == r,
        !(l matches Some(Err(Halt::Escaped))),
{
    match r {
        Some(Ok(s)) => Some(Ok(s)),
        Some(Err(e)) => Some(Err(Halt::Failed(e))),
        None => None,
    }
}

/// Tokenizer holds state necessary to tokenize a pbrt scene file.
pub struct Tokenizer<'a> {
    data: &'a [u8],
    pos: usize,
}

/// Creates a [Tokenizer] from the scene file in `data`.
pub fn create_from_string<'a>(data: &'a [u8]) -> (t: Tokenizer<'a>)
    ensures
        t.data() == data@,
        t.pos() == 0,
        0 <= t.pos() <= t.data().len(),
{
    Tokenizer { data, pos: 0 }
}

impl<'a> Tokenizer<'a> {
    /// The read position never passes the end of the data.
    #[verifier::type_invariant]
    pub(crate) open spec fn wf(self) -> bool {
        self.pos() <= self.data().len()
    }

    /// The scene file being read.
    pub closed spec fn data(&self) -> Seq<u8> {
        self.data@
    }

    /// The read position.
    pub closed spec fn pos(&self) -> int {
        self.pos as int
    }

    /// The read position is never negative.  (Every function that makes or moves a
    /// tokenizer also says that the position does not pass the end of the data.)
    pub proof fn lemma_pos_nonnegative(&self)
        ensures
            0 <= self.pos(),
    {
    }

    fn get_byte(&mut self) -> (r: Option<u8>)
        ensures
            final(self).data() == old(self).data(),
            old(self).pos() == old(self).data().len() ==> r is None && final(self).pos() == old(
                self,
            ).pos(),
            old(self).pos() < old(self).data().len() ==> r == Some(old(self).data()[old(self).pos()])
                && final(self).pos() == old(self).pos() + 1,
    {
        proof {
            use_type_invariant(&*self);
        }
        if self.pos == self.data.len() {
            return None;
        }
        let byte = self.data[self.pos];
        self.pos = self.pos + 1;
        Some(byte)
    }

    fn unget_byte(&mut self)
        requires
            old(self).pos() > 0,
        ensures
            final(self).data() == old(self).data(),
            final(self).pos() == old(self).pos() - 1,
    {
        proof {
            use_type_invariant(&*self);
        }
        self.pos = self.pos - 1;
    }

    fn token(&mut self, token_start: usize) -> (r: Option<Result<&'a str, Error>>)
        requires
            token_start <= old(self).pos(),
        ensures
            *final(self) == *old(self),
            r matches Some(res) && token_result(res, old(self).data().subrange(
                token_start as int,
                old(self).pos(),
            )),
    {
        proof {
            use_type_invariant(&*self);
        }
        match str_from_utf8(&self.data[token_start..self.pos]) {
            Ok(s) => Some(Ok(s)),
            Err(e) => Some(Err(Error::StrError(e))),
        }
    }
    /// Reads the next token: `None` once only blanks are left, else the token or the error
    /// met while reading it.  A quoted string must not hold a backslash escape.
    pub fn next(&mut self) -> (r: Option<Result<&'a str, Error>>)
        requires
            !(lex(old(self).data(), old(self).pos()) is Escaped),
        ensures
            final(self).data() == old(self).data(),
            0 <= final(self).pos() <= final(self).data().len(),
            next_post(old(self).data(), old(self).pos(), final(self).pos(), r),
    {
        match self.read() {
            Some(Ok(s)) => Some(Ok(s)),
            Some(Err(Halt::Failed(e))) => Some(Err(e)),
            Some(Err(Halt::Escaped)) => {
                proof {
                    assert(false);
                }
                None
            },
            None => None,
        }
    }

    /// Reads the next token like `next`, but reports a quoted string with a backslash
    /// escape as `Halt::Escaped`.
    pub fn read(&mut self) -> (r: Option<Result<&'a str, Halt>>)
        ensures
            final(self).data() == old(self).data(),
            0 <= final(self).pos() <= final(self).data().len(),
            read_post(old(self).data(), old(self).pos(), final(self).pos(), r),
    {
        proof {
            use_type_invariant(&*self);
        }
        let ghost data = self.data();
        let ghost pos0 = self.pos();
        loop
            invariant
                self.data() == data,
                data == old(self).data(),
                pos0 == old(self).pos(),
                pos0 <= self.pos() <= data.len(),
                skip_blanks(data, pos0) == skip_blanks(data, self.pos()),
            decreases data.len() - self.pos(),
        {
            proof {
                use_type_invariant(&*self);
            }
            let token_start = self.pos;
            match self.get_byte() {
                None => {
                    return None;
                },
                Some(byte) => {
                    if byte == 0x20 || byte == 0x0a || byte == 0x09 || byte == 0x0d {
                    } else {
                        let r = if byte == 0x22 {
                            self.quoted(token_start)
                        } else if byte == 0x5b || byte == 0x5d {
                            lift(self.token(token_start))
                        } else if byte == 0x23 {
                            lift(self.comment(token_start))
                        } else {
                            lift(self.word(token_start))
                        };
                        proof {
                            use_type_invariant(&*self);
                        }
                        return r;
                    }
                },
            }
        }
    }

    /// Reads the rest of a quoted string that starts at `token_start`.
    fn quoted(&mut self, token_start: usize) -> (r: Option<Result<&'a str, Halt>>)
        requires
            old(self).pos() == token_start + 1,
            token_start < old(self).data().len(),
            old(self).data()[token_start as int] == 0x22,
        ensures
            final(self).data() == old(self).data(),
            match quoted_end(old(self).data(), token_start as int, token_start + 1, false) {
                Lexed::Token { start, end } => final(self).pos() == end && (r matches Some(res)
                    && !(res matches Err(Halt::Escaped)) && token_result(
                    lowered(Some(res))->0,
                    old(self).data().subrange(start, end),
                )),
                Lexed::Failure { error, end } => final(self).pos() == end && (r matches Some(
                    Err(Halt::Failed(e)),
                ) && e == lex_error(error)),
                Lexed::Escaped => r matches Some(Err(Halt::Escaped)),
                Lexed::End => false,
            },
    {
        let ghost data = self.data();
        let ghost outcome = quoted_end(data, token_start as int, token_start + 1, false);
        let mut have_escaped = false;
        loop
            invariant_except_break
                quoted_end(data, token_start as int, self.pos(), have_escaped) == outcome,
            invariant
                self.data() == data,
                data == old(self).data(),
                token_start < self.pos() <= data.len(),
                outcome == quoted_end(data, token_start as int, token_start + 1, false),
            ensures
                have_escaped ==> outcome is Escaped,
                !have_escaped ==> outcome == (Lexed::Token {
                    start: token_start as int,
                    end: self.pos(),
                }),
            decreases data.len() - self.pos(),
        {
            proof {
                use_type_invariant(&*self);
            }
            match self.get_byte() {
                None => {
                    return Some(Err(Halt::Failed(Error::EOF)));
                },
                Some(byte) => {
                    if byte == 0x22 {
                        break;
                    } else if byte == 0x0a {
                        return Some(Err(Halt::Failed(Error::UnterminatedString)));
                    } else if byte == 0x5c {
                        have_escaped = true;
                        if self.get_byte().is_none() {
                            return Some(Err(Halt::Failed(Error::EOF)));
                        }
                    }
                },
            }
        }
        if have_escaped {
            return Some(Err(Halt::Escaped));
        }
        lift(self.token(token_start))
    }

    /// Reads the rest of a comment that starts at `token_start`, up to the end of its line.
    fn comment(&mut self, token_start: usize) -> (r: Option<Result<&'a str, Error>>)
        requires
            old(self).pos() == token_start + 1,
            token_start < old(self).data().len(),
        ensures
            final(self).data() == old(self).data(),
            final(self).pos() == line_end(old(self).data(), token_start + 1),
            r matches Some(res) && token_result(
                res,
                old(self).data().subrange(token_start as int, final(self).pos()),
            ),
    {
        let ghost data = self.data();
        loop
            invariant_except_break
                line_end(data, self.pos()) == line_end(data, token_start + 1),
            invariant
                self.data() == data,
                data == old(self).data(),
                token_start < self.pos() <= data.len(),
            ensures
                self.pos() == line_end(data, token_start + 1),
            decreases data.len() - self.pos(),
        {
            proof {
                use_type_invariant(&*self);
            }
            match self.get_byte() {
                None => {
                    break;
                },
                Some(ch) => {
                    if ch == 0x0a || ch == 0x0d {
                        self.unget_byte();
                        break;
                    }
                },
            }
        }
        self.token(token_start)
    }

    /// Reads the rest of a bare word that starts at `token_start`, up to the next blank,
    /// quote or bracket.
    fn word(&mut self, token_start: usize) -> (r: Option<Result<&'a str, Error>>)
        requires
            old(self).pos() == token_start + 1,
            token_start < old(self).data().len(),
        ensures
            final(self).data() == old(self).data(),
            final(self).pos() == word_end(old(self).data(), token_start + 1),
            r matches Some(res) && token_result(
                res,
                old(self).data().subrange(token_start as int, final(self).pos()),
            ),
    {
        let ghost data = self.data();
        loop
            invariant_except_break
                word_end(data, self.pos()) == word_end(data, token_start + 1),
            invariant
                self.data() == data,
                data == old(self).data(),
                token_start < self.pos() <= data.len(),
            ensures
                self.pos() == word_end(data, token_start + 1),
            decreases data.len() - self.pos(),
        {
            proof {
                use_type_invariant(&*self);
            }
            match self.get_byte() {
                None => {
                    break;
                },
                Some(byte) => {
                    if byte == 0x20 || byte == 0x0a || byte == 0x09 || byte == 0x0d || byte == 0x22
                        || byte == 0x5b || byte == 0x5d {
                        self.unget_byte();
                        break;
                    }
                },
            }
        }
        self.token(token_start)
    }
}

} // verus!
