//! Tokens and compile errors.
use vstd::prelude::*;
use crate::utils::{digits_value, spec_is_digit, lemma_digits_value_prefix_le, chars_of, copy_chars, signed_decimal, decimal, lemma_decimal_digits, push_chars, push_i64, push_str, push_u64};

verus! {

/// The kind of a token.
#[derive(Clone, Copy, Debug, PartialEq, Eq, Structural)]
pub enum Tokenkind {
    Default,
    Head,
    Ident,
    Reserved,
    String,
    Num,
    Return,
    Eof,
}

/// A token: its kind, its value (numbers), its text, its length in characters and where it
/// ends in the source (file, line, offset within the line).
#[derive(Debug)]
pub struct Token {
    pub kind: Tokenkind,
    pub val: Option<i32>,
    pub body: Option<Vec<char>>,
    pub len: usize,
    pub file_num: usize,
    pub line_num: usize,
    pub line_offset: usize,
}

/// A plain view of a token, with its text as a sequence.
pub struct TokenView {
    pub kind: Tokenkind,
    pub val: Option<i32>,
    pub body: Option<Seq<char>>,
    pub len: usize,
    pub file_num: usize,
    pub line_num: usize,
    pub line_offset: usize,
}

impl View for Token {
    type V = TokenView;

    open spec fn view(&self) -> TokenView {
        TokenView {
            kind: self.kind,
            val: self.val,
            body: match self.body {
                Some(b) => Some(b@),
                None => None,
            },
            len: self.len,
            file_num: self.file_num,
            line_num: self.line_num,
            line_offset: self.line_offset,
        }
    }
}

/// The text of the end-of-input token.
pub open spec fn eof_body() -> Seq<char> {
    seq!['t', 'o', 'k', 'e', 'n', ' ', 'o', 'f', ' ', 'E', 'o', 'f']
}

/// The text of the `return` token.
pub open spec fn return_body() -> Seq<char> {
    seq!['r', 'e', 't', 'u', 'r', 'n']
}

/// The token that `Token::new` makes.
pub open spec fn spec_token(
    kind: Tokenkind,
    body: Seq<char>,
    file_num: usize,
    line_num: usize,
    line_offset: usize,
) -> TokenView {
    match kind {
        Tokenkind::Head => TokenView {
            kind,
            val: None,
            body: None,
            len: 0,
            file_num: 0,
            line_num: 0,
            line_offset: 0,
        },
        Tokenkind::Num => TokenView {
            kind,
            val: Some(number_text_value(body) as i32),
            body: Some(body),
            len: body.len() as usize,
            file_num,
            line_num,
            line_offset,
        },
        Tokenkind::Return => TokenView {
            kind,
            val: None,
            body: Some(return_body()),
            len: 6,
            file_num,
            line_num,
            line_offset,
        },
        Tokenkind::Eof => TokenView {
            kind,
            val: None,
            body: Some(eof_body()),
            len: 0,
            file_num: 0,
            line_num: 0,
            line_offset: 0,
        },
        _ => TokenView {
            kind,
            val: None,
            body: Some(body),
            len: body.len() as usize,
            file_num,
            line_num,
            line_offset,
        },
    }
}

/// Decimal digits only, at least one.
pub open spec fn all_digits(body: Seq<char>) -> bool {
    &&& body.len() >= 1
    &&& forall|k: int| 0 <= k < body.len() ==> spec_is_digit(#[trigger] body[k])
}

/// A text that `Token::new` accepts for a number token: decimal digits, possibly after a '-' or
/// a '+',
/// of a value that fits in an `i32`.
pub open spec fn is_number_text(body: Seq<char>) -> bool {
    if body.len() >= 1 && body[0] == '-' {
        all_digits(body.drop_first()) && digits_value(body.drop_first()) <= 0x8000_0000
    } else if body.len() >= 1 && body[0] == '+' {
        all_digits(body.drop_first()) && digits_value(body.drop_first()) <= i32::MAX
    } else {
        all_digits(body) && digits_value(body) <= i32::MAX
    }
}

/// The value of a number text.
pub open spec fn number_text_value(body: Seq<char>) -> int {
    if body.len() >= 1 && body[0] == '-' {
        -(digits_value(body.drop_first()) as int)
    } else if body.len() >= 1 && body[0] == '+' {
        digits_value(body.drop_first()) as int
    } else {
        digits_value(body) as int
    }
}

impl Token {
    /// A token of kind `kind` with text `body` that ends at `line_offset` of line `line_num`
    /// of file `file_num`. Number tokens take their value from their text; `return` and
    /// end-of-input tokens have a fixed text; the head token carries nothing.
    pub fn new(kind: Tokenkind, body: Vec<char>, file_num: usize, line_num: usize, line_offset: usize) -> (r: Token)
        requires
            kind != Tokenkind::Default,
            kind == Tokenkind::Num ==> is_number_text(body@),
        ensures
            r@ == spec_token(kind, body@, file_num, line_num, line_offset),
    {
        let len = body.len();
        proof {
            reveal_strlit("return");
            reveal_strlit("token of Eof");
        }
        let ghost sp = spec_token(kind, body@, file_num, line_num, line_offset);
        let t = match kind {
            Tokenkind::Head => Token {
                kind,
                val: None,
                body: None,
                len: 0,
                file_num: 0,
                line_num: 0,
                line_offset: 0,
            },
            Tokenkind::Num => {
                let val = parse_i32(&body);
                Token { kind, val: Some(val), body: Some(body), len, file_num, line_num, line_offset }
            },
            Tokenkind::Return => Token {
                kind,
                val: None,
                body: Some(chars_of("return")),
                len: 6,
                file_num,
                line_num,
                line_offset,
            },
            Tokenkind::Eof => Token {
                kind,
                val: None,
                body: Some(chars_of("token of Eof")),
                len: 0,
                file_num: 0,
                line_num: 0,
                line_offset: 0,
            },
            _ => Token { kind, val: None, body: Some(body), len, file_num, line_num, line_offset },
        };
        assert(t@.kind == sp.kind);
        assert(t@.val == sp.val);
        assert(t@.body == sp.body);
        assert(t@.len == sp.len);
        assert(t@.file_num == sp.file_num);
        t
    }

    /// A copy of this token.
    pub fn copy(&self) -> (r: Token)
        ensures
            r@ == self@,
    {
        let body = match &self.body {
            Some(b) => Some(copy_chars(b)),
            None => None,
        };
        Token {
            kind: self.kind,
            val: self.val,
            body,
            len: self.len,
            file_num: self.file_num,
            line_num: self.line_num,
            line_offset: self.line_offset,
        }
    }
}

/// The value of a number text.
pub fn parse_i32(body: &Vec<char>) -> (r: i32)
    requires
        is_number_text(body@),
    ensures
        r == number_text_value(body@),
{
    let neg = body.len() >= 1 && body[0] == '-';
    let plus = body.len() >= 1 && body[0] == '+';
    let start: usize = if neg || plus { 1 } else { 0 };
    let ghost digits = body@.subrange(start as int, body@.len() as int);
    proof {
        if neg || plus {
            assert(digits =~= body@.drop_first());
        } else {
            assert(digits =~= body@);
        }
    }
    let mut v: u32 = 0;
    let mut i: usize = start;
    proof {
        assert(digits.subrange(0, 0) =~= Seq::<char>::empty());
    }
    while i < body.len()
        invariant
            start <= i <= body@.len(),
            digits == body@.subrange(start as int, body@.len() as int),
            all_digits(digits),
            digits_value(digits) <= 0x8000_0000,
            v == digits_value(digits.subrange(0, i - start)),
        decreases body.len() - i,
    {
        proof {
            assert(digits.subrange(0, i - start + 1).drop_last() =~= digits.subrange(0, i - start));
            lemma_digits_value_prefix_le(digits, (i - start + 1) as nat);
            assert(digits[i - start] == body@[i as int]);
            assert(spec_is_digit(body@[i as int]));
        }
        let d = body[i] as u32 - '0' as u32;
        v = v * 10 + d;
        i = i + 1;
    }
    proof {
        assert(digits.subrange(0, digits.len() as int) =~= digits);
    }
    if neg {
        if v == 0x8000_0000 {
            i32::MIN
        } else {
            -(v as i32)
        }
    } else {
        v as i32
    }
}

/// The signed decimal notation of an `i32` is a number text of that value.
pub proof fn lemma_signed_decimal_number_text(x: i32)
    ensures
        is_number_text(signed_decimal(x as int)),
        number_text_value(signed_decimal(x as int)) == x,
{
    if x < 0 {
        let m = (-(x as int)) as nat;
        lemma_decimal_digits(m);
        let s = signed_decimal(x as int);
        assert(s.drop_first() =~= decimal(m));
        assert(s[0] == '-');
    } else {
        lemma_decimal_digits(x as nat);
        let s = decimal(x as nat);
        if s[0] == '-' {
            assert(spec_is_digit(s[0]));
        }
    }
}

/// A compile error: its message and the place it refers to. The column that is reported is
/// `line_offset - token_len` (the start of the offending token); `has_pos` is false for
/// errors that refer to no place.
#[derive(Debug)]
pub struct CompileError {
    pub msg: Vec<char>,
    pub has_pos: bool,
    pub file_num: usize,
    pub line_num: usize,
    pub line_offset: usize,
    pub token_len: usize,
}

/// The error `msg` at the place of `token`.
pub fn error_tok(msg: &str, token: &Token) -> (e: CompileError)
    ensures
        e.msg@ == msg@,
        e.has_pos,
        e.file_num == token.file_num,
        e.line_num == token.line_num,
        e.line_offset == token.line_offset,
        e.token_len == token.len,
{
    CompileError {
        msg: chars_of(msg),
        has_pos: true,
        file_num: token.file_num,
        line_num: token.line_num,
        line_offset: token.line_offset,
        token_len: token.len,
    }
}

/// The error `msg` at offset `line_offset` of line `line_num` of file `file_num`.
pub fn error_at(msg: &str, file_num: usize, line_num: usize, line_offset: usize) -> (e: CompileError)
    ensures
        e.msg@ == msg@,
        e.has_pos,
        e.file_num == file_num,
        e.line_num == line_num,
        e.line_offset == line_offset,
        e.token_len == 0,
{
    CompileError { msg: chars_of(msg), has_pos: true, file_num, line_num, line_offset, token_len: 0 }
}

/// The error `msg`, which refers to no place.
pub fn error_msg(msg: &str) -> (e: CompileError)
    ensures
        e.msg@ == msg@,
        !e.has_pos,
{
    CompileError { msg: chars_of(msg), has_pos: false, file_num: 0, line_num: 0, line_offset: 0, token_len: 0 }
}

/// A sequence of tokens and the position of the token being read.
#[derive(Debug)]
pub struct TokenStream {
    pub tokens: Vec<Token>,
    pub pos: usize,
}

/// The token at the read position.
pub open spec fn cur(ts: TokenStream) -> Token {
    ts.tokens@[ts.pos as int]
}

/// A well-formed stream: its read position is a token, its last token is the end of input
/// and no other token is.
pub open spec fn stream_wf(ts: TokenStream) -> bool {
    &&& ts.pos < ts.tokens@.len()
    &&& ts.tokens@.last().kind == Tokenkind::Eof
    &&& forall|i: int| 0 <= i < ts.tokens@.len() - 1 ==> (#[trigger] ts.tokens@[i]).kind != Tokenkind::Eof
}

/// Moves the read position to the next token; an error at the last token.
pub fn token_ptr_exceed(token_ptr: &mut TokenStream) -> (r: Result<(), CompileError>)
    ensures
        final(token_ptr).tokens == old(token_ptr).tokens,
        old(token_ptr).pos + 1 < old(token_ptr).tokens@.len() ==> r is Ok && final(token_ptr).pos
            == old(token_ptr).pos + 1,
        old(token_ptr).pos + 1 >= old(token_ptr).tokens@.len() ==> r is Err && final(token_ptr).pos
            == old(token_ptr).pos,
{
    if token_ptr.pos < token_ptr.tokens.len() && token_ptr.pos + 1 < token_ptr.tokens.len() {
        token_ptr.pos = token_ptr.pos + 1;
        Ok(())
    } else {
        Err(error_msg("次のポインタを読めません。"))
    }
}


impl Default for Token {
    /// A token of kind `Default` with nothing else set.
    fn default() -> (r: Token)
        ensures
            r.kind == Tokenkind::Default,
            r.val is None,
            r.body is None,
            r.len == 0,
            r.file_num == 0,
            r.line_num == 0,
            r.line_offset == 0,
    {
        Token { kind: Tokenkind::Default, val: None, body: None, len: 0, file_num: 0, line_num: 0, line_offset: 0 }
    }
}

/// The name of a token kind as listings show it.
pub open spec fn spec_tokenkind_text(k: Tokenkind) -> Seq<char> {
    match k {
        Tokenkind::Default => "Default Token"@,
        Tokenkind::Head => "Head Token"@,
        Tokenkind::Ident => "Identity Token"@,
        Tokenkind::Reserved => "Reserved Token"@,
        Tokenkind::String => "String Token"@,
        Tokenkind::Num => "Number Token"@,
        Tokenkind::Return => "Return Token"@,
        Tokenkind::Eof => "Eof Token"@,
    }
}

/// The name of a token kind as listings show it.
pub fn tokenkind_text(k: Tokenkind) -> (r: &'static str)
    ensures
        r@ == spec_tokenkind_text(k),
{
    match k {
        Tokenkind::Default => "Default Token",
        Tokenkind::Head => "Head Token",
        Tokenkind::Ident => "Identity Token",
        Tokenkind::Reserved => "Reserved Token",
        Tokenkind::String => "String Token",
        Tokenkind::Num => "Number Token",
        Tokenkind::Return => "Return Token",
        Tokenkind::Eof => "Eof Token",
    }
}

/// The short name of a token kind.
pub open spec fn spec_tokenkind_name(k: Tokenkind) -> Seq<char> {
    match k {
        Tokenkind::Default => "Default"@,
        Tokenkind::Head => "Head"@,
        Tokenkind::Ident => "Ident"@,
        Tokenkind::Reserved => "Reserved"@,
        Tokenkind::String => "String"@,
        Tokenkind::Num => "Num"@,
        Tokenkind::Return => "Return"@,
        Tokenkind::Eof => "Eof"@,
    }
}

/// The short name of a token kind.
pub fn tokenkind_name(k: Tokenkind) -> (r: &'static str)
    ensures
        r@ == spec_tokenkind_name(k),
{
    match k {
        Tokenkind::Default => "Default",
        Tokenkind::Head => "Head",
        Tokenkind::Ident => "Ident",
        Tokenkind::Reserved => "Reserved",
        Tokenkind::String => "String",
        Tokenkind::Num => "Num",
        Tokenkind::Return => "Return",
        Tokenkind::Eof => "Eof",
    }
}

/// The first lines of the listing of token `t`: a rule, its kind, place and length.
pub open spec fn token_head(t: Token) -> Seq<char> {
    "----------------------------------------\n"@ + "kind: "@ + spec_tokenkind_text(t.kind) + "\n"@ + "pos: ["@
        + decimal(t.line_num as nat) + ", "@ + decimal(t.line_offset as nat) + "]\n"@ + "length: "@ + decimal(
        t.len as nat,
    ) + "\n"@
}

/// The lines of the text and value of token `t`.
pub open spec fn token_fields(t: Token) -> Seq<char> {
    (match t.body {
        Some(b) => "body: "@ + b@ + "\n"@,
        None => "body: not exist\n"@,
    }) + (match t.val {
        Some(v) => "val: "@ + signed_decimal(v as int) + "\n"@,
        None => "val: -\n"@,
    })
}

/// The line naming the kind of the token after token `i`.
pub open spec fn token_next(tokens: Seq<Token>, i: int) -> Seq<char> {
    if i + 1 < tokens.len() {
        "next: -> "@ + spec_tokenkind_name(tokens[i + 1].kind) + "\n"@
    } else {
        "next: -\n"@
    }
}

/// The listing of token number `i` of `tokens`: a rule, its kind, place, length, text and
/// value, and the kind of the token after it; then an empty line.
pub open spec fn spec_token_text(tokens: Seq<Token>, i: int) -> Seq<char> {
    token_head(tokens[i]) + token_fields(tokens[i]) + token_next(tokens, i) + "\n"@
}

/// Writes the first lines of the listing of `t`.
fn push_token_head(out: &mut Vec<char>, t: &Token)
    ensures
        final(out)@ == old(out)@ + token_head(*t),
{
    push_str(out, "----------------------------------------\n");
    push_str(out, "kind: ");
    push_str(out, tokenkind_text(t.kind));
    push_str(out, "\n");
    push_str(out, "pos: [");
    push_u64(out, t.line_num as u64);
    push_str(out, ", ");
    push_u64(out, t.line_offset as u64);
    push_str(out, "]\n");
    push_str(out, "length: ");
    push_u64(out, t.len as u64);
    push_str(out, "\n");
    proof {
        assert(out@ =~= old(out)@ + token_head(*t));
    }
}

/// Writes the lines of the text and value of `t`.
fn push_token_fields(out: &mut Vec<char>, t: &Token)
    ensures
        final(out)@ == old(out)@ + token_fields(*t),
{
    match &t.body {
        Some(b) => {
            push_str(out, "body: ");
            push_chars(out, b);
            push_str(out, "\n");
        },
        None => {
            push_str(out, "body: not exist\n");
        },
    }
    let ghost b = out@;
    match t.val {
        Some(v) => {
            push_str(out, "val: ");
            push_i64(out, v as i64);
            push_str(out, "\n");
        },
        None => {
            push_str(out, "val: -\n");
        },
    }
    proof {
        assert(b =~= old(out)@ + (match t.body {
            Some(b) => "body: "@ + b@ + "\n"@,
            None => "body: not exist\n"@,
        }));
        assert(out@ =~= old(out)@ + token_fields(*t));
    }
}

/// The listing of token number `i` of `tokens`.
pub fn token_text(tokens: &Vec<Token>, i: usize) -> (r: Vec<char>)
    requires
        i < tokens@.len(),
    ensures
        r@ == spec_token_text(tokens@, i as int),
{
    let mut out: Vec<char> = Vec::new();
    push_token_head(&mut out, &tokens[i]);
    push_token_fields(&mut out, &tokens[i]);
    let ghost c = out@;
    if i < tokens.len() - 1 {
        push_str(&mut out, "next: -> ");
        push_str(&mut out, tokenkind_name(tokens[i + 1].kind));
        push_str(&mut out, "\n");
    } else {
        push_str(&mut out, "next: -\n");
    }
    proof {
        assert(out@ =~= c + token_next(tokens@, i as int));
    }
    push_str(&mut out, "\n");
    proof {
        assert(out@ =~= spec_token_text(tokens@, i as int));
    }
    out
}
} // verus!
