//! The tokenizer: splits the lines of a source file into tokens, and the functions with
//! which the parser reads them.
use vstd::prelude::*;
use vstd::string::*;
use crate::token::{
    Token, TokenView, Tokenkind, CompileError, TokenStream, error_at, error_tok, spec_token,
    is_number_text, lemma_signed_decimal_number_text, token_ptr_exceed, stream_wf, cur,
};
use crate::typecell::{Type, TypeCell, spec_new};
use crate::utils::{
    spec_is_digit, is_digit, digits_value, digits_end, decimal, signed_decimal, strtol,
    lemma_digits_end_bounds, lemma_decimal_digits, chars_of, u64_chars, push_i64, str_eq,
    copy_chars,
};

verus! {

/* ---------------------------------------------------------------------------------------- */
/* The scanning rules, stated over sequences of characters.                                 */
/* ---------------------------------------------------------------------------------------- */

/// Blank characters.
pub open spec fn is_space(c: char) -> bool {
    c == ' ' || c == '\t' || c == '\n'
}

/// Characters that are tokens by themselves.
pub open spec fn uni_reserved(c: char) -> bool {
    c == ';' || c == ',' || c == '(' || c == ')' || c == '{' || c == '}' || c == '[' || c == ']'
        || c == '+' || c == '-' || c == '*' || c == '/' || c == '%' || c == '&' || c == '|' || c
        == '^' || c == '!' || c == '~' || c == '=' || c == '<' || c == '>'
}

/// Characters that may start an identifier.
pub open spec fn ident_start(c: char) -> bool {
    ('a' <= c && c <= 'z') || ('A' <= c && c <= 'Z') || c == '_'
}

/// Characters that may continue an identifier.
pub open spec fn ident_part(c: char) -> bool {
    ident_start(c) || spec_is_digit(c)
}

/// Whether a keyword may end just before position `i`: the line ends there or the next
/// character is blank or a one-character token.
pub open spec fn can_follow(line: Seq<char>, i: int) -> bool {
    i >= line.len() || uni_reserved(line[i]) || is_space(line[i])
}

/// Whether `w` stands in `line` at position `i`.
pub open spec fn matches_at(line: Seq<char>, i: int, w: Seq<char>) -> bool {
    0 <= i && i + w.len() <= line.len() && line.subrange(i, i + w.len()) == w
}

/// Whether keyword `w` stands at `i`, followed by something that may follow a keyword.
pub open spec fn keyword_at(line: Seq<char>, i: int, w: Seq<char>) -> bool {
    matches_at(line, i, w) && can_follow(line, i + w.len())
}

/// The first position at or after `i` that is not blank (or the end of the line).
pub open spec fn skip_spaces(line: Seq<char>, i: int) -> int
    decreases line.len() - i,
{
    if i < 0 || i >= line.len() || !is_space(line[i]) {
        i
    } else {
        skip_spaces(line, i + 1)
    }
}

/// The end of the identifier that starts at `i`.
pub open spec fn ident_end(line: Seq<char>, i: int) -> int
    decreases line.len() - i,
{
    if i < 0 || i >= line.len() || !ident_part(line[i]) {
        i
    } else {
        ident_end(line, i + 1)
    }
}

/// The first position at or after `i` that holds `q` (or the end of the line).
pub open spec fn find_char(line: Seq<char>, i: int, q: char) -> int
    decreases line.len() - i,
{
    if i < 0 || i >= line.len() || line[i] == q {
        i
    } else {
        find_char(line, i + 1, q)
    }
}

/// Two-character operators.
pub open spec fn bi_op_at(line: Seq<char>, i: int) -> bool {
    ||| matches_at(line, i, "=="@)
    ||| matches_at(line, i, "!="@)
    ||| matches_at(line, i, "<="@)
    ||| matches_at(line, i, ">="@)
    ||| matches_at(line, i, "&&"@)
    ||| matches_at(line, i, "||"@)
    ||| matches_at(line, i, "<<"@)
    ||| matches_at(line, i, ">>"@)
    ||| matches_at(line, i, "++"@)
    ||| matches_at(line, i, "--"@)
    ||| matches_at(line, i, "+="@)
    ||| matches_at(line, i, "-="@)
    ||| matches_at(line, i, "*="@)
    ||| matches_at(line, i, "/="@)
    ||| matches_at(line, i, "%="@)
    ||| matches_at(line, i, "&="@)
    ||| matches_at(line, i, "^="@)
    ||| matches_at(line, i, "|="@)
}

/// The reserved token (keyword or operator) at `i`, longest first, and where it ends.
pub open spec fn spec_reserved(line: Seq<char>, i: int) -> Option<(Seq<char>, int)> {
    if keyword_at(line, i, "sizeof"@) {
        Some(("sizeof"@, i + 6))
    } else if keyword_at(line, i, "while"@) {
        Some(("while"@, i + 5))
    } else if keyword_at(line, i, "else"@) {
        Some(("else"@, i + 4))
    } else if keyword_at(line, i, "char"@) {
        Some(("char"@, i + 4))
    } else if matches_at(line, i, "<<="@) || matches_at(line, i, ">>="@) || keyword_at(
        line,
        i,
        "for"@,
    ) || keyword_at(line, i, "int"@) {
        Some((line.subrange(i, i + 3), i + 3))
    } else if bi_op_at(line, i) || keyword_at(line, i, "if"@) {
        Some((line.subrange(i, i + 2), i + 2))
    } else if 0 <= i < line.len() && uni_reserved(line[i]) {
        Some((seq![line[i]], i + 1))
    } else {
        None
    }
}

/// Whether `return` stands at `i`, with at least one more character after it on the line.
pub open spec fn spec_is_return(line: Seq<char>, i: int) -> bool {
    i + 6 < line.len() && matches_at(line, i, "return"@) && can_follow(line, i + 6)
}

/// The UTF-8 encoding of a character.
pub open spec fn utf8(c: char) -> Seq<u8> {
    let n = c as int;
    if n < 0x80 {
        seq![n as u8]
    } else if n < 0x800 {
        seq![(0xC0 + n / 64) as u8, (0x80 + n % 64) as u8]
    } else if n < 0x10000 {
        seq![(0xE0 + n / 4096) as u8, (0x80 + (n / 64) % 64) as u8, (0x80 + n % 64) as u8]
    } else {
        seq![
            (0xF0 + n / 262144) as u8,
            (0x80 + (n / 4096) % 64) as u8,
            (0x80 + (n / 64) % 64) as u8,
            (0x80 + n % 64) as u8,
        ]
    }
}

/// The bytes of the UTF-8 encodings of the characters of `s`, in order.
pub open spec fn utf8_seq(s: Seq<char>) -> Seq<u8>
    decreases s.len(),
{
    if s.len() == 0 {
        Seq::empty()
    } else {
        utf8_seq(s.drop_last()) + utf8(s.last())
    }
}

/// The bytes of `b` joined into a 32-bit word, most significant first, keeping the last four.
pub open spec fn join_bytes(b: Seq<u8>) -> u32
    decreases b.len(),
{
    if b.len() == 0 {
        0
    } else {
        ((join_bytes(b.drop_last()) as nat % 0x100_0000) * 256 + b.last() as nat) as u32
    }
}

/// The value of a character literal with contents `s`: the bytes of its UTF-8 encoding joined
/// into a 32-bit word, read as signed.
pub open spec fn char_literal_value(s: Seq<char>) -> i32 {
    join_bytes(utf8_seq(s)) as i32
}

/// Why scanning stopped with an error.
pub enum ScanFail {
    /// A character that starts no token, at the given position.
    Untokenizable(int),
    /// A literal without its closing quote; the position is the end of the line.
    Unclosed(int),
    /// A number whose value does not fit in an `i32`, at the given position.
    TooLarge(int),
}

/// One step of the scan of a line from position `i`.
pub enum Step {
    /// Nothing more on this line.
    End,
    /// Go on from the given position, in or out of a block comment.
    Skip(int, bool),
    /// The given token, then go on from the given position.
    Tok(TokenView, int),
    /// The scan stops with an error.
    Fail(ScanFail),
}

/// The token that starts at position `j` (not blank, not in a comment) and where scanning
/// goes on after it, or the error that stops the scan there.
#[verifier::opaque]
pub open spec fn token_at(line: Seq<char>, j: int, file_num: usize, line_num: usize) -> Step {
    if spec_reserved(line, j) is Some {
        let (body, k) = spec_reserved(line, j).unwrap();
        Step::Tok(spec_token(Tokenkind::Reserved, body, file_num, line_num, k as usize), k)
    } else if spec_is_return(line, j) {
        Step::Tok(
            spec_token(Tokenkind::Return, Seq::empty(), file_num, line_num, (j + 6) as usize),
            j + 6,
        )
    } else if spec_is_digit(line[j]) {
        let k = digits_end(line, j);
        let v = digits_value(line.subrange(j, k));
        if v > i32::MAX {
            Step::Fail(ScanFail::TooLarge(j))
        } else {
            Step::Tok(spec_token(Tokenkind::Num, decimal(v), file_num, line_num, k as usize), k)
        }
    } else if ident_start(line[j]) {
        let k = ident_end(line, j);
        Step::Tok(
            spec_token(Tokenkind::Ident, line.subrange(j, k), file_num, line_num, k as usize),
            k,
        )
    } else if line[j] == '"' {
        let q = find_char(line, j + 1, '"');
        if q >= line.len() {
            Step::Fail(ScanFail::Unclosed(line.len() as int))
        } else {
            Step::Tok(
                spec_token(
                    Tokenkind::String,
                    line.subrange(j + 1, q),
                    file_num,
                    line_num,
                    (q + 1) as usize,
                ),
                q + 1,
            )
        }
    } else if line[j] == '\'' {
        let q = find_char(line, j + 1, '\'');
        if q >= line.len() {
            Step::Fail(ScanFail::Unclosed(line.len() as int))
        } else {
            Step::Tok(
                spec_token(
                    Tokenkind::Num,
                    signed_decimal(char_literal_value(line.subrange(j + 1, q)) as int),
                    file_num,
                    line_num,
                    (q + 1) as usize,
                ),
                q + 1,
            )
        }
    } else {
        Step::Fail(ScanFail::Untokenizable(j))
    }
}

/// What the tokenizer does at position `i` of line `line_num`, in a block comment or not.
pub open spec fn step(line: Seq<char>, i: int, cmt: bool, file_num: usize, line_num: usize) -> Step {
    let j = skip_spaces(line, i);
    if j >= line.len() {
        Step::End
    } else if cmt {
        if matches_at(line, j, "*/"@) {
            Step::Skip(j + 2, false)
        } else {
            Step::Skip(j + 1, true)
        }
    } else if matches_at(line, j, "/*"@) {
        Step::Skip(j + 2, true)
    } else if matches_at(line, j, "//"@) {
        Step::End
    } else {
        token_at(line, j, file_num, line_num)
    }
}

/// The result of scanning (part of) a source: the tokens so far, whether a block comment is
/// open, and the error that stopped the scan, if any.
pub struct Scan {
    pub toks: Seq<TokenView>,
    pub cmt: bool,
    pub fail: Option<ScanFail>,
}

/// Scans line `line` from position `i`, after the tokens `acc`.
pub open spec fn scan_line(
    line: Seq<char>,
    i: int,
    cmt: bool,
    file_num: usize,
    line_num: usize,
    acc: Seq<TokenView>,
) -> Scan
    decreases line.len() - i,
{
    if i < 0 || i >= line.len() {
        Scan { toks: acc, cmt, fail: None }
    } else {
        match step(line, i, cmt, file_num, line_num) {
            Step::End => Scan { toks: acc, cmt, fail: None },
            Step::Skip(k, c) => if i < k <= line.len() {
                scan_line(line, k, c, file_num, line_num, acc)
            } else {
                Scan { toks: acc, cmt, fail: None }
            },
            Step::Tok(t, k) => if i < k <= line.len() {
                scan_line(line, k, cmt, file_num, line_num, acc.push(t))
            } else {
                Scan { toks: acc, cmt, fail: None }
            },
            Step::Fail(f) => Scan { toks: acc, cmt, fail: Some(f) },
        }
    }
}

/// Scans the lines of `code` from line `l`, after the tokens `acc`.
pub open spec fn scan_lines(
    code: Seq<Seq<char>>,
    l: int,
    cmt: bool,
    file_num: usize,
    acc: Seq<TokenView>,
) -> (Scan, int)
    decreases code.len() - l,
{
    if l < 0 || l >= code.len() {
        (Scan { toks: acc, cmt, fail: None }, l)
    } else {
        let r = scan_line(code[l], 0, cmt, file_num, l as usize, acc);
        if r.fail is Some {
            (r, l)
        } else {
            scan_lines(code, l + 1, r.cmt, file_num, r.toks)
        }
    }
}

/// The lines of a source file: each is empty or ends with a newline.
pub open spec fn lines_wf(code: Seq<Seq<char>>) -> bool {
    forall|l: int| 0 <= l < code.len() ==> (#[trigger] code[l]).len() == 0 || code[l].last() == '\n'
}

/// The characters of the lines of a source file.
pub open spec fn lines_view(code: Seq<Vec<char>>) -> Seq<Seq<char>> {
    Seq::new(code.len(), |i: int| code[i]@)
}

/// The views of a sequence of tokens.
pub open spec fn token_views(v: Seq<Token>) -> Seq<TokenView> {
    Seq::new(v.len(), |i: int| v[i]@)
}

/// The message of an error that stopped the scan.
pub open spec fn fail_msg(f: ScanFail) -> Seq<char> {
    match f {
        ScanFail::Untokenizable(_) => "トークナイズできません"@,
        ScanFail::Unclosed(_) => "終わり引用符がありません。"@,
        ScanFail::TooLarge(_) => "数値が大きすぎます。"@,
    }
}

/// The position of an error that stopped the scan.
pub open spec fn fail_pos(f: ScanFail) -> int {
    match f {
        ScanFail::Untokenizable(p) => p,
        ScanFail::Unclosed(p) => p,
        ScanFail::TooLarge(p) => p,
    }
}


/* ---------------------------------------------------------------------------------------- */
/* The scanning functions.                                                                  */
/* ---------------------------------------------------------------------------------------- */

pub proof fn lemma_skip_spaces(line: Seq<char>, i: int)
    requires
        0 <= i <= line.len(),
    ensures
        i <= skip_spaces(line, i) <= line.len(),
        skip_spaces(line, i) < line.len() ==> !is_space(line[skip_spaces(line, i)]),
    decreases line.len() - i,
{
    if i < line.len() && is_space(line[i]) {
        lemma_skip_spaces(line, i + 1);
    }
}

pub proof fn lemma_ident_end(line: Seq<char>, i: int)
    requires
        0 <= i <= line.len(),
    ensures
        i <= ident_end(line, i) <= line.len(),
        forall|k: int| i <= k < ident_end(line, i) ==> ident_part(#[trigger] line[k]),
        ident_end(line, i) < line.len() ==> !ident_part(line[ident_end(line, i)]),
    decreases line.len() - i,
{
    if i < line.len() && ident_part(line[i]) {
        lemma_ident_end(line, i + 1);
    }
}

pub proof fn lemma_find_char(line: Seq<char>, i: int, q: char)
    requires
        0 <= i <= line.len(),
    ensures
        i <= find_char(line, i, q) <= line.len(),
        forall|k: int| i <= k < find_char(line, i, q) ==> #[trigger] line[k] != q,
        find_char(line, i, q) < line.len() ==> line[find_char(line, i, q)] == q,
    decreases line.len() - i,
{
    if i < line.len() && line[i] != q {
        lemma_find_char(line, i + 1, q);
    }
}

/// Whether `c` is blank.
fn is_space_char(c: char) -> (r: bool)
    ensures
        r == is_space(c),
{
    c == ' ' || c == '\t' || c == '\n'
}

/// Whether `c` is a one-character token.
fn is_uni_reserved(c: char) -> (r: bool)
    ensures
        r == uni_reserved(c),
{
    c == ';' || c == ',' || c == '(' || c == ')' || c == '{' || c == '}' || c == '[' || c == ']'
        || c == '+' || c == '-' || c == '*' || c == '/' || c == '%' || c == '&' || c == '|' || c
        == '^' || c == '!' || c == '~' || c == '=' || c == '<' || c == '>'
}

/// Skips blanks from `*index`; `Err` when the line ends first.
fn skipspace(string: &Vec<char>, index: &mut usize, len: usize) -> (r: Result<(), ()>)
    requires
        len == string@.len(),
        *old(index) <= len,
    ensures
        *final(index) == skip_spaces(string@, *old(index) as int),
        r is Ok <==> *final(index) < len,
{
    if *index >= len {
        return Err(());
    }
    while is_space_char(string[*index])
        invariant
            len == string@.len(),
            *index < len,
            skip_spaces(string@, *old(index) as int) == skip_spaces(string@, *index as int),
        decreases len - *index,
    {
        let ghost prev = *index as int;
        *index = *index + 1;
        proof {
            assert(skip_spaces(string@, prev) == skip_spaces(string@, prev + 1));
        }
        if *index >= len {
            return Err(());
        }
    }
    Ok(())
}

/// Reads `word` at `*index` and moves past it, if it stands there.
fn read(string: &Vec<char>, word: &str, index: &mut usize, len: usize) -> (r: bool)
    requires
        len == string@.len(),
        *old(index) <= len,
    ensures
        r == matches_at(string@, *old(index) as int, word@),
        r ==> *final(index) == *old(index) + word@.len(),
        !r ==> *final(index) == *old(index),
{
    let mut look = *index;
    let n = word.unicode_len();
    let mut k: usize = 0;
    while k < n
        invariant
            len == string@.len(),
            n == word@.len(),
            k <= n,
            look == *index + k,
            *index + k <= len,
            forall|m: int| 0 <= m < k ==> string@[*index + m] == word@[m],
        decreases n - k,
    {
        let c = word.get_char(k);
        if look >= len || c != string[look] {
            proof {
                if matches_at(string@, *index as int, word@) {
                    assert(string@.subrange(*index as int, *index + n)[k as int] == word@[k as int]);
                }
            }
            return false;
        }
        look = look + 1;
        k = k + 1;
    }
    proof {
        assert(string@.subrange(*index as int, *index + n) =~= word@);
    }
    *index = look;
    true
}

/// Whether `c` may be part of an identifier.
fn canbe_ident_part(c: &char) -> (r: bool)
    ensures
        r == ident_part(*c),
{
    ('a' <= *c && *c <= 'z') || ('A' <= *c && *c <= 'Z') || ('0' <= *c && *c <= '9') || *c == '_'
}

/// Whether a keyword may end just before `index`.
fn can_follow_reserved(string: &Vec<char>, index: usize) -> (r: bool)
    ensures
        r == can_follow(string@, index as int),
{
    if index < string.len() {
        let c = string[index];
        is_uni_reserved(c) || is_space_char(c)
    } else {
        true
    }
}

/// Whether `w` stands at `i`.
fn matches_str(string: &Vec<char>, i: usize, w: &str) -> (r: bool)
    ensures
        r == matches_at(string@, i as int, w@),
{
    let n = w.unicode_len();
    let slen = string.len();
    if i > slen || n > slen - i {
        return false;
    }
    let mut k: usize = 0;
    while k < n
        invariant
            n == w@.len(),
            slen == string@.len(),
            i + n <= slen,
            k <= n,
            forall|m: int| 0 <= m < k ==> string@[i + m] == w@[m],
        decreases n - k,
    {
        if string[i + k] != w.get_char(k) {
            proof {
                if matches_at(string@, i as int, w@) {
                    assert(string@.subrange(i as int, i + n)[k as int] == w@[k as int]);
                }
            }
            return false;
        }
        k = k + 1;
    }
    proof {
        assert(string@.subrange(i as int, i + n) =~= w@);
    }
    true
}

/// Whether keyword `w` stands at `i` and may end there.
fn keyword_str(string: &Vec<char>, i: usize, w: &str) -> (r: bool)
    ensures
        r == keyword_at(string@, i as int, w@),
{
    let slen = string.len();
    if matches_str(string, i, w) {
        let n = w.unicode_len();
        can_follow_reserved(string, i + n)
    } else {
        false
    }
}

/// Whether a two-character operator stands at `i`.
fn is_bi_op(string: &Vec<char>, i: usize) -> (r: bool)
    ensures
        r == bi_op_at(string@, i as int),
{
    matches_str(string, i, "==") || matches_str(string, i, "!=") || matches_str(string, i, "<=")
        || matches_str(string, i, ">=") || matches_str(string, i, "&&") || matches_str(
        string,
        i,
        "||",
    ) || matches_str(string, i, "<<") || matches_str(string, i, ">>") || matches_str(
        string,
        i,
        "++",
    ) || matches_str(string, i, "--") || matches_str(string, i, "+=") || matches_str(
        string,
        i,
        "-=",
    ) || matches_str(string, i, "*=") || matches_str(string, i, "/=") || matches_str(
        string,
        i,
        "%=",
    ) || matches_str(string, i, "&=") || matches_str(string, i, "^=") || matches_str(
        string,
        i,
        "|=",
    )
}

/// The characters of `string` from `from` to `to`.
fn slice_chars(string: &Vec<char>, from: usize, to: usize) -> (r: Vec<char>)
    requires
        from <= to <= string@.len(),
    ensures
        r@ == string@.subrange(from as int, to as int),
{
    let mut v: Vec<char> = Vec::new();
    let mut k = from;
    while k < to
        invariant
            from <= k <= to <= string@.len(),
            v@ == string@.subrange(from as int, k as int),
        decreases to - k,
    {
        v.push(string[k]);
        proof {
            assert(string@.subrange(from as int, k + 1) =~= string@.subrange(from as int, k as int).push(
                string@[k as int],
            ));
        }
        k = k + 1;
    }
    v
}

/// The reserved token at `*index`, if any, moving past it.
fn is_reserved(string: &Vec<char>, index: &mut usize, len: usize) -> (r: Option<Vec<char>>)
    requires
        len == string@.len(),
        *old(index) <= len,
    ensures
        spec_reserved(string@, *old(index) as int) is None ==> r is None && *final(index) == *old(
            index,
        ),
        spec_reserved(string@, *old(index) as int) is Some ==> r is Some && r.unwrap()@ == spec_reserved(
            string@,
            *old(index) as int,
        ).unwrap().0 && *final(index) == spec_reserved(string@, *old(index) as int).unwrap().1,
{
    let i = *index;
    proof {
        reveal_strlit("sizeof");
        reveal_strlit("while");
        reveal_strlit("else");
        reveal_strlit("char");
        reveal_strlit("<<=");
        reveal_strlit(">>=");
        reveal_strlit("for");
        reveal_strlit("int");
        reveal_strlit("if");
    }
    if i >= len {
        proof {
            reveal_strlit("==");
            reveal_strlit("!=");
            reveal_strlit("<=");
            reveal_strlit(">=");
            reveal_strlit("&&");
            reveal_strlit("||");
            reveal_strlit("<<");
            reveal_strlit(">>");
            reveal_strlit("++");
            reveal_strlit("--");
            reveal_strlit("+=");
            reveal_strlit("-=");
            reveal_strlit("*=");
            reveal_strlit("/=");
            reveal_strlit("%=");
            reveal_strlit("&=");
            reveal_strlit("^=");
            reveal_strlit("|=");
            assert(!bi_op_at(string@, i as int));
        }
        return None;
    }
    if keyword_str(string, i, "sizeof") {
        *index = i + 6;
        return Some(chars_of("sizeof"));
    }
    if keyword_str(string, i, "while") {
        *index = i + 5;
        return Some(chars_of("while"));
    }
    if keyword_str(string, i, "else") {
        *index = i + 4;
        return Some(chars_of("else"));
    }
    if keyword_str(string, i, "char") {
        *index = i + 4;
        return Some(chars_of("char"));
    }
    if matches_str(string, i, "<<=") || matches_str(string, i, ">>=") || keyword_str(string, i, "for")
        || keyword_str(string, i, "int") {
        *index = i + 3;
        return Some(slice_chars(string, i, i + 3));
    }
    if is_bi_op(string, i) || keyword_str(string, i, "if") {
        proof {
            reveal_strlit("==");
            reveal_strlit("!=");
            reveal_strlit("<=");
            reveal_strlit(">=");
            reveal_strlit("&&");
            reveal_strlit("||");
            reveal_strlit("<<");
            reveal_strlit(">>");
            reveal_strlit("++");
            reveal_strlit("--");
            reveal_strlit("+=");
            reveal_strlit("-=");
            reveal_strlit("*=");
            reveal_strlit("/=");
            reveal_strlit("%=");
            reveal_strlit("&=");
            reveal_strlit("^=");
            reveal_strlit("|=");
        }
        *index = i + 2;
        return Some(slice_chars(string, i, i + 2));
    }
    let c = string[i];
    if is_uni_reserved(c) {
        *index = i + 1;
        let mut v: Vec<char> = Vec::new();
        v.push(c);
        proof {
            assert(v@ =~= seq![c]);
        }
        return Some(v);
    }
    None
}

/// Whether `return` stands at `*index` (with a character after it), moving past it.
fn is_return(string: &Vec<char>, index: &mut usize, len: usize) -> (r: bool)
    requires
        len == string@.len(),
        *old(index) < len,
    ensures
        r == spec_is_return(string@, *old(index) as int),
        r ==> *final(index) == *old(index) + 6,
        !r ==> *final(index) == *old(index),
{
    proof {
        reveal_strlit("return");
    }
    if len < 6 || *index >= len - 6 {
        return false;
    }
    let lim = *index + 6;
    if matches_str(string, *index, "return") && can_follow_reserved(string, lim) {
        *index = lim;
        true
    } else {
        false
    }
}

/// Reads the identifier at `*index`, moving past it.
fn read_lvar(string: &Vec<char>, index: &mut usize) -> (r: Vec<char>)
    requires
        *old(index) <= string@.len(),
        ident_end(string@, *old(index) as int) < string@.len(),
    ensures
        *final(index) == ident_end(string@, *old(index) as int),
        r@ == string@.subrange(*old(index) as int, *final(index) as int),
{
    let ghost start = *index as int;
    proof {
        lemma_ident_end(string@, start);
    }
    let slen = string.len();
    let mut name: Vec<char> = Vec::new();
    while canbe_ident_part(&string[*index])
        invariant
            slen == string@.len(),
            start <= *index <= ident_end(string@, start),
            ident_end(string@, start) < string@.len(),
            forall|k: int| start <= k < ident_end(string@, start) ==> ident_part(#[trigger] string@[k]),
            !ident_part(string@[ident_end(string@, start)]),
            name@ == string@.subrange(start, *index as int),
        decreases string@.len() - *index,
    {
        name.push(string[*index]);
        proof {
            assert(string@.subrange(start, *index + 1) =~= string@.subrange(start, *index as int).push(
                string@[*index as int],
            ));
        }
        *index = *index + 1;
    }
    name
}

/// Reads the characters from `*index` up to the next `q`, moving past that `q`; `Err` when
/// the line ends first.
fn read_until(string: &Vec<char>, index: &mut usize, len: usize, q: char) -> (r: Result<Vec<char>, ()>)
    requires
        len == string@.len(),
        *old(index) < len,
    ensures
        find_char(string@, *old(index) as int, q) < len ==> r is Ok && r.unwrap()@ == string@.subrange(
            *old(index) as int,
            find_char(string@, *old(index) as int, q),
        ) && *final(index) == find_char(string@, *old(index) as int, q) + 1,
        find_char(string@, *old(index) as int, q) >= len ==> r is Err && *final(index) == len,
{
    let ghost start = *index as int;
    proof {
        lemma_find_char(string@, start, q);
    }
    let mut literal: Vec<char> = Vec::new();
    while string[*index] != q
        invariant
            len == string@.len(),
            start == *old(index) as int,
            start <= *index < len,
            *index <= find_char(string@, start, q),
            find_char(string@, start, q) == find_char(string@, *index as int, q),
            literal@ == string@.subrange(start, *index as int),
        decreases len - *index,
    {
        literal.push(string[*index]);
        proof {
            assert(string@.subrange(start, *index + 1) =~= string@.subrange(start, *index as int).push(
                string@[*index as int],
            ));
            lemma_find_char(string@, *index + 1, q);
        }
        let ghost prev = *index as int;
        *index = *index + 1;
        proof {
            assert(find_char(string@, prev, q) == find_char(string@, prev + 1, q));
        }
        if *index >= len {
            proof {
                assert(find_char(string@, len as int, q) == len);
                assert(find_char(string@, start, q) == len);
            }
            return Err(());
        }
    }
    *index = *index + 1;
    Ok(literal)
}

/// Reads a string literal at `*index`, moving past it: `Ok(None)` when none starts there,
/// `Err` when it is not closed on this line.
fn read_str_literal(string: &Vec<char>, index: &mut usize, len: usize) -> (r: Result<
    Option<Vec<char>>,
    &'static str,
>)
    requires
        len == string@.len(),
        *old(index) < len,
        string@[*old(index) as int] == '"' ==> *old(index) + 1 < len,
    ensures
        string@[*old(index) as int] != '"' ==> r == Ok::<Option<Vec<char>>, &'static str>(None)
            && *final(index) == *old(index),
        string@[*old(index) as int] == '"' && find_char(string@, *old(index) + 1, '"') < len ==> r
            is Ok && r.unwrap() is Some && r.unwrap().unwrap()@ == string@.subrange(
            *old(index) + 1,
            find_char(string@, *old(index) + 1, '"'),
        ) && *final(index) == find_char(string@, *old(index) + 1, '"') + 1,
        string@[*old(index) as int] == '"' && find_char(string@, *old(index) + 1, '"') >= len ==> r
            is Err && r->Err_0@ == "終わり引用符がありません。"@ && *final(index) == len,
{
    if string[*index] != '"' {
        return Ok(None);
    }
    *index = *index + 1;
    match read_until(string, index, len, '"') {
        Ok(v) => Ok(Some(v)),
        Err(()) => Err("終わり引用符がありません。"),
    }
}

/// The UTF-8 encoding of `c`.
pub fn utf8_bytes(c: char) -> (r: Vec<u8>)
    ensures
        r@ == utf8(c),
{
    encode_utf8(c)
}

/// The UTF-8 encoding of `c`.
fn encode_utf8(c: char) -> (r: Vec<u8>)
    ensures
        r@ == utf8(c),
{
    let n = c as u32;
    let mut v: Vec<u8> = Vec::new();
    if n < 0x80 {
        v.push(n as u8);
    } else if n < 0x800 {
        v.push((0xC0 + n / 64) as u8);
        v.push((0x80 + n % 64) as u8);
    } else if n < 0x10000 {
        v.push((0xE0 + n / 4096) as u8);
        v.push((0x80 + (n / 64) % 64) as u8);
        v.push((0x80 + n % 64) as u8);
    } else {
        v.push((0xF0 + n / 262144) as u8);
        v.push((0x80 + (n / 4096) % 64) as u8);
        v.push((0x80 + (n / 64) % 64) as u8);
        v.push((0x80 + n % 64) as u8);
    }
    proof {
        assert(v@ =~= utf8(c));
    }
    v
}

/// The number of bytes in the UTF-8 encoding of `c`.
pub fn utf8_width(c: char) -> (k: usize)
    ensures
        k == utf8(c).len(),
{
    let n = c as u32;
    if n < 0x80 {
        1
    } else if n < 0x800 {
        2
    } else if n < 0x10000 {
        3
    } else {
        4
    }
}

/// The value of a character literal with contents `s`.
fn char_value(s: &Vec<char>) -> (r: i32)
    ensures
        r == char_literal_value(s@),
{
    let mut w: u32 = 0;
    let mut i: usize = 0;
    let ghost mut bytes: Seq<u8> = Seq::empty();
    proof {
        assert(s@.subrange(0, 0) =~= Seq::<char>::empty());
    }
    while i < s.len()
        invariant
            i <= s@.len(),
            bytes == utf8_seq(s@.subrange(0, i as int)),
            w == join_bytes(bytes),
        decreases s.len() - i,
    {
        let b = encode_utf8(s[i]);
        let mut k: usize = 0;
        let ghost before = bytes;
        while k < b.len()
            invariant
                k <= b@.len(),
                bytes == before + b@.subrange(0, k as int),
                w == join_bytes(bytes),
            decreases b.len() - k,
        {
            proof {
                let nb = bytes.push(b@[k as int]);
                assert(nb.drop_last() =~= bytes);
                assert(before + b@.subrange(0, k + 1) =~= nb);
                bytes = nb;
            }
            w = (w % 0x100_0000) * 256 + b[k] as u32;
            k = k + 1;
        }
        proof {
            assert(b@.subrange(0, b@.len() as int) =~= b@);
            let t = s@.subrange(0, i + 1);
            assert(t.drop_last() =~= s@.subrange(0, i as int));
            assert(t.last() == s@[i as int]);
        }
        i = i + 1;
    }
    proof {
        assert(s@.subrange(0, s@.len() as int) =~= s@);
    }
    w as i32
}

/// Reads a character literal at `*index`, moving past it: `Ok(None)` when none starts there,
/// `Err` when it is not closed on this line.
fn read_char_literal(string: &Vec<char>, index: &mut usize, len: usize) -> (r: Result<
    Option<i32>,
    &'static str,
>)
    requires
        len == string@.len(),
        *old(index) < len,
        string@[*old(index) as int] == '\'' ==> *old(index) + 1 < len,
    ensures
        string@[*old(index) as int] != '\'' ==> r == Ok::<Option<i32>, &'static str>(None)
            && *final(index) == *old(index),
        string@[*old(index) as int] == '\'' && find_char(string@, *old(index) + 1, '\'') < len ==> r
            == Ok::<Option<i32>, &'static str>(
            Some(
                char_literal_value(
                    string@.subrange(*old(index) + 1, find_char(string@, *old(index) + 1, '\'')),
                ),
            ),
        ) && *final(index) == find_char(string@, *old(index) + 1, '\'') + 1,
        string@[*old(index) as int] == '\'' && find_char(string@, *old(index) + 1, '\'') >= len ==> r
            is Err && r->Err_0@ == "終わり引用符がありません。"@ && *final(index) == len,
{
    if string[*index] != '\'' {
        return Ok(None);
    }
    *index = *index + 1;
    match read_until(string, index, len, '\'') {
        Ok(v) => Ok(Some(char_value(&v))),
        Err(()) => Err("終わり引用符がありません。"),
    }
}


/// Whether the run of digits at `i` has a value that fits in an `i32`.
fn number_fits(string: &Vec<char>, i: usize, len: usize) -> (r: bool)
    requires
        len == string@.len(),
        i <= len,
    ensures
        r == (digits_value(string@.subrange(i as int, digits_end(string@, i as int))) <= i32::MAX),
{
    let ghost end = digits_end(string@, i as int);
    proof {
        lemma_digits_end_bounds(string@, i as int);
        assert(string@.subrange(i as int, i as int) =~= Seq::<char>::empty());
    }
    let mut k = i;
    let mut val: u64 = 0;
    while k < len && is_digit(&string[k])
        invariant
            len == string@.len(),
            i <= k <= end <= len,
            end == digits_end(string@, i as int),
            forall|m: int| i <= m < end ==> spec_is_digit(#[trigger] string@[m]),
            end < len ==> !spec_is_digit(string@[end]),
            val == digits_value(string@.subrange(i as int, k as int)),
            val <= i32::MAX,
        decreases len - k,
    {
        proof {
            assert(string@.subrange(i as int, k + 1).drop_last() =~= string@.subrange(i as int, k as int));
        }
        val = val * 10 + (string[k] as u64 - '0' as u64);
        k = k + 1;
        if val > 0x7fff_ffff {
            proof {
                let run = string@.subrange(i as int, end);
                assert(forall|m: int| 0 <= m < run.len() ==> spec_is_digit(#[trigger] run[m]));
                crate::utils::lemma_digits_value_prefix_le(run, (k - i) as nat);
                assert(run.subrange(0, k - i) =~= string@.subrange(i as int, k as int));
            }
            return false;
        }
    }
    true
}

/// Reads the token at `*index` (not blank, not in a comment), moving past it.
fn scan_token(string: &Vec<char>, index: &mut usize, len: usize, file_num: usize, line_num: usize) -> (r: Result<Token, CompileError>)
    requires
        len == string@.len(),
        *old(index) < len,
        string@.last() == '\n',
    ensures
        match token_at(string@, *old(index) as int, file_num, line_num) {
            Step::Tok(t, k) => r is Ok && r->Ok_0@ == t && *final(index) == k && *old(index) < k <= len,
            Step::Fail(f) => r is Err && r->Err_0.msg@ == fail_msg(f) && r->Err_0.has_pos
                && r->Err_0.file_num == file_num && r->Err_0.line_num == line_num
                && r->Err_0.line_offset == fail_pos(f) && r->Err_0.token_len == 0,
            _ => false,
        },
{
    let ghost line = string@;
    let ghost j = *index as int;
    proof {
        reveal(token_at);
        reveal_strlit("sizeof");
        reveal_strlit("while");
        reveal_strlit("else");
        reveal_strlit("char");
        reveal_strlit("return");
        reveal_strlit("<<=");
        reveal_strlit(">>=");
        reveal_strlit("for");
        reveal_strlit("int");
        reveal_strlit("if");
        reveal_strlit("==");
        reveal_strlit("!=");
        reveal_strlit("<=");
        reveal_strlit(">=");
        reveal_strlit("&&");
        reveal_strlit("||");
        reveal_strlit("<<");
        reveal_strlit(">>");
        reveal_strlit("++");
        reveal_strlit("--");
        reveal_strlit("+=");
        reveal_strlit("-=");
        reveal_strlit("*=");
        reveal_strlit("/=");
        reveal_strlit("%=");
        reveal_strlit("&=");
        reveal_strlit("^=");
        reveal_strlit("|=");
    }
    if let Some(body) = is_reserved(string, index, len) {
        proof {
            let w = spec_reserved(line, j).unwrap();
            assert(w.1 > j);
            assert(w.1 <= len);
        }
        return Ok(Token::new(Tokenkind::Reserved, body, file_num, line_num, *index));
    }
    if is_return(string, index, len) {
        return Ok(Token::new(Tokenkind::Return, Vec::new(), file_num, line_num, *index));
    }
    let c = string[*index];
    if is_digit(&c) {
        proof {
            lemma_digits_end_bounds(line, j);
        }
        if !number_fits(string, *index, len) {
            return Err(error_at("数値が大きすぎます。", file_num, line_num, *index));
        }
        let num = strtol(string, index);
        let body = u64_chars(num as u64);
        proof {
            lemma_decimal_digits(num as nat);
        }
        return Ok(Token::new(Tokenkind::Num, body, file_num, line_num, *index));
    }
    if ('a' <= c && c <= 'z') || ('A' <= c && c <= 'Z') || c == '_' {
        proof {
            lemma_ident_end(line, j);
            if ident_end(line, j) >= len {
                assert(ident_part(line[len - 1]));
            }
        }
        let name = read_lvar(string, index);
        return Ok(Token::new(Tokenkind::Ident, name, file_num, line_num, *index));
    }
    proof {
        if line[j] == '"' || line[j] == '\'' {
            lemma_find_char(line, j + 1, line[j]);
        }
    }
    match read_str_literal(string, index, len) {
        Ok(Some(body)) => {
            return Ok(Token::new(Tokenkind::String, body, file_num, line_num, *index));
        },
        Ok(None) => {},
        Err(msg) => {
            return Err(error_at(msg, file_num, line_num, *index));
        },
    }
    match read_char_literal(string, index, len) {
        Ok(Some(val)) => {
            let mut body: Vec<char> = Vec::new();
            push_i64(&mut body, val as i64);
            proof {
                lemma_signed_decimal_number_text(val);
            }
            return Ok(Token::new(Tokenkind::Num, body, file_num, line_num, *index));
        },
        Ok(None) => {},
        Err(msg) => {
            return Err(error_at(msg, file_num, line_num, *index));
        },
    }
    Err(error_at("トークナイズできません", file_num, line_num, *index))
}

/// Every token of the sequence is one the tokenizer makes.
pub open spec fn all_ok(s: Seq<TokenView>) -> bool {
    forall|i: int| 0 <= i < s.len() ==> tok_ok(#[trigger] s[i])
}

pub proof fn lemma_step_ok(line: Seq<char>, i: int, cmt: bool, file_num: usize, line_num: usize)
    ensures
        step(line, i, cmt, file_num, line_num) matches Step::Tok(t, _) ==> tok_ok(t),
{
    reveal(token_at);
}

pub proof fn lemma_scan_line_ok(
    line: Seq<char>,
    i: int,
    cmt: bool,
    file_num: usize,
    line_num: usize,
    acc: Seq<TokenView>,
)
    requires
        all_ok(acc),
    ensures
        all_ok(scan_line(line, i, cmt, file_num, line_num, acc).toks),
    decreases line.len() - i,
{
    if 0 <= i < line.len() {
        lemma_step_ok(line, i, cmt, file_num, line_num);
        match step(line, i, cmt, file_num, line_num) {
            Step::Skip(k, c) => {
                if i < k <= line.len() {
                    lemma_scan_line_ok(line, k, c, file_num, line_num, acc);
                }
            },
            Step::Tok(t, k) => {
                if i < k <= line.len() {
                    assert(all_ok(acc.push(t)));
                    lemma_scan_line_ok(line, k, cmt, file_num, line_num, acc.push(t));
                }
            },
            _ => {},
        }
    }
}

pub proof fn lemma_scan_lines_ok(
    code: Seq<Seq<char>>,
    l: int,
    cmt: bool,
    file_num: usize,
    acc: Seq<TokenView>,
)
    requires
        all_ok(acc),
    ensures
        all_ok(scan_lines(code, l, cmt, file_num, acc).0.toks),
    decreases code.len() - l,
{
    if 0 <= l < code.len() {
        lemma_scan_line_ok(code[l], 0, cmt, file_num, l as usize, acc);
        let r = scan_line(code[l], 0, cmt, file_num, l as usize, acc);
        if r.fail is None {
            lemma_scan_lines_ok(code, l + 1, r.cmt, file_num, r.toks);
        }
    }
}

/// The end-of-input token.
pub open spec fn eof_token() -> TokenView {
    spec_token(Tokenkind::Eof, Seq::empty(), 0, 0, 0)
}

/// Splits the lines of source file `file_num` into tokens, ending with the end-of-input token.
/// An error reports the first place where no token can be read, where a literal is not closed
/// on its line, or where a number does not fit in an `i32`.
pub fn tokenize(code: &Vec<Vec<char>>, file_num: usize) -> (r: Result<TokenStream, CompileError>)
    requires
        lines_wf(lines_view(code@)),
    ensures
        ({
            let (sc, l) = scan_lines(lines_view(code@), 0, false, file_num, Seq::empty());
            &&& sc.fail is None ==> r is Ok && token_views(r->Ok_0.tokens@) == sc.toks.push(eof_token())
                && r->Ok_0.pos == 0 && tokens_wf(r->Ok_0)
            &&& sc.fail is Some ==> r is Err && r->Err_0.msg@ == fail_msg(sc.fail.unwrap())
                && r->Err_0.has_pos && r->Err_0.file_num == file_num && r->Err_0.line_num == l
                && r->Err_0.line_offset == fail_pos(sc.fail.unwrap()) && r->Err_0.token_len == 0
        }),
{
    let ghost lines = lines_view(code@);
    let mut toks: Vec<Token> = Vec::new();
    let mut is_block_comment = false;
    let mut line_num: usize = 0;
    proof {
        assert(token_views(toks@) =~= Seq::<TokenView>::empty());
    }
    while line_num < code.len()
        invariant
            lines == lines_view(code@),
            lines_wf(lines),
            line_num <= code@.len(),
            scan_lines(lines, 0, false, file_num, Seq::empty()) == scan_lines(
                lines,
                line_num as int,
                is_block_comment,
                file_num,
                token_views(toks@),
            ),
        decreases code.len() - line_num,
    {
        let string = &code[line_num];
        let len = string.len();
        let ghost line = string@;
        let ghost cmt0 = is_block_comment;
        let ghost acc0 = token_views(toks@);
        let mut lookat: usize = 0;
        assert(line == lines[line_num as int]);
        while lookat < len
            invariant_except_break
                scan_line(line, 0, cmt0, file_num, line_num, acc0) == scan_line(
                    line,
                    lookat as int,
                    is_block_comment,
                    file_num,
                    line_num,
                    token_views(toks@),
                ),
            invariant
                lines == lines_view(code@),
                lines_wf(lines),
                line_num < code@.len(),
                line == lines[line_num as int],
                line == string@,
                len == line.len(),
                lookat <= len,
                scan_lines(lines, 0, false, file_num, Seq::empty()) == scan_lines(
                    lines,
                    line_num as int,
                    cmt0,
                    file_num,
                    acc0,
                ),
            ensures
                scan_line(line, 0, cmt0, file_num, line_num, acc0) == (Scan {
                    toks: token_views(toks@),
                    cmt: is_block_comment,
                    fail: None,
                }),
            decreases len - lookat,
        {
            let ghost i0 = lookat as int;
            let ghost cmt = is_block_comment;
            let ghost before = token_views(toks@);
            proof {
                lemma_skip_spaces(line, i0);
                reveal_strlit("*/");
                reveal_strlit("/*");
                reveal_strlit("//");
            }
            match skipspace(string, &mut lookat, len) {
                Ok(()) => {},
                Err(()) => {
                    break;
                },
            }
            let ghost j = lookat as int;
            if is_block_comment {
                if read(string, "*/", &mut lookat, len) {
                    is_block_comment = false;
                } else {
                    lookat = lookat + 1;
                }
                continue;
            }
            if read(string, "/*", &mut lookat, len) {
                is_block_comment = true;
                continue;
            }
            if read(string, "//", &mut lookat, len) {
                break;
            }
            proof {
                assert(line.last() == '\n');
                assert(step(line, i0, cmt, file_num, line_num) == token_at(line, j, file_num, line_num));
            }
            match scan_token(string, &mut lookat, len, file_num, line_num) {
                Ok(t) => {
                    proof {
                        assert(step(line, i0, cmt, file_num, line_num) == Step::Tok(t@, lookat as int));
                    }
                    toks.push(t);
                    proof {
                        assert(token_views(toks@) =~= before.push(t@));
                    }
                },
                Err(e) => {
                    return Err(e);
                },
            }
        }
        line_num = line_num + 1;
    }
    let eof = Token::new(Tokenkind::Eof, Vec::new(), 0, 0, 0);
    let ghost before = token_views(toks@);
    toks.push(eof);
    proof {
        assert(token_views(toks@) =~= before.push(eof_token()));
        lemma_scan_lines_ok(lines, 0, false, file_num, Seq::empty());
        let sc = scan_lines(lines, 0, false, file_num, Seq::empty()).0;
        assert(sc.toks == before);
        assert forall|i: int| 0 <= i < toks@.len() - 1 implies tok_ok(#[trigger] toks@[i]@) by {
            assert(toks@[i]@ == token_views(toks@)[i]);
            assert(before[i] == token_views(toks@)[i]);
        }
        assert forall|i: int| 0 <= i < toks@.len() - 1 implies (#[trigger] toks@[i]).kind != Tokenkind::Eof by {
            assert(toks@[i]@ == token_views(toks@)[i]);
            assert(before[i] == token_views(toks@)[i]);
        }
        assert(toks@.last()@ == token_views(toks@).last());
        reveal_strlit("token of Eof");
    }
    Ok(TokenStream { tokens: toks, pos: 0 })
}


/* ---------------------------------------------------------------------------------------- */
/* Reading tokens: `is` tests the current token, `consume` also moves past it when it       */
/* matches, `expect` moves past it or reports an error.                                     */
/* ---------------------------------------------------------------------------------------- */

/// A token that the tokenizer makes (anything but the head and end-of-input tokens): it has
/// a text, and a value when it is a number.
pub open spec fn tok_ok(t: TokenView) -> bool {
    &&& t.kind != Tokenkind::Eof
    &&& t.kind != Tokenkind::Head
    &&& t.kind != Tokenkind::Default
    &&& t.body is Some
    &&& t.kind == Tokenkind::Num ==> t.val is Some
}

/// A stream as the tokenizer makes it: well-formed, and every token but the last is one the
/// tokenizer makes.
pub open spec fn tokens_wf(ts: TokenStream) -> bool {
    &&& stream_wf(ts)
    &&& forall|i: int| 0 <= i < ts.tokens@.len() - 1 ==> tok_ok(#[trigger] ts.tokens@[i]@)
    &&& ts.tokens@.last()@.body is Some
}

/// Whether the current token is the reserved token `op`.
pub open spec fn spec_is(ts: TokenStream, op: Seq<char>) -> bool {
    cur(ts).kind == Tokenkind::Reserved && cur(ts)@.body == Some(op)
}

/// The same stream, read from `pos`.
pub open spec fn moved(a: TokenStream, b: TokenStream, pos: int) -> bool {
    a.tokens == b.tokens && b.pos == pos
}

/// The text of the current token.
pub open spec fn cur_body(ts: TokenStream) -> Seq<char> {
    cur(ts)@.body.unwrap()
}

/// The text of the current token (tokens that the tokenizer makes all have one).
fn cur_text(token_ptr: &TokenStream) -> (r: Vec<char>)
    requires
        tokens_wf(*token_ptr),
    ensures
        r@ == cur_body(*token_ptr),
{
    let t = &token_ptr.tokens[token_ptr.pos];
    match &t.body {
        Some(b) => copy_chars(b),
        None => Vec::new(),
    }
}

/// The error `pre` + `mid` + `post` at the current token.
fn error_here(token_ptr: &TokenStream, pre: &str, mid: &Vec<char>, post: &str) -> (e: CompileError)
    requires
        stream_wf(*token_ptr),
    ensures
        e.msg@ == pre@ + mid@ + post@,
        e.has_pos,
        e.file_num == cur(*token_ptr).file_num,
        e.line_num == cur(*token_ptr).line_num,
        e.line_offset == cur(*token_ptr).line_offset,
        e.token_len == cur(*token_ptr).len,
{
    let t = &token_ptr.tokens[token_ptr.pos];
    let mut e = error_tok(pre, t);
    crate::utils::push_chars(&mut e.msg, mid);
    crate::utils::push_str(&mut e.msg, post);
    e
}

/// Moves past the current token, which is not the end of input.
fn advance(token_ptr: &mut TokenStream)
    requires
        tokens_wf(*old(token_ptr)),
        cur(*old(token_ptr)).kind != Tokenkind::Eof,
    ensures
        moved(*old(token_ptr), *final(token_ptr), old(token_ptr).pos + 1),
        tokens_wf(*final(token_ptr)),
{
    let r = token_ptr_exceed(token_ptr);
    proof {
        assert(r is Ok);
    }
}

/// The current token of a stream as the tokenizer makes it is one the tokenizer makes,
/// unless it is the end of input.
pub proof fn lemma_cur_ok(ts: TokenStream)
    requires
        tokens_wf(ts),
    ensures
        cur(ts)@.body is Some,
        cur(ts).kind != Tokenkind::Eof ==> tok_ok(cur(ts)@) && ts.pos + 1 < ts.tokens@.len(),
        cur(ts).kind == Tokenkind::Eof ==> ts.pos == ts.tokens@.len() - 1,
{
    if ts.pos < ts.tokens@.len() - 1 {
        assert(tok_ok(ts.tokens@[ts.pos as int]@));
    }
}

/// Whether the current token is the reserved token `op`.
pub fn is(token_ptr: &TokenStream, op: &str) -> (r: bool)
    requires
        tokens_wf(*token_ptr),
    ensures
        r == spec_is(*token_ptr, op@),
{
    let t = &token_ptr.tokens[token_ptr.pos];
    if t.kind != Tokenkind::Reserved {
        return false;
    }
    match &t.body {
        Some(b) => str_eq(b, op),
        None => false,
    }
}

/// Moves past the current token if it is the reserved token `op`.
pub fn consume(token_ptr: &mut TokenStream, op: &str) -> (r: bool)
    requires
        tokens_wf(*old(token_ptr)),
    ensures
        r == spec_is(*old(token_ptr), op@),
        moved(*old(token_ptr), *final(token_ptr), old(token_ptr).pos + if r { 1int } else { 0int }),
        tokens_wf(*final(token_ptr)),
{
    if is(token_ptr, op) {
        advance(token_ptr);
        true
    } else {
        false
    }
}

/// Moves past the current token, which must be the reserved token `op`.
pub fn expect(token_ptr: &mut TokenStream, op: &str) -> (r: Result<(), CompileError>)
    requires
        tokens_wf(*old(token_ptr)),
    ensures
        r is Ok == spec_is(*old(token_ptr), op@),
        r is Ok ==> moved(*old(token_ptr), *final(token_ptr), old(token_ptr).pos + 1),
        r is Err ==> *final(token_ptr) == *old(token_ptr) && r->Err_0.line_num == cur(
            *old(token_ptr),
        ).line_num && r->Err_0.line_offset == cur(*old(token_ptr)).line_offset,
        tokens_wf(*final(token_ptr)),
{
    if !consume(token_ptr, op) {
        let body = cur_text(token_ptr);
        let mut mid = crate::utils::chars_of(op);
        crate::utils::push_str(&mut mid, "\"を期待した位置で予約されていないトークン\"");
        crate::utils::push_chars(&mut mid, &body);
        return Err(error_here(token_ptr, "\"", &mid, "\"が発見されました。"));
    }
    Ok(())
}

/// Whether the current token is a number.
fn is_number(token_ptr: &TokenStream) -> (r: bool)
    requires
        stream_wf(*token_ptr),
    ensures
        r == (cur(*token_ptr).kind == Tokenkind::Num),
{
    token_ptr.tokens[token_ptr.pos].kind == Tokenkind::Num
}

/// The value of the current token, moving past it, if it is a number.
pub fn consume_number(token_ptr: &mut TokenStream) -> (r: Option<i32>)
    requires
        tokens_wf(*old(token_ptr)),
    ensures
        cur(*old(token_ptr)).kind == Tokenkind::Num ==> r == cur(*old(token_ptr)).val && moved(
            *old(token_ptr),
            *final(token_ptr),
            old(token_ptr).pos + 1,
        ),
        cur(*old(token_ptr)).kind != Tokenkind::Num ==> r is None && *final(token_ptr) == *old(
            token_ptr,
        ),
        tokens_wf(*final(token_ptr)),
{
    proof {
        lemma_cur_ok(*token_ptr);
    }
    if is_number(token_ptr) {
        let val = token_ptr.tokens[token_ptr.pos].val;
        advance(token_ptr);
        val
    } else {
        None
    }
}

/// The value of the current token, which must be a number, moving past it.
pub fn expect_number(token_ptr: &mut TokenStream) -> (r: Result<i32, CompileError>)
    requires
        tokens_wf(*old(token_ptr)),
    ensures
        cur(*old(token_ptr)).kind == Tokenkind::Num ==> r == Ok::<i32, CompileError>(
            cur(*old(token_ptr)).val.unwrap(),
        ) && moved(*old(token_ptr), *final(token_ptr), old(token_ptr).pos + 1),
        cur(*old(token_ptr)).kind != Tokenkind::Num ==> r is Err && *final(token_ptr) == *old(
            token_ptr,
        ),
        tokens_wf(*final(token_ptr)),
{
    proof {
        lemma_cur_ok(*token_ptr);
    }
    if let Some(val) = consume_number(token_ptr) {
        Ok(val)
    } else {
        let body = cur_text(token_ptr);
        Err(error_here(token_ptr, "数字であるべき位置で数字以外の文字\"", &body, "\"が発見されました。"))
    }
}

/// Whether the current token is an identifier.
fn is_ident(token_ptr: &TokenStream) -> (r: bool)
    requires
        stream_wf(*token_ptr),
    ensures
        r == (cur(*token_ptr).kind == Tokenkind::Ident),
{
    token_ptr.tokens[token_ptr.pos].kind == Tokenkind::Ident
}

/// The name of the current token, moving past it, if it is an identifier.
pub fn consume_ident(token_ptr: &mut TokenStream) -> (r: Option<Vec<char>>)
    requires
        tokens_wf(*old(token_ptr)),
    ensures
        cur(*old(token_ptr)).kind == Tokenkind::Ident ==> r is Some && r.unwrap()@ == cur_body(
            *old(token_ptr),
        ) && moved(*old(token_ptr), *final(token_ptr), old(token_ptr).pos + 1),
        cur(*old(token_ptr)).kind != Tokenkind::Ident ==> r is None && *final(token_ptr) == *old(
            token_ptr,
        ),
        tokens_wf(*final(token_ptr)),
{
    if is_ident(token_ptr) {
        let body = cur_text(token_ptr);
        advance(token_ptr);
        Some(body)
    } else {
        None
    }
}

/// The name of the current token, which must be an identifier, moving past it.
pub fn expect_ident(token_ptr: &mut TokenStream) -> (r: Result<Vec<char>, CompileError>)
    requires
        tokens_wf(*old(token_ptr)),
    ensures
        cur(*old(token_ptr)).kind == Tokenkind::Ident ==> r is Ok && r->Ok_0@ == cur_body(
            *old(token_ptr),
        ) && moved(*old(token_ptr), *final(token_ptr), old(token_ptr).pos + 1),
        cur(*old(token_ptr)).kind != Tokenkind::Ident ==> r is Err && *final(token_ptr) == *old(
            token_ptr,
        ),
        tokens_wf(*final(token_ptr)),
{
    if let Some(body) = consume_ident(token_ptr) {
        Ok(body)
    } else {
        let body = cur_text(token_ptr);
        Err(error_here(token_ptr, "識別子を期待した位置で\"", &body, "\"が発見されました。"))
    }
}

/// The kind named by a type keyword.
pub open spec fn spec_type_of(body: Seq<char>) -> Option<Type> {
    if body == "int"@ {
        Some(Type::Int)
    } else if body == "char"@ {
        Some(Type::Char)
    } else {
        None
    }
}

/// Whether the current token is a type keyword.
pub open spec fn spec_is_type(ts: TokenStream) -> bool {
    cur(ts).kind == Tokenkind::Reserved && spec_type_of(cur_body(ts)) is Some
}

/// Whether the current token is a type keyword.
pub fn is_type(token_ptr: &TokenStream) -> (r: bool)
    requires
        tokens_wf(*token_ptr),
    ensures
        r == spec_is_type(*token_ptr),
{
    is_kind(token_ptr, Tokenkind::Reserved) && (is(token_ptr, "int") || is(token_ptr, "char"))
}

/// The type named by the current token, moving past it, if it is a type keyword.
pub fn consume_type(token_ptr: &mut TokenStream) -> (r: Option<TypeCell>)
    requires
        tokens_wf(*old(token_ptr)),
    ensures
        spec_is_type(*old(token_ptr)) ==> r == Some(spec_new(spec_type_of(cur_body(*old(token_ptr))).unwrap()))
            && moved(*old(token_ptr), *final(token_ptr), old(token_ptr).pos + 1),
        !spec_is_type(*old(token_ptr)) ==> r is None && *final(token_ptr) == *old(token_ptr),
        tokens_wf(*final(token_ptr)),
{
    if is(token_ptr, "int") {
        advance(token_ptr);
        Some(TypeCell::new(Type::Int))
    } else if is(token_ptr, "char") {
        advance(token_ptr);
        Some(TypeCell::new(Type::Char))
    } else {
        None
    }
}

/// The type named by the current token, which must be a type keyword, moving past it.
pub fn expect_type(token_ptr: &mut TokenStream) -> (r: Result<TypeCell, CompileError>)
    requires
        tokens_wf(*old(token_ptr)),
    ensures
        spec_is_type(*old(token_ptr)) ==> r == Ok::<TypeCell, CompileError>(
            spec_new(spec_type_of(cur_body(*old(token_ptr))).unwrap()),
        ) && moved(*old(token_ptr), *final(token_ptr), old(token_ptr).pos + 1),
        !spec_is_type(*old(token_ptr)) ==> r is Err && *final(token_ptr) == *old(token_ptr),
        tokens_wf(*final(token_ptr)),
{
    if let Some(typ) = consume_type(token_ptr) {
        Ok(typ)
    } else {
        let t = &token_ptr.tokens[token_ptr.pos];
        Err(error_tok("型の指定が必要です。", t))
    }
}

/// Whether the current token is of kind `kind`.
pub fn is_kind(token_ptr: &TokenStream, kind: Tokenkind) -> (r: bool)
    requires
        stream_wf(*token_ptr),
    ensures
        r == (cur(*token_ptr).kind == kind),
{
    token_ptr.tokens[token_ptr.pos].kind == kind
}

/// Moves past the current token if it is of kind `kind` (never past the end of input).
pub fn consume_kind(token_ptr: &mut TokenStream, kind: Tokenkind) -> (r: bool)
    requires
        tokens_wf(*old(token_ptr)),
        kind != Tokenkind::Eof,
    ensures
        r == (cur(*old(token_ptr)).kind == kind),
        moved(*old(token_ptr), *final(token_ptr), old(token_ptr).pos + if r { 1int } else { 0int }),
        tokens_wf(*final(token_ptr)),
{
    if is_kind(token_ptr, kind) {
        advance(token_ptr);
        true
    } else {
        false
    }
}

/// The text of the current token, moving past it, if it is a string literal.
pub fn consume_literal(token_ptr: &mut TokenStream) -> (r: Option<Vec<char>>)
    requires
        tokens_wf(*old(token_ptr)),
    ensures
        cur(*old(token_ptr)).kind == Tokenkind::String ==> r is Some && r.unwrap()@ == cur_body(
            *old(token_ptr),
        ) && moved(*old(token_ptr), *final(token_ptr), old(token_ptr).pos + 1),
        cur(*old(token_ptr)).kind != Tokenkind::String ==> r is None && *final(token_ptr) == *old(
            token_ptr,
        ),
        tokens_wf(*final(token_ptr)),
{
    if is_kind(token_ptr, Tokenkind::String) {
        let body = cur_text(token_ptr);
        advance(token_ptr);
        Some(body)
    } else {
        None
    }
}

/// The text of the current token, which must be a string literal, moving past it.
pub fn expect_literal(token_ptr: &mut TokenStream) -> (r: Result<Vec<char>, CompileError>)
    requires
        tokens_wf(*old(token_ptr)),
    ensures
        cur(*old(token_ptr)).kind == Tokenkind::String ==> r is Ok && r->Ok_0@ == cur_body(
            *old(token_ptr),
        ) && moved(*old(token_ptr), *final(token_ptr), old(token_ptr).pos + 1),
        cur(*old(token_ptr)).kind != Tokenkind::String ==> r is Err && *final(token_ptr) == *old(
            token_ptr,
        ),
        tokens_wf(*final(token_ptr)),
{
    if let Some(literal) = consume_literal(token_ptr) {
        Ok(literal)
    } else {
        let body = cur_text(token_ptr);
        Err(
            error_here(
                token_ptr,
                "文字列リテラルを期待した位置で予約されていないトークン\"",
                &body,
                "\"が発見されました。",
            ),
        )
    }
}

/// Whether the current token is the end of input.
pub fn at_eof(token_ptr: &TokenStream) -> (r: bool)
    requires
        stream_wf(*token_ptr),
    ensures
        r == (cur(*token_ptr).kind == Tokenkind::Eof),
        r == (token_ptr.pos == token_ptr.tokens@.len() - 1),
{
    token_ptr.tokens[token_ptr.pos].kind == Tokenkind::Eof
}

/// The two-character operators of C that the language has.
pub open spec fn two_char_operators() -> Seq<Seq<char>> {
    seq![
        seq!['=', '='],
        seq!['!', '='],
        seq!['<', '='],
        seq!['>', '='],
        seq!['&', '&'],
        seq!['|', '|'],
        seq!['<', '<'],
        seq!['>', '>'],
        seq!['+', '+'],
        seq!['-', '-'],
        seq!['+', '='],
        seq!['-', '='],
        seq!['*', '='],
        seq!['/', '='],
        seq!['%', '='],
        seq!['&', '='],
        seq!['^', '='],
        seq!['|', '='],
    ]
}

/// Where a token starts with one of the two-character operators (and not with `<<=` or
/// `>>=`), that operator is read as one reserved token, and the scan goes on after it.
pub proof fn lemma_two_char_operators_are_one_token(line: Seq<char>, j: int, file_num: usize, line_num: usize, k: int)
    requires
        0 <= k < two_char_operators().len(),
        matches_at(line, j, two_char_operators()[k]),
        !matches_at(line, j, "<<="@),
        !matches_at(line, j, ">>="@),
    ensures
        token_at(line, j, file_num, line_num) == Step::Tok(
            spec_token(Tokenkind::Reserved, two_char_operators()[k], file_num, line_num, (j + 2) as usize),
            j + 2,
        ),
{
    reveal(token_at);
    reveal_strlit("==");
    reveal_strlit("!=");
    reveal_strlit("<=");
    reveal_strlit(">=");
    reveal_strlit("&&");
    reveal_strlit("||");
    reveal_strlit("<<");
    reveal_strlit(">>");
    reveal_strlit("++");
    reveal_strlit("--");
    reveal_strlit("+=");
    reveal_strlit("-=");
    reveal_strlit("*=");
    reveal_strlit("/=");
    reveal_strlit("%=");
    reveal_strlit("&=");
    reveal_strlit("^=");
    reveal_strlit("|=");
    assert("=="@ =~= seq!['=', '=']);
    assert("!="@ =~= seq!['!', '=']);
    assert("<="@ =~= seq!['<', '=']);
    assert(">="@ =~= seq!['>', '=']);
    assert("&&"@ =~= seq!['&', '&']);
    assert("||"@ =~= seq!['|', '|']);
    assert("<<"@ =~= seq!['<', '<']);
    assert(">>"@ =~= seq!['>', '>']);
    assert("++"@ =~= seq!['+', '+']);
    assert("--"@ =~= seq!['-', '-']);
    assert("+="@ =~= seq!['+', '=']);
    assert("-="@ =~= seq!['-', '=']);
    assert("*="@ =~= seq!['*', '=']);
    assert("/="@ =~= seq!['/', '=']);
    assert("%="@ =~= seq!['%', '=']);
    assert("&="@ =~= seq!['&', '=']);
    assert("^="@ =~= seq!['^', '=']);
    assert("|="@ =~= seq!['|', '=']);
    reveal_strlit("sizeof");
    reveal_strlit("while");
    reveal_strlit("else");
    reveal_strlit("char");
    reveal_strlit("for");
    reveal_strlit("int");
    reveal_strlit("if");
    assert("sizeof"@[0] == 's' && "while"@[0] == 'w' && "else"@[0] == 'e' && "char"@[0] == 'c' && "for"@[0] == 'f'
        && "int"@[0] == 'i' && "if"@[0] == 'i');
    let w = two_char_operators()[k];
    assert(w.len() == 2);
    assert(line.subrange(j, j + 2) == w);
    assert(line[j] == w[0]);
    assert(bi_op_at(line, j));
    assert(!keyword_at(line, j, "sizeof"@) && !keyword_at(line, j, "while"@) && !keyword_at(line, j, "else"@)
        && !keyword_at(line, j, "char"@) && !keyword_at(line, j, "for"@) && !keyword_at(line, j, "int"@));
    assert(spec_reserved(line, j) == Some((w, j + 2)));
}

/// The three-character operators `<<=` and `>>=` are each read as one reserved token.
pub proof fn lemma_shift_assignments_are_one_token(line: Seq<char>, j: int, file_num: usize, line_num: usize, w: Seq<char>)
    requires
        w == seq!['<', '<', '='] || w == seq!['>', '>', '='],
        matches_at(line, j, w),
    ensures
        token_at(line, j, file_num, line_num) == Step::Tok(
            spec_token(Tokenkind::Reserved, w, file_num, line_num, (j + 3) as usize),
            j + 3,
        ),
{
    reveal(token_at);
    reveal_strlit("<<=");
    reveal_strlit(">>=");
    assert("<<="@ =~= seq!['<', '<', '=']);
    assert(">>="@ =~= seq!['>', '>', '=']);
    reveal_strlit("sizeof");
    reveal_strlit("while");
    reveal_strlit("else");
    reveal_strlit("char");
    assert("sizeof"@[0] == 's' && "while"@[0] == 'w' && "else"@[0] == 'e' && "char"@[0] == 'c');
    assert(line.subrange(j, j + 3) == w);
    assert(line[j] == w[0]);
    assert(!keyword_at(line, j, "sizeof"@) && !keyword_at(line, j, "while"@) && !keyword_at(line, j, "else"@)
        && !keyword_at(line, j, "char"@));
    assert(spec_reserved(line, j) == Some((w, j + 3)));
}

} // verus!
