use vstd::prelude::*;
use vstd::utf8::{encode_scalar, encode_utf8};

verus! {

/// A half-open range of byte offsets in the source line.
#[derive(Clone, Copy, Debug, PartialEq, Eq, Structural)]
pub struct Span {
    pub start: usize,
    pub end: usize,
}

/// One lexical unit of a command line.
#[derive(Debug)]
pub enum Token {
    Num(i64),
    Item(String),
    OpenQuote,
    QuotedItem(String),
    Pipe,
    Arrow,
    Dot,
    Whitespace,
}

/// The mathematical form of a token: strings become character sequences.
pub enum TokenView {
    Num(i64),
    Item(Seq<char>),
    OpenQuote,
    QuotedItem(Seq<char>),
    Pipe,
    Arrow,
    Dot,
    Whitespace,
}

impl View for Token {
    type V = TokenView;

    open spec fn view(&self) -> TokenView {
        match self {
            Token::Num(n) => TokenView::Num(*n),
            Token::Item(s) => TokenView::Item(s@),
            Token::OpenQuote => TokenView::OpenQuote,
            Token::QuotedItem(s) => TokenView::QuotedItem(s@),
            Token::Pipe => TokenView::Pipe,
            Token::Arrow => TokenView::Arrow,
            Token::Dot => TokenView::Dot,
            Token::Whitespace => TokenView::Whitespace,
        }
    }
}

pub open spec fn is_digit(c: char) -> bool {
    '0' <= c && c <= '9'
}

/// The characters that Unicode gives the White_Space property.
pub open spec fn is_white(c: char) -> bool {
    ('\u{9}' <= c && c <= '\u{d}') || c == ' ' || c == '\u{85}' || c == '\u{a0}' || c
        == '\u{1680}' || ('\u{2000}' <= c && c <= '\u{200a}') || c == '\u{2028}' || c
        == '\u{2029}' || c == '\u{202f}' || c == '\u{205f}' || c == '\u{3000}'
}

/// A bare word runs over every character but the plain space.
pub open spec fn is_word_char(c: char) -> bool {
    c != ' '
}

/// The end of the longest run of digits that starts at `i`.
pub open spec fn digits_end(s: Seq<char>, i: int) -> int
    decreases s.len() - i,
{
    if 0 <= i < s.len() && is_digit(s[i]) {
        digits_end(s, i + 1)
    } else {
        i
    }
}

/// The end of the longest run of white space that starts at `i`.
pub open spec fn white_end(s: Seq<char>, i: int) -> int
    decreases s.len() - i,
{
    if 0 <= i < s.len() && is_white(s[i]) {
        white_end(s, i + 1)
    } else {
        i
    }
}

/// The end of the longest run of word characters that starts at `i`.
pub open spec fn word_end(s: Seq<char>, i: int) -> int
    decreases s.len() - i,
{
    if 0 <= i < s.len() && is_word_char(s[i]) {
        word_end(s, i + 1)
    } else {
        i
    }
}

/// The position of the first double quote at or after `i`, or the length
/// of `s` when there is none.
pub open spec fn quote_at_or_after(s: Seq<char>, i: int) -> int
    decreases s.len() - i,
{
    if 0 <= i < s.len() && s[i] != '"' {
        quote_at_or_after(s, i + 1)
    } else {
        i
    }
}

pub open spec fn digit_value(c: char) -> int {
    (c as u32) as int - ('0' as u32) as int
}

/// The number that a sequence of decimal digits denotes.
pub open spec fn decimal_value(d: Seq<char>) -> int
    decreases d.len(),
{
    if d.len() == 0 {
        0
    } else {
        decimal_value(d.drop_last()) * 10 + digit_value(d.last())
    }
}

/// The token that starts at position `i` of `s`, and where it ends. The rules
/// are tried in order: number, quoted string, lone quote, pipe, arrow, dot,
/// white space, bare word. A number is `0` alone or a digit run that does not
/// start with `0`; a run too large for `i64` is read as a bare word instead.
pub open spec fn token_at(s: Seq<char>, i: int) -> (TokenView, int) {
    let c = s[i];
    let de = digits_end(s, i);
    let q = quote_at_or_after(s, i + 1);
    if c == '0' {
        (TokenView::Num(0), i + 1)
    } else if is_digit(c) && decimal_value(s.subrange(i, de)) <= i64::MAX {
        (TokenView::Num(decimal_value(s.subrange(i, de)) as i64), de)
    } else if c == '"' && q < s.len() {
        (TokenView::QuotedItem(s.subrange(i + 1, q)), q + 1)
    } else if c == '"' {
        (TokenView::OpenQuote, i + 1)
    } else if c == '|' {
        (TokenView::Pipe, i + 1)
    } else if c == '-' && i + 1 < s.len() && s[i + 1] == '>' {
        (TokenView::Arrow, i + 2)
    } else if c == '.' {
        (TokenView::Dot, i + 1)
    } else if is_white(c) {
        (TokenView::Whitespace, white_end(s, i))
    } else {
        (TokenView::Item(s.subrange(i, word_end(s, i))), word_end(s, i))
    }
}

/// The tokens of `s` from position `i` on, each with its span.
pub open spec fn lex_from(s: Seq<char>, i: int) -> Seq<(TokenView, int, int)>
    decreases s.len() - i,
{
    if 0 <= i < s.len() {
        let (t, e) = token_at(s, i);
        if i < e <= s.len() {
            seq![(t, i, e)] + lex_from(s, e)
        } else {
            seq![]
        }
    } else {
        seq![]
    }
}

/// The tokens of a whole line.
pub open spec fn lex_model(s: Seq<char>) -> Seq<(TokenView, int, int)> {
    lex_from(s, 0)
}

pub open spec fn spanned_view(p: (Token, Span)) -> (TokenView, int, int) {
    (p.0@, p.1.start as int, p.1.end as int)
}

pub open spec fn tokens_view(ts: Seq<(Token, Span)>) -> Seq<(TokenView, int, int)> {
    ts.map_values(|p: (Token, Span)| spanned_view(p))
}

proof fn lemma_digits_end(s: Seq<char>, i: int)
    requires
        0 <= i <= s.len(),
    ensures
        i <= digits_end(s, i) <= s.len(),
    decreases s.len() - i,
{
    if i < s.len() && is_digit(s[i]) {
        lemma_digits_end(s, i + 1);
    }
}

proof fn lemma_white_end(s: Seq<char>, i: int)
    requires
        0 <= i <= s.len(),
    ensures
        i <= white_end(s, i) <= s.len(),
        i < s.len() && is_white(s[i]) ==> i < white_end(s, i),
    decreases s.len() - i,
{
    if i < s.len() && is_white(s[i]) {
        lemma_white_end(s, i + 1);
    }
}

proof fn lemma_word_end(s: Seq<char>, i: int)
    requires
        0 <= i <= s.len(),
    ensures
        i <= word_end(s, i) <= s.len(),
        i < s.len() && is_word_char(s[i]) ==> i < word_end(s, i),
    decreases s.len() - i,
{
    if i < s.len() && is_word_char(s[i]) {
        lemma_word_end(s, i + 1);
    }
}

proof fn lemma_quote(s: Seq<char>, i: int)
    requires
        0 <= i <= s.len(),
    ensures
        i <= quote_at_or_after(s, i) <= s.len(),
    decreases s.len() - i,
{
    if i < s.len() && s[i] != '"' {
        lemma_quote(s, i + 1);
    }
}

/// Every token ends after it starts and within the line.
proof fn lemma_token_bounds(s: Seq<char>, i: int)
    requires
        0 <= i < s.len(),
    ensures
        i < token_at(s, i).1 <= s.len(),
{
    lemma_digits_end(s, i);
    lemma_white_end(s, i);
    lemma_word_end(s, i);
    lemma_quote(s, i + 1);
    if is_digit(s[i]) && s[i] != '0' {
        lemma_digits_end(s, i + 1);
        assert(digits_end(s, i) == digits_end(s, i + 1));
    }
}

fn chars_of(line: &str) -> (r: Vec<char>)
    ensures
        r@ == line@,
{
    let n = line.unicode_len();
    let mut r: Vec<char> = Vec::new();
    let mut i: usize = 0;
    while i < n
        invariant
            n == line@.len(),
            i <= n,
            r@ == line@.subrange(0, i as int),
        decreases n - i,
    {
        r.push(line.get_char(i));
        i = i + 1;
        assert(r@ =~= line@.subrange(0, i as int));
    }
    assert(r@ =~= line@);
    r
}

fn is_white_char(c: char) -> (r: bool)
    ensures
        r == is_white(c),
{
    ('\u{9}' <= c && c <= '\u{d}') || c == ' ' || c == '\u{85}' || c == '\u{a0}' || c
        == '\u{1680}' || ('\u{2000}' <= c && c <= '\u{200a}') || c == '\u{2028}' || c
        == '\u{2029}' || c == '\u{202f}' || c == '\u{205f}' || c == '\u{3000}'
}

/// Scans the digit run at `i`, and gives its value where it fits in `i64`.
fn scan_number(cs: &Vec<char>, i: usize) -> (r: (usize, Option<i64>))
    requires
        i < cs@.len(),
        is_digit(cs@[i as int]),
    ensures
        r.0 == digits_end(cs@, i as int),
        r.1 == (if decimal_value(cs@.subrange(i as int, r.0 as int)) <= i64::MAX {
            Some(decimal_value(cs@.subrange(i as int, r.0 as int)) as i64)
        } else {
            None::<i64>
        }),
{
    let ghost s = cs@;
    let n = cs.len();
    let mut j: usize = i;
    let mut v: i64 = 0;
    let mut over = false;
    assert(s.subrange(i as int, i as int) =~= seq![]);
    while j < n && '0' <= cs[j] && cs[j] <= '9'
        invariant
            s == cs@,
            n == s.len(),
            i <= j <= n,
            digits_end(s, j as int) == digits_end(s, i as int),
            !over ==> 0 <= v && v as int == decimal_value(s.subrange(i as int, j as int)),
            over ==> decimal_value(s.subrange(i as int, j as int)) > i64::MAX,
        decreases n - j,
    {
        let d = (cs[j] as u32 - '0' as u32) as i64;
        let ghost prev = s.subrange(i as int, j as int);
        let ghost next = s.subrange(i as int, j + 1);
        assert(next.drop_last() =~= prev);
        assert(decimal_value(next) == decimal_value(prev) * 10 + d);
        if !over {
            if v > (i64::MAX - d) / 10 {
                assert(v * 10 + d > i64::MAX) by (nonlinear_arith)
                    requires
                        v > (i64::MAX - d) / 10,
                        0 <= d <= 9,
                ;
                over = true;
            } else {
                assert(v * 10 + d <= i64::MAX) by (nonlinear_arith)
                    requires
                        v <= (i64::MAX - d) / 10,
                        0 <= d <= 9,
                        0 <= v,
                ;
                v = v * 10 + d;
            }
        } else {
            assert(decimal_value(prev) * 10 + d > i64::MAX) by (nonlinear_arith)
                requires
                    decimal_value(prev) > i64::MAX,
                    0 <= d,
            ;
        }
        j = j + 1;
    }
    if over {
        (j, None)
    } else {
        (j, Some(v))
    }
}

fn white_end_exec(cs: &Vec<char>, i: usize) -> (e: usize)
    requires
        i <= cs@.len(),
    ensures
        e == white_end(cs@, i as int),
{
    let n = cs.len();
    let mut j = i;
    while j < n && is_white_char(cs[j])
        invariant
            n == cs@.len(),
            i <= j <= n,
            white_end(cs@, j as int) == white_end(cs@, i as int),
        decreases n - j,
    {
        j = j + 1;
    }
    j
}

fn word_end_exec(cs: &Vec<char>, i: usize) -> (e: usize)
    requires
        i <= cs@.len(),
    ensures
        e == word_end(cs@, i as int),
{
    let n = cs.len();
    let mut j = i;
    while j < n && cs[j] != ' '
        invariant
            n == cs@.len(),
            i <= j <= n,
            word_end(cs@, j as int) == word_end(cs@, i as int),
        decreases n - j,
    {
        j = j + 1;
    }
    j
}

fn quote_exec(cs: &Vec<char>, i: usize) -> (e: usize)
    requires
        i <= cs@.len(),
    ensures
        e == quote_at_or_after(cs@, i as int),
{
    let n = cs.len();
    let mut j = i;
    while j < n && cs[j] != '"'
        invariant
            n == cs@.len(),
            i <= j <= n,
            quote_at_or_after(cs@, j as int) == quote_at_or_after(cs@, i as int),
        decreases n - j,
    {
        j = j + 1;
    }
    j
}

fn text_between(line: &str, from: usize, to: usize) -> (r: String)
    requires
        from <= to <= line@.len(),
    ensures
        r@ == line@.subrange(from as int, to as int),
{
    String::from_str(line.substring_char(from, to))
}

/// The token at position `i`, with its end.
fn token_at_exec(line: &str, cs: &Vec<char>, i: usize) -> (r: (Token, usize))
    requires
        cs@ == line@,
        i < cs@.len(),
    ensures
        (r.0@, r.1 as int) == token_at(cs@, i as int),
{
    let ghost s = cs@;
    proof {
        lemma_token_bounds(s, i as int);
        lemma_white_end(s, i as int);
        lemma_word_end(s, i as int);
        lemma_quote(s, i + 1);
    }
    let n = cs.len();
    let c = cs[i];
    if c == '0' {
        return (Token::Num(0), i + 1);
    }
    if '0' <= c && c <= '9' {
        let (de, v) = scan_number(cs, i);
        if let Some(v) = v {
            return (Token::Num(v), de);
        }
    }
    if c == '"' {
        let q = quote_exec(cs, i + 1);
        if q < n {
            return (Token::QuotedItem(text_between(line, i + 1, q)), q + 1);
        }
        return (Token::OpenQuote, i + 1);
    }
    if c == '|' {
        (Token::Pipe, i + 1)
    } else if c == '-' && i + 1 < n && cs[i + 1] == '>' {
        (Token::Arrow, i + 2)
    } else if c == '.' {
        (Token::Dot, i + 1)
    } else if is_white_char(c) {
        (Token::Whitespace, white_end_exec(cs, i))
    } else {
        let e = word_end_exec(cs, i);
        (Token::Item(text_between(line, i, e)), e)
    }
}

/// The byte offset in the UTF-8 text of `s` of the character at position `i`.
pub open spec fn byte_pos(s: Seq<char>, i: int) -> int {
    encode_utf8(s.take(i)).len() as int
}

/// Token positions turned from character positions into byte offsets.
pub open spec fn to_bytes(s: Seq<char>, toks: Seq<(TokenView, int, int)>) -> Seq<
    (TokenView, int, int),
> {
    toks.map_values(|t: (TokenView, int, int)| (t.0, byte_pos(s, t.1), byte_pos(s, t.2)))
}

/// The tokens of a whole line, each with its half-open byte span.
pub open spec fn byte_model(s: Seq<char>) -> Seq<(TokenView, int, int)> {
    to_bytes(s, lex_model(s))
}

/// The bytes that the spans of `toks` cover in `b`, one after the other.
pub open spec fn spans_bytes(b: Seq<u8>, toks: Seq<(TokenView, int, int)>) -> Seq<u8>
    decreases toks.len(),
{
    if toks.len() == 0 {
        seq![]
    } else {
        b.subrange(toks[0].1, toks[0].2) + spans_bytes(b, toks.drop_first())
    }
}

proof fn lemma_encode_concat(a: Seq<char>, b: Seq<char>)
    ensures
        encode_utf8(a + b) == encode_utf8(a) + encode_utf8(b),
    decreases a.len(),
{
    if a.len() == 0 {
        assert(a + b =~= b);
        assert(encode_utf8(a) =~= seq![]);
        assert(encode_utf8(a) + encode_utf8(b) =~= encode_utf8(b));
    } else {
        lemma_encode_concat(a.drop_first(), b);
        assert((a + b).drop_first() =~= a.drop_first() + b);
        assert((a + b)[0] == a[0]);
        assert(encode_scalar(a[0] as u32) + (encode_utf8(a.drop_first()) + encode_utf8(b))
            =~= (encode_scalar(a[0] as u32) + encode_utf8(a.drop_first())) + encode_utf8(b));
    }
}

/// Byte offsets grow with character positions, from 0 to the length of the
/// encoding.
proof fn lemma_byte_pos_bounds(s: Seq<char>, i: int, j: int)
    requires
        0 <= i <= j <= s.len(),
    ensures
        0 <= byte_pos(s, i) <= byte_pos(s, j) <= encode_utf8(s).len(),
        byte_pos(s, 0) == 0,
        byte_pos(s, s.len() as int) == encode_utf8(s).len(),
{
    assert(s.take(j) =~= s.take(i) + s.subrange(i, j));
    lemma_encode_concat(s.take(i), s.subrange(i, j));
    assert(s =~= s.take(j) + s.skip(j));
    lemma_encode_concat(s.take(j), s.skip(j));
    assert(s.take(0) =~= seq![]);
    assert(s.take(s.len() as int) =~= s);
}

proof fn lemma_byte_pos_step(s: Seq<char>, i: int)
    requires
        0 <= i < s.len(),
    ensures
        byte_pos(s, i + 1) == byte_pos(s, i) + encode_scalar(s[i] as u32).len(),
{
    assert(s.take(i + 1) =~= s.take(i) + seq![s[i]]);
    lemma_encode_concat(s.take(i), seq![s[i]]);
    let one = seq![s[i]];
    assert(one.drop_first() =~= Seq::<char>::empty());
    assert(encode_utf8(one.drop_first()) =~= Seq::<u8>::empty());
    assert(encode_utf8(one) == encode_scalar(one[0] as u32) + encode_utf8(one.drop_first()));
    assert(encode_utf8(one) =~= encode_scalar(s[i] as u32));
}

/// The bytes covered by the tokens from position `i` on are the rest of the
/// encoded line.
proof fn lemma_spans_bytes_cover(s: Seq<char>, i: int)
    requires
        0 <= i <= s.len(),
    ensures
        spans_bytes(encode_utf8(s), to_bytes(s, lex_from(s, i))) == encode_utf8(s).subrange(
            byte_pos(s, i),
            encode_utf8(s).len() as int,
        ),
    decreases s.len() - i,
{
    let b = encode_utf8(s);
    if i < s.len() {
        lemma_token_bounds(s, i);
        let e = token_at(s, i).1;
        lemma_spans_bytes_cover(s, e);
        lemma_byte_pos_bounds(s, i, e);
        lemma_byte_pos_bounds(s, e, s.len() as int);
        let toks = to_bytes(s, lex_from(s, i));
        assert(toks.drop_first() =~= to_bytes(s, lex_from(s, e)));
        assert(b.subrange(byte_pos(s, i), byte_pos(s, e)) + b.subrange(
            byte_pos(s, e),
            b.len() as int,
        ) =~= b.subrange(byte_pos(s, i), b.len() as int));
    } else {
        lemma_byte_pos_bounds(s, i, i);
        assert(to_bytes(s, lex_from(s, i)) =~= seq![]);
        assert(b.subrange(byte_pos(s, i), b.len() as int) =~= seq![]);
    }
}

/// The byte spans of the tokens of `s`, put end to end, cover the UTF-8
/// text of `s` exactly.
pub proof fn lemma_spans_cover_bytes(s: Seq<char>)
    ensures
        spans_bytes(encode_utf8(s), byte_model(s)) == encode_utf8(s),
{
    lemma_spans_bytes_cover(s, 0);
    lemma_byte_pos_bounds(s, 0, 0);
    assert(encode_utf8(s).subrange(0, encode_utf8(s).len() as int) =~= encode_utf8(s));
}

/// The number of bytes in the UTF-8 encoding of a character.
fn utf8_width(c: char) -> (w: usize)
    ensures
        w == encode_scalar(c as u32).len(),
{
    proof {
        vstd::utf8::char_is_scalar(c);
    }
    let v = c as u32;
    if v <= 0x7F {
        1
    } else if v <= 0x7FF {
        2
    } else if v <= 0xFFFF {
        3
    } else {
        4
    }
}

/// Splits a line into tokens. Lexing never fails: every position of the line
/// starts some token, and the byte spans of the tokens follow each other and
/// cover the line exactly.
pub fn lex(line: &str) -> (r: Vec<(Token, Span)>)
    ensures
        tokens_view(r@) == byte_model(line@),
{
    let cs = chars_of(line);
    let ghost s = line@;
    let total = line.as_bytes().len();
    assert(total == encode_utf8(s).len());
    let n = cs.len();
    let mut out: Vec<(Token, Span)> = Vec::new();
    let ghost mut cm: Seq<(TokenView, int, int)> = seq![];
    let mut i: usize = 0;
    let mut b: usize = 0;
    proof {
        lemma_byte_pos_bounds(s, 0, 0);
    }
    assert(tokens_view(out@) =~= to_bytes(s, cm));
    assert(lex_from(s, 0) =~= cm + lex_from(s, 0));
    while i < n
        invariant
            cs@ == s,
            s == line@,
            n == s.len(),
            total == encode_utf8(s).len(),
            i <= n,
            b == byte_pos(s, i as int),
            lex_from(s, 0) == cm + lex_from(s, i as int),
            tokens_view(out@) == to_bytes(s, cm),
        decreases n - i,
    {
        let (tok, e) = token_at_exec(line, &cs, i);
        proof {
            lemma_token_bounds(s, i as int);
        }
        let start = b;
        let mut k = i;
        while k < e
            invariant
                cs@ == s,
                n == s.len(),
                total == encode_utf8(s).len(),
                i <= k <= e <= n,
                b == byte_pos(s, k as int),
            decreases e - k,
        {
            proof {
                lemma_byte_pos_step(s, k as int);
                lemma_byte_pos_bounds(s, k + 1, n as int);
            }
            b = b + utf8_width(cs[k]);
            k = k + 1;
        }
        let ghost old_out = out@;
        let ghost item = (token_at(s, i as int).0, i as int, e as int);
        out.push((tok, Span { start, end: b }));
        proof {
            assert(tokens_view(out@) =~= tokens_view(old_out).push(
                (item.0, byte_pos(s, i as int), byte_pos(s, e as int)),
            ));
            assert(to_bytes(s, cm.push(item)) =~= to_bytes(s, cm).push(
                (item.0, byte_pos(s, i as int), byte_pos(s, e as int)),
            ));
            assert(lex_from(s, i as int) == seq![item] + lex_from(s, e as int));
            assert(cm + lex_from(s, i as int) =~= cm.push(item) + lex_from(s, e as int));
            cm = cm.push(item);
        }
        i = e;
    }
    assert(lex_from(s, i as int) == Seq::<(TokenView, int, int)>::empty());
    assert(cm + lex_from(s, i as int) =~= cm);
    out
}

} // verus!
