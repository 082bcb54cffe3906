use vstd::prelude::*;

use crate::token::{Token, TokenModel, tokens_model};

verus! {

/// Why a source text could not be split into tokens.
#[derive(Debug, PartialEq, Eq)]
pub enum LexError {
    /// A control character that is not whitespace.
    UnsupportedControlCharacter(char),
    /// A piece that starts with a numeric character but is not an `i32` literal.
    InvalidNumberLiteral(String),
}

/// The mathematical value of a `LexError`.
pub enum LexErrorModel {
    UnsupportedControlCharacter(char),
    InvalidNumberLiteral(Seq<char>),
}

impl LexError {
    pub open spec fn model(&self) -> LexErrorModel {
        match self {
            LexError::UnsupportedControlCharacter(c) => LexErrorModel::UnsupportedControlCharacter(*c),
            LexError::InvalidNumberLiteral(s) => LexErrorModel::InvalidNumberLiteral(s@),
        }
    }
}

// ---------------------------------------------------------------------------
// Character classes

/// The Unicode `White_Space` property.
pub open spec fn is_white_space(c: char) -> bool {
    let u = c as u32;
    ||| 9 <= u <= 13
    ||| u == 32
    ||| u == 0x85
    ||| u == 0xA0
    ||| u == 0x1680
    ||| 0x2000 <= u <= 0x200A
    ||| u == 0x2028
    ||| u == 0x2029
    ||| u == 0x202F
    ||| u == 0x205F
    ||| u == 0x3000
}

/// The Unicode general category `Cc` (control codes).
pub open spec fn is_control_char(c: char) -> bool {
    let u = c as u32;
    u <= 0x1F || (0x7F <= u <= 0x9F)
}

/// The characters that always stand alone as a piece of their own.
pub open spec fn is_separator(c: char) -> bool {
    c == '(' || c == ')' || c == ',' || c == '='
}

/// Whether a character is in one of the Unicode general categories for
/// numbers (`Nd`, `Nl`, `No`), as `char::is_numeric` decides it.
pub uninterp spec fn char_is_numeric(c: char) -> bool;

/// What `char::is_numeric` says of a character: among ASCII characters
/// exactly the digits `0` to `9` are numeric; beyond ASCII it is the Unicode
/// character database's answer, `char_is_numeric`.
pub open spec fn is_numeric_char(c: char) -> bool {
    if (c as u32) < 128 {
        '0' <= c && c <= '9'
    } else {
        char_is_numeric(c)
    }
}

/// `char::is_whitespace`: true exactly for the characters with the Unicode
/// `White_Space` property.
#[verifier::external_body]
fn is_whitespace(c: char) -> (r: bool)
    ensures
        r == is_white_space(c),
{
    c.is_whitespace()
}

/// `char::is_control`: true exactly for the characters of general category `Cc`.
#[verifier::external_body]
fn is_control(c: char) -> (r: bool)
    ensures
        r == is_control_char(c),
{
    c.is_control()
}

/// `char::is_numeric`: true for the ASCII digits `0` to `9` and for no other
/// ASCII character (as std's examples show for `'7'`, `'K'` and others);
/// beyond ASCII, which characters are numeric is the Unicode character
/// database's to say, and its answer is named `char_is_numeric`.
#[verifier::external_body]
fn is_numeric(c: char) -> (r: bool)
    ensures
        (c as u32) < 128 ==> (r <==> ('0' <= c && c <= '9')),
        (c as u32) >= 128 ==> r == char_is_numeric(c),
{
    c.is_numeric()
}

/// `String::push`: appends one character.
#[verifier::external_body]
fn push_char(s: &mut String, c: char)
    ensures
        final(s)@ == old(s)@.push(c),
{
    s.push(c);
}

/// `<str as PartialEq>::eq`: two strings are equal when their characters are.
#[verifier::external_body]
pub(crate) fn str_eq(a: &str, b: &str) -> (r: bool)
    ensures
        r == (a@ == b@),
{
    a == b
}

// ---------------------------------------------------------------------------
// Decimal literals

/// The value of a sequence of ASCII decimal digits.
pub open spec fn digits_value(s: Seq<char>) -> int
    decreases s.len(),
{
    if s.len() == 0 {
        0
    } else {
        digits_value(s.drop_last()) * 10 + (s.last() as u32 - '0' as u32)
    }
}

pub open spec fn all_ascii_digits(s: Seq<char>) -> bool {
    forall|i: int| 0 <= i < s.len() ==> '0' <= #[trigger] s[i] && s[i] <= '9'
}

/// What `str::parse::<i32>` accepts: an optional `+` or `-` sign followed by
/// one or more ASCII digits, whose value fits in an `i32`.
pub open spec fn parse_i32_spec(s: Seq<char>) -> Option<i32> {
    let negative = s.len() > 0 && s[0] == '-';
    let digits = if s.len() > 0 && (s[0] == '-' || s[0] == '+') {
        s.drop_first()
    } else {
        s
    };
    let value = if negative {
        -digits_value(digits)
    } else {
        digits_value(digits)
    };
    if digits.len() > 0 && all_ascii_digits(digits) && i32::MIN <= value <= i32::MAX {
        Some(value as i32)
    } else {
        None
    }
}

/// The error of `str::parse::<i32>`, carried through as it is.
#[verifier::external_type_specification]
#[verifier::external_body]
pub struct ExParseIntError(std::num::ParseIntError);

/// `str::parse::<i32>`: succeeds exactly on the texts that `parse_i32_spec`
/// accepts, with their value.
#[verifier::external_body]
fn parse_i32(s: &str) -> (r: Result<i32, std::num::ParseIntError>)
    ensures
        r is Ok <==> parse_i32_spec(s@) is Some,
        r matches Ok(n) ==> parse_i32_spec(s@) == Some(n),
{
    s.parse::<i32>()
}

// ---------------------------------------------------------------------------
// Splitting a source text into pieces

pub open spec fn strings_model(v: Seq<String>) -> Seq<Seq<char>> {
    v.map_values(|s: String| s@)
}

/// The finished pieces, with the piece being read added if it is not empty.
pub open spec fn flush_piece(out: Seq<Seq<char>>, cur: Seq<char>) -> Seq<Seq<char>> {
    if cur.len() == 0 {
        out
    } else {
        out.push(cur)
    }
}

/// Reading one more character: whitespace ends the current piece, a separator
/// ends it and forms a piece of its own, another control character is refused,
/// and any other character extends the current piece.
pub open spec fn split_step(out: Seq<Seq<char>>, cur: Seq<char>, c: char) -> Result<
    (Seq<Seq<char>>, Seq<char>),
    char,
> {
    if is_white_space(c) {
        Ok((flush_piece(out, cur), Seq::empty()))
    } else if is_separator(c) {
        Ok((flush_piece(out, cur).push(seq![c]), Seq::empty()))
    } else if is_control_char(c) {
        Err(c)
    } else {
        Ok((out, cur.push(c)))
    }
}

/// The state after reading `s` from the left: finished pieces and the current
/// piece, or the first refused control character.
pub open spec fn split_state(s: Seq<char>) -> Result<(Seq<Seq<char>>, Seq<char>), char>
    decreases s.len(),
{
    if s.len() == 0 {
        Ok((Seq::empty(), Seq::empty()))
    } else {
        match split_state(s.drop_last()) {
            Ok((out, cur)) => split_step(out, cur, s.last()),
            Err(c) => Err(c),
        }
    }
}

/// The pieces of a source text, or its first refused control character.
pub open spec fn split_spec(s: Seq<char>) -> Result<Seq<Seq<char>>, char> {
    match split_state(s) {
        Ok((out, cur)) => Ok(flush_piece(out, cur)),
        Err(c) => Err(c),
    }
}

/// Once reading a prefix has failed, reading the whole text fails the same way.
proof fn lemma_split_error_persists(s: Seq<char>, k: int)
    requires
        0 <= k <= s.len(),
        split_state(s.take(k)) is Err,
    ensures
        split_state(s) == split_state(s.take(k)),
    decreases s.len() - k,
{
    if k < s.len() {
        assert(s.take(k + 1).drop_last() =~= s.take(k));
        lemma_split_error_persists(s, k + 1);
    } else {
        assert(s.take(k) =~= s);
    }
}

fn flush(buffer: &mut String, output: &mut Vec<String>)
    ensures
        strings_model(final(output)@) == flush_piece(strings_model(old(output)@), old(buffer)@),
        final(buffer)@ == Seq::<char>::empty(),
{
    if !buffer.as_str().is_empty() {
        let mut taken = String::new();
        std::mem::swap(&mut taken, buffer);
        output.push(taken);
        assert(strings_model(output@) =~= strings_model(old(output)@).push(old(buffer)@));
    }
}

fn split_to_token_text(source: &str) -> (r: Result<Vec<String>, LexError>)
    ensures
        match split_spec(source@) {
            Ok(pieces) => r matches Ok(v) && strings_model(v@) == pieces,
            Err(c) => r matches Err(e) && e == LexError::UnsupportedControlCharacter(c),
        },
{
    let mut raw_tokens: Vec<String> = Vec::new();
    let mut current = String::new();
    assert(source@.take(0) =~= Seq::<char>::empty());
    assert(strings_model(raw_tokens@) =~= Seq::<Seq<char>>::empty());
    for ch in it: source.chars()
        invariant
            it.seq() == source@,
            split_state(source@.take(it.index() as int)) == Ok::<
                (Seq<Seq<char>>, Seq<char>),
                char,
            >((strings_model(raw_tokens@), current@)),
    {
        let ghost i = it.index();
        assert(source@.take(i + 1).drop_last() =~= source@.take(i as int));
        assert(source@.take(i + 1).last() == ch);
        if is_whitespace(ch) {
            flush(&mut current, &mut raw_tokens);
        } else if ch == '(' || ch == ')' || ch == ',' || ch == '=' {
            flush(&mut current, &mut raw_tokens);
            let mut piece = String::new();
            push_char(&mut piece, ch);
            let ghost before = strings_model(raw_tokens@);
            raw_tokens.push(piece);
            assert(strings_model(raw_tokens@) =~= before.push(seq![ch]));
        } else if is_control(ch) {
            proof {
                lemma_split_error_persists(source@, i + 1);
            }
            return Err(LexError::UnsupportedControlCharacter(ch));
        } else {
            push_char(&mut current, ch);
        }
    }
    assert(source@.take(source@.len() as int) =~= source@);
    flush(&mut current, &mut raw_tokens);
    Ok(raw_tokens)
}

// ---------------------------------------------------------------------------
// What splitting keeps and what it drops

/// The characters of a text that are not whitespace, in order.
pub open spec fn non_white_chars(s: Seq<char>) -> Seq<char>
    decreases s.len(),
{
    if s.len() == 0 {
        s
    } else if is_white_space(s.last()) {
        non_white_chars(s.drop_last())
    } else {
        non_white_chars(s.drop_last()).push(s.last())
    }
}

/// The pieces written one after the other.
pub open spec fn concat_pieces(p: Seq<Seq<char>>) -> Seq<char>
    decreases p.len(),
{
    if p.len() == 0 {
        Seq::empty()
    } else {
        concat_pieces(p.drop_last()) + p.last()
    }
}

/// A character that can stand inside a longer piece.
pub open spec fn is_word_char(c: char) -> bool {
    !is_white_space(c) && !is_separator(c) && !is_control_char(c)
}

/// A control character that is not whitespace: the lexer refuses it.
pub open spec fn is_refused_char(c: char) -> bool {
    is_control_char(c) && !is_white_space(c)
}

/// A piece is one separator alone, or a non-empty run of word characters.
pub open spec fn is_piece(p: Seq<char>) -> bool {
    ||| p.len() == 1 && is_separator(p[0])
    ||| p.len() > 0 && forall|i: int| 0 <= i < p.len() ==> is_word_char(#[trigger] p[i])
}

/// `c` is the first refused character of `s`.
pub open spec fn first_refused(s: Seq<char>, c: char) -> bool {
    exists|i: int|
        0 <= i < s.len() && #[trigger] s[i] == c && is_refused_char(c) && forall|j: int|
            0 <= j < i ==> !is_refused_char(#[trigger] s[j])
}

pub open spec fn no_refused(s: Seq<char>) -> bool {
    forall|i: int| 0 <= i < s.len() ==> !is_refused_char(#[trigger] s[i])
}

pub open spec fn split_state_inv(s: Seq<char>) -> bool {
    match split_state(s) {
        Ok((out, cur)) => {
            &&& concat_pieces(out) + cur == non_white_chars(s)
            &&& forall|i: int| 0 <= i < out.len() ==> is_piece(#[trigger] out[i])
            &&& forall|i: int| 0 <= i < cur.len() ==> is_word_char(#[trigger] cur[i])
            &&& no_refused(s)
        },
        Err(c) => first_refused(s, c),
    }
}

proof fn lemma_split_state_inv(s: Seq<char>)
    ensures
        split_state_inv(s),
    decreases s.len(),
{
    if s.len() == 0 {
        assert(concat_pieces(Seq::<Seq<char>>::empty()) + Seq::<char>::empty() =~= non_white_chars(s));
    } else {
        let s0 = s.drop_last();
        let c = s.last();
        lemma_split_state_inv(s0);
        assert forall|j: int| 0 <= j < s0.len() implies s0[j] == s[j] by {}
        match split_state(s0) {
            Err(c0) => {
                let i = choose|i: int|
                    0 <= i < s0.len() && #[trigger] s0[i] == c0 && is_refused_char(c0) && forall|j: int|
                        0 <= j < i ==> !is_refused_char(#[trigger] s0[j]);
                assert(s[i] == c0);
                assert forall|j: int| 0 <= j < i implies !is_refused_char(#[trigger] s[j]) by {
                    assert(s0[j] == s[j]);
                }
            },
            Ok((out, cur)) => {
                let flushed = flush_piece(out, cur);
                assert(concat_pieces(flushed) == concat_pieces(out) + cur) by {
                    if cur.len() > 0 {
                        assert(flushed.drop_last() =~= out);
                    } else {
                        assert(concat_pieces(out) + cur =~= concat_pieces(out));
                    }
                }
                assert forall|i: int| 0 <= i < flushed.len() implies is_piece(#[trigger] flushed[i]) by {
                    if i == out.len() {
                        assert(flushed[i] == cur);
                    }
                }
                if is_white_space(c) {
                    assert(concat_pieces(flushed) + Seq::<char>::empty() =~= non_white_chars(s));
                    assert forall|i: int| 0 <= i < s.len() implies !is_refused_char(#[trigger] s[i]) by {
                        if i < s0.len() {
                            assert(s0[i] == s[i]);
                        }
                    }
                } else if is_separator(c) {
                    let out2 = flushed.push(seq![c]);
                    assert(out2.drop_last() =~= flushed);
                    assert(concat_pieces(out2) + Seq::<char>::empty() =~= non_white_chars(s));
                    assert forall|i: int| 0 <= i < out2.len() implies is_piece(#[trigger] out2[i]) by {
                        if i < flushed.len() {
                            assert(out2[i] == flushed[i]);
                        }
                    }
                    assert forall|i: int| 0 <= i < s.len() implies !is_refused_char(#[trigger] s[i]) by {
                        if i < s0.len() {
                            assert(s0[i] == s[i]);
                        }
                    }
                } else if is_control_char(c) {
                    assert(s[s.len() - 1] == c);
                    assert forall|j: int| 0 <= j < s.len() - 1 implies !is_refused_char(#[trigger] s[j]) by {
                        assert(s0[j] == s[j]);
                    }
                } else {
                    let cur2 = cur.push(c);
                    assert(concat_pieces(out) + cur2 =~= (concat_pieces(out) + cur).push(c));
                    assert(concat_pieces(out) + cur2 =~= non_white_chars(s));
                    assert forall|i: int| 0 <= i < cur2.len() implies is_word_char(#[trigger] cur2[i]) by {
                        if i < cur.len() {
                            assert(cur2[i] == cur[i]);
                        }
                    }
                    assert forall|i: int| 0 <= i < s.len() implies !is_refused_char(#[trigger] s[i]) by {
                        if i < s0.len() {
                            assert(s0[i] == s[i]);
                        }
                    }
                }
            },
        }
    }
}

/// Splitting a text refuses exactly the texts that hold a refused character,
/// and names the first one; otherwise its pieces are separators alone or runs
/// of word characters, and written one after the other they give back the
/// text without its whitespace.
pub proof fn lemma_split_pieces(s: Seq<char>)
    ensures
        split_spec(s) is Ok <==> no_refused(s),
        split_spec(s) matches Err(c) ==> first_refused(s, c),
        split_spec(s) matches Ok(pieces) ==> {
            &&& concat_pieces(pieces) == non_white_chars(s)
            &&& forall|i: int| 0 <= i < pieces.len() ==> is_piece(#[trigger] pieces[i])
        },
{
    lemma_split_state_inv(s);
    if let Ok((out, cur)) = split_state(s) {
        let flushed = flush_piece(out, cur);
        if cur.len() > 0 {
            assert(flushed.drop_last() =~= out);
        } else {
            assert(concat_pieces(out) + cur =~= concat_pieces(out));
        }
        assert forall|i: int| 0 <= i < flushed.len() implies is_piece(#[trigger] flushed[i]) by {
            if i == out.len() {
                assert(flushed[i] == cur);
            }
        }
    }
    if let Err(c) = split_state(s) {
        let i = choose|i: int|
            0 <= i < s.len() && #[trigger] s[i] == c && is_refused_char(c) && forall|j: int|
                0 <= j < i ==> !is_refused_char(#[trigger] s[j]);
        assert(is_refused_char(s[i]));
    }
}

// ---------------------------------------------------------------------------
// Whitespace between pieces does not matter

/// Reading `q` from the state `st`, one character at a time.
pub open spec fn split_run(
    st: Result<(Seq<Seq<char>>, Seq<char>), char>,
    q: Seq<char>,
) -> Result<(Seq<Seq<char>>, Seq<char>), char>
    decreases q.len(),
{
    if q.len() == 0 {
        st
    } else {
        match split_run(st, q.drop_last()) {
            Ok((out, cur)) => split_step(out, cur, q.last()),
            Err(c) => Err(c),
        }
    }
}

/// Reading `p + q` is reading `p`, then reading `q` from there.
proof fn lemma_split_state_concat(p: Seq<char>, q: Seq<char>)
    ensures
        split_state(p + q) == split_run(split_state(p), q),
    decreases q.len(),
{
    if q.len() == 0 {
        assert(p + q =~= p);
    } else {
        assert((p + q).drop_last() =~= p + q.drop_last());
        assert((p + q).last() == q.last());
        lemma_split_state_concat(p, q.drop_last());
    }
}

/// Once two readings agree, they agree on whatever follows.
proof fn lemma_split_run_agree(
    st1: Result<(Seq<Seq<char>>, Seq<char>), char>,
    st2: Result<(Seq<Seq<char>>, Seq<char>), char>,
    a: Seq<char>,
    b: Seq<char>,
)
    requires
        split_run(st1, a) == split_run(st2, a),
    ensures
        split_run(st1, a + b) == split_run(st2, a + b),
    decreases b.len(),
{
    if b.len() == 0 {
        assert(a + b =~= a);
    } else {
        lemma_split_run_agree(st1, st2, a, b.drop_last());
        assert((a + b).drop_last() =~= a + b.drop_last());
        assert((a + b).last() == b.last());
    }
}

/// The piece being read is only non-empty right after a word character.
proof fn lemma_current_piece_after_word(p: Seq<char>)
    ensures
        split_state(p) matches Ok((out, cur)) && cur.len() > 0 ==> p.len() > 0 && is_word_char(
            p.last(),
        ),
{
}

/// Inserting a whitespace character anywhere but inside a run of word
/// characters leaves the tokens, and the error, of a text unchanged.  (Read
/// from right to left, the same law says that removing such whitespace
/// changes nothing either.)
pub proof fn lemma_tokenize_whitespace_insertion(p: Seq<char>, w: char, q: Seq<char>)
    requires
        is_white_space(w),
        p.len() == 0 || q.len() == 0 || !is_word_char(p.last()) || !is_word_char(q[0]),
    ensures
        tokenize_spec(p + seq![w] + q) == tokenize_spec(p + q),
{
    let pw = p + seq![w];
    assert(pw.drop_last() =~= p);
    assert(pw.last() == w);
    assert(p + seq![w] + q =~= pw + q);
    lemma_split_state_concat(p, q);
    lemma_split_state_concat(pw, q);
    lemma_current_piece_after_word(p);
    let st = split_state(p);
    let stw = split_state(pw);
    if let Ok((out, cur)) = st {
        if cur.len() == 0 {
            assert(flush_piece(out, cur) =~= out);
            assert(stw == st);
        } else if q.len() == 0 {
            assert(p + q =~= p);
            assert(pw + q =~= pw);
        } else {
            let a = seq![q[0]];
            let b = q.drop_first();
            assert(a + b =~= q);
            let empty = Seq::<char>::empty();
            assert(a.drop_last() =~= empty);
            assert(split_run(st, empty) == st);
            assert(split_run(stw, empty) == stw);
            let f = flush_piece(out, cur);
            assert(stw == Ok::<(Seq<Seq<char>>, Seq<char>), char>((f, empty)));
            assert(flush_piece(f, empty) =~= f);
            assert(split_run(st, a) == split_step(out, cur, q[0]));
            assert(split_run(stw, a) == split_step(f, empty, q[0]));
            assert(split_run(st, a) == split_run(stw, a));
            lemma_split_run_agree(st, stw, a, b);
        }
    } else {
        lemma_split_run_error(st, q);
        lemma_split_run_error(stw, q);
    }
}

/// A failed reading stays failed with the same character.
proof fn lemma_split_run_error(st: Result<(Seq<Seq<char>>, Seq<char>), char>, q: Seq<char>)
    requires
        st is Err,
    ensures
        split_run(st, q) == st,
    decreases q.len(),
{
    if q.len() > 0 {
        lemma_split_run_error(st, q.drop_last());
    }
}

/// Which whitespace character stands somewhere does not matter: replacing
/// one by another leaves the tokens, and the error, unchanged.
pub proof fn lemma_tokenize_whitespace_replacement(p: Seq<char>, w1: char, w2: char, q: Seq<char>)
    requires
        is_white_space(w1),
        is_white_space(w2),
    ensures
        tokenize_spec(p + seq![w1] + q) == tokenize_spec(p + seq![w2] + q),
{
    let p1 = p + seq![w1];
    let p2 = p + seq![w2];
    assert(p1.drop_last() =~= p);
    assert(p2.drop_last() =~= p);
    assert(p1.last() == w1);
    assert(p2.last() == w2);
    assert(split_state(p1) == split_state(p2));
    lemma_split_state_concat(p1, q);
    lemma_split_state_concat(p2, q);
}

/// Splitting grows with the text one character at a time.  A whitespace
/// character adds nothing; a separator adds a piece of its own; a refused
/// character is the error; a word character right after a word character
/// extends the last piece, so pieces are the longest runs of word characters;
/// any other word character starts a new piece.  Once a text is refused,
/// every longer text is refused for the same character.  The empty text has
/// no pieces.
pub proof fn lemma_split_push(s: Seq<char>, c: char)
    ensures
        split_spec(Seq::<char>::empty()) == Ok::<Seq<Seq<char>>, char>(Seq::empty()),
        split_spec(s) matches Ok(pieces) ==> split_spec(s.push(c)) == if is_white_space(c) {
            Ok::<Seq<Seq<char>>, char>(pieces)
        } else if is_separator(c) {
            Ok(pieces.push(seq![c]))
        } else if is_control_char(c) {
            Err(c)
        } else if s.len() > 0 && is_word_char(s.last()) {
            Ok(pieces.drop_last().push(pieces.last().push(c)))
        } else {
            Ok(pieces.push(seq![c]))
        },
        split_spec(s) matches Err(e) ==> split_spec(s.push(c)) == Err::<Seq<Seq<char>>, char>(e),
{
    let s2 = s.push(c);
    assert(s2.drop_last() =~= s);
    assert(s2.last() == c);
    lemma_current_piece_after_word(s);
    if let Ok((out, cur)) = split_state(s) {
        let f = flush_piece(out, cur);
        assert(flush_piece(f, Seq::<char>::empty()) =~= f);
        if is_word_char(c) {
            if s.len() > 0 && is_word_char(s.last()) {
                assert(s.drop_last().push(s.last()) =~= s);
                assert(cur.len() > 0);
                assert(f.drop_last() =~= out);
            } else {
                assert(cur.len() == 0);
                assert(cur.push(c) =~= seq![c]);
            }
        }
    }
}

// ---------------------------------------------------------------------------
// Turning pieces into tokens

/// The token that a piece spells when it is punctuation or a keyword.
pub open spec fn keyword_token(text: Seq<char>) -> Option<TokenModel> {
    if text == seq!['('] {
        Some(TokenModel::LeftParen)
    } else if text == seq![')'] {
        Some(TokenModel::RightParen)
    } else if text == seq![','] {
        Some(TokenModel::Comma)
    } else if text == seq!['='] {
        Some(TokenModel::Assignment)
    } else if text == seq!['l', 'e', 't'] {
        Some(TokenModel::Let)
    } else if text == seq!['i', 'n'] {
        Some(TokenModel::In)
    } else if text == seq!['i', 'f'] {
        Some(TokenModel::If)
    } else if text == seq!['t', 'h', 'e', 'n'] {
        Some(TokenModel::Then)
    } else if text == seq!['e', 'l', 's', 'e'] {
        Some(TokenModel::Else)
    } else if text == seq!['z', 'e', 'r', 'o', '?'] {
        Some(TokenModel::ZeroPredicate)
    } else if text == seq!['p', 'r', 'o', 'c'] {
        Some(TokenModel::Procedure)
    } else if text == seq!['l', 'e', 't', 'r', 'e', 'c'] {
        Some(TokenModel::RecursiveLet)
    } else if text == seq!['-'] {
        Some(TokenModel::Minus)
    } else if text == seq!['+'] {
        Some(TokenModel::Plus)
    } else if text == seq!['*'] {
        Some(TokenModel::Times)
    } else if text == seq!['/'] {
        Some(TokenModel::Div)
    } else {
        None
    }
}

/// The token of one piece: a keyword, else a number literal when the piece
/// starts with a numeric character, else an identifier.
pub open spec fn classify_spec(text: Seq<char>) -> Result<TokenModel, LexErrorModel> {
    match keyword_token(text) {
        Some(t) => Ok(t),
        None => if text.len() > 0 && is_numeric_char(text[0]) {
            match parse_i32_spec(text) {
                Some(n) => Ok(TokenModel::Number(n)),
                None => Err(LexErrorModel::InvalidNumberLiteral(text)),
            }
        } else {
            Ok(TokenModel::Identifier(text))
        },
    }
}

/// How each fixed token is written in source text.
pub open spec fn fixed_token_text(t: TokenModel) -> Option<Seq<char>> {
    match t {
        TokenModel::LeftParen => Some(seq!['(']),
        TokenModel::RightParen => Some(seq![')']),
        TokenModel::Comma => Some(seq![',']),
        TokenModel::Assignment => Some(seq!['=']),
        TokenModel::Let => Some(seq!['l', 'e', 't']),
        TokenModel::In => Some(seq!['i', 'n']),
        TokenModel::If => Some(seq!['i', 'f']),
        TokenModel::Then => Some(seq!['t', 'h', 'e', 'n']),
        TokenModel::Else => Some(seq!['e', 'l', 's', 'e']),
        TokenModel::ZeroPredicate => Some(seq!['z', 'e', 'r', 'o', '?']),
        TokenModel::Procedure => Some(seq!['p', 'r', 'o', 'c']),
        TokenModel::RecursiveLet => Some(seq!['l', 'e', 't', 'r', 'e', 'c']),
        TokenModel::Minus => Some(seq!['-']),
        TokenModel::Plus => Some(seq!['+']),
        TokenModel::Times => Some(seq!['*']),
        TokenModel::Div => Some(seq!['/']),
        _ => None,
    }
}

/// Every fixed token lexes back from its written form, and a text is taken
/// for a fixed token only when it is that token's written form.
pub proof fn lemma_fixed_token_text(t: TokenModel, text: Seq<char>)
    ensures
        fixed_token_text(t) == Some(text) ==> classify_spec(text) == Ok::<TokenModel, LexErrorModel>(t),
        keyword_token(text) == Some(t) ==> fixed_token_text(t) == Some(text),
{
}

/// A text that is not the written form of a fixed token and does not start
/// with a numeric character is an identifier with that very name.
pub proof fn lemma_identifier_text(text: Seq<char>)
    requires
        forall|t: TokenModel| fixed_token_text(t) != Some(text),
        text.len() == 0 || !is_numeric_char(text[0]),
    ensures
        classify_spec(text) == Ok::<TokenModel, LexErrorModel>(TokenModel::Identifier(text)),
{
    if let Some(t) = keyword_token(text) {
        lemma_fixed_token_text(t, text);
    }
}

/// The tokens of the pieces, in order, or the error of the first piece that has none.
pub open spec fn classify_all(pieces: Seq<Seq<char>>) -> Result<Seq<TokenModel>, LexErrorModel>
    decreases pieces.len(),
{
    if pieces.len() == 0 {
        Ok(Seq::empty())
    } else {
        match classify_all(pieces.drop_last()) {
            Ok(ts) => match classify_spec(pieces.last()) {
                Ok(t) => Ok(ts.push(t)),
                Err(e) => Err(e),
            },
            Err(e) => Err(e),
        }
    }
}

/// Turning pieces into tokens goes piece by piece, in order: it succeeds
/// exactly when every piece has a token, and then gives the pieces' tokens
/// one for one; otherwise it gives the error of the first piece that has none.
pub proof fn lemma_classify_all(pieces: Seq<Seq<char>>)
    ensures
        classify_all(pieces) is Ok <==> forall|i: int|
            0 <= i < pieces.len() ==> #[trigger] classify_spec(pieces[i]) is Ok,
        classify_all(pieces) matches Ok(ts) ==> ts.len() == pieces.len() && forall|i: int|
            0 <= i < pieces.len() ==> classify_spec(#[trigger] pieces[i]) == Ok::<
                TokenModel,
                LexErrorModel,
            >(ts[i]),
        classify_all(pieces) matches Err(e) ==> exists|i: int|
            0 <= i < pieces.len() && #[trigger] classify_spec(pieces[i]) == Err::<
                TokenModel,
                LexErrorModel,
            >(e) && forall|j: int| 0 <= j < i ==> classify_spec(#[trigger] pieces[j]) is Ok,
    decreases pieces.len(),
{
    if pieces.len() > 0 {
        let init = pieces.drop_last();
        lemma_classify_all(init);
        assert forall|i: int| 0 <= i < init.len() implies init[i] == pieces[i] by {}
        let last = pieces.len() - 1;
        assert(pieces.last() == pieces[last]);
        match classify_all(init) {
            Ok(ts) => {
                if let Ok(t) = classify_spec(pieces.last()) {
                    let ts2 = ts.push(t);
                    assert forall|i: int| 0 <= i < pieces.len() implies classify_spec(
                        #[trigger] pieces[i],
                    ) == Ok::<TokenModel, LexErrorModel>(ts2[i]) by {
                        if i < init.len() {
                            assert(init[i] == pieces[i]);
                        }
                    }
                } else {
                    assert forall|j: int| 0 <= j < last implies classify_spec(
                        #[trigger] pieces[j],
                    ) is Ok by {
                        assert(init[j] == pieces[j]);
                    }
                }
            },
            Err(e) => {
                let i = choose|i: int|
                    0 <= i < init.len() && #[trigger] classify_spec(init[i]) == Err::<
                        TokenModel,
                        LexErrorModel,
                    >(e) && forall|j: int| 0 <= j < i ==> classify_spec(#[trigger] init[j]) is Ok;
                assert(pieces[i] == init[i]);
                assert forall|j: int| 0 <= j < i implies classify_spec(#[trigger] pieces[j]) is Ok by {
                    assert(init[j] == pieces[j]);
                }
            },
        }
    }
}

/// The tokens of a source text.
pub open spec fn tokenize_spec(s: Seq<char>) -> Result<Seq<TokenModel>, LexErrorModel> {
    match split_spec(s) {
        Ok(pieces) => classify_all(pieces),
        Err(c) => Err(LexErrorModel::UnsupportedControlCharacter(c)),
    }
}

/// The model of what `tokenize` returns.
pub open spec fn lex_result_model(
    r: Result<Vec<Token>, LexError>,
) -> Result<Seq<TokenModel>, LexErrorModel> {
    match r {
        Ok(v) => Ok(tokens_model(v@)),
        Err(e) => Err(e.model()),
    }
}

fn classify(text: &String) -> (r: Result<Token, LexError>)
    ensures
        match classify_spec(text@) {
            Ok(t) => r matches Ok(x) && x.model() == t,
            Err(e) => r matches Err(x) && x.model() == e,
        },
{
    let s = text.as_str();
    proof {
        reveal_strlit("(");
        assert("("@ =~= seq!['(']);
        reveal_strlit(")");
        assert(")"@ =~= seq![')']);
        reveal_strlit(",");
        assert(","@ =~= seq![',']);
        reveal_strlit("=");
        assert("="@ =~= seq!['=']);
        reveal_strlit("let");
        assert("let"@ =~= seq!['l', 'e', 't']);
        reveal_strlit("in");
        assert("in"@ =~= seq!['i', 'n']);
        reveal_strlit("if");
        assert("if"@ =~= seq!['i', 'f']);
        reveal_strlit("then");
        assert("then"@ =~= seq!['t', 'h', 'e', 'n']);
        reveal_strlit("else");
        assert("else"@ =~= seq!['e', 'l', 's', 'e']);
        reveal_strlit("zero?");
        assert("zero?"@ =~= seq!['z', 'e', 'r', 'o', '?']);
        reveal_strlit("proc");
        assert("proc"@ =~= seq!['p', 'r', 'o', 'c']);
        reveal_strlit("letrec");
        assert("letrec"@ =~= seq!['l', 'e', 't', 'r', 'e', 'c']);
        reveal_strlit("-");
        assert("-"@ =~= seq!['-']);
        reveal_strlit("+");
        assert("+"@ =~= seq!['+']);
        reveal_strlit("*");
        assert("*"@ =~= seq!['*']);
        reveal_strlit("/");
        assert("/"@ =~= seq!['/']);
    }
    if str_eq(s, "(") {
        return Ok(Token::LeftParen);
    }
    if str_eq(s, ")") {
        return Ok(Token::RightParen);
    }
    if str_eq(s, ",") {
        return Ok(Token::Comma);
    }
    if str_eq(s, "=") {
        return Ok(Token::Assignment);
    }
    if str_eq(s, "let") {
        return Ok(Token::Let);
    }
    if str_eq(s, "in") {
        return Ok(Token::In);
    }
    if str_eq(s, "if") {
        return Ok(Token::If);
    }
    if str_eq(s, "then") {
        return Ok(Token::Then);
    }
    if str_eq(s, "else") {
        return Ok(Token::Else);
    }
    if str_eq(s, "zero?") {
        return Ok(Token::ZeroPredicate);
    }
    if str_eq(s, "proc") {
        return Ok(Token::Procedure);
    }
    if str_eq(s, "letrec") {
        return Ok(Token::RecursiveLet);
    }
    if str_eq(s, "-") {
        return Ok(Token::Minus);
    }
    if str_eq(s, "+") {
        return Ok(Token::Plus);
    }
    if str_eq(s, "*") {
        return Ok(Token::Times);
    }
    if str_eq(s, "/") {
        return Ok(Token::Div);
    }
    if s.unicode_len() > 0 && is_numeric(s.get_char(0)) {
        match parse_i32(s) {
            Ok(n) => Ok(Token::Number(n)),
            Err(_) => Err(LexError::InvalidNumberLiteral(text.clone())),
        }
    } else {
        Ok(Token::Identifier(text.clone()))
    }
}

/// Splits a source text into tokens.
pub fn tokenize(source: &str) -> (r: Result<Vec<Token>, LexError>)
    ensures
        lex_result_model(r) == tokenize_spec(source@),
{
    let texts = match split_to_token_text(source) {
        Ok(texts) => texts,
        Err(e) => return Err(e),
    };
    let ghost pieces = strings_model(texts@);
    let mut tokens: Vec<Token> = Vec::new();
    let mut i: usize = 0;
    assert(pieces.take(0) =~= Seq::<Seq<char>>::empty());
    assert(tokens_model(tokens@) =~= Seq::<TokenModel>::empty());
    while i < texts.len()
        invariant
            pieces == strings_model(texts@),
            pieces == match split_spec(source@) { Ok(p) => p, Err(_) => pieces },
            split_spec(source@) is Ok,
            0 <= i <= texts.len(),
            classify_all(pieces.take(i as int)) == Ok::<Seq<TokenModel>, LexErrorModel>(tokens_model(tokens@)),
        decreases texts.len() - i,
    {
        assert(pieces.take(i + 1).drop_last() =~= pieces.take(i as int));
        assert(pieces.take(i + 1).last() == texts@[i as int]@);
        match classify(&texts[i]) {
            Ok(t) => {
                let ghost before = tokens_model(tokens@);
                tokens.push(t);
                assert(tokens_model(tokens@) =~= before.push(tokens@.last().model()));
            },
            Err(e) => {
                proof {
                    lemma_classify_error_persists(pieces, i + 1);
                }
                return Err(e);
            },
        }
        i = i + 1;
    }
    assert(pieces.take(texts.len() as int) =~= pieces);
    Ok(tokens)
}

/// Once classifying a prefix of the pieces has failed, classifying all of them fails the same way.
proof fn lemma_classify_error_persists(pieces: Seq<Seq<char>>, k: int)
    requires
        0 <= k <= pieces.len(),
        classify_all(pieces.take(k)) is Err,
    ensures
        classify_all(pieces) == classify_all(pieces.take(k)),
    decreases pieces.len() - k,
{
    if k < pieces.len() {
        assert(pieces.take(k + 1).drop_last() =~= pieces.take(k));
        lemma_classify_error_persists(pieces, k + 1);
    } else {
        assert(pieces.take(k) =~= pieces);
    }
}

} // verus!
