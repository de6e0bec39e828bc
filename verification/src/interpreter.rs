//! The scanner and the interpreter of the text command language.
//!
//! The scanner turns raw text into a finite sequence of tokens: keywords and
//! unsigned numbers, separated by whitespace.  The interpreter consumes the
//! tokens one command at a time, validating the grammar and assembling a
//! command list; on the first error the partial list is discarded.

use vstd::prelude::*;
use vstd::string::StrSliceExecFns;

use crate::command::{
    lemma_execute_then_rollback_restores, reversible, run_execute_all, run_rollback_all, Command,
    CommandList, DownPenCommand, MoveCommand, TurnLeftCommand, TurnRightCommand, UpPenCommand,
};
use crate::error::{Error, ErrorView};
use crate::robot::{in_bounds, RobotView};

verus! {

/// A classified lexical unit of the command language.
#[derive(Debug, Clone, Copy, PartialEq, Eq, Structural)]
pub enum Token {
    Move,
    TurnLeft,
    TurnRight,
    DownPen,
    UpPen,
    Number(u32),
}

/// Whether `c` has the Unicode Alphabetic property, as `char::is_alphabetic`
/// decides it.
pub uninterp spec fn alphabetic(c: char) -> bool;

/// Whether `c` has the Unicode White_Space property, as `char::is_whitespace`
/// decides it.
pub uninterp spec fn whitespace(c: char) -> bool;

/// Relies on char::is_alphabetic: a fixed Unicode property of the character
/// alone.
#[verifier::external_body]
fn char_is_alphabetic(c: char) -> (r: bool)
    ensures
        r == alphabetic(c),
{
    c.is_alphabetic()
}

/// Relies on char::is_whitespace: a fixed Unicode property of the character
/// alone.
#[verifier::external_body]
fn char_is_whitespace(c: char) -> (r: bool)
    ensures
        r == whitespace(c),
{
    c.is_whitespace()
}

/// Relies on String::push: appends the given character to the end of the
/// string.
#[verifier::external_body]
fn string_push(s: &mut String, c: char)
    ensures
        final(s)@ == old(s)@.push(c),
{
    s.push(c);
}

/// An ASCII decimal digit.
pub open spec fn digit(c: char) -> bool {
    48 <= c as u32 <= 57
}

/// The numeric value of an ASCII decimal digit.
pub open spec fn digit_val(c: char) -> int {
    c as u32 - 48
}

/// Whether every character of `s` is an ASCII decimal digit.
pub open spec fn all_digits(s: Seq<char>) -> bool {
    forall|k: int| 0 <= k < s.len() ==> digit(#[trigger] s[k])
}

/// The value of a digit string read in base ten.
pub open spec fn num_val(s: Seq<char>) -> int
    decreases s.len(),
{
    if s.len() == 0 {
        0
    } else {
        num_val(s.drop_last()) * 10 + digit_val(s.last())
    }
}

pub open spec fn kw_move() -> Seq<char> {
    seq!['m', 'o', 'v', 'e']
}

pub open spec fn kw_turn_left() -> Seq<char> {
    seq!['t', 'u', 'r', 'n', '_', 'l', 'e', 'f', 't']
}

pub open spec fn kw_turn_right() -> Seq<char> {
    seq!['t', 'u', 'r', 'n', '_', 'r', 'i', 'g', 'h', 't']
}

pub open spec fn kw_down_pen() -> Seq<char> {
    seq!['d', 'o', 'w', 'n', '_', 'p', 'e', 'n']
}

pub open spec fn kw_up_pen() -> Seq<char> {
    seq!['u', 'p', '_', 'p', 'e', 'n']
}

/// The token for a scanned word, if it is one of the command keywords.
pub open spec fn keyword_token(w: Seq<char>) -> Option<Token> {
    if w == kw_move() {
        Some(Token::Move)
    } else if w == kw_turn_left() {
        Some(Token::TurnLeft)
    } else if w == kw_turn_right() {
        Some(Token::TurnRight)
    } else if w == kw_down_pen() {
        Some(Token::DownPen)
    } else if w == kw_up_pen() {
        Some(Token::UpPen)
    } else {
        None
    }
}

/// The first position at or after `i` that holds whitespace, or the end of
/// the text.
pub open spec fn token_end(s: Seq<char>, i: int) -> int
    decreases s.len() - i,
{
    if i < 0 || i >= s.len() {
        s.len() as int
    } else if whitespace(s[i]) {
        i
    } else {
        token_end(s, i + 1)
    }
}

/// The position after a token whose text ends at `j`: the delimiting
/// whitespace, when there is one, is consumed along with the token.
pub open spec fn after_token(s: Seq<char>, j: int) -> int {
    if j < s.len() {
        j + 1
    } else {
        j
    }
}

/// What one scanning step yields: clean end of input, a token together with
/// the position after it, or a scan error.
pub enum ScanResult {
    End,
    Tok(Token, int),
    Fail(ErrorView),
}

/// The scan of the word whose lead character, a letter, stands at `i`.
pub open spec fn scan_keyword_at(s: Seq<char>, i: int) -> ScanResult {
    let j = token_end(s, i + 1);
    let w = s.subrange(i, j);
    match keyword_token(w) {
        Some(t) => ScanResult::Tok(t, after_token(s, j)),
        None => ScanResult::Fail(ErrorView::UndefinedCommand(w)),
    }
}

/// The scan of the word whose lead character, a digit, stands at `i`.
pub open spec fn scan_number_at(s: Seq<char>, i: int) -> ScanResult {
    let j = token_end(s, i + 1);
    let w = s.subrange(i, j);
    if all_digits(w) && num_val(w) <= u32::MAX {
        ScanResult::Tok(Token::Number(num_val(w) as u32), after_token(s, j))
    } else {
        ScanResult::Fail(ErrorView::InvalidCommandParameter(w))
    }
}

/// One scanning step from position `i`: skips whitespace, then classifies by
/// the lead character exactly as the scanner does.
pub open spec fn scan_from(s: Seq<char>, i: int) -> ScanResult
    decreases s.len() - i,
{
    if i < 0 || i >= s.len() {
        ScanResult::End
    } else if alphabetic(s[i]) {
        scan_keyword_at(s, i)
    } else if digit(s[i]) {
        scan_number_at(s, i)
    } else if whitespace(s[i]) {
        scan_from(s, i + 1)
    } else {
        ScanResult::Fail(ErrorView::UnexpectedCharacter(s[i]))
    }
}

/// `token_end` is exactly the end of the run of non-whitespace characters
/// that starts at `i`.
proof fn lemma_token_end_value(s: Seq<char>, i: int, j: int)
    requires
        0 <= i <= j <= s.len(),
        forall|k: int| i <= k < j ==> !whitespace(#[trigger] s[k]),
        j < s.len() ==> whitespace(s[j]),
    ensures
        token_end(s, i) == j,
    decreases j - i,
{
    if i < j {
        lemma_token_end_value(s, i + 1, j);
    }
}

/// The bounds of `token_end`.
proof fn lemma_token_end_bounds(s: Seq<char>, i: int)
    requires
        0 <= i <= s.len(),
    ensures
        i <= token_end(s, i) <= s.len(),
    decreases s.len() - i,
{
    if i < s.len() && !whitespace(s[i]) {
        lemma_token_end_bounds(s, i + 1);
    }
}

/// A scanned token always stands strictly ahead of where the scan began, and
/// never past the end of the text.
pub proof fn lemma_scan_advances(s: Seq<char>, i: int)
    requires
        0 <= i,
        scan_from(s, i) is Tok,
    ensures
        i < scan_from(s, i)->1 <= s.len(),
    decreases s.len() - i,
{
    if i < s.len() {
        if alphabetic(s[i]) || (!alphabetic(s[i]) && digit(s[i])) {
            lemma_token_end_bounds(s, i + 1);
        } else if whitespace(s[i]) {
            lemma_scan_advances(s, i + 1);
        }
    }
}

/// The scanner's mathematical state: the full text and the next position.
pub struct ScannerView {
    pub text: Seq<char>,
    pub pos: int,
}

/// Converts raw text into a lazy, finite sequence of tokens.
pub struct Scanner {
    text: Vec<char>,
    pos: usize,
}

impl View for Scanner {
    type V = ScannerView;

    closed spec fn view(&self) -> ScannerView {
        ScannerView { text: self.text@, pos: self.pos as int }
    }
}

impl Scanner {
    #[verifier::type_invariant]
    spec fn wf(self) -> bool {
        self.pos <= self.text.len()
    }

    pub fn new(input: &str) -> (r: Self)
        ensures
            r@.text == input@,
            r@.pos == 0,
    {
        let n = input.unicode_len();
        let mut text: Vec<char> = Vec::new();
        let mut i: usize = 0;
        while i < n
            invariant
                n == input@.len(),
                i <= n,
                text@ == input@.take(i as int),
            decreases n - i,
        {
            let c = input.get_char(i);
            text.push(c);
            proof {
                assert(text@ =~= input@.take(i + 1));
            }
            i = i + 1;
        }
        proof {
            assert(text@ =~= input@);
        }
        Self { text, pos: 0 }
    }

    /// Yields the next token, `None` at a clean end of input, or the scan
    /// error, exactly as `scan_from` describes from the current position.
    pub fn next_token(&mut self) -> (r: Result<Option<Token>, Error>)
        ensures
            final(self)@.text == old(self)@.text,
            match scan_from(old(self)@.text, old(self)@.pos) {
                ScanResult::End => r == Ok::<Option<Token>, Error>(None)
                    && final(self)@.pos == old(self)@.text.len(),
                ScanResult::Tok(t, p) => r == Ok::<Option<Token>, Error>(Some(t))
                    && final(self)@.pos == p,
                ScanResult::Fail(e) => r is Err && r->Err_0@ == e,
            },
    {
        proof {
            use_type_invariant(&*self);
        }
        let ghost s = self@.text;
        let ghost p0 = self@.pos;
        loop
            invariant
                self@.text == s,
                s == old(self)@.text,
                p0 == old(self)@.pos,
                0 <= self@.pos <= s.len(),
                scan_from(s, p0) == scan_from(s, self@.pos),
            decreases s.len() - self@.pos,
        {
            let ghost i = self@.pos;
            match self.next_char() {
                None => {
                    return Ok(None);
                },
                Some(c) => {
                    if char_is_alphabetic(c) {
                        let r = self.scan_keyword(c);
                        proof {
                            lemma_token_end_bounds(s, i + 1);
                            assert(seq![c] + s.subrange(i + 1, token_end(s, i + 1)) =~= s.subrange(
                                i,
                                token_end(s, i + 1),
                            ));
                        }
                        match r {
                            Ok(t) => {
                                return Ok(Some(t));
                            },
                            Err(e) => {
                                return Err(e);
                            },
                        }
                    } else if is_digit(c) {
                        let r = self.scan_number(c);
                        proof {
                            lemma_token_end_bounds(s, i + 1);
                            assert(seq![c] + s.subrange(i + 1, token_end(s, i + 1)) =~= s.subrange(
                                i,
                                token_end(s, i + 1),
                            ));
                        }
                        match r {
                            Ok(t) => {
                                return Ok(Some(t));
                            },
                            Err(e) => {
                                return Err(e);
                            },
                        }
                    } else if char_is_whitespace(c) {
                    } else {
                        return Err(Error::UnexpectedCharacter(c));
                    }
                },
            }
        }
    }

    /// Hands out the next character and advances past it.
    fn next_char(&mut self) -> (r: Option<char>)
        ensures
            final(self)@.text == old(self)@.text,
            old(self)@.pos < old(self)@.text.len() ==> r == Some(
                old(self)@.text[old(self)@.pos],
            ) && final(self)@.pos == old(self)@.pos + 1,
            old(self)@.pos >= old(self)@.text.len() ==> r is None && final(self)@ == old(self)@,
    {
        proof {
            use_type_invariant(&*self);
        }
        if self.pos < self.text.len() {
            let c = self.text[self.pos];
            self.pos = self.pos + 1;
            Some(c)
        } else {
            None
        }
    }

    /// Scans the rest of a word led by a letter and classifies it against
    /// the keyword set.
    fn scan_keyword(&mut self, first: char) -> (r: Result<Token, Error>)
        ensures
            final(self)@.text == old(self)@.text,
            ({
                let s = old(self)@.text;
                let i = old(self)@.pos;
                let j = token_end(s, i);
                let w = seq![first] + s.subrange(i, j);
                &&& final(self)@.pos == after_token(s, j)
                &&& match keyword_token(w) {
                    Some(t) => r == Ok::<Token, Error>(t),
                    None => r is Err && r->Err_0@ == ErrorView::UndefinedCommand(w),
                }
            }),
    {
        let buffer = self.collect_word(first);
        match match_keyword(&buffer) {
            Some(t) => Ok(t),
            None => Err(Error::UndefinedCommand(chars_to_string(&buffer))),
        }
    }

    /// Scans the rest of a word led by a digit and parses it as an unsigned
    /// integer.
    fn scan_number(&mut self, first: char) -> (r: Result<Token, Error>)
        ensures
            final(self)@.text == old(self)@.text,
            ({
                let s = old(self)@.text;
                let i = old(self)@.pos;
                let j = token_end(s, i);
                let w = seq![first] + s.subrange(i, j);
                &&& final(self)@.pos == after_token(s, j)
                &&& if all_digits(w) && num_val(w) <= u32::MAX {
                    r == Ok::<Token, Error>(Token::Number(num_val(w) as u32))
                } else {
                    r is Err && r->Err_0@ == ErrorView::InvalidCommandParameter(w)
                }
            }),
    {
        let buffer = self.collect_word(first);
        match parse_u32(&buffer) {
            Some(n) => Ok(Token::Number(n)),
            None => Err(Error::InvalidCommandParameter(chars_to_string(&buffer))),
        }
    }

    /// Accumulates the lead character and everything up to the next
    /// whitespace, which is consumed along with the word.
    fn collect_word(&mut self, first: char) -> (r: Vec<char>)
        ensures
            final(self)@.text == old(self)@.text,
            r@ == seq![first] + old(self)@.text.subrange(
                old(self)@.pos,
                token_end(old(self)@.text, old(self)@.pos),
            ),
            final(self)@.pos == after_token(
                old(self)@.text,
                token_end(old(self)@.text, old(self)@.pos),
            ),
    {
        proof {
            use_type_invariant(&*self);
        }
        let ghost s = self@.text;
        let ghost i0 = self@.pos;
        let mut buffer: Vec<char> = Vec::new();
        buffer.push(first);
        proof {
            assert(buffer@ =~= seq![first] + s.subrange(i0, i0));
        }
        loop
            invariant_except_break
                buffer@ == seq![first] + s.subrange(i0, self@.pos),
                forall|k: int| i0 <= k < self@.pos ==> !whitespace(#[trigger] s[k]),
            invariant
                self@.text == s,
                s == old(self)@.text,
                i0 == old(self)@.pos,
                0 <= i0 <= self@.pos <= s.len(),
            ensures
                self@.text == s,
                s == old(self)@.text,
                i0 == old(self)@.pos,
                buffer@ == seq![first] + s.subrange(i0, token_end(s, i0)),
                self@.pos == after_token(s, token_end(s, i0)),
            decreases s.len() - self@.pos,
        {
            let ghost j = self@.pos;
            match self.next_char() {
                None => {
                    proof {
                        lemma_token_end_value(s, i0, s.len() as int);
                        lemma_token_end_bounds(s, i0);
                    }
                    break ;
                },
                Some(ch) => {
                    if char_is_whitespace(ch) {
                        proof {
                            lemma_token_end_value(s, i0, j);
                            lemma_token_end_bounds(s, i0);
                        }
                        break ;
                    } else {
                        buffer.push(ch);
                        proof {
                            assert(buffer@ =~= seq![first] + s.subrange(i0, j + 1));
                        }
                    }
                },
            }
        }
        buffer
    }
}

/// Compares a scanned word against one keyword, character by character.
fn word_eq(buf: &Vec<char>, kw: &[char]) -> (r: bool)
    ensures
        r == (buf@ == kw@),
{
    if buf.len() != kw.len() {
        return false;
    }
    let n = buf.len();
    let mut i: usize = 0;
    while i < n
        invariant
            n == buf@.len(),
            n == kw@.len(),
            i <= n,
            forall|k: int| 0 <= k < i ==> buf@[k] == kw@[k],
        decreases n - i,
    {
        if buf[i] != kw[i] {
            return false;
        }
        i = i + 1;
    }
    proof {
        assert(buf@ =~= kw@);
    }
    true
}

/// Matches a scanned word against the fixed keyword set.
fn match_keyword(buf: &Vec<char>) -> (r: Option<Token>)
    ensures
        r == keyword_token(buf@),
{
    let kw_m: [char; 4] = ['m', 'o', 'v', 'e'];
    let kw_tl: [char; 9] = ['t', 'u', 'r', 'n', '_', 'l', 'e', 'f', 't'];
    let kw_tr: [char; 10] = ['t', 'u', 'r', 'n', '_', 'r', 'i', 'g', 'h', 't'];
    let kw_dp: [char; 8] = ['d', 'o', 'w', 'n', '_', 'p', 'e', 'n'];
    let kw_up: [char; 6] = ['u', 'p', '_', 'p', 'e', 'n'];
    proof {
        assert(kw_m@ =~= kw_move());
        assert(kw_tl@ =~= kw_turn_left());
        assert(kw_tr@ =~= kw_turn_right());
        assert(kw_dp@ =~= kw_down_pen());
        assert(kw_up@ =~= kw_up_pen());
    }
    if word_eq(buf, kw_m.as_slice()) {
        Some(Token::Move)
    } else if word_eq(buf, kw_tl.as_slice()) {
        Some(Token::TurnLeft)
    } else if word_eq(buf, kw_tr.as_slice()) {
        Some(Token::TurnRight)
    } else if word_eq(buf, kw_dp.as_slice()) {
        Some(Token::DownPen)
    } else if word_eq(buf, kw_up.as_slice()) {
        Some(Token::UpPen)
    } else {
        None
    }
}

/// Whether the character is an ASCII decimal digit.
fn is_digit(c: char) -> (r: bool)
    ensures
        r == digit(c),
{
    let u = c as u32;
    48 <= u && u <= 57
}

/// Every prefix of an all-digit string has a value no greater than the whole
/// string's, and at least zero.
proof fn lemma_num_val_mono(s: Seq<char>, i: int)
    requires
        0 <= i <= s.len(),
        all_digits(s),
    ensures
        0 <= num_val(s.take(i)) <= num_val(s),
    decreases s.len() - i,
{
    lemma_num_val_nonneg(s.take(i));
    if i == s.len() {
        assert(s.take(i) =~= s);
    } else {
        assert(s.take(i + 1).drop_last() =~= s.take(i));
        assert(s.take(i + 1).last() == s[i]);
        lemma_num_val_nonneg(s.take(i));
        assert(num_val(s.take(i + 1)) == num_val(s.take(i)) * 10 + digit_val(s[i]));
        lemma_num_val_mono(s, i + 1);
    }
}

/// An all-digit string has a non-negative value.
proof fn lemma_num_val_nonneg(s: Seq<char>)
    requires
        forall|k: int| 0 <= k < s.len() ==> digit(#[trigger] s[k]),
    ensures
        num_val(s) >= 0,
    decreases s.len(),
{
    if s.len() > 0 {
        lemma_num_val_nonneg(s.drop_last());
    }
}

/// Parses a scanned word as a base-ten `u32`: succeeds exactly when the word
/// is all digits and its value fits.
fn parse_u32(buf: &Vec<char>) -> (r: Option<u32>)
    ensures
        match r {
            Some(n) => all_digits(buf@) && n == num_val(buf@),
            None => !(all_digits(buf@) && num_val(buf@) <= u32::MAX),
        },
{
    let mut acc: u32 = 0;
    let n = buf.len();
    let mut i: usize = 0;
    while i < n
        invariant
            n == buf@.len(),
            i <= n,
            forall|k: int| 0 <= k < i ==> digit(#[trigger] buf@[k]),
            acc == num_val(buf@.take(i as int)),
        decreases n - i,
    {
        let c = buf[i];
        if !is_digit(c) {
            return None;
        }
        let d = (c as u32) - 48;
        let wide: u64 = acc as u64 * 10 + d as u64;
        proof {
            assert(buf@.take(i + 1).drop_last() =~= buf@.take(i as int));
            assert(buf@.take(i + 1).last() == buf@[i as int]);
            assert(num_val(buf@.take(i + 1)) == num_val(buf@.take(i as int)) * 10 + digit_val(
                buf@[i as int],
            ));
        }
        if wide > u32::MAX as u64 {
            proof {
                if all_digits(buf@) {
                    lemma_num_val_mono(buf@, i + 1);
                }
            }
            return None;
        }
        acc = wide as u32;
        i = i + 1;
    }
    proof {
        assert(buf@.take(n as int) =~= buf@);
    }
    Some(acc)
}

/// Builds a `String` holding exactly the scanned characters.
fn chars_to_string(buf: &Vec<char>) -> (r: String)
    ensures
        r@ == buf@,
{
    let mut s = String::new();
    let n = buf.len();
    let mut i: usize = 0;
    while i < n
        invariant
            n == buf@.len(),
            i <= n,
            s@ == buf@.take(i as int),
        decreases n - i,
    {
        string_push(&mut s, buf[i]);
        proof {
            assert(s@ =~= buf@.take(i + 1));
        }
        i = i + 1;
    }
    proof {
        assert(buf@.take(n as int) =~= buf@);
    }
    s
}

/// The command list that interpretation yields from position `i`, or the
/// first error: the grammar is a sequence of statements, each a keyword
/// followed by a number argument where the command takes one.
pub open spec fn interpret_from(s: Seq<char>, i: int) -> Result<Seq<Command>, ErrorView>
    decreases s.len() - i,
        when 0 <= i
{
    match scan_from(s, i) {
        ScanResult::End => Ok(Seq::empty()),
        ScanResult::Fail(e) => Err(e),
        ScanResult::Tok(t, p) => match t {
            Token::Move => match scan_from(s, p) {
                ScanResult::Tok(t2, q) => match t2 {
                    Token::Number(d) => {
                        proof {
                            lemma_scan_advances(s, i);
                            lemma_scan_advances(s, p);
                        }
                        match interpret_from(s, q) {
                            Ok(rest) => Ok(seq![Command::Move(MoveCommand { distance: d })] + rest),
                            Err(e) => Err(e),
                        }
                    },
                    _ => Err(ErrorView::UnexpectedToken(t2)),
                },
                ScanResult::End => Err(ErrorView::InvalidCommand),
                ScanResult::Fail(e) => Err(e),
            },
            Token::TurnLeft => match scan_from(s, p) {
                ScanResult::Tok(t2, q) => match t2 {
                    Token::Number(d) => {
                        proof {
                            lemma_scan_advances(s, i);
                            lemma_scan_advances(s, p);
                        }
                        match interpret_from(s, q) {
                            Ok(rest) => Ok(
                                seq![
                                    Command::TurnLeft(TurnLeftCommand { times: (d % 4) as u8 }),
                                ] + rest,
                            ),
                            Err(e) => Err(e),
                        }
                    },
                    _ => Err(ErrorView::UnexpectedToken(t2)),
                },
                ScanResult::End => Err(ErrorView::InvalidCommand),
                ScanResult::Fail(e) => Err(e),
            },
            Token::TurnRight => match scan_from(s, p) {
                ScanResult::Tok(t2, q) => match t2 {
                    Token::Number(d) => {
                        proof {
                            lemma_scan_advances(s, i);
                            lemma_scan_advances(s, p);
                        }
                        match interpret_from(s, q) {
                            Ok(rest) => Ok(
                                seq![
                                    Command::TurnRight(TurnRightCommand { times: (d % 4) as u8 }),
                                ] + rest,
                            ),
                            Err(e) => Err(e),
                        }
                    },
                    _ => Err(ErrorView::UnexpectedToken(t2)),
                },
                ScanResult::End => Err(ErrorView::InvalidCommand),
                ScanResult::Fail(e) => Err(e),
            },
            Token::DownPen => {
                proof {
                    lemma_scan_advances(s, i);
                }
                match interpret_from(s, p) {
                    Ok(rest) => Ok(seq![Command::DownPen(DownPenCommand)] + rest),
                    Err(e) => Err(e),
                }
            },
            Token::UpPen => {
                proof {
                    lemma_scan_advances(s, i);
                }
                match interpret_from(s, p) {
                    Ok(rest) => Ok(seq![Command::UpPen(UpPenCommand)] + rest),
                    Err(e) => Err(e),
                }
            },
            Token::Number(d) => Err(ErrorView::UnexpectedToken(Token::Number(d))),
        },
    }
}

/// Consumes a scanner's token stream, validating the command grammar and
/// assembling a command list.
pub struct Interpreter {
    scanner: Scanner,
}

impl View for Interpreter {
    type V = ScannerView;

    closed spec fn view(&self) -> ScannerView {
        self.scanner@
    }
}

impl Interpreter {
    pub fn new(input: &str) -> (r: Self)
        ensures
            r@.text == input@,
            r@.pos == 0,
    {
        let scanner = Scanner::new(input);
        Self { scanner }
    }

    /// Interprets the whole remaining input, all-or-nothing: returns the
    /// command list that `interpret_from` describes, or the first error with
    /// no partial list.
    pub fn interpret(&mut self) -> (r: Result<CommandList, Error>)
        ensures
            final(self)@.text == old(self)@.text,
            match interpret_from(old(self)@.text, old(self)@.pos) {
                Ok(cmds) => r is Ok && r->Ok_0@ == cmds,
                Err(e) => r is Err && r->Err_0@ == e,
            },
    {
        let mut command_list = CommandList::new();
        proof {
            use_type_invariant(&self.scanner);
        }
        let ghost s = self@.text;
        let ghost p0 = self@.pos;
        loop
            invariant
                self@.text == s,
                s == old(self)@.text,
                p0 == old(self)@.pos,
                0 <= self@.pos <= s.len(),
                interpret_from(s, p0) == (match interpret_from(s, self@.pos) {
                    Ok(rest) => Ok::<Seq<Command>, ErrorView>(command_list@ + rest),
                    Err(e) => Err::<Seq<Command>, ErrorView>(e),
                }),
            decreases s.len() - self@.pos,
        {
            let ghost i = self@.pos;
            match self.next_token() {
                Err(e) => {
                    return Err(e);
                },
                Ok(None) => {
                    proof {
                        assert(command_list@ + Seq::<Command>::empty() =~= command_list@);
                    }
                    return Ok(command_list);
                },
                Ok(Some(token)) => {
                    proof {
                        lemma_scan_advances(s, i);
                    }
                    match token {
                        Token::Move => {
                            let ghost i2 = self@.pos;
                            match self.next_token() {
                                Err(e) => {
                                    return Err(e);
                                },
                                Ok(None) => {
                                    return Err(Error::InvalidCommand);
                                },
                                Ok(Some(Token::Number(distance))) => {
                                    proof {
                                        lemma_scan_advances(s, i2);
                                    }
                                    let ghost before = command_list@;
                                    command_list.add_command(
                                        Command::Move(MoveCommand::new(distance)),
                                    );
                                    proof {
                                        lemma_append_one(
                                            before,
                                            Command::Move(MoveCommand { distance }),
                                        );
                                    }
                                },
                                Ok(Some(other)) => {
                                    return Err(Error::UnexpectedToken(other));
                                },
                            }
                        },
                        Token::TurnLeft => {
                            let ghost i2 = self@.pos;
                            match self.next_token() {
                                Err(e) => {
                                    return Err(e);
                                },
                                Ok(None) => {
                                    return Err(Error::InvalidCommand);
                                },
                                Ok(Some(Token::Number(angle))) => {
                                    proof {
                                        lemma_scan_advances(s, i2);
                                    }
                                    let ghost before = command_list@;
                                    command_list.add_command(
                                        Command::TurnLeft(TurnLeftCommand::new(angle)),
                                    );
                                    proof {
                                        lemma_append_one(
                                            before,
                                            Command::TurnLeft(
                                                TurnLeftCommand { times: (angle % 4) as u8 },
                                            ),
                                        );
                                    }
                                },
                                Ok(Some(other)) => {
                                    return Err(Error::UnexpectedToken(other));
                                },
                            }
                        },
                        Token::TurnRight => {
                            let ghost i2 = self@.pos;
                            match self.next_token() {
                                Err(e) => {
                                    return Err(e);
                                },
                                Ok(None) => {
                                    return Err(Error::InvalidCommand);
                                },
                                Ok(Some(Token::Number(angle))) => {
                                    proof {
                                        lemma_scan_advances(s, i2);
                                    }
                                    let ghost before = command_list@;
                                    command_list.add_command(
                                        Command::TurnRight(TurnRightCommand::new(angle)),
                                    );
                                    proof {
                                        lemma_append_one(
                                            before,
                                            Command::TurnRight(
                                                TurnRightCommand { times: (angle % 4) as u8 },
                                            ),
                                        );
                                    }
                                },
                                Ok(Some(other)) => {
                                    return Err(Error::UnexpectedToken(other));
                                },
                            }
                        },
                        Token::DownPen => {
                            let ghost before = command_list@;
                            command_list.add_command(Command::DownPen(DownPenCommand));
                            proof {
                                lemma_append_one(before, Command::DownPen(DownPenCommand));
                            }
                        },
                        Token::UpPen => {
                            let ghost before = command_list@;
                            command_list.add_command(Command::UpPen(UpPenCommand));
                            proof {
                                lemma_append_one(before, Command::UpPen(UpPenCommand));
                            }
                        },
                        Token::Number(d) => {
                            return Err(Error::UnexpectedToken(Token::Number(d)));
                        },
                    }
                },
            }
        }
    }

    fn next_token(&mut self) -> (r: Result<Option<Token>, Error>)
        ensures
            final(self)@.text == old(self)@.text,
            match scan_from(old(self)@.text, old(self)@.pos) {
                ScanResult::End => r == Ok::<Option<Token>, Error>(None)
                    && final(self)@.pos == old(self)@.text.len(),
                ScanResult::Tok(t, p) => r == Ok::<Option<Token>, Error>(Some(t))
                    && final(self)@.pos == p,
                ScanResult::Fail(e) => r is Err && r->Err_0@ == e,
            },
    {
        self.scanner.next_token()
    }
}

/// Appending one command and then the rest is appending the front-extended
/// rest.
proof fn lemma_append_one(before: Seq<Command>, c: Command)
    ensures
        forall|rest: Seq<Command>| (before.push(c) + rest) =~= before + (seq![c] + rest),
{
}

/// For any text that interprets successfully into moves and turns alone,
/// executing the interpreted command list and then rolling it back restores
/// the robot to its pre-execute state.
pub proof fn lemma_interpret_execute_rollback_restores(s: Seq<char>, v: RobotView)
    requires
        in_bounds(v),
        interpret_from(s, 0) is Ok,
        forall|k: int|
            0 <= k < interpret_from(s, 0)->Ok_0.len() ==> reversible(
                #[trigger] interpret_from(s, 0)->Ok_0[k],
            ),
        run_execute_all(interpret_from(s, 0)->Ok_0, v).ok,
    ensures
        ({
            let cmds = interpret_from(s, 0)->Ok_0;
            let done = run_execute_all(cmds, v).state;
            run_rollback_all(cmds, done).ok && run_rollback_all(cmds, done).state == v
        }),
{
    lemma_execute_then_rollback_restores(interpret_from(s, 0)->Ok_0, v);
}

} // verus!
