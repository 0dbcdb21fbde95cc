//! Reading numbers out of a chat message.
//!
//! A message is lowercased and cleaned (underscores dropped, decimal commas
//! turned into dots), then scanned character by character. The scanner
//! collects candidate tokens (digits, a leading minus, one dot, one `e`) and
//! skips mentions such as `<@123>`. Each finished token is handed out to be
//! read as a floating-point number, floored to an integer; that reading
//! comes back through [`NumberScanner::resume`], which also applies a metric
//! suffix (`k`, `m`, `g`, ...) that may follow the token.

use vstd::prelude::*;
use crate::text::{
    chars_to_string, is_alphanumeric, is_ascii_alphanumeric, is_whitespace, lowercase, to_chars, unicode_alphanumeric,
    unicode_lowercase, unicode_white_space,
};

verus! {

/// `s` without any occurrence of `x`.
pub open spec fn remove_char(s: Seq<char>, x: char) -> Seq<char>
    decreases s.len(),
{
    if s.len() == 0 {
        s
    } else if s.last() == x {
        remove_char(s.drop_last(), x)
    } else {
        remove_char(s.drop_last(), x).push(s.last())
    }
}

/// `s` with every `from` replaced by `to`.
pub open spec fn replace_char(s: Seq<char>, from: char, to: char) -> Seq<char> {
    s.map_values(|c: char| if c == from { to } else { c })
}

/// The cleaning of a lowercased message: underscores go; where both a dot and
/// a comma occur, dots are thousands separators and go while commas become
/// decimal dots; where only commas occur, they become decimal dots.
pub open spec fn clean(lowered: Seq<char>) -> Seq<char> {
    let a = remove_char(lowered, '_');
    if a.contains('.') && a.contains(',') {
        replace_char(remove_char(a, '.'), ',', '.')
    } else if a.contains(',') {
        replace_char(a, ',', '.')
    } else {
        a
    }
}

fn contains_char(v: &Vec<char>, x: char) -> (b: bool)
    ensures
        b == v@.contains(x),
{
    let mut i: usize = 0;
    while i < v.len()
        invariant
            i <= v.len(),
            forall|j: int| 0 <= j < i ==> v@[j] != x,
        decreases v.len() - i,
    {
        if v[i] == x {
            assert(v@[i as int] == x);
            return true;
        }
        i += 1;
    }
    false
}

fn without_char(v: &Vec<char>, x: char) -> (r: Vec<char>)
    ensures
        r@ == remove_char(v@, x),
{
    let mut r: Vec<char> = Vec::new();
    let mut i: usize = 0;
    while i < v.len()
        invariant
            i <= v.len(),
            r@ == remove_char(v@.take(i as int), x),
        decreases v.len() - i,
    {
        proof {
            assert(v@.take(i + 1).drop_last() == v@.take(i as int));
        }
        if v[i] != x {
            r.push(v[i]);
        }
        i += 1;
    }
    proof {
        assert(v@.take(v.len() as int) == v@);
    }
    r
}

fn replacing_char(v: &Vec<char>, from: char, to: char) -> (r: Vec<char>)
    ensures
        r@ == replace_char(v@, from, to),
{
    let mut r: Vec<char> = Vec::new();
    let mut i: usize = 0;
    while i < v.len()
        invariant
            i <= v.len(),
            r@ == replace_char(v@.take(i as int), from, to),
        decreases v.len() - i,
    {
        let c = v[i];
        if c == from {
            r.push(to);
        } else {
            r.push(c);
        }
        proof {
            assert(replace_char(v@.take(i + 1), from, to) == replace_char(v@.take(i as int), from, to).push(
                if c == from { to } else { c },
            ));
        }
        i += 1;
    }
    proof {
        assert(v@.take(v.len() as int) == v@);
    }
    r
}

/// Cleans an already lowercased message (see [`clean`]).
pub fn clean_lowered(lowered: &str) -> (r: Vec<char>)
    ensures
        r@ == clean(lowered@),
{
    let chars = to_chars(lowered);
    let a = without_char(&chars, '_');
    if contains_char(&a, '.') && contains_char(&a, ',') {
        let b = without_char(&a, '.');
        replacing_char(&b, ',', '.')
    } else if contains_char(&a, ',') {
        replacing_char(&a, ',', '.')
    } else {
        a
    }
}

/// Lowercases and cleans a message.
pub fn clean_message(msg: &str) -> (r: Vec<char>)
    ensures
        r@ == clean(unicode_lowercase(msg@)),
{
    let lowered = lowercase(msg);
    clean_lowered(lowered.as_str())
}

/// An ASCII decimal digit.
pub open spec fn is_digit(c: char) -> bool {
    '0' <= c <= '9'
}

/// Where a scan of a cleaned message stands.
pub struct ScanState {
    /// Index of the next character not yet consumed.
    pub pos: nat,
    /// The characters of the token being collected.
    pub token: Seq<char>,
    pub has_dot: bool,
    /// Set by the first `e` collected; it stays set for the rest of the scan.
    pub has_exp: bool,
    /// Set by `<`, and kept by `@`, as in a mention `<@123>`.
    pub has_esc: bool,
    /// The numbers found so far, in order.
    pub numbers: Seq<u64>,
    /// The token is finished and waits to be read as a number.
    pub awaiting: bool,
    /// The whole message has been read.
    pub done: bool,
}

/// The state in which a scan starts.
pub open spec fn initial_state() -> ScanState {
    ScanState {
        pos: 0,
        token: Seq::empty(),
        has_dot: false,
        has_exp: false,
        has_esc: false,
        numbers: Seq::empty(),
        awaiting: false,
        done: false,
    }
}

/// `s` with its token dropped and its dot and mention marks cleared.
pub open spec fn reset(s: ScanState) -> ScanState {
    ScanState { token: Seq::empty(), has_dot: false, has_esc: false, ..s }
}

/// One step on the character at `s.pos` (which exists): it is consumed into
/// the token or the marks, or it ends a token. A token ended inside a mention
/// (by `>`), or an empty one, is dropped with the character; a non-empty one
/// leaves the character in place and waits to be read.
pub open spec fn scan_char(input: Seq<char>, s: ScanState) -> ScanState {
    let c = input[s.pos as int];
    let next = s.pos + 1;
    if c == '<' || (s.has_esc && c == '@') {
        ScanState { pos: next, has_esc: true, ..s }
    } else if is_digit(c) || (c == '-' && s.token.len() == 0) {
        ScanState { pos: next, token: s.token.push(c), ..s }
    } else if c == '.' && !s.has_dot {
        ScanState { pos: next, token: s.token.push(c), has_dot: true, ..s }
    } else if c == 'e' && !s.has_exp {
        ScanState { pos: next, token: s.token.push(c), has_exp: true, ..s }
    } else if (s.has_esc && c == '>') || s.token.len() == 0 {
        ScanState { pos: next, ..reset(s) }
    } else {
        ScanState { awaiting: true, ..s }
    }
}

/// Scanning on from `s` until a token waits to be read or the message ends.
pub open spec fn advance(input: Seq<char>, s: ScanState) -> ScanState
    decreases input.len() - s.pos,
{
    if s.done || s.awaiting {
        s
    } else if s.pos >= input.len() {
        if s.token.len() > 0 {
            ScanState { awaiting: true, ..s }
        } else {
            ScanState { done: true, ..s }
        }
    } else {
        let t = scan_char(input, s);
        if t.awaiting {
            t
        } else {
            advance(input, t)
        }
    }
}

/// The first index from `i` on whose character is not white space.
pub open spec fn skip_white(input: Seq<char>, i: nat) -> nat
    decreases input.len() - i,
{
    if i < input.len() && unicode_white_space(input[i as int]) {
        skip_white(input, i + 1)
    } else {
        i
    }
}

/// The power of ten that a metric suffix letter stands for; 0 for any other
/// character.
pub open spec fn suffix_exponent(c: char) -> nat {
    if c == 'k' {
        3
    } else if c == 'm' {
        6
    } else if c == 'g' {
        9
    } else if c == 't' {
        12
    } else if c == 'p' {
        15
    } else if c == 'e' {
        18
    } else if c == 'z' {
        21
    } else if c == 'y' {
        24
    } else if c == 'r' {
        27
    } else if c == 'q' {
        30
    } else {
        0
    }
}

/// After a number whose token ended at `start`: white space is skipped, and a
/// suffix letter there is consumed. The suffix counts only when the next
/// character is not alphanumeric. Gives the index of the next character not
/// consumed, and the exponent (0 for none).
pub open spec fn suffix_end(input: Seq<char>, start: nat) -> (nat, nat) {
    let k = skip_white(input, start);
    if k >= input.len() {
        (k, 0)
    } else if suffix_exponent(input[k as int]) == 0 {
        (k, 0)
    } else if k + 1 < input.len() && unicode_alphanumeric(input[k + 1 as int]) {
        (k + 1, 0)
    } else {
        (k + 1, suffix_exponent(input[k as int]))
    }
}

pub open spec fn pow10(e: nat) -> nat
    decreases e,
{
    if e == 0 {
        1
    } else {
        10 * pow10((e - 1) as nat)
    }
}

/// `n` times `10^e`, or nothing where `10^e` or the product overflows `u64`.
pub open spec fn scale(n: u64, e: nat) -> Option<u64> {
    if e == 0 {
        Some(n)
    } else if pow10(e) > u64::MAX {
        None
    } else if n * pow10(e) > u64::MAX {
        None
    } else {
        Some((n * pow10(e)) as u64)
    }
}

/// `ns` with `v` appended when there is one.
pub open spec fn push_some(ns: Seq<u64>, v: Option<u64>) -> Seq<u64> {
    match v {
        Some(n) => ns.push(n),
        None => ns,
    }
}

/// The scan after the waiting token was read as `parsed`. At the end of the
/// message the reading is the number found and the scan is done. Elsewhere
/// a failed reading drops the token and its terminating character; a
/// successful one is scaled by a suffix, and the character after the
/// consumed ones is dropped too.
pub open spec fn resume_state(input: Seq<char>, s: ScanState, parsed: Option<u64>) -> ScanState {
    if !s.awaiting {
        s
    } else if s.pos >= input.len() {
        ScanState { awaiting: false, done: true, numbers: push_some(s.numbers, parsed), ..reset(s) }
    } else {
        match parsed {
            None => ScanState { pos: s.pos + 1, awaiting: false, ..reset(s) },
            Some(n) => {
                let (j, e) = suffix_end(input, s.pos);
                ScanState {
                    pos: if j < input.len() {
                        j + 1
                    } else {
                        j
                    },
                    awaiting: false,
                    numbers: push_some(s.numbers, scale(n, e)),
                    ..reset(s)
                }
            },
        }
    }
}

proof fn lemma_pow10_grows(a: nat, b: nat)
    requires
        a <= b,
    ensures
        pow10(a) <= pow10(b),
        pow10(a) >= 1,
    decreases b,
{
    if b > a {
        lemma_pow10_grows(a, (b - 1) as nat);
    } else {
        lemma_pow10_positive(a);
    }
}

proof fn lemma_pow10_positive(a: nat)
    ensures
        pow10(a) >= 1,
    decreases a,
{
    if a > 0 {
        lemma_pow10_positive((a - 1) as nat);
    }
}

/// `10^e`, or `None` where it does not fit a `u64` (as `u64::checked_pow`).
fn checked_pow10(e: u32) -> (r: Option<u64>)
    ensures
        r == (if pow10(e as nat) <= u64::MAX {
            Some(pow10(e as nat) as u64)
        } else {
            None::<u64>
        }),
{
    let mut acc: u64 = 1;
    let mut i: u32 = 0;
    while i < e
        invariant
            i <= e,
            acc == pow10(i as nat),
        decreases e - i,
    {
        match acc.checked_mul(10) {
            Some(next) => {
                acc = next;
                i += 1;
            },
            None => {
                proof {
                    lemma_pow10_grows((i + 1) as nat, e as nat);
                }
                return None;
            },
        }
    }
    Some(acc)
}

/// `n * 10^e`, or `None` on overflow (see [`scale`]).
fn scale_by(n: u64, e: u32) -> (r: Option<u64>)
    ensures
        r == scale(n, e as nat),
{
    if e > 0 {
        match checked_pow10(e) {
            Some(p) => n.checked_mul(p),
            None => None,
        }
    } else {
        Some(n)
    }
}

/// The exponent of a metric suffix letter (see [`suffix_exponent`]).
fn suffix_of(c: char) -> (e: u32)
    ensures
        e == suffix_exponent(c),
{
    match c {
        'k' => 3,
        'm' => 6,
        'g' => 9,
        't' => 12,
        'p' => 15,
        'e' => 18,
        'z' => 21,
        'y' => 24,
        'r' => 27,
        'q' => 30,
        _ => 0,
    }
}

proof fn lemma_skip_white_step(input: Seq<char>, i: nat)
    requires
        i < input.len(),
        unicode_white_space(input[i as int]),
    ensures
        skip_white(input, i) == skip_white(input, i + 1),
{
}

proof fn lemma_skip_white_bounds(input: Seq<char>, i: nat)
    requires
        i <= input.len(),
    ensures
        i <= skip_white(input, i) <= input.len(),
    decreases input.len() - i,
{
    if i < input.len() && unicode_white_space(input[i as int]) {
        lemma_skip_white_bounds(input, i + 1);
    }
}

/// Reads the metric suffix after a number whose token ended at `start`, as
/// the exponent loop of the number reader does (see [`suffix_end`]).
fn read_suffix(input: &Vec<char>, start: usize) -> (r: (usize, u32))
    requires
        start <= input.len(),
    ensures
        r.0 as nat == suffix_end(input@, start as nat).0,
        r.1 as nat == suffix_end(input@, start as nat).1,
{
    let len = input.len();
    let mut i: usize = start;
    let mut exponent: u32 = 0;
    let ghost k = skip_white(input@, start as nat);
    proof {
        lemma_skip_white_bounds(input@, start as nat);
    }
    loop
        invariant_except_break
            start <= i <= len,
            len == input@.len(),
            k == skip_white(input@, start as nat),
            k <= len,
            exponent == 0 ==> skip_white(input@, i as nat) == k,
            exponent != 0 ==> {
                &&& k < len
                &&& i == k + 1
                &&& exponent == suffix_exponent(input@[k as int])
                &&& i < len ==> !unicode_alphanumeric(input@[i as int])
                &&& i < len ==> !is_ascii_alphanumeric(input@[i as int])
            },
        ensures
            i as nat == suffix_end(input@, start as nat).0,
            exponent as nat == suffix_end(input@, start as nat).1,
        decreases len - i,
    {
        if i >= len {
            break;
        }
        let c = input[i];
        if is_whitespace(c) && exponent == 0 {
            proof {
                lemma_skip_white_step(input@, i as nat);
            }
            i += 1;
            continue;
        }
        let e = suffix_of(c);
        if e == 0 {
            break;
        }
        if exponent != 0 {
            // A suffix letter is alphanumeric, and the character after a
            // counted suffix is not.
            assert(false);
        }
        exponent = e;
        i += 1;
        if i < len {
            if is_alphanumeric(input[i]) {
                exponent = 0;
                break;
            }
        }
    }
    (i, exponent)
}

/// Scans a cleaned message for numbers, one token at a time.
///
/// [`next_step`](NumberScanner::next_step) scans on until a token is
/// finished and hands it out; its reading as a number (a float, floored, or
/// nothing where it is not a non-negative float) goes back in through
/// [`resume`](NumberScanner::resume). When `next_step` hands out nothing, the
/// scan is done and [`numbers`](NumberScanner::numbers) holds what was found.
pub struct NumberScanner {
    input: Vec<char>,
    pos: usize,
    token: Vec<char>,
    has_dot: bool,
    has_exp: bool,
    has_esc: bool,
    numbers: Vec<u64>,
    awaiting: bool,
    done: bool,
}

impl View for NumberScanner {
    type V = ScanState;

    closed spec fn view(&self) -> ScanState {
        ScanState {
            pos: self.pos as nat,
            token: self.token@,
            has_dot: self.has_dot,
            has_exp: self.has_exp,
            has_esc: self.has_esc,
            numbers: self.numbers@,
            awaiting: self.awaiting,
            done: self.done,
        }
    }
}

impl NumberScanner {
    /// The cleaned message being scanned.
    pub closed spec fn input(&self) -> Seq<char> {
        self.input@
    }

    /// The scanner's own consistency: the position stays within the message,
    /// only a non-empty token waits, and a finished scan has read it all.
    pub closed spec fn wf(&self) -> bool {
        &&& self.pos <= self.input@.len()
        &&& self.awaiting ==> self.token@.len() > 0 && !self.done
        &&& self.done ==> self.pos == self.input@.len()
    }

    /// A scanner at the start of an already cleaned message.
    pub fn from_cleaned(cleaned: Vec<char>) -> (s: NumberScanner)
        ensures
            s.wf(),
            s.input() == cleaned@,
            s@ == initial_state(),
    {
        NumberScanner {
            input: cleaned,
            pos: 0,
            token: Vec::new(),
            has_dot: false,
            has_exp: false,
            has_esc: false,
            numbers: Vec::new(),
            awaiting: false,
            done: false,
        }
    }

    /// A scanner at the start of a message that is lowercased already; it
    /// is cleaned here.
    pub fn from_lowercase(lowered: &str) -> (s: NumberScanner)
        ensures
            s.wf(),
            s.input() == clean(lowered@),
            s@ == initial_state(),
    {
        NumberScanner::from_cleaned(clean_lowered(lowered))
    }

    /// A scanner at the start of a chat message, which is lowercased and
    /// cleaned here.
    pub fn new(msg: &str) -> (s: NumberScanner)
        ensures
            s.wf(),
            s.input() == clean(unicode_lowercase(msg@)),
            s@ == initial_state(),
    {
        NumberScanner::from_cleaned(clean_message(msg))
    }

    /// Drops the token and clears the dot and mention marks.
    fn reset(&mut self)
        ensures
            final(self).input == old(self).input,
            final(self)@ == reset(old(self)@),
    {
        self.token = Vec::new();
        self.has_dot = false;
        self.has_esc = false;
    }

    /// Scans on until a token waits to be read, and hands it out; hands out
    /// nothing when the message is read to its end. A scanner that waits
    /// already hands out its token again; a finished one, nothing.
    pub fn next_step(&mut self) -> (request: Option<String>)
        requires
            old(self).wf(),
        ensures
            final(self).wf(),
            final(self).input() == old(self).input(),
            final(self)@ == advance(old(self).input(), old(self)@),
            request is Some <==> final(self)@.awaiting,
            request matches Some(t) ==> t@ == final(self)@.token,
    {
        if self.done {
            return None;
        }
        if self.awaiting {
            return Some(chars_to_string(&self.token));
        }
        let len = self.input.len();
        let ghost input = self.input@;
        while self.pos < len
            invariant
                self.wf(),
                self.input@ == input,
                input == old(self).input@,
                len == input.len(),
                !self.awaiting,
                !self.done,
                advance(input, self@) == advance(input, old(self)@),
            decreases len - self.pos,
        {
            let c = self.input[self.pos];
            let ghost before = self@;
            if c == '<' || (self.has_esc && c == '@') {
                self.has_esc = true;
                self.pos = self.pos + 1;
            } else if ('0' <= c && c <= '9') || (c == '-' && self.token.len() == 0) {
                self.token.push(c);
                self.pos = self.pos + 1;
            } else if c == '.' && !self.has_dot {
                self.token.push(c);
                self.has_dot = true;
                self.pos = self.pos + 1;
            } else if c == 'e' && !self.has_exp {
                self.token.push(c);
                self.has_exp = true;
                self.pos = self.pos + 1;
            } else if (self.has_esc && c == '>') || self.token.len() == 0 {
                self.reset();
                self.pos = self.pos + 1;
            } else {
                self.awaiting = true;
                proof {
                    assert(self@ == scan_char(input, before));
                }
                return Some(chars_to_string(&self.token));
            }
            proof {
                assert(self@ == scan_char(input, before));
            }
        }
        if self.token.len() > 0 {
            self.awaiting = true;
            Some(chars_to_string(&self.token))
        } else {
            self.done = true;
            None
        }
    }

    /// Takes the reading of the waiting token: the number it is, or `None`.
    /// At the end of the message the reading is what is found; elsewhere a
    /// number is scaled by a metric suffix that follows it (see
    /// [`resume_state`]). A scanner that does not wait is left as it is.
    pub fn resume(&mut self, parsed: Option<u64>)
        requires
            old(self).wf(),
        ensures
            final(self).wf(),
            final(self).input() == old(self).input(),
            final(self)@ == resume_state(old(self).input(), old(self)@, parsed),
    {
        if !self.awaiting {
            return;
        }
        let len = self.input.len();
        if self.pos >= len {
            if let Some(n) = parsed {
                self.numbers.push(n);
            }
            self.reset();
            self.awaiting = false;
            self.done = true;
            return;
        }
        match parsed {
            None => {
                self.reset();
                self.pos = self.pos + 1;
            },
            Some(n) => {
                let (j, e) = read_suffix(&self.input, self.pos);
                proof {
                    lemma_skip_white_bounds(self.input@, self.pos as nat);
                }
                if let Some(v) = scale_by(n, e) {
                    self.numbers.push(v);
                }
                self.reset();
                self.pos = if j < len {
                    j + 1
                } else {
                    j
                };
            },
        }
        self.awaiting = false;
    }

    /// A scanner is always in a state that a scan of its message can be in.
    pub proof fn lemma_consistent(&self)
        requires
            self.wf(),
        ensures
            consistent(self.input(), self@),
    {
    }

    /// Whether the whole message has been read.
    pub fn is_done(&self) -> (b: bool)
        ensures
            b == self@.done,
    {
        self.done
    }

    /// The numbers found so far, in order.
    pub fn numbers(&self) -> (ns: Vec<u64>)
        ensures
            ns@ == self@.numbers,
    {
        let mut ns: Vec<u64> = Vec::new();
        let mut i: usize = 0;
        while i < self.numbers.len()
            invariant
                i <= self.numbers.len(),
                ns@ == self.numbers@.take(i as int),
            decreases self.numbers.len() - i,
        {
            ns.push(self.numbers[i]);
            i += 1;
            proof {
                assert(self.numbers@.take(i as int) == self.numbers@.take(i - 1).push(self.numbers@[i - 1]));
            }
        }
        proof {
            assert(self.numbers@.take(self.numbers.len() as int) == self.numbers@);
        }
        ns
    }
}

/// One move of a scan in which every token `t` handed out is read as
/// `read(t)`: a waiting token is read, otherwise the scan advances.
pub open spec fn scan_step(input: Seq<char>, s: ScanState, read: spec_fn(Seq<char>) -> Option<u64>) -> ScanState {
    if s.awaiting {
        resume_state(input, s, read(s.token))
    } else {
        advance(input, s)
    }
}

/// `fuel` moves of a scan from `s`.
pub open spec fn scan_run(
    input: Seq<char>,
    s: ScanState,
    read: spec_fn(Seq<char>) -> Option<u64>,
    fuel: nat,
) -> ScanState
    decreases fuel,
{
    if fuel == 0 {
        s
    } else {
        scan_run(input, scan_step(input, s, read), read, (fuel - 1) as nat)
    }
}

/// The numbers found in a chat message when every token is read as
/// `read(t)`: the scan of the cleaned message, run for as many moves as it
/// can take.
pub open spec fn message_numbers(msg: Seq<char>, read: spec_fn(Seq<char>) -> Option<u64>) -> Seq<u64> {
    let input = clean(unicode_lowercase(msg));
    scan_run(input, initial_state(), read, 2 * input.len() + 2).numbers
}

/// A state that a scan of `input` can be in.
pub open spec fn consistent(input: Seq<char>, s: ScanState) -> bool {
    &&& s.pos <= input.len()
    &&& s.awaiting ==> !s.done
    &&& s.done ==> s.pos == input.len()
}

/// How many moves a scan from `s` can still take, at most.
pub open spec fn moves_left(input: Seq<char>, s: ScanState) -> nat {
    if s.done {
        0
    } else if s.awaiting {
        (2 * (input.len() - s.pos) + 1) as nat
    } else {
        (2 * (input.len() - s.pos) + 2) as nat
    }
}

proof fn lemma_advance(input: Seq<char>, s: ScanState)
    requires
        consistent(input, s),
        !s.awaiting,
        !s.done,
    ensures
        consistent(input, advance(input, s)),
        advance(input, s).pos >= s.pos,
        advance(input, s).awaiting || advance(input, s).done,
        advance(input, s).numbers == s.numbers,
    decreases input.len() - s.pos,
{
    if s.pos < input.len() {
        let t = scan_char(input, s);
        if !t.awaiting {
            lemma_advance(input, t);
        }
    }
}

proof fn lemma_step(input: Seq<char>, s: ScanState, read: spec_fn(Seq<char>) -> Option<u64>)
    requires
        consistent(input, s),
    ensures
        consistent(input, scan_step(input, s, read)),
        s.done ==> scan_step(input, s, read) == s,
        !s.done ==> moves_left(input, scan_step(input, s, read)) < moves_left(input, s),
        s.numbers.is_prefix_of(scan_step(input, s, read).numbers),
{
    if s.awaiting {
        if s.pos < input.len() {
            lemma_skip_white_bounds(input, s.pos);
        }
    } else if !s.done {
        lemma_advance(input, s);
    }
}

proof fn lemma_run(input: Seq<char>, s: ScanState, read: spec_fn(Seq<char>) -> Option<u64>, fuel: nat)
    requires
        consistent(input, s),
    ensures
        fuel >= moves_left(input, s) ==> scan_run(input, s, read, fuel).done,
        s.done ==> scan_run(input, s, read, fuel) == s,
        s.numbers.is_prefix_of(scan_run(input, s, read, fuel).numbers),
    decreases fuel,
{
    if fuel > 0 {
        let t = scan_step(input, s, read);
        lemma_step(input, s, read);
        lemma_run(input, t, read, (fuel - 1) as nat);
    }
}

/// Law: a scan of any message ends. Whatever the readings of its tokens, a
/// scan from the start of a message of `n` characters is done after at most
/// `2 * n + 2` moves (each hand-out of a token and each reading is a move),
/// and stays done; the numbers found only ever grow at their end.
pub proof fn law_scan_ends(
    input: Seq<char>,
    read: spec_fn(Seq<char>) -> Option<u64>,
    fuel: nat,
)
    ensures
        fuel >= 2 * input.len() + 2 ==> scan_run(input, initial_state(), read, fuel).done,
        fuel >= 2 * input.len() + 2 ==> scan_run(input, initial_state(), read, fuel) == scan_run(
            input,
            initial_state(),
            read,
            2 * input.len() + 2,
        ),
{
    lemma_run(input, initial_state(), read, fuel);
    if fuel >= 2 * input.len() + 2 {
        lemma_run_split(input, initial_state(), read, (2 * input.len() + 2) as nat, (fuel - (2 * input.len() + 2)) as nat);
        let d = scan_run(input, initial_state(), read, (2 * input.len() + 2) as nat);
        lemma_run(input, initial_state(), read, (2 * input.len() + 2) as nat);
        lemma_run_consistent(input, initial_state(), read, (2 * input.len() + 2) as nat);
        lemma_run(input, d, read, (fuel - (2 * input.len() + 2)) as nat);
    }
}

proof fn lemma_run_split(
    input: Seq<char>,
    s: ScanState,
    read: spec_fn(Seq<char>) -> Option<u64>,
    a: nat,
    b: nat,
)
    ensures
        scan_run(input, s, read, a + b) == scan_run(input, scan_run(input, s, read, a), read, b),
    decreases a,
{
    if a > 0 {
        lemma_run_split(input, scan_step(input, s, read), read, (a - 1) as nat, b);
        assert((a + b - 1) as nat == ((a - 1) as nat + b) as nat);
    }
}

proof fn lemma_run_consistent(
    input: Seq<char>,
    s: ScanState,
    read: spec_fn(Seq<char>) -> Option<u64>,
    fuel: nat,
)
    requires
        consistent(input, s),
    ensures
        consistent(input, scan_run(input, s, read, fuel)),
    decreases fuel,
{
    if fuel > 0 {
        lemma_step(input, s, read);
        lemma_run_consistent(input, scan_step(input, s, read), read, (fuel - 1) as nat);
    }
}

proof fn lemma_remove_char(s: Seq<char>, x: char, y: char)
    ensures
        !remove_char(s, x).contains(x),
        !s.contains(y) ==> !remove_char(s, x).contains(y),
    decreases s.len(),
{
    if s.len() > 0 {
        lemma_remove_char(s.drop_last(), x, y);
        let r = remove_char(s.drop_last(), x);
        if s.last() != x {
            assert forall|i: int| 0 <= i < r.push(s.last()).len() implies r.push(s.last())[i] != x by {
                if i < r.len() {
                    assert(r[i] == r.push(s.last())[i]);
                }
            }
            if !s.contains(y) {
                assert(s[s.len() - 1] != y);
                assert(!s.drop_last().contains(y)) by {
                    if s.drop_last().contains(y) {
                        let k = choose|k: int| 0 <= k < s.drop_last().len() && s.drop_last()[k] == y;
                        assert(s[k] == y);
                    }
                }
                lemma_remove_char(s.drop_last(), x, y);
                assert forall|i: int| 0 <= i < r.push(s.last()).len() implies r.push(s.last())[i] != y by {
                    if i < r.len() {
                        assert(r[i] == r.push(s.last())[i]);
                    }
                }
            }
        }
    }
}

/// Law: cleaning leaves no underscore and no comma in a message, whatever
/// it held: underscores are dropped, and commas are dropped or become
/// decimal dots.
pub proof fn law_clean_drops_underscores_and_commas(lowered: Seq<char>)
    ensures
        !clean(lowered).contains('_'),
        !clean(lowered).contains(','),
{
    lemma_remove_char(lowered, '_', '_');
    let a = remove_char(lowered, '_');
    if a.contains('.') && a.contains(',') {
        lemma_remove_char(a, '.', '_');
        let b = remove_char(a, '.');
        let r = replace_char(b, ',', '.');
        assert(!r.contains(',') && !r.contains('_')) by {
            if r.contains(',') {
                let k = choose|k: int| 0 <= k < r.len() && r[k] == ',';
                assert(r[k] == (if b[k] == ',' { '.' } else { b[k] }));
            }
            if r.contains('_') {
                let k = choose|k: int| 0 <= k < r.len() && r[k] == '_';
                assert(r[k] == (if b[k] == ',' { '.' } else { b[k] }));
                assert(b.contains('_'));
            }
        }
    } else if a.contains(',') {
        let r = replace_char(a, ',', '.');
        assert(!r.contains(',') && !r.contains('_')) by {
            if r.contains(',') {
                let k = choose|k: int| 0 <= k < r.len() && r[k] == ',';
                assert(r[k] == (if a[k] == ',' { '.' } else { a[k] }));
            }
            if r.contains('_') {
                let k = choose|k: int| 0 <= k < r.len() && r[k] == '_';
                assert(r[k] == (if a[k] == ',' { '.' } else { a[k] }));
                assert(a.contains('_'));
            }
        }
    }
}

/// A mention of a user, `<@` and digits and `>`, as a cleaned message.
pub open spec fn mention(digits: Seq<char>) -> Seq<char> {
    seq!['<', '@'] + digits + seq!['>']
}

/// A scan in the middle of a mention, `k` digits into it.
spec fn mention_state(digits: Seq<char>, k: nat) -> ScanState {
    ScanState {
        pos: k + 2,
        token: digits.take(k as int),
        has_dot: false,
        has_exp: false,
        has_esc: true,
        numbers: Seq::empty(),
        awaiting: false,
        done: false,
    }
}

/// A scan at the end of a mention.
spec fn mention_end(digits: Seq<char>) -> ScanState {
    ScanState {
        pos: digits.len() + 3,
        token: Seq::empty(),
        has_dot: false,
        has_exp: false,
        has_esc: false,
        numbers: Seq::empty(),
        awaiting: false,
        done: true,
    }
}

proof fn lemma_mention_digits(digits: Seq<char>, k: nat)
    requires
        forall|i: int| 0 <= i < digits.len() ==> is_digit(#[trigger] digits[i]),
        k <= digits.len(),
    ensures
        advance(mention(digits), mention_state(digits, k)) == mention_end(digits),
    decreases digits.len() - k,
{
    let input = mention(digits);
    assert(input.len() == digits.len() + 3);
    if k < digits.len() {
        assert(input[k + 2 as int] == digits[k as int]);
        assert(digits.take(k as int).push(digits[k as int]) =~= digits.take(k + 1 as int));
        lemma_mention_digits(digits, k + 1);
    } else {
        assert(input[k + 2 as int] == '>');
        let s = mention_state(digits, k);
        let t = scan_char(input, s);
        assert(t.token == Seq::<char>::empty());
        assert(advance(input, t) == ScanState { done: true, ..t });
    }
}

/// Law: a mention is no number. A message that is a mention `<@` followed by
/// digits and `>` yields no number, whatever the readings: its scan ends
/// without handing out a single token.
pub proof fn law_mention_is_no_number(
    digits: Seq<char>,
    read: spec_fn(Seq<char>) -> Option<u64>,
    fuel: nat,
)
    requires
        forall|i: int| 0 <= i < digits.len() ==> is_digit(#[trigger] digits[i]),
    ensures
        advance(mention(digits), initial_state()).done,
        scan_run(mention(digits), initial_state(), read, fuel).numbers == Seq::<u64>::empty(),
{
    let input = mention(digits);
    assert(input[0] == '<');
    assert(input[1] == '@');
    let s1 = scan_char(input, initial_state());
    let s2 = scan_char(input, s1);
    assert(digits.take(0) =~= Seq::<char>::empty());
    lemma_mention_digits(digits, 0);
    assert(s2 == mention_state(digits, 0));
    assert(input.len() == digits.len() + 3);
    assert(advance(input, initial_state()) == advance(input, s1));
    assert(advance(input, s1) == advance(input, s2));
    let d = advance(input, initial_state());
    assert(d.done);
    if fuel > 0 {
        assert(scan_step(input, initial_state(), read) == d);
        lemma_run(input, d, read, (fuel - 1) as nat);
    }
}

/// Law: a scan that has finished found what [`message_numbers`] says. When
/// the scan of a message, each token read as `read(t)`, is done after `k`
/// moves (as the driver that stops at the first move handing out nothing
/// finds it), its numbers are `message_numbers(msg, read)`.
pub proof fn law_finished_scan_gives_message_numbers(
    msg: Seq<char>,
    read: spec_fn(Seq<char>) -> Option<u64>,
    k: nat,
)
    requires
        scan_run(clean(unicode_lowercase(msg)), initial_state(), read, k).done,
    ensures
        scan_run(clean(unicode_lowercase(msg)), initial_state(), read, k).numbers
            == message_numbers(msg, read),
{
    let input = clean(unicode_lowercase(msg));
    let n: nat = (2 * input.len() + 2) as nat;
    let s0 = initial_state();
    if k <= n {
        lemma_run_split(input, s0, read, k, (n - k) as nat);
        assert((k + (n - k) as nat) as nat == n);
        lemma_run_consistent(input, s0, read, k);
        lemma_run(input, scan_run(input, s0, read, k), read, (n - k) as nat);
    } else {
        law_scan_ends(input, read, k);
    }
}

/// `n * f`, where it fits a `u64`.
pub open spec fn times(n: u64, f: nat) -> Option<u64> {
    if n * f <= u64::MAX {
        Some((n * f) as u64)
    } else {
        None
    }
}

/// Law: reading a token ends it. Whatever the reading (a number or none),
/// the scan goes on with an empty token, no dot mark and no mention mark,
/// so a number right after a failed token (such as a lone dot) is read as a
/// token of its own. The `e` mark, set once, stays.
pub proof fn law_reading_ends_the_token(input: Seq<char>, s: ScanState, parsed: Option<u64>)
    requires
        consistent(input, s),
        s.awaiting,
    ensures
        resume_state(input, s, parsed).token.len() == 0,
        !resume_state(input, s, parsed).has_dot,
        !resume_state(input, s, parsed).has_esc,
        !resume_state(input, s, parsed).awaiting,
        resume_state(input, s, parsed).has_exp == s.has_exp,
        parsed is None ==> resume_state(input, s, parsed).numbers == s.numbers,
{
}

/// Law: a metric suffix right after a number scales it by its SI power of
/// ten: `k` 10^3, `m` 10^6, `g` 10^9, `t` 10^12, `p` 10^15, `e` 10^18; with
/// `z`, `y`, `r` and `q` (10^21 and up) no `u64` holds the result and no
/// number is found. A product past `u64` is no number either. This holds
/// when the suffix letter ends the token and is not followed by an
/// alphanumeric character; white space may stand between the number and
/// its suffix (the letter at `k`).
pub proof fn law_metric_suffixes(input: Seq<char>, s: ScanState, n: u64, k: nat)
    requires
        consistent(input, s),
        s.awaiting,
        s.pos <= k < input.len(),
        forall|i: int| s.pos <= i < k ==> unicode_white_space(#[trigger] input[i]),
        k + 1 == input.len() || !unicode_alphanumeric(input[k + 1 as int]),
    ensures
        input[k as int] == 'k' ==> resume_state(input, s, Some(n)).numbers == push_some(
            s.numbers,
            times(n, 1_000),
        ),
        input[k as int] == 'm' ==> resume_state(input, s, Some(n)).numbers == push_some(
            s.numbers,
            times(n, 1_000_000),
        ),
        input[k as int] == 'g' ==> resume_state(input, s, Some(n)).numbers == push_some(
            s.numbers,
            times(n, 1_000_000_000),
        ),
        input[k as int] == 't' ==> resume_state(input, s, Some(n)).numbers == push_some(
            s.numbers,
            times(n, 1_000_000_000_000),
        ),
        input[k as int] == 'p' ==> resume_state(input, s, Some(n)).numbers == push_some(
            s.numbers,
            times(n, 1_000_000_000_000_000),
        ),
        input[k as int] == 'e' ==> resume_state(input, s, Some(n)).numbers == push_some(
            s.numbers,
            times(n, 1_000_000_000_000_000_000),
        ),
        (input[k as int] == 'z' || input[k as int] == 'y' || input[k as int] == 'r'
            || input[k as int] == 'q') ==> resume_state(input, s, Some(n)).numbers
            == s.numbers,
{
    reveal_with_fuel(pow10, 31);
    let c = input[k as int];
    if suffix_exponent(c) != 0 {
        lemma_skip_white_range(input, s.pos, k);
    }
}

proof fn lemma_skip_white_range(input: Seq<char>, i: nat, k: nat)
    requires
        i <= k < input.len(),
        forall|j: int| i <= j < k ==> unicode_white_space(#[trigger] input[j]),
        !unicode_white_space(input[k as int]),
    ensures
        skip_white(input, i) == k,
    decreases k - i,
{
    if i < k {
        lemma_skip_white_range(input, i + 1, k);
    }
}

/// Law: a suffix letter counts only at the end of a word. Where the letter
/// after a number (past any white space) is followed by an alphanumeric
/// character, the number is found unscaled.
pub proof fn law_suffix_needs_word_end(input: Seq<char>, s: ScanState, n: u64, k: nat)
    requires
        consistent(input, s),
        s.awaiting,
        s.pos <= k,
        k + 1 < input.len(),
        forall|i: int| s.pos <= i < k ==> unicode_white_space(#[trigger] input[i]),
        suffix_exponent(input[k as int]) != 0,
        unicode_alphanumeric(input[k + 1 as int]),
    ensures
        resume_state(input, s, Some(n)).numbers == s.numbers.push(n),
{
    lemma_skip_white_range(input, s.pos, k);
}



/// The shape of a token: digits, at most one dot, an `e`, and a minus sign
/// only in front; the dot mark is set exactly when the token holds a dot,
/// and a token with an `e` has set the `e` mark.
pub open spec fn token_shape(s: ScanState) -> bool {
    let t = s.token;
    &&& forall|i: int|
        0 <= i < t.len() ==> is_digit(#[trigger] t[i]) || t[i] == '.' || t[i] == 'e' || (t[i]
            == '-' && i == 0)
    &&& forall|i: int, j: int| 0 <= i < j < t.len() && #[trigger] t[i] == '.' ==> #[trigger] t[j] != '.'
    &&& s.has_dot <==> t.contains('.')
    &&& t.contains('e') ==> s.has_exp
}

proof fn lemma_scan_char_shape(input: Seq<char>, s: ScanState)
    requires
        s.pos < input.len(),
        token_shape(s),
    ensures
        token_shape(scan_char(input, s)),
{
    let c = input[s.pos as int];
    let t = scan_char(input, s);
    if t.token == s.token.push(c) {
        assert forall|i: int| 0 <= i < t.token.len() - 1 implies t.token[i] == s.token[i] by {}
        if c == '.' {
            assert(!s.token.contains('.'));
            assert forall|i: int, j: int|
                0 <= i < j < t.token.len() && #[trigger] t.token[i] == '.' implies #[trigger] t.token[j] != '.' by {
                if j < s.token.len() {
                    assert(s.token[i] == '.');
                } else {
                    assert(s.token[i] == '.');
                    assert(s.token.contains('.'));
                }
            }
        } else {
            assert forall|i: int, j: int|
                0 <= i < j < t.token.len() && #[trigger] t.token[i] == '.' implies #[trigger] t.token[j] != '.' by {
                if j < s.token.len() {
                    assert(s.token[j] == t.token[j]);
                }
            }
        }
        assert(t.token.contains('.') <==> (s.token.contains('.') || c == '.')) by {
            if t.token.contains('.') {
                let k = choose|k: int| 0 <= k < t.token.len() && t.token[k] == '.';
                if k < s.token.len() {
                    assert(s.token[k] == '.');
                }
            }
            if s.token.contains('.') {
                let k = choose|k: int| 0 <= k < s.token.len() && s.token[k] == '.';
                assert(t.token[k] == '.');
            }
            if c == '.' {
                assert(t.token[s.token.len() as int] == '.');
            }
        }
        assert(t.token.contains('e') ==> (s.token.contains('e') || c == 'e')) by {
            if t.token.contains('e') {
                let k = choose|k: int| 0 <= k < t.token.len() && t.token[k] == 'e';
                if k < s.token.len() {
                    assert(s.token[k] == 'e');
                }
            }
        }
    } else if t.token.len() == 0 {
        assert(!t.token.contains('.'));
        assert(!t.token.contains('e'));
    }
}

proof fn lemma_advance_shape(input: Seq<char>, s: ScanState)
    requires
        token_shape(s),
    ensures
        token_shape(advance(input, s)),
    decreases input.len() - s.pos,
{
    if !(s.done || s.awaiting) && s.pos < input.len() {
        let t = scan_char(input, s);
        lemma_scan_char_shape(input, s);
        if !t.awaiting {
            lemma_advance_shape(input, t);
        }
    }
}

proof fn lemma_run_shape(
    input: Seq<char>,
    s: ScanState,
    read: spec_fn(Seq<char>) -> Option<u64>,
    fuel: nat,
)
    requires
        token_shape(s),
    ensures
        token_shape(scan_run(input, s, read, fuel)),
    decreases fuel,
{
    if fuel > 0 {
        let t = scan_step(input, s, read);
        if s.awaiting {
            let r = resume_state(input, s, read(s.token));
            assert(!r.token.contains('.') && !r.token.contains('e'));
        } else {
            lemma_advance_shape(input, s);
        }
        lemma_run_shape(input, t, read, (fuel - 1) as nat);
    }
}

/// Law: every token of a scan has the shape of a number. At every move of
/// the scan of any message, whatever the readings, the token holds only
/// digits, at most one dot, an `e`, and a minus sign only in front; the dot
/// mark is set exactly when the token holds a dot. So every token handed out
/// to be read has that shape.
pub proof fn law_tokens_have_number_shape(
    input: Seq<char>,
    read: spec_fn(Seq<char>) -> Option<u64>,
    fuel: nat,
)
    ensures
        token_shape(scan_run(input, initial_state(), read, fuel)),
{
    assert(!initial_state().token.contains('.'));
    assert(!initial_state().token.contains('e'));
    lemma_run_shape(input, initial_state(), read, fuel);
}

} // verus!
