//! The grammar and parser for textual turtle programs.
//!
//! A program is a whitespace-separated sequence of command keywords; each
//! keyword consumes a fixed arity of numeric arguments (comma-separated for
//! `pencolor`). Numeric literals take an optional sign and decimal fraction
//! and are read as fixed-point values, saturated into coordinate range.
//! Unknown keywords, wrong-arity or malformed arguments are parse errors
//! identified by the offending byte span; the parser is total and never
//! panics.
//!
//! The grammar itself is the family of spec functions ending in
//! [`parse_program_spec`]; the executable parser is proved to return exactly
//! what the grammar says, for every input.

use vstd::prelude::*;
use vstd::string::StringSliceAdditionalSpecFns;
use crate::ast::{Command, Turtle};
use crate::fx::{COORD_LIMIT, SCALE};

verus! {

/// The angle `turnleft` and `turnright` use when no angle is written: a
/// quarter turn, in fixed-point degrees.
pub const DEFAULT_TURN: i64 = 900_000;

/// Why a program text was rejected.
#[derive(Clone, Copy, PartialEq, Eq, Structural, Debug)]
pub enum ParseErrorKind {
    /// A byte no command keyword can start with.
    UnexpectedChar,
    /// A word that is not a command keyword.
    UnknownCommand,
    /// A required numeric argument is missing.
    ExpectedNumber,
    /// A sign or decimal point without digits.
    MalformedNumber,
    /// Color components must be separated by commas.
    ExpectedComma,
    /// A color component must be a plain integer between 0 and 255.
    BadColorComponent,
    /// Text remains after a single parsed command.
    TrailingInput,
    /// The input holds no command at all.
    ExpectedCommand,
}

/// A fatal parse failure: the kind of fault and the offending byte span.
#[derive(Clone, Copy, PartialEq, Eq, Structural, Debug)]
pub struct ParseError {
    pub kind: ParseErrorKind,
    pub start: usize,
    pub end: usize,
}

/// One scanned numeric literal: its fixed-point value, its integer part,
/// whether it was a plain unsigned integer, and where it ends.
#[derive(Clone, Copy, PartialEq, Eq, Structural, Debug)]
pub struct NumScan {
    pub fx: i64,
    pub int_val: i64,
    pub plain: bool,
    pub end: usize,
}

pub open spec fn is_ws(b: u8) -> bool {
    b == 32 || b == 9 || b == 10 || b == 13
}

pub open spec fn is_alpha(b: u8) -> bool {
    (65 <= b <= 90) || (97 <= b <= 122)
}

pub open spec fn is_digit(b: u8) -> bool {
    48 <= b <= 57
}

/// The first index at or after `i` holding a non-whitespace byte.
pub open spec fn skip_ws(s: Seq<u8>, i: int) -> int
    decreases s.len() - i when 0 <= i <= s.len()
{
    if i < s.len() && is_ws(s[i]) {
        skip_ws(s, i + 1)
    } else {
        i
    }
}

/// The first index at or after `i` holding a non-letter byte.
pub open spec fn alpha_end(s: Seq<u8>, i: int) -> int
    decreases s.len() - i when 0 <= i <= s.len()
{
    if i < s.len() && is_alpha(s[i]) {
        alpha_end(s, i + 1)
    } else {
        i
    }
}

/// The first index at or after `i` holding a non-digit byte.
pub open spec fn digits_end(s: Seq<u8>, i: int) -> int
    decreases s.len() - i when 0 <= i <= s.len()
{
    if i < s.len() && is_digit(s[i]) {
        digits_end(s, i + 1)
    } else {
        i
    }
}

pub proof fn lemma_skip_ws_bounds(s: Seq<u8>, i: int)
    requires
        0 <= i <= s.len(),
    ensures
        i <= skip_ws(s, i) <= s.len(),
    decreases s.len() - i,
{
    if i < s.len() && is_ws(s[i]) {
        lemma_skip_ws_bounds(s, i + 1);
    }
}

pub proof fn lemma_alpha_end_bounds(s: Seq<u8>, i: int)
    requires
        0 <= i <= s.len(),
    ensures
        i <= alpha_end(s, i) <= s.len(),
    decreases s.len() - i,
{
    if i < s.len() && is_alpha(s[i]) {
        lemma_alpha_end_bounds(s, i + 1);
    }
}

pub proof fn lemma_digits_end_bounds(s: Seq<u8>, i: int)
    requires
        0 <= i <= s.len(),
    ensures
        i <= digits_end(s, i) <= s.len(),
    decreases s.len() - i,
{
    if i < s.len() && is_digit(s[i]) {
        lemma_digits_end_bounds(s, i + 1);
    }
}

/// Every byte before the digit run's end is a digit.
pub proof fn lemma_digits_before_end(s: Seq<u8>, i: int, j: int)
    requires
        0 <= i <= s.len(),
        i <= j < digits_end(s, i),
    ensures
        is_digit(s[j]),
    decreases s.len() - i,
{
    lemma_digits_end_bounds(s, i);
    if i < s.len() && is_digit(s[i]) {
        if j > i {
            lemma_digits_before_end(s, i + 1, j);
        }
    }
}

/// Saturate a nonnegative magnitude at the coordinate limit.
pub open spec fn sat_mag(v: int) -> int {
    if v > COORD_LIMIT as int {
        COORD_LIMIT as int
    } else {
        v
    }
}

/// The value of the digit run `s[i..j]`, saturated at the coordinate
/// limit digit by digit.
pub open spec fn digits_val(s: Seq<u8>, i: int, j: int) -> int
    decreases j - i when i <= j
{
    if j <= i {
        0
    } else {
        sat_mag(digits_val(s, i, j - 1) * 10 + (s[j - 1] - 48))
    }
}

pub proof fn lemma_digits_val_bounds(s: Seq<u8>, i: int, j: int)
    requires
        i <= j,
        forall|k: int| i <= k < j ==> is_digit(#[trigger] s[k]),
    ensures
        0 <= digits_val(s, i, j) <= COORD_LIMIT as int,
    decreases j - i,
{
    if j > i {
        lemma_digits_val_bounds(s, i, j - 1);
    }
}

pub open spec fn pow10(k: nat) -> int
    decreases k,
{
    if k == 0 {
        1
    } else {
        10 * pow10((k - 1) as nat)
    }
}

/// The value of a fraction digit run, scaled to fixed point: only the
/// first four fraction digits carry weight.
pub open spec fn frac_val(s: Seq<u8>, i: int, j: int) -> int {
    let k = if j - i > 4 {
        4
    } else {
        j - i
    };
    digits_val(s, i, i + k) * pow10((4 - k) as nat)
}

/// Whether a numeric literal can start at `k`.
pub open spec fn num_starts(s: Seq<u8>, k: int) -> bool {
    k < s.len() && (is_digit(s[k]) || s[k] == 43 || s[k] == 45)
}

/// Scan one numeric literal at `i`: an optional sign, an integer digit
/// run, and an optional decimal point with a fraction digit run. The value
/// is saturated into coordinate range.
pub open spec fn scan_number_spec(s: Seq<u8>, i: int) -> Result<NumScan, ParseError>
    recommends
        0 <= i <= s.len(),
{
    let signed = i < s.len() && (s[i] == 43 || s[i] == 45);
    let neg = i < s.len() && s[i] == 45;
    let d0 = if signed {
        i + 1
    } else {
        i
    };
    let d1 = digits_end(s, d0);
    if d1 == d0 {
        Err(ParseError { kind: ParseErrorKind::MalformedNumber, start: i as usize, end: d0 as usize })
    } else {
        let iv = digits_val(s, d0, d1);
        if d1 < s.len() && s[d1] == 46 {
            let f1 = digits_end(s, d1 + 1);
            if f1 == d1 + 1 {
                Err(ParseError {
                    kind: ParseErrorKind::MalformedNumber,
                    start: i as usize,
                    end: (d1 + 1) as usize,
                })
            } else {
                let mag = sat_mag(iv * (SCALE as int) + frac_val(s, d1 + 1, f1));
                Ok(NumScan {
                    fx: (if neg { -mag } else { mag }) as i64,
                    int_val: iv as i64,
                    plain: false,
                    end: f1 as usize,
                })
            }
        } else {
            let mag = sat_mag(iv * (SCALE as int));
            Ok(NumScan {
                fx: (if neg { -mag } else { mag }) as i64,
                int_val: iv as i64,
                plain: !signed,
                end: d1 as usize,
            })
        }
    }
}

/// A required numeric argument after position `j`: whitespace, then a
/// numeric literal.
pub open spec fn req_num(s: Seq<u8>, j: int) -> Result<NumScan, ParseError>
    recommends
        0 <= j <= s.len(),
{
    let k = skip_ws(s, j);
    if !num_starts(s, k) {
        Err(ParseError {
            kind: ParseErrorKind::ExpectedNumber,
            start: k as usize,
            end: if k < s.len() {
                (k + 1) as usize
            } else {
                k as usize
            },
        })
    } else {
        scan_number_spec(s, k)
    }
}

/// A required color component: a plain unsigned integer between 0
/// and 255.
pub open spec fn req_color(s: Seq<u8>, j: int) -> Result<(u8, usize), ParseError>
    recommends
        0 <= j <= s.len(),
{
    let k = skip_ws(s, j);
    match req_num(s, j) {
        Err(e) => Err(e),
        Ok(ns) => if ns.plain && 0 <= ns.int_val <= 255 {
            Ok((ns.int_val as u8, ns.end))
        } else {
            Err(ParseError { kind: ParseErrorKind::BadColorComponent, start: k as usize, end: ns.end })
        },
    }
}

/// A required comma after position `j`, surrounded by optional
/// whitespace.
pub open spec fn expect_comma(s: Seq<u8>, j: int) -> Result<usize, ParseError>
    recommends
        0 <= j <= s.len(),
{
    let k = skip_ws(s, j);
    if k < s.len() && s[k] == 44 {
        Ok((k + 1) as usize)
    } else {
        Err(ParseError {
            kind: ParseErrorKind::ExpectedComma,
            start: k as usize,
            end: if k < s.len() {
                (k + 1) as usize
            } else {
                k as usize
            },
        })
    }
}

/// The command keywords.
#[derive(Clone, Copy, PartialEq, Eq, Structural, Debug)]
pub enum Kw {
    Reset,
    PenUp,
    PenDown,
    TurnLeft,
    TurnRight,
    Direction,
    Move,
    PushLoc,
    PopLoc,
    PushRot,
    PopRot,
    Go,
    GoX,
    GoY,
    PenWidth,
    PenColor,
    Unknown,
}

/// Which keyword a word is, decided byte by byte.
pub open spec fn kw_of(w: Seq<u8>) -> Kw {
    if w.len() == 5 && w[0] == 114 && w[1] == 101 && w[2] == 115 && w[3] == 101 && w[4] == 116 {
        // reset
        Kw::Reset
    } else if w.len() == 5 && w[0] == 112 && w[1] == 101 && w[2] == 110 && w[3] == 117 && w[4] == 112 {
        // penup
        Kw::PenUp
    } else if w.len() == 7 && w[0] == 112 && w[1] == 101 && w[2] == 110 && w[3] == 100 && w[4] == 111 && w[5] == 119 && w[6] == 110 {
        // pendown
        Kw::PenDown
    } else if w.len() == 8 && w[0] == 116 && w[1] == 117 && w[2] == 114 && w[3] == 110 && w[4] == 108 && w[5] == 101 && w[6] == 102 && w[7] == 116 {
        // turnleft
        Kw::TurnLeft
    } else if w.len() == 9 && w[0] == 116 && w[1] == 117 && w[2] == 114 && w[3] == 110 && w[4] == 114 && w[5] == 105 && w[6] == 103 && w[7] == 104 && w[8] == 116 {
        // turnright
        Kw::TurnRight
    } else if w.len() == 9 && w[0] == 100 && w[1] == 105 && w[2] == 114 && w[3] == 101 && w[4] == 99 && w[5] == 116 && w[6] == 105 && w[7] == 111 && w[8] == 110 {
        // direction
        Kw::Direction
    } else if w.len() == 4 && w[0] == 109 && w[1] == 111 && w[2] == 118 && w[3] == 101 {
        // move
        Kw::Move
    } else if w.len() == 7 && w[0] == 112 && w[1] == 117 && w[2] == 115 && w[3] == 104 && w[4] == 108 && w[5] == 111 && w[6] == 99 {
        // pushloc
        Kw::PushLoc
    } else if w.len() == 6 && w[0] == 112 && w[1] == 111 && w[2] == 112 && w[3] == 108 && w[4] == 111 && w[5] == 99 {
        // poploc
        Kw::PopLoc
    } else if w.len() == 7 && w[0] == 112 && w[1] == 117 && w[2] == 115 && w[3] == 104 && w[4] == 114 && w[5] == 111 && w[6] == 116 {
        // pushrot
        Kw::PushRot
    } else if w.len() == 6 && w[0] == 112 && w[1] == 111 && w[2] == 112 && w[3] == 114 && w[4] == 111 && w[5] == 116 {
        // poprot
        Kw::PopRot
    } else if w.len() == 2 && w[0] == 103 && w[1] == 111 {
        // go
        Kw::Go
    } else if w.len() == 3 && w[0] == 103 && w[1] == 111 && w[2] == 120 {
        // gox
        Kw::GoX
    } else if w.len() == 3 && w[0] == 103 && w[1] == 111 && w[2] == 121 {
        // goy
        Kw::GoY
    } else if w.len() == 8 && w[0] == 112 && w[1] == 101 && w[2] == 110 && w[3] == 119 && w[4] == 105 && w[5] == 100 && w[6] == 116 && w[7] == 104 {
        // penwidth
        Kw::PenWidth
    } else if w.len() == 8 && w[0] == 112 && w[1] == 101 && w[2] == 110 && w[3] == 99 && w[4] == 111 && w[5] == 108 && w[6] == 111 && w[7] == 114 {
        // pencolor
        Kw::PenColor
    } else {
        Kw::Unknown
    }
}

/// A turn keyword's optional angle: a quarter turn when none is written;
/// `turnright` turns clockwise, so its angle is negated.
pub open spec fn turn_arg(s: Seq<u8>, j: int, right: bool) -> Result<(Command, usize), ParseError>
    recommends
        0 <= j <= s.len(),
{
    let k = skip_ws(s, j);
    if num_starts(s, k) {
        match scan_number_spec(s, k) {
            Err(e) => Err(e),
            Ok(ns) => Ok(
                (
                    Command::Turn(
                        if right {
                            (-(ns.fx as int)) as i64
                        } else {
                            ns.fx
                        },
                    ),
                    ns.end,
                ),
            ),
        }
    } else {
        Ok(
            (
                Command::Turn(
                    if right {
                        (-(DEFAULT_TURN as int)) as i64
                    } else {
                        DEFAULT_TURN
                    },
                ),
                j as usize,
            ),
        )
    }
}

/// Parse one command starting at the non-whitespace position `i`.
pub open spec fn parse_cmd_at(s: Seq<u8>, i: int) -> Result<(Command, usize), ParseError>
    recommends
        0 <= i < s.len(),
{
    if !is_alpha(s[i]) {
        Err(ParseError { kind: ParseErrorKind::UnexpectedChar, start: i as usize, end: (i + 1) as usize })
    } else {
        let j = alpha_end(s, i);
        match kw_of(s.subrange(i, j)) {
            Kw::Reset => Ok((Command::Reset, j as usize)),
            Kw::PenUp => Ok((Command::PenUp, j as usize)),
            Kw::PenDown => Ok((Command::PenDown, j as usize)),
            Kw::PushLoc => Ok((Command::PushLoc, j as usize)),
            Kw::PopLoc => Ok((Command::PopLoc, j as usize)),
            Kw::PushRot => Ok((Command::PushRot, j as usize)),
            Kw::PopRot => Ok((Command::PopRot, j as usize)),
            Kw::TurnLeft => turn_arg(s, j, false),
            Kw::TurnRight => turn_arg(s, j, true),
            Kw::Direction => match req_num(s, j) {
                Err(e) => Err(e),
                Ok(ns) => Ok((Command::Direction(ns.fx), ns.end)),
            },
            Kw::Move => match req_num(s, j) {
                Err(e) => Err(e),
                Ok(ns) => Ok((Command::Move(ns.fx), ns.end)),
            },
            Kw::GoX => match req_num(s, j) {
                Err(e) => Err(e),
                Ok(ns) => Ok((Command::GoX(ns.fx), ns.end)),
            },
            Kw::GoY => match req_num(s, j) {
                Err(e) => Err(e),
                Ok(ns) => Ok((Command::GoY(ns.fx), ns.end)),
            },
            Kw::PenWidth => match req_num(s, j) {
                Err(e) => Err(e),
                Ok(ns) => Ok((Command::PenWidth(ns.fx), ns.end)),
            },
            Kw::Go => match req_num(s, j) {
                Err(e) => Err(e),
                Ok(n1) => match req_num(s, n1.end as int) {
                    Err(e) => Err(e),
                    Ok(n2) => Ok((Command::Go(n1.fx, n2.fx), n2.end)),
                },
            },
            Kw::PenColor => match req_color(s, j) {
                Err(e) => Err(e),
                Ok((r, j1)) => match expect_comma(s, j1 as int) {
                    Err(e) => Err(e),
                    Ok(j2) => match req_color(s, j2 as int) {
                        Err(e) => Err(e),
                        Ok((g, j3)) => match expect_comma(s, j3 as int) {
                            Err(e) => Err(e),
                            Ok(j4) => match req_color(s, j4 as int) {
                                Err(e) => Err(e),
                                Ok((b, j5)) => Ok((Command::PenColor(r, g, b), j5)),
                            },
                        },
                    },
                },
            },
            Kw::Unknown => Err(
                ParseError { kind: ParseErrorKind::UnknownCommand, start: i as usize, end: j as usize },
            ),
        }
    }
}

/// An accepted numeric literal ends strictly after it starts and inside
/// the input.
pub proof fn lemma_scan_number_ok_bounds(s: Seq<u8>, i: int)
    requires
        0 <= i <= s.len(),
        s.len() <= usize::MAX,
    ensures
        scan_number_spec(s, i) matches Ok(ns) ==> i < ns.end <= s.len(),
{
    let signed = i < s.len() && (s[i] == 43 || s[i] == 45);
    let d0 = if signed {
        i + 1
    } else {
        i
    };
    if d0 <= s.len() {
        lemma_digits_end_bounds(s, d0);
        let d1 = digits_end(s, d0);
        if d1 < s.len() && s[d1] == 46 {
            lemma_digits_end_bounds(s, d1 + 1);
        }
    }
}

/// An accepted required argument ends strictly after the position it was
/// requested at.
pub proof fn lemma_req_num_ok_bounds(s: Seq<u8>, j: int)
    requires
        0 <= j <= s.len(),
        s.len() <= usize::MAX,
    ensures
        req_num(s, j) matches Ok(ns) ==> j < ns.end <= s.len(),
{
    lemma_skip_ws_bounds(s, j);
    let k = skip_ws(s, j);
    if num_starts(s, k) {
        lemma_scan_number_ok_bounds(s, k);
    }
}

pub proof fn lemma_req_color_ok_bounds(s: Seq<u8>, j: int)
    requires
        0 <= j <= s.len(),
        s.len() <= usize::MAX,
    ensures
        req_color(s, j) matches Ok(p) ==> j < p.1 <= s.len(),
{
    lemma_req_num_ok_bounds(s, j);
}

pub proof fn lemma_expect_comma_ok_bounds(s: Seq<u8>, j: int)
    requires
        0 <= j <= s.len(),
        s.len() <= usize::MAX,
    ensures
        expect_comma(s, j) matches Ok(k) ==> j < k <= s.len(),
{
    lemma_skip_ws_bounds(s, j);
}

/// An accepted command ends strictly after it starts and inside the
/// input.
pub proof fn lemma_parse_cmd_ok_bounds(s: Seq<u8>, i: int)
    requires
        0 <= i < s.len(),
        s.len() <= usize::MAX,
    ensures
        parse_cmd_at(s, i) matches Ok(p) ==> i < p.1 <= s.len(),
{
    if is_alpha(s[i]) {
        lemma_alpha_end_bounds(s, i + 1);
        let j = alpha_end(s, i);
        assert(i + 1 <= j <= s.len());
        lemma_req_num_ok_bounds(s, j);
        lemma_skip_ws_bounds(s, j);
        let k = skip_ws(s, j);
        if num_starts(s, k) {
            lemma_scan_number_ok_bounds(s, k);
        }
        match req_num(s, j) {
            Ok(n1) => {
                lemma_req_num_ok_bounds(s, n1.end as int);
            },
            Err(_) => {},
        }
        lemma_req_color_ok_bounds(s, j);
        match req_color(s, j) {
            Ok(p1) => {
                lemma_expect_comma_ok_bounds(s, p1.1 as int);
                match expect_comma(s, p1.1 as int) {
                    Ok(j2) => {
                        lemma_req_color_ok_bounds(s, j2 as int);
                        match req_color(s, j2 as int) {
                            Ok(p2) => {
                                lemma_expect_comma_ok_bounds(s, p2.1 as int);
                                match expect_comma(s, p2.1 as int) {
                                    Ok(j4) => {
                                        lemma_req_color_ok_bounds(s, j4 as int);
                                    },
                                    Err(_) => {},
                                }
                            },
                            Err(_) => {},
                        }
                    },
                    Err(_) => {},
                }
            },
            Err(_) => {},
        }
    }
}

/// Parse the rest of a program from position `i`: the commands in order,
/// or the first error.
pub open spec fn parse_prog_from(s: Seq<u8>, i: int) -> Result<Seq<Command>, ParseError>
    decreases s.len() - i when 0 <= i <= s.len() && s.len() <= usize::MAX
{
    let k = skip_ws(s, i);
    if k >= s.len() {
        Ok(Seq::empty())
    } else {
        match parse_cmd_at(s, k) {
            Err(e) => Err(e),
            Ok(p) => {
                proof {
                    lemma_skip_ws_bounds(s, i);
                    lemma_parse_cmd_ok_bounds(s, k);
                }
                match parse_prog_from(s, p.1 as int) {
                    Err(e) => Err(e),
                    Ok(rest) => Ok(seq![p.0].add(rest)),
                }
            },
        }
    }
}

/// The grammar of a whole program: leading whitespace, commands separated
/// by whitespace, trailing whitespace.
pub open spec fn parse_program_spec(s: Seq<u8>) -> Result<Seq<Command>, ParseError> {
    parse_prog_from(s, 0)
}

/// The grammar of a single command: exactly one command with optional
/// surrounding whitespace and nothing else.
pub open spec fn parse_command_spec(s: Seq<u8>) -> Result<Command, ParseError> {
    let k = skip_ws(s, 0);
    if k >= s.len() {
        Err(ParseError { kind: ParseErrorKind::ExpectedCommand, start: k as usize, end: k as usize })
    } else {
        match parse_cmd_at(s, k) {
            Err(e) => Err(e),
            Ok(p) => {
                let t = skip_ws(s, p.1 as int);
                if t < s.len() {
                    Err(ParseError {
                        kind: ParseErrorKind::TrailingInput,
                        start: t as usize,
                        end: s.len() as usize,
                    })
                } else {
                    Ok(p.0)
                }
            },
        }
    }
}

fn ws_byte(b: u8) -> (r: bool)
    ensures
        r == is_ws(b),
{
    b == 32 || b == 9 || b == 10 || b == 13
}

fn alpha_byte(b: u8) -> (r: bool)
    ensures
        r == is_alpha(b),
{
    (65 <= b && b <= 90) || (97 <= b && b <= 122)
}

fn digit_byte(b: u8) -> (r: bool)
    ensures
        r == is_digit(b),
{
    48 <= b && b <= 57
}

fn skip_ws_exec(s: &[u8], i: usize) -> (r: usize)
    requires
        i <= s@.len(),
    ensures
        r as int == skip_ws(s@, i as int),
        i <= r <= s@.len(),
{
    let mut k = i;
    while k < s.len() && ws_byte(s[k])
        invariant
            i <= k <= s@.len(),
            skip_ws(s@, i as int) == skip_ws(s@, k as int),
        decreases s@.len() - k,
    {
        k = k + 1;
    }
    k
}

fn alpha_end_exec(s: &[u8], i: usize) -> (r: usize)
    requires
        i <= s@.len(),
    ensures
        r as int == alpha_end(s@, i as int),
        i <= r <= s@.len(),
{
    let mut k = i;
    while k < s.len() && alpha_byte(s[k])
        invariant
            i <= k <= s@.len(),
            alpha_end(s@, i as int) == alpha_end(s@, k as int),
        decreases s@.len() - k,
    {
        k = k + 1;
    }
    k
}

fn digits_end_exec(s: &[u8], i: usize) -> (r: usize)
    requires
        i <= s@.len(),
    ensures
        r as int == digits_end(s@, i as int),
        i <= r <= s@.len(),
{
    let mut k = i;
    while k < s.len() && digit_byte(s[k])
        invariant
            i <= k <= s@.len(),
            digits_end(s@, i as int) == digits_end(s@, k as int),
        decreases s@.len() - k,
    {
        k = k + 1;
    }
    k
}

fn digits_value_exec(s: &[u8], lo: usize, hi: usize) -> (val: i64)
    requires
        lo <= hi <= s@.len(),
        forall|k: int| lo <= k < hi ==> is_digit(#[trigger] s@[k]),
    ensures
        val as int == digits_val(s@, lo as int, hi as int),
        0 <= val <= COORD_LIMIT,
{
    let mut acc: i64 = 0;
    let mut k = lo;
    while k < hi
        invariant
            lo <= k <= hi <= s@.len(),
            forall|m: int| lo <= m < hi ==> is_digit(#[trigger] s@[m]),
            acc as int == digits_val(s@, lo as int, k as int),
            0 <= acc <= COORD_LIMIT,
        decreases hi - k,
    {
        let d = s[k] - 48;
        let wide = acc * 10 + (d as i64);
        acc = if wide > COORD_LIMIT {
            COORD_LIMIT
        } else {
            wide
        };
        k = k + 1;
    }
    acc
}

fn pow10_exec(k: u32) -> (r: i64)
    requires
        k <= 4,
    ensures
        r as int == pow10(k as nat),
{
    proof {
        lemma_pow10_values();
    }
    if k == 0 {
        1
    } else if k == 1 {
        10
    } else if k == 2 {
        100
    } else if k == 3 {
        1_000
    } else {
        10_000
    }
}

/// Scan one numeric literal.
fn scan_number(s: &[u8], i: usize) -> (r: Result<NumScan, ParseError>)
    requires
        i <= s@.len(),
    ensures
        r == scan_number_spec(s@, i as int),
        r matches Ok(ns) ==> i < ns.end <= s@.len() && -COORD_LIMIT <= ns.fx <= COORD_LIMIT && 0
            <= ns.int_val <= COORD_LIMIT,
{
    let n = s.len();
    proof {
        lemma_scan_number_ok_bounds(s@, i as int);
    }
    let signed = i < n && (s[i] == 43 || s[i] == 45);
    let neg = i < n && s[i] == 45;
    let d0 = if signed {
        i + 1
    } else {
        i
    };
    let d1 = digits_end_exec(s, d0);
    if d1 == d0 {
        return Err(ParseError { kind: ParseErrorKind::MalformedNumber, start: i, end: d0 });
    }
    proof {
        assert forall|k: int| d0 <= k < d1 implies is_digit(#[trigger] s@[k]) by {
            lemma_digits_before_end(s@, d0 as int, k);
        }
        lemma_digits_val_bounds(s@, d0 as int, d1 as int);
    }
    let iv = digits_value_exec(s, d0, d1);
    if d1 < s.len() && s[d1] == 46 {
        let f1 = digits_end_exec(s, d1 + 1);
        if f1 == d1 + 1 {
            return Err(ParseError { kind: ParseErrorKind::MalformedNumber, start: i, end: d1 + 1 });
        }
        let flen = f1 - (d1 + 1);
        let take: usize = if flen > 4 {
            4
        } else {
            flen
        };
        proof {
            assert forall|k: int| d1 + 1 <= k < d1 + 1 + take implies is_digit(
                #[trigger] s@[k],
            ) by {
                lemma_digits_before_end(s@, d1 as int + 1, k);
            }
            lemma_digits_val_bounds(s@, d1 as int + 1, d1 as int + 1 + take as int);
        }
        let fd = digits_value_exec(s, d1 + 1, d1 + 1 + take);
        let scale_pow = pow10_exec((4 - take) as u32);
        proof {
            lemma_small_digit_run(s@, d1 as int + 1, d1 as int + 1 + take as int, take as int);
            lemma_pow10_pos((4 - take) as nat);
            assert((fd as int) * (scale_pow as int) <= 10_000 && (fd as int) * (scale_pow as int)
                >= 0) by (nonlinear_arith)
                requires
                    0 <= fd as int,
                    0 <= scale_pow as int,
                    (fd as int) * (scale_pow as int) == digits_val(
                        s@,
                        d1 as int + 1,
                        d1 as int + 1 + take as int,
                    ) * pow10((4 - take) as nat),
                    digits_val(s@, d1 as int + 1, d1 as int + 1 + take as int) * pow10(
                        (4 - take) as nat,
                    ) <= 10_000,
            ;
        }
        let frac_fx: i64 = fd * scale_pow;
        let prod_sat: i64 = sat_int_scale(iv);
        let sum: i64 = prod_sat + frac_fx;
        let wide: i64 = if sum > COORD_LIMIT {
            COORD_LIMIT
        } else {
            sum
        };
        proof {
            assert(wide as int == sat_mag(
                iv as int * SCALE as int + frac_val(s@, d1 as int + 1, f1 as int),
            )) by (nonlinear_arith)
                requires
                    prod_sat as int == sat_mag(iv as int * SCALE as int),
                    0 <= iv as int,
                    0 <= frac_fx as int <= 10_000,
                    frac_fx as int == frac_val(s@, d1 as int + 1, f1 as int),
                    sum as int == prod_sat as int + frac_fx as int,
                    wide as int == if sum as int > COORD_LIMIT as int {
                        COORD_LIMIT as int
                    } else {
                        sum as int
                    },
            ;
        }
        let fx = if neg {
            -wide
        } else {
            wide
        };
        Ok(NumScan { fx, int_val: iv, plain: false, end: f1 })
    } else {
        let prod_sat: i64 = sat_int_scale(iv);
        let fx = if neg {
            -prod_sat
        } else {
            prod_sat
        };
        Ok(NumScan { fx, int_val: iv, plain: !signed, end: d1 })
    }
}

/// Scale a saturated integer part into fixed point, saturating at the
/// coordinate limit.
fn sat_int_scale(iv: i64) -> (r: i64)
    requires
        0 <= iv <= COORD_LIMIT,
    ensures
        r as int == sat_mag(iv as int * SCALE as int),
        0 <= r <= COORD_LIMIT,
{
    if iv > 100_000_000 {
        proof {
            assert(iv as int * SCALE as int > COORD_LIMIT as int) by (nonlinear_arith)
                requires
                    iv as int > 100_000_000,
                    SCALE as int == 10_000,
            ;
        }
        COORD_LIMIT
    } else {
        proof {
            assert(0 <= iv as int * SCALE as int <= COORD_LIMIT as int) by (nonlinear_arith)
                requires
                    0 <= iv as int <= 100_000_000,
                    SCALE as int == 10_000,
            ;
        }
        iv * SCALE
    }
}

proof fn lemma_pow10_values()
    ensures
        pow10(0) == 1,
        pow10(1) == 10,
        pow10(2) == 100,
        pow10(3) == 1_000,
        pow10(4) == 10_000,
{
    reveal_with_fuel(pow10, 5);
}

proof fn lemma_pow10_pos(k: nat)
    ensures
        pow10(k) >= 1,
    decreases k,
{
    if k > 0 {
        lemma_pow10_pos((k - 1) as nat);
    }
}

proof fn lemma_pow10_split(t: int)
    requires
        0 <= t <= 4,
    ensures
        pow10(t as nat) * pow10((4 - t) as nat) == 10_000,
        pow10((4 - t) as nat) >= 1,
{
    lemma_pow10_values();
    let a = pow10(t as nat);
    let b = pow10((4 - t) as nat);
    if t == 0 {
        assert(a * b == 10_000) by (nonlinear_arith)
            requires
                a == 1 && b == 10_000,
        ;
    } else if t == 1 {
        assert(a * b == 10_000) by (nonlinear_arith)
            requires
                a == 10 && b == 1_000,
        ;
    } else if t == 2 {
        assert(a * b == 10_000) by (nonlinear_arith)
            requires
                a == 100 && b == 100,
        ;
    } else if t == 3 {
        assert(a * b == 10_000) by (nonlinear_arith)
            requires
                a == 1_000 && b == 10,
        ;
    } else {
        assert(a * b == 10_000) by (nonlinear_arith)
            requires
                a == 10_000 && b == 1,
        ;
    }
}

/// A digit run of at most four digits, scaled by its missing weight, stays
/// at or below one whole fixed-point unit.
proof fn lemma_small_digit_run(s: Seq<u8>, i: int, j: int, take: int)
    requires
        i <= j,
        j - i == take,
        0 <= take <= 4,
        forall|k: int| i <= k < j ==> is_digit(#[trigger] s[k]),
    ensures
        digits_val(s, i, j) * pow10((4 - take) as nat) <= 10_000,
        digits_val(s, i, j) < pow10(take as nat),
    decreases take,
{
    lemma_pow10_values();
    lemma_pow10_split(take);
    if take == 0 {
        assert(digits_val(s, i, j) == 0);
    } else {
        lemma_small_digit_run(s, i, j - 1, take - 1);
        lemma_digits_val_bounds(s, i, j - 1);
        lemma_digits_val_bounds(s, i, j);
        let prev = digits_val(s, i, j - 1);
        assert(prev < pow10((take - 1) as nat));
        assert(is_digit(s[j - 1]));
        assert(digits_val(s, i, j) == sat_mag(prev * 10 + (s[j - 1] - 48)));
        assert(prev * 10 + (s[j - 1] - 48) < pow10(take as nat)) by (nonlinear_arith)
            requires
                prev < pow10((take - 1) as nat),
                prev >= 0,
                0 <= s[j - 1] - 48 <= 9,
                pow10(take as nat) == 10 * pow10((take - 1) as nat),
        ;
        assert(prev * 10 + (s[j - 1] - 48) < 10_000) by (nonlinear_arith)
            requires
                prev * 10 + (s[j - 1] - 48) < pow10(take as nat),
                pow10(take as nat) * pow10((4 - take) as nat) == 10_000,
                pow10((4 - take) as nat) >= 1,
                pow10(take as nat) >= 1,
        ;
        assert(digits_val(s, i, j) * pow10((4 - take) as nat) <= 10_000) by (nonlinear_arith)
            requires
                0 <= digits_val(s, i, j),
                digits_val(s, i, j) < pow10(take as nat),
                pow10(take as nat) * pow10((4 - take) as nat) == 10_000,
                pow10((4 - take) as nat) >= 1,
        ;
    }
}


/// Decide which keyword the word `s[i..j]` is.
fn keyword_at(s: &[u8], i: usize, j: usize) -> (k: Kw)
    requires
        i <= j <= s@.len(),
    ensures
        k == kw_of(s@.subrange(i as int, j as int)),
{
    let ghost w = s@.subrange(i as int, j as int);
    let n = j - i;
    if n == 5 && s[i + 0] == 114 && s[i + 1] == 101 && s[i + 2] == 115 && s[i + 3] == 101 && s[i + 4] == 116 {
        // reset
        return Kw::Reset;
    }
    if n == 5 && s[i + 0] == 112 && s[i + 1] == 101 && s[i + 2] == 110 && s[i + 3] == 117 && s[i + 4] == 112 {
        // penup
        return Kw::PenUp;
    }
    if n == 7 && s[i + 0] == 112 && s[i + 1] == 101 && s[i + 2] == 110 && s[i + 3] == 100 && s[i + 4] == 111 && s[i + 5] == 119 && s[i + 6] == 110 {
        // pendown
        return Kw::PenDown;
    }
    if n == 8 && s[i + 0] == 116 && s[i + 1] == 117 && s[i + 2] == 114 && s[i + 3] == 110 && s[i + 4] == 108 && s[i + 5] == 101 && s[i + 6] == 102 && s[i + 7] == 116 {
        // turnleft
        return Kw::TurnLeft;
    }
    if n == 9 && s[i + 0] == 116 && s[i + 1] == 117 && s[i + 2] == 114 && s[i + 3] == 110 && s[i + 4] == 114 && s[i + 5] == 105 && s[i + 6] == 103 && s[i + 7] == 104 && s[i + 8] == 116 {
        // turnright
        return Kw::TurnRight;
    }
    if n == 9 && s[i + 0] == 100 && s[i + 1] == 105 && s[i + 2] == 114 && s[i + 3] == 101 && s[i + 4] == 99 && s[i + 5] == 116 && s[i + 6] == 105 && s[i + 7] == 111 && s[i + 8] == 110 {
        // direction
        return Kw::Direction;
    }
    if n == 4 && s[i + 0] == 109 && s[i + 1] == 111 && s[i + 2] == 118 && s[i + 3] == 101 {
        // move
        return Kw::Move;
    }
    if n == 7 && s[i + 0] == 112 && s[i + 1] == 117 && s[i + 2] == 115 && s[i + 3] == 104 && s[i + 4] == 108 && s[i + 5] == 111 && s[i + 6] == 99 {
        // pushloc
        return Kw::PushLoc;
    }
    if n == 6 && s[i + 0] == 112 && s[i + 1] == 111 && s[i + 2] == 112 && s[i + 3] == 108 && s[i + 4] == 111 && s[i + 5] == 99 {
        // poploc
        return Kw::PopLoc;
    }
    if n == 7 && s[i + 0] == 112 && s[i + 1] == 117 && s[i + 2] == 115 && s[i + 3] == 104 && s[i + 4] == 114 && s[i + 5] == 111 && s[i + 6] == 116 {
        // pushrot
        return Kw::PushRot;
    }
    if n == 6 && s[i + 0] == 112 && s[i + 1] == 111 && s[i + 2] == 112 && s[i + 3] == 114 && s[i + 4] == 111 && s[i + 5] == 116 {
        // poprot
        return Kw::PopRot;
    }
    if n == 2 && s[i + 0] == 103 && s[i + 1] == 111 {
        // go
        return Kw::Go;
    }
    if n == 3 && s[i + 0] == 103 && s[i + 1] == 111 && s[i + 2] == 120 {
        // gox
        return Kw::GoX;
    }
    if n == 3 && s[i + 0] == 103 && s[i + 1] == 111 && s[i + 2] == 121 {
        // goy
        return Kw::GoY;
    }
    if n == 8 && s[i + 0] == 112 && s[i + 1] == 101 && s[i + 2] == 110 && s[i + 3] == 119 && s[i + 4] == 105 && s[i + 5] == 100 && s[i + 6] == 116 && s[i + 7] == 104 {
        // penwidth
        return Kw::PenWidth;
    }
    if n == 8 && s[i + 0] == 112 && s[i + 1] == 101 && s[i + 2] == 110 && s[i + 3] == 99 && s[i + 4] == 111 && s[i + 5] == 108 && s[i + 6] == 111 && s[i + 7] == 114 {
        // pencolor
        return Kw::PenColor;
    }
    Kw::Unknown
}

/// A required numeric argument after `j`.
fn req_num_exec(s: &[u8], j: usize) -> (r: Result<NumScan, ParseError>)
    requires
        j <= s@.len(),
    ensures
        r == req_num(s@, j as int),
        r matches Ok(ns) ==> j < ns.end <= s@.len() && -COORD_LIMIT <= ns.fx <= COORD_LIMIT && 0
            <= ns.int_val <= COORD_LIMIT,
{
    let n = s.len();
    let k = skip_ws_exec(s, j);
    if !(k < n && (digit_byte(s[k]) || s[k] == 43 || s[k] == 45)) {
        Err(ParseError {
            kind: ParseErrorKind::ExpectedNumber,
            start: k,
            end: if k < n {
                k + 1
            } else {
                k
            },
        })
    } else {
        scan_number(s, k)
    }
}

/// A required color component after `j`.
fn req_color_exec(s: &[u8], j: usize) -> (r: Result<(u8, usize), ParseError>)
    requires
        j <= s@.len(),
    ensures
        r == req_color(s@, j as int),
        r matches Ok(p) ==> j < p.1 <= s@.len(),
{
    let k = skip_ws_exec(s, j);
    match req_num_exec(s, j) {
        Err(e) => Err(e),
        Ok(ns) => if ns.plain && ns.int_val <= 255 {
            Ok((ns.int_val as u8, ns.end))
        } else {
            Err(ParseError { kind: ParseErrorKind::BadColorComponent, start: k, end: ns.end })
        },
    }
}

/// A required comma after `j`.
fn expect_comma_exec(s: &[u8], j: usize) -> (r: Result<usize, ParseError>)
    requires
        j <= s@.len(),
    ensures
        r == expect_comma(s@, j as int),
        r matches Ok(k) ==> j < k <= s@.len(),
{
    let n = s.len();
    let k = skip_ws_exec(s, j);
    if k < n && s[k] == 44 {
        Ok(k + 1)
    } else {
        Err(ParseError {
            kind: ParseErrorKind::ExpectedComma,
            start: k,
            end: if k < n {
                k + 1
            } else {
                k
            },
        })
    }
}

/// A turn keyword's optional angle.
fn turn_arg_exec(s: &[u8], j: usize, right: bool) -> (r: Result<(Command, usize), ParseError>)
    requires
        j <= s@.len(),
    ensures
        r == turn_arg(s@, j as int, right),
        r matches Ok(p) ==> j <= p.1 <= s@.len(),
{
    let n = s.len();
    let k = skip_ws_exec(s, j);
    if k < n && (digit_byte(s[k]) || s[k] == 43 || s[k] == 45) {
        match scan_number(s, k) {
            Err(e) => Err(e),
            Ok(ns) => Ok(
                (
                    Command::Turn(
                        if right {
                            -ns.fx
                        } else {
                            ns.fx
                        },
                    ),
                    ns.end,
                ),
            ),
        }
    } else {
        Ok(
            (
                Command::Turn(
                    if right {
                        -DEFAULT_TURN
                    } else {
                        DEFAULT_TURN
                    },
                ),
                j,
            ),
        )
    }
}

/// Parse one command starting at the non-whitespace position `i`.
fn parse_cmd_exec(s: &[u8], i: usize) -> (r: Result<(Command, usize), ParseError>)
    requires
        i < s@.len(),
    ensures
        r == parse_cmd_at(s@, i as int),
        r matches Ok(p) ==> i < p.1 <= s@.len(),
{
    let n = s.len();
    proof {
        lemma_parse_cmd_ok_bounds(s@, i as int);
    }
    if !alpha_byte(s[i]) {
        return Err(ParseError { kind: ParseErrorKind::UnexpectedChar, start: i, end: i + 1 });
    }
    let j = alpha_end_exec(s, i);
    match keyword_at(s, i, j) {
        Kw::Reset => Ok((Command::Reset, j)),
        Kw::PenUp => Ok((Command::PenUp, j)),
        Kw::PenDown => Ok((Command::PenDown, j)),
        Kw::PushLoc => Ok((Command::PushLoc, j)),
        Kw::PopLoc => Ok((Command::PopLoc, j)),
        Kw::PushRot => Ok((Command::PushRot, j)),
        Kw::PopRot => Ok((Command::PopRot, j)),
        Kw::TurnLeft => turn_arg_exec(s, j, false),
        Kw::TurnRight => turn_arg_exec(s, j, true),
        Kw::Direction => match req_num_exec(s, j) {
            Err(e) => Err(e),
            Ok(ns) => Ok((Command::Direction(ns.fx), ns.end)),
        },
        Kw::Move => match req_num_exec(s, j) {
            Err(e) => Err(e),
            Ok(ns) => Ok((Command::Move(ns.fx), ns.end)),
        },
        Kw::GoX => match req_num_exec(s, j) {
            Err(e) => Err(e),
            Ok(ns) => Ok((Command::GoX(ns.fx), ns.end)),
        },
        Kw::GoY => match req_num_exec(s, j) {
            Err(e) => Err(e),
            Ok(ns) => Ok((Command::GoY(ns.fx), ns.end)),
        },
        Kw::PenWidth => match req_num_exec(s, j) {
            Err(e) => Err(e),
            Ok(ns) => Ok((Command::PenWidth(ns.fx), ns.end)),
        },
        Kw::Go => match req_num_exec(s, j) {
            Err(e) => Err(e),
            Ok(n1) => match req_num_exec(s, n1.end) {
                Err(e) => Err(e),
                Ok(n2) => Ok((Command::Go(n1.fx, n2.fx), n2.end)),
            },
        },
        Kw::PenColor => match req_color_exec(s, j) {
            Err(e) => Err(e),
            Ok((cr, j1)) => match expect_comma_exec(s, j1) {
                Err(e) => Err(e),
                Ok(j2) => match req_color_exec(s, j2) {
                    Err(e) => Err(e),
                    Ok((cg, j3)) => match expect_comma_exec(s, j3) {
                        Err(e) => Err(e),
                        Ok(j4) => match req_color_exec(s, j4) {
                            Err(e) => Err(e),
                            Ok((cb, j5)) => Ok((Command::PenColor(cr, cg, cb), j5)),
                        },
                    },
                },
            },
        },
        Kw::Unknown => Err(
            ParseError { kind: ParseErrorKind::UnknownCommand, start: i, end: j },
        ),
    }
}

/// Prepend already-parsed commands to the outcome of parsing the rest.
pub open spec fn with_prefix(pre: Seq<Command>, sp: Result<Seq<Command>, ParseError>) -> Result<
    Seq<Command>,
    ParseError,
> {
    match sp {
        Ok(rest) => Ok(pre + rest),
        Err(e) => Err(e),
    }
}

/// An executable parse outcome agrees with what the grammar says.
pub open spec fn prog_result_matches(r: Result<Turtle, ParseError>, sp: Result<
    Seq<Command>,
    ParseError,
>) -> bool {
    match r {
        Ok(v) => sp == Ok::<Seq<Command>, ParseError>(v@),
        Err(e) => sp == Err::<Seq<Command>, ParseError>(e),
    }
}

/// Parse a whole program from bytes: the command list in order, or the
/// first error.
pub fn parse_program(s: &[u8]) -> (r: Result<Turtle, ParseError>)
    ensures
        prog_result_matches(r, parse_program_spec(s@)),
{
    let n = s.len();
    let mut cmds: Vec<Command> = Vec::new();
    let mut i: usize = 0;
    loop
        invariant
            i <= n,
            n == s@.len(),
            parse_prog_from(s@, 0) == with_prefix(cmds@, parse_prog_from(s@, i as int)),
        decreases n - i,
    {
        let k = skip_ws_exec(s, i);
        if k >= n {
            proof {
                assert(cmds@ + Seq::<Command>::empty() =~= cmds@);
            }
            return Ok(cmds);
        }
        match parse_cmd_exec(s, k) {
            Err(e) => {
                return Err(e);
            },
            Ok((c, j)) => {
                let ghost prev = cmds@;
                cmds.push(c);
                proof {
                    match parse_prog_from(s@, j as int) {
                        Ok(rest) => {
                            assert(prev + (seq![c].add(rest)) =~= cmds@ + rest);
                        },
                        Err(_) => {},
                    }
                }
                i = j;
            },
        }
    }
}

/// Parse exactly one command from bytes, admitting nothing but
/// whitespace around it.
pub fn parse_command(s: &[u8]) -> (r: Result<Command, ParseError>)
    ensures
        r == parse_command_spec(s@),
{
    let n = s.len();
    let k = skip_ws_exec(s, 0);
    if k >= n {
        return Err(ParseError { kind: ParseErrorKind::ExpectedCommand, start: k, end: k });
    }
    match parse_cmd_exec(s, k) {
        Err(e) => Err(e),
        Ok((c, j)) => {
            let t = skip_ws_exec(s, j);
            if t < n {
                Err(ParseError { kind: ParseErrorKind::TrailingInput, start: t, end: n })
            } else {
                Ok(c)
            }
        },
    }
}

/// Parses a single command with optional surrounding whitespace.
pub struct CommandParser {}

impl CommandParser {
    pub fn new() -> CommandParser {
        CommandParser {  }
    }

    /// Parse one command, rejecting any trailing text.
    pub fn parse(&self, text: &str) -> (r: Result<Command, ParseError>)
        ensures
            r == parse_command_spec(text.spec_bytes()),
    {
        parse_command(text.as_bytes())
    }
}

/// Parses a whole turtle program.
pub struct TopLevelParser {}

impl TopLevelParser {
    pub fn new() -> TopLevelParser {
        TopLevelParser {  }
    }

    /// Parse a whole program: the commands in order, or the first error.
    pub fn parse(&self, text: &str) -> (r: Result<Turtle, ParseError>)
        ensures
            prog_result_matches(r, parse_program_spec(text.spec_bytes())),
    {
        parse_program(text.as_bytes())
    }
}

/// The program parser, under the name embedders use.
pub type Parser = TopLevelParser;

} // verus!
