//! Command-line options.
//!
//! The command line is cut into options by the `lexopt` crate; what each
//! option does to the configuration, which of them take a value, how the value
//! of `-d` is read and which combinations are refused is decided here.
//!
//! The lexer is a matter of its own crate. What it hands out goes by names
//! here ([`next_of`], [`value_of`]): a contract says what is made of an
//! argument that the lexer finds, and leaves to the lexer which it finds.

use crate::canvas::Mode;
use vstd::prelude::*;
use vstd::string::StrSliceExecFns;
use vstd::string::StringExecFns;

verus! {

/// The plot's configuration.
#[derive(Debug, Clone, Copy, PartialEq, Eq, Structural)]
pub struct Opt {
    /// Plot the base-10 logarithm of the X values.
    pub log_x: bool,
    /// Plot the base-10 logarithm of the Y values.
    pub log_y: bool,
    /// The X value of a row is its index in the input; otherwise it is the row's first field.
    pub x_is_row: bool,
    /// Columns of the canvas.
    pub width: usize,
    /// Rows of the canvas.
    pub height: usize,
    /// How samples are drawn.
    pub mode: Mode,
    /// Plot the cumulative distribution of each series in place of the series.
    pub cdf: bool,
    /// Draw the axis lines.
    pub draw_axes: bool,
}

/// Why a text writes no number.
#[derive(Debug, Clone, Copy, PartialEq, Eq, Structural)]
pub enum NumberError {
    /// The text is empty.
    Empty,
    /// The text holds a character that is no digit, or nothing but a sign.
    InvalidDigit,
    /// The digits write a number greater than the greatest `usize`.
    TooLarge,
}

/// Why a `-d` value is not a pair of dimensions.
#[derive(Debug, Clone, Copy, PartialEq, Eq, Structural)]
pub enum DimensionsError {
    /// The value holds no `x` between a width and a height.
    NoSeparator,
    /// What stands before the `x` is no number, and why.
    Width(NumberError),
    /// What stands after the `x` is no number, and why.
    Height(NumberError),
}

/// One item of the command line, as the lexer hands it out.
#[derive(Debug, Clone, PartialEq, Eq)]
pub enum Token {
    /// A short option such as `-x`, without its dash.
    Short(char),
    /// A long option such as `--cdf`, without its dashes.
    Long(String),
    /// An argument that is no option.
    Value(String),
}

/// The options that the program knows.
#[derive(Debug, Clone, Copy, PartialEq, Eq, Structural)]
pub enum Flag {
    /// `-h`, `--help`
    Help,
    /// `-d WxH`
    Dimensions,
    /// `-l AXIS`, `--log AXIS`
    Log,
    /// `-m MODE`, `--mode MODE`
    Mode,
    /// `-x`
    ExplicitX,
    /// `--cdf`
    Cdf,
    /// `-A`
    NoAxes,
}

/// Why a command line is refused.
#[derive(Debug, Clone, PartialEq, Eq)]
pub enum OptError {
    /// The lexer could not read the next argument; its message.
    Lexer(String),
    /// The option needs a value and the lexer found none; its message.
    MissingValue(Flag, String),
    /// An argument that is no known option.
    Unexpected(Token),
    /// Help was asked for.
    Help,
    /// The value of `-d` is not `WxH`.
    Dimensions(DimensionsError),
    /// `--log c`: the logarithm of the counts is not available.
    LogOfCounts,
    /// The value of `--log` is none of `x`, `y`, `c`.
    LogAxis,
    /// The value of `--mode` is neither `dot` nor `count`.
    Mode,
    /// `--cdf` together with `-x`: the distribution is over the Y values alone.
    CdfWithExplicitX,
    /// `--cdf` together with `--log x`: the transform replaces the X axis.
    CdfWithLogX,
    /// The lexer went on handing out arguments beyond any command line's length.
    Unfinished,
}

/// The value of the decimal digit `c`.
pub open spec fn digit_value(c: char) -> nat {
    (c as nat - '0' as nat) as nat
}

pub open spec fn is_digit(c: char) -> bool {
    '0' <= c <= '9'
}

/// The number that a sequence of decimal digits writes.
pub open spec fn digits_value(digits: Seq<char>) -> nat
    decreases digits.len(),
{
    if digits.len() == 0 {
        0
    } else {
        digits_value(digits.drop_last()) * 10 + digit_value(digits.last())
    }
}

/// The digits of a written number: the text without one leading `+`.
pub open spec fn unsigned_digits(text: Seq<char>) -> Seq<char> {
    if text.len() > 0 && text[0] == '+' {
        text.subrange(1, text.len() as int)
    } else {
        text
    }
}

/// Where the digits that start at `start` end: at the first character from
/// there on that is no digit, or at the end of the text.
pub open spec fn digits_end(text: Seq<char>, start: int) -> int
    decreases text.len() - start,
{
    if start >= text.len() || start < 0 || !is_digit(text[start]) {
        start
    } else {
        digits_end(text, start + 1)
    }
}

/// The number that `text` writes: an optional `+`, then one decimal digit or
/// more, and nothing else, for a number that a `usize` holds.
///
/// A text is read from the left, so that of a text that is wrong in more
/// than one way the first fault is told: digits that grow too large before a
/// character that is no digit are too large.
pub open spec fn number_of(text: Seq<char>) -> Result<usize, NumberError> {
    let digits = unsigned_digits(text);
    let read = digits.take(digits_end(digits, 0));
    if text.len() == 0 {
        Err(NumberError::Empty)
    } else if digits.len() == 0 {
        Err(NumberError::InvalidDigit)
    } else if digits_value(read) > usize::MAX {
        Err(NumberError::TooLarge)
    } else if read.len() < digits.len() {
        Err(NumberError::InvalidDigit)
    } else {
        Ok(digits_value(digits) as usize)
    }
}

/// Whether `at` is the place of the first `x` in `text`.
pub open spec fn first_x(text: Seq<char>, at: int) -> bool {
    &&& 0 <= at < text.len()
    &&& text[at] == 'x'
    &&& forall|i: int| 0 <= i < at ==> text[i] != 'x'
}

/// The dimensions that `text` writes as `WxH`: the width before the first `x`, the
/// height after it.
pub open spec fn dimensions_of(text: Seq<char>) -> Result<(usize, usize), DimensionsError> {
    if exists|at: int| first_x(text, at) {
        let at = choose|at: int| first_x(text, at);
        match number_of(text.subrange(0, at)) {
            Err(e) => Err(DimensionsError::Width(e)),
            Ok(width) => match number_of(text.subrange(at + 1, text.len() as int)) {
                Err(e) => Err(DimensionsError::Height(e)),
                Ok(height) => Ok((width, height)),
            },
        }
    } else {
        Err(DimensionsError::NoSeparator)
    }
}

proof fn lemma_digits_value_grows(digits: Seq<char>, n: int)
    requires
        0 <= n <= digits.len(),
    ensures
        digits_value(digits.take(n)) <= digits_value(digits),
    decreases digits.len() - n,
{
    if n == digits.len() {
        assert(digits.take(n) =~= digits);
    } else {
        lemma_digits_value_grows(digits, n + 1);
        assert(digits.take(n + 1).drop_last() =~= digits.take(n));
    }
}

proof fn lemma_digits_end(text: Seq<char>, start: int, n: int)
    requires
        0 <= start <= n <= text.len(),
        forall|k: int| start <= k < n ==> is_digit(#[trigger] text[k]),
    ensures
        n <= digits_end(text, start) <= text.len(),
        n == text.len() || !is_digit(text[n]) ==> digits_end(text, start) == n,
    decreases text.len() - start,
{
    if start < n {
        lemma_digits_end(text, start + 1, n);
    } else if start < text.len() && is_digit(text[start]) {
        lemma_digits_end(text, start + 1, start + 1);
    }
}

/// Reads the number that `text[from..to]` writes.
fn parse_number(text: &Vec<char>, from: usize, to: usize) -> (number: Result<usize, NumberError>)
    requires
        from <= to <= text@.len(),
    ensures
        number == number_of(text@.subrange(from as int, to as int)),
{
    let ghost whole = text@.subrange(from as int, to as int);
    if from == to {
        return Err(NumberError::Empty);
    }
    let start = if text[from] == '+' {
        from + 1
    } else {
        from
    };
    let ghost digits = unsigned_digits(whole);
    assert(whole[0] == text@[from as int]);
    assert(digits =~= text@.subrange(start as int, to as int));
    if start == to {
        return Err(NumberError::InvalidDigit);
    }
    let mut value: usize = 0;
    let mut i: usize = start;
    while i < to
        invariant
            from <= start <= i <= to <= text@.len(),
            from < to,
            start < to,
            whole == text@.subrange(from as int, to as int),
            digits == unsigned_digits(whole),
            digits == text@.subrange(start as int, to as int),
            forall|k: int| 0 <= k < i - start ==> is_digit(#[trigger] digits[k]),
            value == digits_value(digits.take(i - start)),
        decreases to - i,
    {
        let c = text[i];
        assert(c == digits[i - start]);
        if !('0' <= c && c <= '9') {
            proof {
                lemma_digits_end(digits, 0, i - start);
            }
            return Err(NumberError::InvalidDigit);
        }
        let digit = (c as u32 - '0' as u32) as usize;
        assert(digit == digit_value(c));
        proof {
            let n = i - start + 1;
            assert(digits.take(n).drop_last() =~= digits.take(i - start));
            assert(digits.take(n).last() == c);
            assert(digits_value(digits.take(n)) == value * 10 + digit);
            lemma_digits_end(digits, 0, n);
            let read = digits.take(digits_end(digits, 0));
            assert(read.take(n) =~= digits.take(n));
            lemma_digits_value_grows(read, n);
        }
        let scaled = match value.checked_mul(10) {
            Some(scaled) => scaled,
            None => {
                return Err(NumberError::TooLarge);
            },
        };
        value = match scaled.checked_add(digit) {
            Some(sum) => sum,
            None => {
                return Err(NumberError::TooLarge);
            },
        };
        i += 1;
    }
    proof {
        lemma_digits_end(digits, 0, to - start);
        assert(digits.take(to - start) =~= digits);
    }
    Ok(value)
}

/// The characters of `text`, one by one.
fn chars_of(text: &str) -> (chars: Vec<char>)
    ensures
        chars@ == text@,
{
    let n = text.unicode_len();
    let mut chars: Vec<char> = Vec::new();
    let mut i: usize = 0;
    while i < n
        invariant
            n == text@.len(),
            i <= n,
            chars@ == text@.take(i as int),
        decreases n - i,
    {
        chars.push(text.get_char(i));
        i += 1;
        assert(chars@ =~= text@.take(i as int));
    }
    assert(text@.take(n as int) =~= text@);
    chars
}

/// Reads a `-d` value: a width and a height with an `x` between them.
pub fn parse_dimensions(text: &str) -> (dimensions: Result<(usize, usize), DimensionsError>)
    ensures
        dimensions == dimensions_of(text@),
{
    let chars = chars_of(text);
    let mut at: usize = 0;
    while at < chars.len() && chars[at] != 'x'
        invariant
            at <= chars@.len(),
            forall|i: int| 0 <= i < at ==> chars@[i] != 'x',
        decreases chars@.len() - at,
    {
        at += 1;
    }
    if at == chars.len() {
        assert(!exists|k: int| first_x(text@, k));
        return Err(DimensionsError::NoSeparator);
    }
    proof {
        assert(first_x(text@, at as int));
        let chosen = choose|k: int| first_x(text@, k);
        assert(chosen == at) by {
            if chosen < at {
                assert(chars@[chosen] != 'x');
            } else if at < chosen {
                assert(text@[at as int] != 'x');
            }
        }
    }
    let width = match parse_number(&chars, 0, at) {
        Ok(width) => width,
        Err(e) => {
            return Err(DimensionsError::Width(e));
        },
    };
    let height = match parse_number(&chars, at + 1, chars.len()) {
        Ok(height) => height,
        Err(e) => {
            return Err(DimensionsError::Height(e));
        },
    };
    Ok((width, height))
}

/// Whether `text` reads `word`.
fn reads(text: &str, word: &str) -> (same: bool)
    ensures
        same == (text@ == word@),
{
    String::from_str(text) == String::from_str(word)
}

/// A [`Token`] as contracts speak of it: its text as a sequence of characters.
pub enum TokenText {
    Short(char),
    Long(Seq<char>),
    Value(Seq<char>),
}

impl View for Token {
    type V = TokenText;

    open spec fn view(&self) -> TokenText {
        match *self {
            Token::Short(c) => TokenText::Short(c),
            Token::Long(name) => TokenText::Long(name@),
            Token::Value(text) => TokenText::Value(text@),
        }
    }
}

/// An [`OptError`] as contracts speak of it: its texts as sequences of characters.
pub enum Refusal {
    Lexer(Seq<char>),
    MissingValue(Flag, Seq<char>),
    Unexpected(TokenText),
    Help,
    Dimensions(DimensionsError),
    LogOfCounts,
    LogAxis,
    Mode,
    CdfWithExplicitX,
    CdfWithLogX,
    Unfinished,
}

impl View for OptError {
    type V = Refusal;

    open spec fn view(&self) -> Refusal {
        match *self {
            OptError::Lexer(message) => Refusal::Lexer(message@),
            OptError::MissingValue(flag, message) => Refusal::MissingValue(flag, message@),
            OptError::Unexpected(token) => Refusal::Unexpected(token@),
            OptError::Help => Refusal::Help,
            OptError::Dimensions(e) => Refusal::Dimensions(e),
            OptError::LogOfCounts => Refusal::LogOfCounts,
            OptError::LogAxis => Refusal::LogAxis,
            OptError::Mode => Refusal::Mode,
            OptError::CdfWithExplicitX => Refusal::CdfWithExplicitX,
            OptError::CdfWithLogX => Refusal::CdfWithLogX,
            OptError::Unfinished => Refusal::Unfinished,
        }
    }
}

/// A result as contracts speak of it.
pub open spec fn told(result: Result<Opt, OptError>) -> Result<Opt, Refusal> {
    match result {
        Ok(opt) => Ok(opt),
        Err(e) => Err(e@),
    }
}

/// The option that a token names, if it names one.
pub open spec fn flag_of(token: TokenText) -> Option<Flag> {
    match token {
        TokenText::Short(c) => if c == 'h' {
            Some(Flag::Help)
        } else if c == 'd' {
            Some(Flag::Dimensions)
        } else if c == 'l' {
            Some(Flag::Log)
        } else if c == 'm' {
            Some(Flag::Mode)
        } else if c == 'x' {
            Some(Flag::ExplicitX)
        } else if c == 'A' {
            Some(Flag::NoAxes)
        } else {
            None
        },
        TokenText::Long(name) => if name == "help"@ {
            Some(Flag::Help)
        } else if name == "log"@ {
            Some(Flag::Log)
        } else if name == "mode"@ {
            Some(Flag::Mode)
        } else if name == "cdf"@ {
            Some(Flag::Cdf)
        } else {
            None
        },
        TokenText::Value(_) => None,
    }
}

/// Whether the option is followed by a value.
pub open spec fn takes_value(flag: Flag) -> bool {
    flag == Flag::Dimensions || flag == Flag::Log || flag == Flag::Mode
}

impl Flag {
    /// Tells which option a token names; `None` for a token that names none.
    pub fn of(token: &Token) -> (flag: Option<Flag>)
        ensures
            flag == flag_of(token@),
    {
        match token {
            Token::Short(c) => {
                let c = *c;
                if c == 'h' {
                    Some(Flag::Help)
                } else if c == 'd' {
                    Some(Flag::Dimensions)
                } else if c == 'l' {
                    Some(Flag::Log)
                } else if c == 'm' {
                    Some(Flag::Mode)
                } else if c == 'x' {
                    Some(Flag::ExplicitX)
                } else if c == 'A' {
                    Some(Flag::NoAxes)
                } else {
                    None
                }
            },
            Token::Long(name) => {
                if reads(name.as_str(), "help") {
                    Some(Flag::Help)
                } else if reads(name.as_str(), "log") {
                    Some(Flag::Log)
                } else if reads(name.as_str(), "mode") {
                    Some(Flag::Mode)
                } else if reads(name.as_str(), "cdf") {
                    Some(Flag::Cdf)
                } else {
                    None
                }
            },
            Token::Value(_) => None,
        }
    }

    /// Whether the option is followed by a value on the command line.
    pub fn wants_value(self) -> (wanted: bool)
        ensures
            wanted == takes_value(self),
    {
        match self {
            Flag::Dimensions | Flag::Log | Flag::Mode => true,
            _ => false,
        }
    }
}

/// The configuration of a command line without options.
pub open spec fn initial() -> Opt {
    Opt {
        log_x: false,
        log_y: false,
        x_is_row: true,
        width: 72,
        height: 40,
        mode: Mode::Dot,
        cdf: false,
        draw_axes: true,
    }
}

/// What one option makes of a configuration. `value` is the value of an
/// option that takes one; of any other option it is not looked at.
pub open spec fn applied(opt: Opt, flag: Flag, value: Seq<char>) -> Result<Opt, Refusal> {
    match flag {
        Flag::Help => Err(Refusal::Help),
        Flag::Dimensions => match dimensions_of(value) {
            Ok((width, height)) => Ok(Opt { width, height, ..opt }),
            Err(e) => Err(Refusal::Dimensions(e)),
        },
        Flag::Log => if value == "x"@ {
            Ok(Opt { log_x: true, ..opt })
        } else if value == "y"@ {
            Ok(Opt { log_y: true, ..opt })
        } else if value == "c"@ {
            Err(Refusal::LogOfCounts)
        } else {
            Err(Refusal::LogAxis)
        },
        Flag::Mode => if value == "dot"@ {
            Ok(Opt { mode: Mode::Dot, ..opt })
        } else if value == "count"@ {
            Ok(Opt { mode: Mode::Count, ..opt })
        } else {
            Err(Refusal::Mode)
        },
        Flag::ExplicitX => Ok(Opt { x_is_row: false, ..opt }),
        Flag::Cdf => Ok(Opt { cdf: true, ..opt }),
        Flag::NoAxes => Ok(Opt { draw_axes: false, ..opt }),
    }
}

/// What a run of options makes of a configuration: each applied in turn, up to
/// the first that is refused.
pub open spec fn applied_all(opt: Opt, options: Seq<(Flag, Seq<char>)>) -> Result<Opt, Refusal>
    decreases options.len(),
{
    if options.len() == 0 {
        Ok(opt)
    } else {
        match applied_all(opt, options.drop_last()) {
            Ok(before) => applied(before, options.last().0, options.last().1),
            Err(e) => Err(e),
        }
    }
}

/// The last word on a configuration: the cumulative distribution goes with
/// neither an explicit X value nor a logarithmic X axis.
pub open spec fn validated(opt: Opt) -> Result<Opt, Refusal> {
    if opt.cdf && !opt.x_is_row {
        Err(Refusal::CdfWithExplicitX)
    } else if opt.cdf && opt.log_x {
        Err(Refusal::CdfWithLogX)
    } else {
        Ok(opt)
    }
}

/// The configuration that a run of options stands for.
pub open spec fn configured(options: Seq<(Flag, Seq<char>)>) -> Result<Opt, Refusal> {
    match applied_all(initial(), options) {
        Ok(opt) => validated(opt),
        Err(e) => Err(e),
    }
}

/// Whether a command line is refused by the lexer rather than by the options' own rules.
pub open spec fn from_lexer(refusal: Refusal) -> bool {
    refusal is Lexer || refusal is MissingValue || refusal is Unexpected || refusal is Unfinished
}

/// The texts of the arguments of a command line.
pub open spec fn command_line(args: Seq<String>) -> Seq<Seq<char>> {
    Seq::new(args.len(), |i: int| args[i]@)
}

/// `lexopt::Parser`, the lexer of command lines. Nothing of it is seen here;
/// it goes by the arguments that it was made over and by what has been asked
/// of it since ([`lexer_args`], [`lexer_asked`]).
#[verifier::external_type_specification]
#[verifier::external_body]
pub struct ExLexer(lexopt::Parser);

/// `lexopt::Error`, what the lexer gives up with; nothing of it is seen here
/// but its message ([`described`]).
#[verifier::external_type_specification]
#[verifier::external_body]
pub struct ExLexerError(lexopt::Error);

/// The arguments that a lexer was made over.
pub uninterp spec fn lexer_args(lexer: lexopt::Parser) -> Seq<Seq<char>>;

/// What a lexer has been asked for since it was made, in order: `false` for
/// the next argument, `true` for the value of an option.
pub uninterp spec fn lexer_asked(lexer: lexopt::Parser) -> Seq<bool>;

/// The message of an error of the lexer.
pub uninterp spec fn described(error: lexopt::Error) -> Seq<char>;

/// What `lexopt::Parser::next` hands out when it is asked after `asked` of a
/// lexer over `args`: an argument, `None` at the end of the command line, or
/// the message of an error.
pub uninterp spec fn next_of(args: Seq<Seq<char>>, asked: Seq<bool>) -> Result<
    Option<TokenText>,
    Seq<char>,
>;

/// What `lexopt::Parser::value` hands out when it is asked after `asked` of a
/// lexer over `args`: the value of the option that was handed out last, or
/// the message of an error.
pub uninterp spec fn value_of(args: Seq<Seq<char>>, asked: Seq<bool>) -> Result<
    Seq<char>,
    Seq<char>,
>;

/// `lexopt::Parser::from_args`: a lexer over arguments that do not start with
/// the program's name.
///
/// Claimed: the lexer is one over these arguments, and nothing has been
/// asked of it.
#[verifier::external_body]
fn lexer_over(args: &Vec<String>) -> (lexer: lexopt::Parser)
    ensures
        lexer_args(lexer) == command_line(args@),
        lexer_asked(lexer) == Seq::<bool>::empty(),
{
    lexopt::Parser::from_args(args.iter().map(|arg| arg.as_str()))
}

/// `lexopt::Parser::next`: the next option or argument, `None` at the end of
/// the command line.
///
/// Claimed: what comes out is what the lexer hands out for these arguments
/// after what has been asked of it, whatever that is; and it has been asked
/// once more.
#[verifier::external_body]
fn lexer_next(lexer: &mut lexopt::Parser) -> (next: Result<Option<Token>, lexopt::Error>)
    ensures
        lexer_args(*final(lexer)) == lexer_args(*old(lexer)),
        lexer_asked(*final(lexer)) == lexer_asked(*old(lexer)).push(false),
        next_of(lexer_args(*old(lexer)), lexer_asked(*old(lexer))) == (match next {
            Ok(Some(token)) => Ok::<Option<TokenText>, Seq<char>>(Some(token@)),
            Ok(None) => Ok(None),
            Err(e) => Err(described(e)),
        }),
{
    match lexer.next() {
        Ok(Some(lexopt::Arg::Short(c))) => Ok(Some(Token::Short(c))),
        Ok(Some(lexopt::Arg::Long(name))) => Ok(Some(Token::Long(name.to_string()))),
        Ok(Some(lexopt::Arg::Value(v))) => Ok(Some(Token::Value(v.to_string_lossy().into_owned()))),
        Ok(None) => Ok(None),
        Err(e) => Err(e),
    }
}

/// `lexopt::Parser::value`: the value of the option that was handed out last.
///
/// Claimed: what comes out is what the lexer hands out for these arguments
/// after what has been asked of it, whatever that is; and it has been asked
/// once more.
#[verifier::external_body]
fn lexer_value(lexer: &mut lexopt::Parser) -> (value: Result<String, lexopt::Error>)
    ensures
        lexer_args(*final(lexer)) == lexer_args(*old(lexer)),
        lexer_asked(*final(lexer)) == lexer_asked(*old(lexer)).push(true),
        value_of(lexer_args(*old(lexer)), lexer_asked(*old(lexer))) == (match value {
            Ok(text) => Ok::<Seq<char>, Seq<char>>(text@),
            Err(e) => Err(described(e)),
        }),
{
    lexer.value().map(|v| v.to_string_lossy().into_owned())
}

/// The message of a `lexopt::Error`, as its `Display` writes it.
///
/// Claimed: the text is the error's message, whatever that is.
#[verifier::external_body]
fn lexer_message(error: &lexopt::Error) -> (message: String)
    ensures
        message@ == described(*error),
{
    error.to_string()
}

/// What becomes of a command line: the lexer is asked for one argument after
/// the other, each that names an option is taken into the configuration, with
/// its value where it takes one, and the configuration that stands at the end
/// of the command line is validated. The first refusal ends it all.
///
/// `asked` is what has been asked of the lexer so far, `opt` the
/// configuration so far, and `budget` how often the lexer may yet be asked
/// for an argument.
pub open spec fn parsed(args: Seq<Seq<char>>, asked: Seq<bool>, opt: Opt, budget: nat) -> Result<
    Opt,
    Refusal,
>
    decreases budget,
{
    if budget == 0 {
        Err(Refusal::Unfinished)
    } else {
        match next_of(args, asked) {
            Err(message) => Err(Refusal::Lexer(message)),
            Ok(None) => validated(opt),
            Ok(Some(token)) => match flag_of(token) {
                None => Err(Refusal::Unexpected(token)),
                Some(flag) => if takes_value(flag) {
                    match value_of(args, asked.push(false)) {
                        Err(message) => Err(Refusal::MissingValue(flag, message)),
                        Ok(value) => match applied(opt, flag, value) {
                            Err(e) => Err(e),
                            Ok(next) => parsed(
                                args,
                                asked.push(false).push(true),
                                next,
                                (budget - 1) as nat,
                            ),
                        },
                    }
                } else {
                    match applied(opt, flag, Seq::empty()) {
                        Err(e) => Err(e),
                        Ok(next) => parsed(args, asked.push(false), next, (budget - 1) as nat),
                    }
                },
            },
        }
    }
}

impl Opt {
    /// The configuration of a command line without options: 72 columns by 40
    /// rows, marks drawn as dots, axes drawn, the row's index as its X value.
    pub fn new() -> (opt: Opt)
        ensures
            opt == initial(),
    {
        Opt {
            log_x: false,
            log_y: false,
            x_is_row: true,
            width: 72,
            height: 40,
            mode: Mode::Dot,
            cdf: false,
            draw_axes: true,
        }
    }

    /// Takes one option into the configuration. `value` is the value of an
    /// option that takes one; of any other option it is not looked at.
    pub fn apply(self, flag: Flag, value: &str) -> (next: Result<Opt, OptError>)
        ensures
            told(next) == applied(self, flag, value@),
    {
        let mut opt = self;
        match flag {
            Flag::Help => Err(OptError::Help),
            Flag::Dimensions => match parse_dimensions(value) {
                Ok((width, height)) => {
                    opt.width = width;
                    opt.height = height;
                    Ok(opt)
                },
                Err(e) => Err(OptError::Dimensions(e)),
            },
            Flag::Log => {
                if reads(value, "x") {
                    opt.log_x = true;
                    Ok(opt)
                } else if reads(value, "y") {
                    opt.log_y = true;
                    Ok(opt)
                } else if reads(value, "c") {
                    Err(OptError::LogOfCounts)
                } else {
                    Err(OptError::LogAxis)
                }
            },
            Flag::Mode => {
                if reads(value, "dot") {
                    opt.mode = Mode::Dot;
                    Ok(opt)
                } else if reads(value, "count") {
                    opt.mode = Mode::Count;
                    Ok(opt)
                } else {
                    Err(OptError::Mode)
                }
            },
            Flag::ExplicitX => {
                opt.x_is_row = false;
                Ok(opt)
            },
            Flag::Cdf => {
                opt.cdf = true;
                Ok(opt)
            },
            Flag::NoAxes => {
                opt.draw_axes = false;
                Ok(opt)
            },
        }
    }

    /// Refuses the combinations of options that make no plot.
    pub fn validate(self) -> (result: Result<Opt, OptError>)
        ensures
            told(result) == validated(self),
    {
        if self.cdf && !self.x_is_row {
            Err(OptError::CdfWithExplicitX)
        } else if self.cdf && self.log_x {
            Err(OptError::CdfWithLogX)
        } else {
            Ok(self)
        }
    }

    /// Reads a command line, given without the program's name.
    pub fn parse(args: &Vec<String>) -> (result: Result<Opt, OptError>)
        ensures
            told(result) == parsed(
                command_line(args@),
                Seq::<bool>::empty(),
                initial(),
                usize::MAX as nat,
            ),
    {
        let mut lexer = lexer_over(args);
        let mut opt = Opt::new();
        let mut budget: usize = usize::MAX;
        let ghost line = command_line(args@);
        let ghost whole = parsed(line, Seq::<bool>::empty(), initial(), usize::MAX as nat);
        while budget > 0
            invariant
                line == command_line(args@),
                lexer_args(lexer) == line,
                whole == parsed(line, Seq::<bool>::empty(), initial(), usize::MAX as nat),
                whole == parsed(line, lexer_asked(lexer), opt, budget as nat),
            decreases budget,
        {
            let token = match lexer_next(&mut lexer) {
                Ok(Some(token)) => token,
                Ok(None) => {
                    return opt.validate();
                },
                Err(e) => {
                    return Err(OptError::Lexer(lexer_message(&e)));
                },
            };
            let flag = match Flag::of(&token) {
                Some(flag) => flag,
                None => {
                    return Err(OptError::Unexpected(token));
                },
            };
            let next = if flag.wants_value() {
                match lexer_value(&mut lexer) {
                    Ok(value) => opt.apply(flag, value.as_str()),
                    Err(e) => {
                        return Err(OptError::MissingValue(flag, lexer_message(&e)));
                    },
                }
            } else {
                opt.apply(flag, "")
            };
            match next {
                Ok(next) => {
                    opt = next;
                },
                Err(e) => {
                    return Err(e);
                },
            }
            budget -= 1;
        }
        Err(OptError::Unfinished)
    }
}

/// Whatever the lexer finds in a command line, the outcome is that of the
/// options that it found: what they make of the initial configuration, one
/// after the other, validated at the end; unless the lexer itself gave up, or
/// found an argument that is no option, before any option was refused.
pub proof fn lemma_parsed_follows_options(
    args: Seq<Seq<char>>,
    asked: Seq<bool>,
    opt: Opt,
    budget: nat,
    found: Seq<(Flag, Seq<char>)>,
)
    requires
        applied_all(initial(), found) == Ok::<Opt, Refusal>(opt),
    ensures
        ({
            let outcome = parsed(args, asked, opt, budget);
            (outcome is Err && from_lexer(outcome->Err_0)) || exists|options: Seq<(Flag, Seq<char>)>|
                #[trigger] configured(options) == outcome
        }),
    decreases budget,
{
    let outcome = parsed(args, asked, opt, budget);
    if budget > 0 {
        match next_of(args, asked) {
            Err(_) => {},
            Ok(None) => {
                assert(configured(found) == outcome);
            },
            Ok(Some(token)) => match flag_of(token) {
                None => {},
                Some(flag) => {
                    let value = if takes_value(flag) {
                        value_of(args, asked.push(false))
                    } else {
                        Ok(Seq::empty())
                    };
                    if value is Ok {
                        let further = found.push((flag, value->Ok_0));
                        assert(further.drop_last() =~= found);
                        match applied(opt, flag, value->Ok_0) {
                            Err(e) => {
                                assert(configured(further) == outcome);
                            },
                            Ok(next) => {
                                let asked_next = if takes_value(flag) {
                                    asked.push(false).push(true)
                                } else {
                                    asked.push(false)
                                };
                                lemma_parsed_follows_options(
                                    args,
                                    asked_next,
                                    next,
                                    (budget - 1) as nat,
                                    further,
                                );
                            },
                        }
                    }
                },
            },
        }
    }
}

} // verus!
