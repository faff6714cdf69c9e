//! The logger's configuration and the decisions made while reading it from
//! the command line, one option or value at a time.

use vstd::prelude::*;

use vstd::string::StringExecFns;

use crate::error::Error;

verus! {

/// How record bytes are turned into text.
#[derive(Debug, Clone, Copy, PartialEq, Eq, Structural)]
pub enum StringParsingMode {
    /// Lossy UTF-8: invalid sequences become the replacement character.
    Utf8,
}

/// Serial flow control.
#[derive(Debug, Clone, Copy, PartialEq, Eq, Structural)]
pub enum FlowControl {
    Disabled,
    Software,
    Hardware,
}

/// Data bits per character.
#[derive(Debug, Clone, Copy, PartialEq, Eq, Structural)]
pub enum DataBits {
    Five,
    Six,
    Seven,
    Eight,
}

/// Parity checking.
#[derive(Debug, Clone, Copy, PartialEq, Eq, Structural)]
pub enum Parity {
    Disabled,
    Odd,
    Even,
}

/// Stop bits per character.
#[derive(Debug, Clone, Copy, PartialEq, Eq, Structural)]
pub enum StopBits {
    One,
    Two,
}

/// The options the command line accepts.
#[derive(Debug, Clone, Copy, PartialEq, Eq, Structural)]
pub enum ArgOption {
    Print,
    Help,
    Baud,
    FlowControl,
    DataBits,
    Parity,
    StopBits,
    Timeout,
    BufferSize,
    StringParsing,
    WindowsLineEnding,
    Silent,
    Log,
    Port,
}

/// One command-line item as the option tokenizer delivers it.
pub enum ArgToken {
    /// `-c`
    Short(char),
    /// `--name`
    Long(String),
    /// A positional value.
    Value(String),
}

/// What follows from one token.
#[derive(Debug, Clone, Copy, PartialEq, Eq, Structural)]
pub enum ArgStep {
    /// The token was applied; read on.
    Continue,
    /// The option takes a value: the next value is to be applied to it.
    NeedValue(ArgOption),
    /// List the available ports and exit successfully.
    PrintPorts,
    /// Print usage and exit successfully.
    PrintHelp,
}

/// Parsed command-line arguments.
#[derive(Debug)]
pub struct Args {
    /// The serial port's path.
    pub path: Option<String>,
    /// The serial port's serial number, taken to be the port's name.
    pub port: Option<String>,
    /// The baud rate.
    pub baud_rate: u32,
    /// How to handle flow control.
    pub flow_control: FlowControl,
    /// How many data bits.
    pub data_bits: DataBits,
    /// Parity checking mode.
    pub parity: Parity,
    /// Number of stop bits.
    pub stop_bits: StopBits,
    /// How long a device read waits for data.
    pub timeout_in_seconds: u64,
    /// The capacity of the reassembly buffer.
    pub buffer_size: usize,
    /// Send `\r\n` after each input line instead of `\n`.
    pub windows_line_ending: bool,
    /// Do not write records to the console.
    pub silent: bool,
    /// The path of an optional log file.
    pub log_file: Option<String>,
    /// How records are decoded.
    pub string_parsing_mode: StringParsingMode,
}

/// The option a short flag names.
pub open spec fn short_option(c: char) -> Option<ArgOption> {
    if c == 'h' {
        Some(ArgOption::Help)
    } else if c == 'b' {
        Some(ArgOption::Baud)
    } else if c == 't' {
        Some(ArgOption::Timeout)
    } else if c == 'w' {
        Some(ArgOption::WindowsLineEnding)
    } else if c == 's' {
        Some(ArgOption::Silent)
    } else if c == 'l' {
        Some(ArgOption::Log)
    } else {
        None
    }
}

/// The option a long flag names.
pub open spec fn long_option(name: Seq<char>) -> Option<ArgOption> {
    if name == "print"@ {
        Some(ArgOption::Print)
    } else if name == "help"@ {
        Some(ArgOption::Help)
    } else if name == "baud"@ {
        Some(ArgOption::Baud)
    } else if name == "flow-control"@ {
        Some(ArgOption::FlowControl)
    } else if name == "data-bits"@ {
        Some(ArgOption::DataBits)
    } else if name == "parity"@ {
        Some(ArgOption::Parity)
    } else if name == "stop-bits"@ {
        Some(ArgOption::StopBits)
    } else if name == "timeout"@ {
        Some(ArgOption::Timeout)
    } else if name == "buffer-size"@ {
        Some(ArgOption::BufferSize)
    } else if name == "string-parsing"@ {
        Some(ArgOption::StringParsing)
    } else if name == "windows-line-ending"@ {
        Some(ArgOption::WindowsLineEnding)
    } else if name == "silent"@ {
        Some(ArgOption::Silent)
    } else if name == "log"@ {
        Some(ArgOption::Log)
    } else if name == "port"@ {
        Some(ArgOption::Port)
    } else {
        None
    }
}

/// Whether two strings hold the same characters.
pub fn str_eq(a: &str, b: &str) -> (r: bool)
    ensures
        r == (a@ == b@),
{
    let n = a.unicode_len();
    if n != b.unicode_len() {
        return false;
    }
    let mut i: usize = 0;
    while i < n
        invariant
            n == a@.len() == b@.len(),
            i <= n,
            forall|j: int| 0 <= j < i ==> a@[j] == b@[j],
        decreases n - i,
    {
        if a.get_char(i) != b.get_char(i) {
            return false;
        }
        i += 1;
    }
    assert(a@ =~= b@);
    true
}

/// Looks up a short flag.
pub fn short_option_of(c: char) -> (r: Option<ArgOption>)
    ensures
        r == short_option(c),
{
    if c == 'h' {
        Some(ArgOption::Help)
    } else if c == 'b' {
        Some(ArgOption::Baud)
    } else if c == 't' {
        Some(ArgOption::Timeout)
    } else if c == 'w' {
        Some(ArgOption::WindowsLineEnding)
    } else if c == 's' {
        Some(ArgOption::Silent)
    } else if c == 'l' {
        Some(ArgOption::Log)
    } else {
        None
    }
}

/// Looks up a long flag.
pub fn long_option_of(name: &str) -> (r: Option<ArgOption>)
    ensures
        r == long_option(name@),
{
    if str_eq(name, "print") {
        Some(ArgOption::Print)
    } else if str_eq(name, "help") {
        Some(ArgOption::Help)
    } else if str_eq(name, "baud") {
        Some(ArgOption::Baud)
    } else if str_eq(name, "flow-control") {
        Some(ArgOption::FlowControl)
    } else if str_eq(name, "data-bits") {
        Some(ArgOption::DataBits)
    } else if str_eq(name, "parity") {
        Some(ArgOption::Parity)
    } else if str_eq(name, "stop-bits") {
        Some(ArgOption::StopBits)
    } else if str_eq(name, "timeout") {
        Some(ArgOption::Timeout)
    } else if str_eq(name, "buffer-size") {
        Some(ArgOption::BufferSize)
    } else if str_eq(name, "string-parsing") {
        Some(ArgOption::StringParsing)
    } else if str_eq(name, "windows-line-ending") {
        Some(ArgOption::WindowsLineEnding)
    } else if str_eq(name, "silent") {
        Some(ArgOption::Silent)
    } else if str_eq(name, "log") {
        Some(ArgOption::Log)
    } else if str_eq(name, "port") {
        Some(ArgOption::Port)
    } else {
        None
    }
}

/// The flow control a `--flow-control` value names.
pub open spec fn flow_control_of(v: Seq<char>) -> Option<FlowControl> {
    if v == "n"@ {
        Some(FlowControl::Disabled)
    } else if v == "s"@ {
        Some(FlowControl::Software)
    } else if v == "h"@ {
        Some(FlowControl::Hardware)
    } else {
        None
    }
}

/// The data bits a `--data-bits` value names.
pub open spec fn data_bits_of(v: Seq<char>) -> Option<DataBits> {
    if v == "8"@ {
        Some(DataBits::Eight)
    } else if v == "7"@ {
        Some(DataBits::Seven)
    } else if v == "6"@ {
        Some(DataBits::Six)
    } else if v == "5"@ {
        Some(DataBits::Five)
    } else {
        None
    }
}

/// The parity a `--parity` value names.
pub open spec fn parity_of(v: Seq<char>) -> Option<Parity> {
    if v == "n"@ {
        Some(Parity::Disabled)
    } else if v == "e"@ {
        Some(Parity::Even)
    } else if v == "o"@ {
        Some(Parity::Odd)
    } else {
        None
    }
}

/// The stop bits a `--stop-bits` value names.
pub open spec fn stop_bits_of(v: Seq<char>) -> Option<StopBits> {
    if v == "1"@ {
        Some(StopBits::One)
    } else if v == "2"@ {
        Some(StopBits::Two)
    } else {
        None
    }
}

/// The mode a `--string-parsing` value names.
pub open spec fn string_parsing_of(v: Seq<char>) -> Option<StringParsingMode> {
    if v == "utf8"@ {
        Some(StringParsingMode::Utf8)
    } else {
        None
    }
}

/// Reads a `--flow-control` value.
pub fn parse_flow_control(value: &str) -> (r: Result<FlowControl, Error>)
    ensures
        r == match flow_control_of(value@) {
            Some(f) => Ok(f),
            None => Err(Error::InvalidFlowControlArgument),
        },
{
    if str_eq(value, "n") {
        Ok(FlowControl::Disabled)
    } else if str_eq(value, "s") {
        Ok(FlowControl::Software)
    } else if str_eq(value, "h") {
        Ok(FlowControl::Hardware)
    } else {
        Err(Error::InvalidFlowControlArgument)
    }
}

/// Reads a `--data-bits` value.
pub fn parse_data_bits(value: &str) -> (r: Result<DataBits, Error>)
    ensures
        r == match data_bits_of(value@) {
            Some(d) => Ok(d),
            None => Err(Error::InvalidDataBitsArgument),
        },
{
    if str_eq(value, "8") {
        Ok(DataBits::Eight)
    } else if str_eq(value, "7") {
        Ok(DataBits::Seven)
    } else if str_eq(value, "6") {
        Ok(DataBits::Six)
    } else if str_eq(value, "5") {
        Ok(DataBits::Five)
    } else {
        Err(Error::InvalidDataBitsArgument)
    }
}

/// Reads a `--parity` value.
pub fn parse_parity(value: &str) -> (r: Result<Parity, Error>)
    ensures
        r == match parity_of(value@) {
            Some(p) => Ok(p),
            None => Err(Error::InvalidParityArgument),
        },
{
    if str_eq(value, "n") {
        Ok(Parity::Disabled)
    } else if str_eq(value, "e") {
        Ok(Parity::Even)
    } else if str_eq(value, "o") {
        Ok(Parity::Odd)
    } else {
        Err(Error::InvalidParityArgument)
    }
}

/// Reads a `--stop-bits` value.
pub fn parse_stop_bits(value: &str) -> (r: Result<StopBits, Error>)
    ensures
        r == match stop_bits_of(value@) {
            Some(s) => Ok(s),
            None => Err(Error::InvalidStopBitsArgument),
        },
{
    if str_eq(value, "1") {
        Ok(StopBits::One)
    } else if str_eq(value, "2") {
        Ok(StopBits::Two)
    } else {
        Err(Error::InvalidStopBitsArgument)
    }
}

/// Reads a `--string-parsing` value.
pub fn parse_string_parsing(value: &str) -> (r: Result<StringParsingMode, Error>)
    ensures
        r == match string_parsing_of(value@) {
            Some(m) => Ok(m),
            None => Err(Error::InvalidStringParsingArgument),
        },
{
    if str_eq(value, "utf8") {
        Ok(StringParsingMode::Utf8)
    } else {
        Err(Error::InvalidStringParsingArgument)
    }
}

/// Whether `c` is an ASCII decimal digit.
pub open spec fn is_digit(c: char) -> bool {
    '0' as u32 <= c as u32 <= '9' as u32
}

/// The value of a decimal digit.
pub open spec fn digit_value(c: char) -> int {
    c as u32 - '0' as u32
}

/// The value of a sequence of decimal digits, most significant first.
pub open spec fn digits_value(d: Seq<char>) -> int
    decreases d.len(),
{
    if d.len() == 0 {
        0
    } else {
        10 * digits_value(d.drop_last()) + digit_value(d.last())
    }
}

/// Whether every character of `d` is a decimal digit.
pub open spec fn all_digits(d: Seq<char>) -> bool {
    forall|i: int| 0 <= i < d.len() ==> is_digit(d[i])
}

/// The digits of an unsigned number: the text without one leading `+`.
pub open spec fn unsigned_digits(s: Seq<char>) -> Seq<char> {
    if s.len() > 0 && s[0] == '+' {
        s.drop_first()
    } else {
        s
    }
}

/// The unsigned number `s` denotes, if it denotes one no greater than `max`:
/// an optional `+`, then one or more decimal digits.
pub open spec fn decimal_of(s: Seq<char>, max: int) -> Option<int> {
    let d = unsigned_digits(s);
    if d.len() > 0 && all_digits(d) && digits_value(d) <= max {
        Some(digits_value(d))
    } else {
        None
    }
}

/// Digit values only grow as digits are appended.
proof fn lemma_digits_value_grows(d: Seq<char>, j: int, k: int)
    requires
        all_digits(d),
        0 <= j <= k <= d.len(),
    ensures
        0 <= digits_value(d.take(j)) <= digits_value(d.take(k)),
    decreases k - j,
{
    if j < k {
        lemma_digits_value_grows(d, j, k - 1);
        assert(d.take(k).drop_last() =~= d.take(k - 1));
        assert(is_digit(d[k - 1]));
    } else {
        lemma_digits_value_nonneg(d.take(j));
    }
}

/// Digit values are never negative.
proof fn lemma_digits_value_nonneg(d: Seq<char>)
    requires
        all_digits(d),
    ensures
        digits_value(d) >= 0,
    decreases d.len(),
{
    if d.len() > 0 {
        lemma_digits_value_nonneg(d.drop_last());
    }
}

/// Reads an unsigned decimal number no greater than `max`.
pub fn parse_decimal(s: &str, max: u64) -> (r: Option<u64>)
    ensures
        r is Some <==> decimal_of(s@, max as int) is Some,
        r is Some ==> decimal_of(s@, max as int) == Some(r->Some_0 as int),
{
    let n = s.unicode_len();
    let start: usize = if n > 0 && s.get_char(0) == '+' {
        1
    } else {
        0
    };
    let ghost d = unsigned_digits(s@);
    assert(d =~= s@.subrange(start as int, n as int));
    if start == n {
        return None;
    }
    let mut i: usize = start;
    while i < n
        invariant
            start <= i <= n == s@.len(),
            d == s@.subrange(start as int, n as int),
            d == unsigned_digits(s@),
            forall|j: int| start <= j < i ==> is_digit(s@[j]),
        decreases n - i,
    {
        let c = s.get_char(i) as u32;
        if c < '0' as u32 || c > '9' as u32 {
            assert(d[i - start] == s@[i as int]);
            assert(!is_digit(d[i - start]));
            return None;
        }
        i += 1;
    }
    assert(all_digits(d));
    let mut acc: u64 = 0;
    let mut k: usize = start;
    assert(d.take(0) =~= Seq::<char>::empty());
    while k < n
        invariant
            start <= k <= n == s@.len(),
            d == s@.subrange(start as int, n as int),
            d == unsigned_digits(s@),
            all_digits(d),
            acc as int == digits_value(d.take(k - start)),
            acc <= max,
        decreases n - k,
    {
        let c = s.get_char(k);
        assert(d[k - start] == c);
        assert(is_digit(c));
        let digit = (c as u32 - '0' as u32) as u64;
        assert(d.take(k + 1 - start).drop_last() =~= d.take(k - start));
        assert(d.take(k + 1 - start).last() == c);
        let next: u128 = acc as u128 * 10 + digit as u128;
        assert(next as int == digits_value(d.take(k + 1 - start)));
        if next > max as u128 {
            proof {
                lemma_digits_value_grows(d, k + 1 - start, d.len() as int);
                assert(d.take(d.len() as int) =~= d);
                assert(digits_value(d) > max as int);
            }
            return None;
        }
        acc = next as u64;
        k += 1;
    }
    assert(d.take(n - start) =~= d);
    Some(acc)
}

/// What a flag that takes no value leads to.
pub open spec fn step_for(opt: ArgOption) -> ArgStep {
    match opt {
        ArgOption::Print => ArgStep::PrintPorts,
        ArgOption::Help => ArgStep::PrintHelp,
        ArgOption::WindowsLineEnding | ArgOption::Silent => ArgStep::Continue,
        _ => ArgStep::NeedValue(opt),
    }
}

/// The arguments after a flag: only the two switches change anything.
pub open spec fn after_flag(a: Args, opt: ArgOption) -> Args {
    match opt {
        ArgOption::WindowsLineEnding => (Args { windows_line_ending: true, ..a }),
        ArgOption::Silent => (Args { silent: true, ..a }),
        _ => a,
    }
}

/// The outcome of a value read by `parse` for an option: the new arguments,
/// or the error, leaving the arguments as they were.
pub open spec fn value_outcome<T>(
    parsed: Option<T>,
    updated: Args,
    old: Args,
    error: Error,
    r: Result<(), Error>,
    new: Args,
) -> bool {
    match parsed {
        Some(_) => r is Ok && new == updated,
        None => r == Err::<(), Error>(error) && new == old,
    }
}

impl Args {
    /// The defaults: 115200 baud, software flow control, eight data bits, no
    /// parity, one stop bit, a one-second timeout, a 100000-byte buffer,
    /// `\n` line endings, console output, UTF-8 decoding, no port named.
    pub fn new() -> (r: Args)
        ensures
            r.path is None,
            r.port is None,
            r.baud_rate == 115_200,
            r.flow_control == FlowControl::Software,
            r.data_bits == DataBits::Eight,
            r.parity == Parity::Disabled,
            r.stop_bits == StopBits::One,
            r.timeout_in_seconds == 1,
            r.buffer_size == 100_000,
            !r.windows_line_ending,
            !r.silent,
            r.log_file is None,
            r.string_parsing_mode == StringParsingMode::Utf8,
    {
        Args {
            path: None,
            port: None,
            baud_rate: 115_200,
            flow_control: FlowControl::Software,
            data_bits: DataBits::Eight,
            parity: Parity::Disabled,
            stop_bits: StopBits::One,
            timeout_in_seconds: 1,
            buffer_size: 100_000,
            windows_line_ending: false,
            silent: false,
            log_file: None,
            string_parsing_mode: StringParsingMode::Utf8,
        }
    }

    /// Applies one token. A flag is looked up: the two switches are set, an
    /// option that takes a value asks for it, and `--print` and `--help` ask
    /// for their listing. A positional value is the port's path, unless
    /// `--port` came first. Anything else is unexpected and changes nothing.
    pub fn apply_token(&mut self, token: ArgToken) -> (r: Result<ArgStep, Error>)
        ensures
            match token {
                ArgToken::Short(c) => match short_option(c) {
                    Some(opt) => r == Ok::<ArgStep, Error>(step_for(opt)) && *final(self)
                        == after_flag(*old(self), opt),
                    None => r == Err::<ArgStep, Error>(Error::UnexpectedArgument) && *final(self)
                        == *old(self),
                },
                ArgToken::Long(name) => match long_option(name@) {
                    Some(opt) => r == Ok::<ArgStep, Error>(step_for(opt)) && *final(self)
                        == after_flag(*old(self), opt),
                    None => r == Err::<ArgStep, Error>(Error::UnexpectedArgument) && *final(self)
                        == *old(self),
                },
                ArgToken::Value(v) => if old(self).port is None {
                    r == Ok::<ArgStep, Error>(ArgStep::Continue) && *final(self) == (Args {
                        path: Some(v),
                        ..*old(self)
                    })
                } else {
                    r == Err::<ArgStep, Error>(Error::UnexpectedArgument) && *final(self)
                        == *old(self)
                },
            },
    {
        let found = match &token {
            ArgToken::Short(c) => short_option_of(*c),
            ArgToken::Long(name) => long_option_of(name.as_str()),
            ArgToken::Value(_) => None,
        };
        match token {
            ArgToken::Value(v) => {
                if self.port.is_none() {
                    self.path = Some(v);
                    Ok(ArgStep::Continue)
                } else {
                    Err(Error::UnexpectedArgument)
                }
            },
            _ => match found {
                None => Err(Error::UnexpectedArgument),
                Some(opt) => match opt {
                    ArgOption::Print => Ok(ArgStep::PrintPorts),
                    ArgOption::Help => Ok(ArgStep::PrintHelp),
                    ArgOption::WindowsLineEnding => {
                        self.windows_line_ending = true;
                        Ok(ArgStep::Continue)
                    },
                    ArgOption::Silent => {
                        self.silent = true;
                        Ok(ArgStep::Continue)
                    },
                    _ => Ok(ArgStep::NeedValue(opt)),
                },
            },
        }
    }

    /// Applies the value of an option that takes one. Numbers are unsigned
    /// decimals in the field's range; the enumerated options accept only
    /// their listed values; `--log` and `--port` take any text. An invalid
    /// value, or a value for a flag that takes none, changes nothing.
    pub fn apply_value(&mut self, opt: ArgOption, value: &str) -> (r: Result<(), Error>)
        ensures
            match opt {
                ArgOption::Baud => value_outcome(
                    decimal_of(value@, u32::MAX as int),
                    (Args { baud_rate: decimal_of(value@, u32::MAX as int)->Some_0 as u32, ..*old(self) }),
                    *old(self),
                    Error::InvalidNumberArgument,
                    r,
                    *final(self),
                ),
                ArgOption::Timeout => value_outcome(
                    decimal_of(value@, u64::MAX as int),
                    (Args {
                        timeout_in_seconds: decimal_of(value@, u64::MAX as int)->Some_0 as u64,
                        ..*old(self)
                    }),
                    *old(self),
                    Error::InvalidNumberArgument,
                    r,
                    *final(self),
                ),
                ArgOption::BufferSize => value_outcome(
                    decimal_of(value@, usize::MAX as int),
                    (Args {
                        buffer_size: decimal_of(value@, usize::MAX as int)->Some_0 as usize,
                        ..*old(self)
                    }),
                    *old(self),
                    Error::InvalidNumberArgument,
                    r,
                    *final(self),
                ),
                ArgOption::FlowControl => value_outcome(
                    flow_control_of(value@),
                    (Args { flow_control: flow_control_of(value@)->Some_0, ..*old(self) }),
                    *old(self),
                    Error::InvalidFlowControlArgument,
                    r,
                    *final(self),
                ),
                ArgOption::DataBits => value_outcome(
                    data_bits_of(value@),
                    (Args { data_bits: data_bits_of(value@)->Some_0, ..*old(self) }),
                    *old(self),
                    Error::InvalidDataBitsArgument,
                    r,
                    *final(self),
                ),
                ArgOption::Parity => value_outcome(
                    parity_of(value@),
                    (Args { parity: parity_of(value@)->Some_0, ..*old(self) }),
                    *old(self),
                    Error::InvalidParityArgument,
                    r,
                    *final(self),
                ),
                ArgOption::StopBits => value_outcome(
                    stop_bits_of(value@),
                    (Args { stop_bits: stop_bits_of(value@)->Some_0, ..*old(self) }),
                    *old(self),
                    Error::InvalidStopBitsArgument,
                    r,
                    *final(self),
                ),
                ArgOption::StringParsing => value_outcome(
                    string_parsing_of(value@),
                    (Args { string_parsing_mode: string_parsing_of(value@)->Some_0, ..*old(self) }),
                    *old(self),
                    Error::InvalidStringParsingArgument,
                    r,
                    *final(self),
                ),
                ArgOption::Log => r is Ok && final(self).log_file is Some
                    && final(self).log_file->Some_0@ == value@ && *final(self) == (Args {
                    log_file: final(self).log_file,
                    ..*old(self)
                }),
                ArgOption::Port => r is Ok && final(self).port is Some && final(self).port->Some_0@
                    == value@ && *final(self) == (Args { port: final(self).port, ..*old(self) }),
                _ => r == Err::<(), Error>(Error::UnexpectedArgument) && *final(self) == *old(
                    self,
                ),
            },
    {
        match opt {
            ArgOption::Baud => match parse_decimal(value, u32::MAX as u64) {
                Some(n) => {
                    assert(n as int == decimal_of(value@, u32::MAX as int)->Some_0);
                    self.baud_rate = n as u32;
                    Ok(())
                },
                None => Err(Error::InvalidNumberArgument),
            },
            ArgOption::Timeout => match parse_decimal(value, u64::MAX) {
                Some(n) => {
                    self.timeout_in_seconds = n;
                    Ok(())
                },
                None => Err(Error::InvalidNumberArgument),
            },
            ArgOption::BufferSize => match parse_decimal(value, usize::MAX as u64) {
                Some(n) => {
                    assert(n as int == decimal_of(value@, usize::MAX as int)->Some_0);
                    self.buffer_size = n as usize;
                    Ok(())
                },
                None => Err(Error::InvalidNumberArgument),
            },
            ArgOption::FlowControl => {
                self.flow_control = parse_flow_control(value)?;
                Ok(())
            },
            ArgOption::DataBits => {
                self.data_bits = parse_data_bits(value)?;
                Ok(())
            },
            ArgOption::Parity => {
                self.parity = parse_parity(value)?;
                Ok(())
            },
            ArgOption::StopBits => {
                self.stop_bits = parse_stop_bits(value)?;
                Ok(())
            },
            ArgOption::StringParsing => {
                self.string_parsing_mode = parse_string_parsing(value)?;
                Ok(())
            },
            ArgOption::Log => {
                self.log_file = Some(String::from_str(value));
                Ok(())
            },
            ArgOption::Port => {
                self.port = Some(String::from_str(value));
                Ok(())
            },
            _ => Err(Error::UnexpectedArgument),
        }
    }
}

} // verus!
