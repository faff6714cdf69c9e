use serial_logger::args::{
    parse_data_bits, parse_decimal, parse_flow_control, parse_parity, parse_stop_bits,
    parse_string_parsing, ArgOption, ArgStep, ArgToken, Args, DataBits, FlowControl, Parity,
    StopBits, StringParsingMode,
};
use serial_logger::error::Error;
use serial_logger::loops::{ReadLoop, WriteLoop};
use serial_logger::output::Output;
use serial_logger::args::{long_option_of, short_option_of, str_eq};
use serial_logger::serial::{available_ports, get_path_from_port, str_eq_ignore_ascii_case, PortInfo};

#[test]
fn defaults() {
    let a = Args::new();
    assert_eq!(a.baud_rate, 115_200);
    assert_eq!(a.flow_control, FlowControl::Software);
    assert_eq!(a.data_bits, DataBits::Eight);
    assert_eq!(a.parity, Parity::Disabled);
    assert_eq!(a.stop_bits, StopBits::One);
    assert_eq!(a.timeout_in_seconds, 1);
    assert_eq!(a.buffer_size, 100_000);
    assert!(!a.windows_line_ending && !a.silent);
    assert!(a.path.is_none() && a.port.is_none() && a.log_file.is_none());
}

#[test]
fn enumerated_values() {
    assert_eq!(parse_flow_control("n"), Ok(FlowControl::Disabled));
    assert_eq!(parse_flow_control("h"), Ok(FlowControl::Hardware));
    assert_eq!(parse_flow_control("x"), Err(Error::InvalidFlowControlArgument));
    assert_eq!(parse_data_bits("5"), Ok(DataBits::Five));
    assert_eq!(parse_data_bits("9"), Err(Error::InvalidDataBitsArgument));
    assert_eq!(parse_parity("e"), Ok(Parity::Even));
    assert_eq!(parse_parity("odd"), Err(Error::InvalidParityArgument));
    assert_eq!(parse_stop_bits("2"), Ok(StopBits::Two));
    assert_eq!(parse_stop_bits("3"), Err(Error::InvalidStopBitsArgument));
    assert_eq!(parse_string_parsing("utf8"), Ok(StringParsingMode::Utf8));
    assert_eq!(parse_string_parsing("utf16"), Err(Error::InvalidStringParsingArgument));
}

#[test]
fn decimal_numbers() {
    assert_eq!(parse_decimal("9600", u32::MAX as u64), Some(9600));
    assert_eq!(parse_decimal("+12", 100), Some(12));
    assert_eq!(parse_decimal("007", 100), Some(7));
    assert_eq!(parse_decimal("4294967295", u32::MAX as u64), Some(4294967295));
    assert_eq!(parse_decimal("4294967296", u32::MAX as u64), None);
    assert_eq!(parse_decimal("18446744073709551616", u64::MAX), None);
    assert_eq!(parse_decimal("", 100), None);
    assert_eq!(parse_decimal("+", 100), None);
    assert_eq!(parse_decimal("-1", 100), None);
    assert_eq!(parse_decimal("1x", 100), None);
}

#[test]
fn tokens_and_values() {
    let mut a = Args::new();
    assert_eq!(a.apply_token(ArgToken::Short('b')), Ok(ArgStep::NeedValue(ArgOption::Baud)));
    assert_eq!(a.apply_value(ArgOption::Baud, "9600"), Ok(()));
    assert_eq!(a.baud_rate, 9600);
    assert_eq!(a.apply_value(ArgOption::Baud, "fast"), Err(Error::InvalidNumberArgument));
    assert_eq!(a.baud_rate, 9600);
    assert_eq!(a.apply_token(ArgToken::Long("windows-line-ending".to_string())), Ok(ArgStep::Continue));
    assert!(a.windows_line_ending);
    assert_eq!(a.apply_token(ArgToken::Short('s')), Ok(ArgStep::Continue));
    assert!(a.silent);
    assert_eq!(a.apply_token(ArgToken::Long("print".to_string())), Ok(ArgStep::PrintPorts));
    assert_eq!(a.apply_token(ArgToken::Long("help".to_string())), Ok(ArgStep::PrintHelp));
    assert_eq!(a.apply_token(ArgToken::Long("bogus".to_string())), Err(Error::UnexpectedArgument));
    assert_eq!(a.apply_value(ArgOption::Parity, "o"), Ok(()));
    assert_eq!(a.parity, Parity::Odd);
    assert_eq!(a.apply_value(ArgOption::Log, "out.log"), Ok(()));
    assert_eq!(a.log_file.as_deref(), Some("out.log"));
    assert_eq!(a.apply_value(ArgOption::Silent, "x"), Err(Error::UnexpectedArgument));
}

#[test]
fn positional_path_unless_port_given() {
    let mut a = Args::new();
    assert_eq!(a.apply_token(ArgToken::Value("/dev/ttyUSB0".to_string())), Ok(ArgStep::Continue));
    assert_eq!(a.path.as_deref(), Some("/dev/ttyUSB0"));
    assert_eq!(a.apply_value(ArgOption::Port, "ABC123"), Ok(()));
    assert_eq!(a.apply_token(ArgToken::Value("/dev/ttyUSB1".to_string())), Err(Error::UnexpectedArgument));
    assert_eq!(a.path.as_deref(), Some("/dev/ttyUSB0"));
}

#[test]
fn loops_from_args() {
    let mut a = Args::new();
    a.buffer_size = 8;
    a.windows_line_ending = true;
    let mut r = ReadLoop::from_args(&a);
    assert_eq!(r.free_space(), 8);
    assert_eq!(r.ingest(b"\0\n"), Ok(vec![b"?\n".to_vec()]));
    let w = WriteLoop::from_args(&a);
    assert_eq!(
        w.run(serial_logger::loops::TakeOutcome::Line(b"x".to_vec())),
        Ok(Some(b"x\r\n".to_vec()))
    );
}

#[test]
fn output_choice() {
    let mut a = Args::new();
    assert_eq!(Output::from_args(&a), Output::Std);
    a.silent = true;
    assert_eq!(Output::from_args(&a), Output::Discard);
    a.log_file = Some("log.txt".to_string());
    assert_eq!(Output::from_args(&a), Output::Fs);
    a.silent = false;
    let both = Output::from_args(&a);
    assert_eq!(both, Output::Both);
    assert!(both.writes_console() && both.writes_file());
    assert!(!Output::Discard.writes_console() && !Output::Discard.writes_file());
}

fn info(name: &str, serial: Option<&str>) -> PortInfo {
    PortInfo { port_name: name.to_string(), usb_serial_number: serial.map(|s| s.to_string()) }
}

#[test]
fn usb_ports_with_serial_numbers() {
    let infos = vec![info("/dev/ttyS0", None), info("/dev/ttyUSB0", Some("A1b2")), info("/dev/ttyUSB1", Some("ZZ"))];
    let ports = available_ports(&infos);
    assert_eq!(
        ports,
        vec![
            ("A1b2".to_string(), "/dev/ttyUSB0".to_string()),
            ("ZZ".to_string(), "/dev/ttyUSB1".to_string())
        ]
    );
    assert_eq!(get_path_from_port(&ports, "a1B2"), Ok("/dev/ttyUSB0".to_string()));
    assert_eq!(get_path_from_port(&ports, "zz"), Ok("/dev/ttyUSB1".to_string()));
    assert_eq!(get_path_from_port(&ports, "A1b"), Err(Error::PortNotFound));
}

#[test]
fn first_matching_port_wins() {
    let ports = vec![
        ("ab".to_string(), "/dev/first".to_string()),
        ("AB".to_string(), "/dev/second".to_string()),
    ];
    assert_eq!(get_path_from_port(&ports, "Ab"), Ok("/dev/first".to_string()));
    assert_eq!(get_path_from_port(&vec![], "Ab"), Err(Error::PortNotFound));
}

#[test]
fn string_comparisons() {
    assert!(str_eq("port", "port"));
    assert!(!str_eq("port", "Port"));
    assert!(!str_eq("port", "ports"));
    assert!(str_eq_ignore_ascii_case("Ab-9z", "aB-9Z"));
    assert!(!str_eq_ignore_ascii_case("ä", "Ä"));
    assert!(!str_eq_ignore_ascii_case("a", "ab"));
    assert_eq!(long_option_of("stop-bits"), Some(ArgOption::StopBits));
    assert_eq!(long_option_of("stop_bits"), None);
    assert_eq!(short_option_of('l'), Some(ArgOption::Log));
    assert_eq!(short_option_of('x'), None);
}
