//! Choosing a serial port: the USB ports that report a serial number, and the
//! lookup of a port's path by that number.

use vstd::prelude::*;

use crate::error::Error;

verus! {

/// What the port enumeration reports of one port.
pub struct PortInfo {
    /// The port's path.
    pub port_name: String,
    /// The serial number of a USB port that reports one; `None` otherwise.
    pub usb_serial_number: Option<String>,
}

/// A (serial number, path) pair as text.
pub open spec fn pair_view(p: (String, String)) -> (Seq<char>, Seq<char>) {
    (p.0@, p.1@)
}

/// The (serial number, path) pairs of the ports that have a serial number,
/// in enumeration order.
pub open spec fn usb_port_pairs(infos: Seq<PortInfo>) -> Seq<(Seq<char>, Seq<char>)>
    decreases infos.len(),
{
    if infos.len() == 0 {
        Seq::empty()
    } else {
        let prev = usb_port_pairs(infos.drop_last());
        match infos.last().usb_serial_number {
            Some(serial) => prev.push((serial@, infos.last().port_name@)),
            None => prev,
        }
    }
}

/// The ASCII lowercase code of a character; other characters keep theirs.
pub open spec fn ascii_fold(c: char) -> u32 {
    if 'A' as u32 <= c as u32 <= 'Z' as u32 {
        (c as u32 + 32) as u32
    } else {
        c as u32
    }
}

/// Whether two texts are equal up to ASCII case.
pub open spec fn eq_ignore_ascii_case(a: Seq<char>, b: Seq<char>) -> bool {
    a.len() == b.len() && forall|i: int| 0 <= i < a.len() ==> ascii_fold(a[i]) == ascii_fold(b[i])
}

/// Lists the (serial number, path) pairs of the enumerated ports that report
/// a serial number, in enumeration order.
pub fn available_ports(infos: &Vec<PortInfo>) -> (r: Vec<(String, String)>)
    ensures
        r@.map_values(|p: (String, String)| pair_view(p)) == usb_port_pairs(infos@),
{
    let mut r: Vec<(String, String)> = Vec::new();
    let mut i: usize = 0;
    while i < infos.len()
        invariant
            i <= infos@.len(),
            r@.map_values(|p: (String, String)| pair_view(p)) == usb_port_pairs(
                infos@.take(i as int),
            ),
        decreases infos@.len() - i,
    {
        let ghost before = r@;
        assert(infos@.take(i as int + 1).drop_last() =~= infos@.take(i as int));
        assert(infos@.take(i as int + 1).last() == infos@[i as int]);
        match &infos[i].usb_serial_number {
            Some(serial) => {
                let pair = (serial.clone(), infos[i].port_name.clone());
                r.push(pair);
                assert(r@.map_values(|p: (String, String)| pair_view(p)) =~= before.map_values(
                    |p: (String, String)| pair_view(p),
                ).push(pair_view(pair)));
            },
            None => {},
        }
        i += 1;
    }
    assert(infos@.take(infos@.len() as int) =~= infos@);
    r
}

/// Whether two characters are equal up to ASCII case.
fn char_eq_ignore_ascii_case(a: char, b: char) -> (r: bool)
    ensures
        r == (ascii_fold(a) == ascii_fold(b)),
{
    let x = a as u32;
    let y = b as u32;
    let fx = if 'A' as u32 <= x && x <= 'Z' as u32 {
        x + 32
    } else {
        x
    };
    let fy = if 'A' as u32 <= y && y <= 'Z' as u32 {
        y + 32
    } else {
        y
    };
    fx == fy
}

/// Whether two strings are equal up to ASCII case.
pub fn str_eq_ignore_ascii_case(a: &str, b: &str) -> (r: bool)
    ensures
        r == eq_ignore_ascii_case(a@, b@),
{
    let n = a.unicode_len();
    if n != b.unicode_len() {
        return false;
    }
    let mut i: usize = 0;
    while i < n
        invariant
            n == a@.len() == b@.len(),
            i <= n,
            forall|j: int| 0 <= j < i ==> ascii_fold(a@[j]) == ascii_fold(b@[j]),
        decreases n - i,
    {
        if !char_eq_ignore_ascii_case(a.get_char(i), b.get_char(i)) {
            return false;
        }
        i += 1;
    }
    true
}

/// The path of the first listed port whose serial number matches
/// `specified_port` up to ASCII case; `PortNotFound` if none does.
pub fn get_path_from_port(ports: &Vec<(String, String)>, specified_port: &str) -> (r: Result<
    String,
    Error,
>)
    ensures
        r is Err <==> forall|i: int|
            0 <= i < ports@.len() ==> !eq_ignore_ascii_case(
                #[trigger] ports@[i].0@,
                specified_port@,
            ),
        r is Err ==> r == Err::<String, Error>(Error::PortNotFound),
        r is Ok ==> exists|i: int|
            0 <= i < ports@.len() && eq_ignore_ascii_case(#[trigger] ports@[i].0@, specified_port@)
                && (forall|j: int|
                0 <= j < i ==> !eq_ignore_ascii_case(ports@[j].0@, specified_port@))
                && r->Ok_0@ == ports@[i].1@,
{
    let mut i: usize = 0;
    while i < ports.len()
        invariant
            i <= ports@.len(),
            forall|j: int|
                0 <= j < i ==> !eq_ignore_ascii_case(#[trigger] ports@[j].0@, specified_port@),
        decreases ports@.len() - i,
    {
        if str_eq_ignore_ascii_case(ports[i].0.as_str(), specified_port) {
            return Ok(ports[i].1.clone());
        }
        i += 1;
    }
    Err(Error::PortNotFound)
}

} // verus!
