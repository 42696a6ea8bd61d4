//! The logger's decision layer: command selection, the `add` request, the
//! log line, the data-file path, and the reply protocol.  Argument decoding,
//! file writing and socket traffic stay with the callers.

use vstd::prelude::*;

use crate::decimal::dec_str;
use crate::decimal::dec_str_int;
use crate::decimal::i64_to_string;
use crate::decimal::u64_to_string;
use crate::device::Device;
use crate::device::slug_parse;
use crate::measurement::meas_unit;
use crate::measurement::meas_value;
use crate::measurements_list::MeasurementsList;
use crate::measurements_list::list_parse_ok;
use crate::measurements_list::split_sp;
use crate::scan::str_eq;
use crate::validator::is_rfc3339;
use crate::validator::rfc3339_parses;

verus! {

/// Decoded command-line arguments, one field per flag of the usage grammar.
#[derive(Debug)]
pub struct Args {
    pub cmd_server: bool,
    pub cmd_add: bool,
    pub cmd_start: bool,
    pub cmd_stop: bool,
    pub arg_device: String,
    pub arg_value: String,
    pub flag_timestamp: String,
    pub flag_now: bool,
    pub flag_verbose: bool,
    pub flag_help: bool,
    pub flag_version: bool,
    pub flag_debug: bool,
}

#[derive(Debug, Clone, Copy, PartialEq, Eq, Structural)]
pub enum Command {
    Add,
    Server,
    Default,
}

/// Chooses the command for the given arguments: `add` first, then `server`,
/// else the default handler.
pub fn get_command(args: &Args) -> (r: Command)
    ensures
        r == (if args.cmd_add {
            Command::Add
        } else if args.cmd_server {
            Command::Server
        } else {
            Command::Default
        }),
{
    if args.cmd_add {
        Command::Add
    } else if args.cmd_server {
        Command::Server
    } else {
        Command::Default
    }
}

#[derive(Debug, Clone, Copy, PartialEq, Eq, Structural)]
pub enum AddError {
    InvalidTimestamp,
    InvalidValue,
    InvalidDevice,
}

/// Decides an `add` request.  A non-empty timestamp must be RFC 3339, the
/// value text must parse as a measurements list, and the device slug must
/// match the device grammar; the checks run in that order and the first
/// failure decides the error.
pub fn add_request(device_slug: &str, value: &str, timestamp: &str) -> (r: Result<
    (Device, MeasurementsList),
    AddError,
>)
    ensures
        (r matches Err(e) && e is InvalidTimestamp) <==> (timestamp@.len() > 0 && !is_rfc3339(
            timestamp@,
        )),
        (r matches Err(e) && e is InvalidValue) <==> ((timestamp@.len() == 0 || is_rfc3339(
            timestamp@,
        )) && !list_parse_ok(value@)),
        (r matches Err(e) && e is InvalidDevice) <==> ((timestamp@.len() == 0 || is_rfc3339(
            timestamp@,
        )) && list_parse_ok(value@) && slug_parse(device_slug@) is None),
        r is Ok <==> ((timestamp@.len() == 0 || is_rfc3339(timestamp@)) && list_parse_ok(value@)
            && slug_parse(device_slug@) is Some),
        r matches Ok(t) ==> {
            &&& t.0.wf()
            &&& t.0.spec_slug() == device_slug@
            &&& slug_parse(device_slug@) == Some(
                (t.0.spec_port(), t.0.spec_node(), t.0.spec_driver()),
            )
            &&& t.1.wf()
            &&& t.1.spec_items().len() == split_sp(value@).len()
            &&& forall|i: int|
                0 <= i < split_sp(value@).len() ==> t.1.spec_items()[i].spec_value() == meas_value(
                    #[trigger] split_sp(value@)[i],
                ) && t.1.spec_items()[i].spec_unit() == meas_unit(split_sp(value@)[i])
        },
{
    if timestamp.unicode_len() > 0 {
        if !rfc3339_parses(timestamp) {
            return Err(AddError::InvalidTimestamp);
        }
    }
    let data = match MeasurementsList::from_str(value) {
        Ok(l) => l,
        Err(_) => {
            return Err(AddError::InvalidValue);
        },
    };
    let device = match Device::with_slug(device_slug) {
        Some(d) => d,
        None => {
            return Err(AddError::InvalidDevice);
        },
    };
    Ok((device, data))
}

/// A timestamped set of measurements for one device.  The timestamp is
/// RFC 3339 text that the caller has already fixed.
#[derive(Debug)]
pub struct MeasurementPoint {
    pub timestamp: String,
    pub device: Device,
    pub data: MeasurementsList,
}

/// The log line for a measurement point: the timestamp, a space, the
/// rendered measurements, and a newline.
pub fn create_line_for(mp: &MeasurementPoint) -> (r: String)
    ensures
        r@ == mp.timestamp@ + seq![' '] + mp.data.fmt_spec() + seq!['\n'],
{
    let mut line = String::from_str(mp.timestamp.as_str());
    line.append(" ");
    let d = mp.data.to_string();
    line.append(d.as_str());
    line.append("\n");
    proof {
        reveal_strlit(" ");
        reveal_strlit("\n");
        assert(line@ =~= mp.timestamp@ + seq![' '] + mp.data.fmt_spec() + seq!['\n']);
    }
    line
}

/// The relative path of the data file for a device and a calendar day:
/// base, driver, node, port, year, month and day as path segments, then the
/// fixed file name.
pub fn data_file_path(base: &str, device: &Device, year: i32, month: u32, day: u32) -> (r: String)
    ensures
        r@ == base@ + seq!['/'] + device.spec_driver() + seq!['/'] + device.spec_node()
            + seq!['/'] + device.spec_port() + seq!['/'] + dec_str_int(year as int) + seq!['/']
            + dec_str(month as nat) + seq!['/'] + dec_str(day as nat) + seq!['/'] + "data.txt"@,
{
    let mut p = String::from_str(base);
    p.append("/");
    p.append(device.get_driver());
    p.append("/");
    p.append(device.get_node());
    p.append("/");
    p.append(device.get_port());
    p.append("/");
    let y = i64_to_string(year as i64);
    p.append(y.as_str());
    p.append("/");
    let m = u64_to_string(month as u64);
    p.append(m.as_str());
    p.append("/");
    let d = u64_to_string(day as u64);
    p.append(d.as_str());
    p.append("/");
    p.append("data.txt");
    proof {
        reveal_strlit("/");
        assert(p@ =~= base@ + seq!['/'] + device.spec_driver() + seq!['/'] + device.spec_node()
            + seq!['/'] + device.spec_port() + seq!['/'] + dec_str_int(year as int) + seq!['/']
            + dec_str(month as nat) + seq!['/'] + dec_str(day as nat) + seq!['/'] + "data.txt"@);
    }
    p
}

/// One step of the server's reply protocol: the stop request gets the fixed
/// acknowledgement and ends the loop; any other request is echoed back with
/// the running reply count.
pub fn server_reply(request: &str, count: u32) -> (r: (String, bool))
    ensures
        r.1 == (request@ == "LOGGER/1.0 STOP"@),
        r.1 ==> r.0@ == "LOGGER/1.0 OK"@,
        !r.1 ==> r.0@ == request@ + " -> Reply #"@ + dec_str(count as nat),
{
    if str_eq(request, "LOGGER/1.0 STOP") {
        (String::from_str("LOGGER/1.0 OK"), true)
    } else {
        let mut s = String::from_str(request);
        s.append(" -> Reply #");
        let c = u64_to_string(count as u64);
        s.append(c.as_str());
        (s, false)
    }
}

} // verus!
