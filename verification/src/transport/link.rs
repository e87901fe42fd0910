//! Setting up a link: finding the two channels of a printer, and hearing from
//! it before it counts as connected.

use crate::model::PrinterModel;
use crate::protocol::notifications::{Notification, Status};
use crate::strings::digit;
use crate::transport::labels::hex;
use vstd::prelude::*;
use vstd::slice::slice_subrange;
#[allow(unused_imports)]
use crate::strings::digit_char;
#[allow(unused_imports)]
use crate::transport::labels::{digit_value, hex_digits, hex_is_read_back};

verus! {

/// How long a printer may take to answer a hello, in milliseconds.
pub const HELLO_TIMEOUT_MS: u64 = 4_000;

/// The identifier that every 16-bit Bluetooth identifier is a part of.
pub const BLUETOOTH_BASE: u128 = 0x0000_0000_0000_1000_8000_0080_5F9B_34FB;

/// The full identifier for a 16-bit one: it stands in bits 96 to 111 of the
/// base.
pub fn uuid_from_u16(short: u16) -> (uuid: u128)
    ensures
        uuid == BLUETOOTH_BASE + short * 0x1_0000_0000_0000_0000_0000_0000,
{
    BLUETOOTH_BASE + (short as u128) * 0x1_0000_0000_0000_0000_0000_0000u128
}

/// Whether `i` is the first place of `wanted` in a list.
pub open spec fn first_place(uuids: Seq<u128>, wanted: u128, i: int) -> bool {
    &&& 0 <= i < uuids.len()
    &&& uuids[i] == wanted
    &&& forall|j: int| 0 <= j < i ==> #[trigger] uuids[j] != wanted
}

fn find_uuid(uuids: &[u128], wanted: u128) -> (place: Option<usize>)
    ensures
        match place {
            Some(i) => first_place(uuids@, wanted, i as int),
            None => !uuids@.contains(wanted),
        },
{
    let mut i: usize = 0;
    while i < uuids.len()
        invariant
            i <= uuids@.len(),
            forall|j: int| 0 <= j < i ==> #[trigger] uuids@[j] != wanted,
        decreases uuids@.len() - i,
    {
        if uuids[i] == wanted {
            return Some(i);
        }
        i = i + 1;
    }
    None
}

/// The full identifier that a 16-bit one stands for.
pub open spec fn full_uuid(short: u16) -> u128 {
    (BLUETOOTH_BASE + short * 0x1_0000_0000_0000_0000_0000_0000) as u128
}

/// The identifier of the channel that a printer is written to on.
pub open spec fn write_uuid(model: PrinterModel) -> u128 {
    match model {
        PrinterModel::LxD02 => full_uuid(0xFFE1),
        PrinterModel::X6 => full_uuid(0xAE01),
    }
}

/// The identifier of the channel that a printer answers on.
pub open spec fn notify_uuid(model: PrinterModel) -> u128 {
    match model {
        PrinterModel::LxD02 => full_uuid(0xFFE2),
        PrinterModel::X6 => full_uuid(0xAE02),
    }
}

/// What is said of a device without the write channel.
pub open spec fn no_write_text(model: PrinterModel) -> Seq<char> {
    match model {
        PrinterModel::LxD02 => " has no 0xFFE1 write characteristic — not a lx-d02 printer?"@,
        PrinterModel::X6 => " has no 0xAE01 write characteristic — not a x6 printer?"@,
    }
}

/// What is said of a device without the notify channel.
pub open spec fn no_notify_text(model: PrinterModel) -> Seq<char> {
    match model {
        PrinterModel::LxD02 => " has no 0xFFE2 notify characteristic — not a lx-d02 printer?"@,
        PrinterModel::X6 => " has no 0xAE02 notify characteristic — not a x6 printer?"@,
    }
}

/// Find the write and the notify channel among the characteristics that a
/// device offers.
pub fn find_channels(uuids: &[u128], model: PrinterModel, name: &str) -> (r: Result<
    (usize, usize),
    String,
>)
    ensures
        r is Ok <==> uuids@.contains(write_uuid(model)) && uuids@.contains(notify_uuid(model)),
        r matches Ok((w, n)) ==> first_place(uuids@, write_uuid(model), w as int) && first_place(
            uuids@,
            notify_uuid(model),
            n as int,
        ),
        r matches Err(e) ==> e@ == name@ + if !uuids@.contains(write_uuid(model)) {
            no_write_text(model)
        } else {
            no_notify_text(model)
        },
{
    let write: Option<usize> = find_uuid(uuids, uuid_from_u16(model.write_char_uuid16()));
    let write_at: usize = match write {
        Some(i) => i,
        None => {
            let mut e: String = name.to_owned();
            e.append(
                match model {
                    PrinterModel::LxD02 => {
                        " has no 0xFFE1 write characteristic — not a lx-d02 printer?"
                    },
                    PrinterModel::X6 => {
                        " has no 0xAE01 write characteristic — not a x6 printer?"
                    },
                },
            );
            return Err(e);
        },
    };
    let notify: Option<usize> = find_uuid(uuids, uuid_from_u16(model.notify_char_uuid16()));
    match notify {
        Some(i) => Ok((write_at, i)),
        None => {
            let mut e: String = name.to_owned();
            e.append(
                match model {
                    PrinterModel::LxD02 => {
                        " has no 0xFFE2 notify characteristic — not a lx-d02 printer?"
                    },
                    PrinterModel::X6 => {
                        " has no 0xAE02 notify characteristic — not a x6 printer?"
                    },
                },
            );
            Err(e)
        },
    }
}

/// The bytes that every 16-bit Bluetooth identifier ends in.
pub open spec fn base_tail() -> Seq<u8> {
    seq![0x00, 0x00, 0x10, 0x00, 0x80, 0x00, 0x00, 0x80, 0x5F, 0x9B, 0x34, 0xFB]
}

/// Whether an identifier stands for a 16-bit one.
pub open spec fn is_short_uuid(uuid: Seq<u8>) -> bool {
    uuid[0] == 0 && uuid[1] == 0 && uuid.subrange(4, 16) == base_tail()
}

/// How an identifier is written: the short form where it has one.
pub open spec fn uuid_text(uuid: Seq<u8>) -> Seq<char> {
    if is_short_uuid(uuid) {
        "0x"@ + seq![
            digit_char((uuid[2] / 16) as int),
            digit_char((uuid[2] % 16) as int),
            digit_char((uuid[3] / 16) as int),
            digit_char((uuid[3] % 16) as int),
        ]
    } else {
        hex_digits(uuid.subrange(0, 4)) + "-"@ + hex_digits(uuid.subrange(4, 6)) + "-"@
            + hex_digits(uuid.subrange(6, 8)) + "-"@ + hex_digits(uuid.subrange(8, 10)) + "-"@
            + hex_digits(uuid.subrange(10, 16))
    }
}

/// An advertised service for people to read: a 16-bit identifier as `0xAF30`,
/// any other in full.
pub fn format_service_uuid(uuid: &[u8; 16]) -> (text: String)
    ensures
        text@ == uuid_text(uuid@),
{
    let tail: [u8; 12] = [
        0x00, 0x00, 0x10, 0x00, 0x80, 0x00, 0x00, 0x80, 0x5F, 0x9B, 0x34, 0xFB,
    ];
    assert(tail@ =~= base_tail());
    let mut same: bool = uuid[0] == 0 && uuid[1] == 0;
    let mut i: usize = 0;
    while i < 12
        invariant
            i <= 12,
            tail@ == base_tail(),
            same == (uuid@[0] == 0 && uuid@[1] == 0 && uuid@.subrange(4, 4 + i)
                =~= base_tail().take(i as int)),
        decreases 12 - i,
    {
        proof {
            assert(uuid@.subrange(4, 5 + i) =~= uuid@.subrange(4, 4 + i).push(uuid@[4 + i]));
            assert(base_tail().take(i + 1) =~= base_tail().take(i as int).push(tail@[i as int]));
            if uuid@.subrange(4, 5 + i) == base_tail().take(i + 1) {
                assert(uuid@.subrange(4, 5 + i).last() == base_tail().take(i + 1).last());
                assert(uuid@.subrange(4, 4 + i) =~= uuid@.subrange(4, 5 + i).drop_last());
                assert(base_tail().take(i as int) =~= base_tail().take(i + 1).drop_last());
            }
        }
        same = same && uuid[4 + i] == tail[i];
        i = i + 1;
    }
    assert(base_tail().take(12) =~= base_tail());
    if same {
        let mut text: String = "0x".to_owned();
        text.push(digit(uuid[2] / 16));
        text.push(digit(uuid[2] % 16));
        text.push(digit(uuid[3] / 16));
        text.push(digit(uuid[3] % 16));
        assert(text@ =~= uuid_text(uuid@));
        text
    } else {
        let mut text: String = hex(slice_subrange(uuid.as_slice(), 0, 4));
        text.append("-");
        text.append(hex(slice_subrange(uuid.as_slice(), 4, 6)).as_str());
        text.append("-");
        text.append(hex(slice_subrange(uuid.as_slice(), 6, 8)).as_str());
        text.append("-");
        text.append(hex(slice_subrange(uuid.as_slice(), 8, 10)).as_str());
        text.append("-");
        text.append(hex(slice_subrange(uuid.as_slice(), 10, 16)).as_str());
        text
    }
}

/// Whether a model can be asked for its status at all: the X6 sends no status
/// frames, so waiting for one is refused at once.
pub fn check_status_support(model: PrinterModel) -> (r: Result<(), String>)
    ensures
        r is Err <==> model == PrinterModel::X6,
        r matches Err(e) ==> e@
            == "status notifications are not supported on this printer model"@,
{
    match model {
        PrinterModel::LxD02 => Ok(()),
        PrinterModel::X6 => Err(
            "status notifications are not supported on this printer model".to_owned(),
        ),
    }
}

/// Whether a notification shows that the printer itself has answered a hello.
pub fn answers_hello(n: &Notification) -> (answered: bool)
    ensures
        answered == (*n is Hello),
{
    match n {
        Notification::Hello { .. } => true,
        _ => false,
    }
}

/// The status in a notification, if it is one; other notifications are passed
/// over while a status is waited for.
pub fn status_in(n: &Notification) -> (status: Option<Status>)
    ensures
        status == match *n {
            Notification::Status(s) => Some(s),
            _ => None,
        },
{
    match *n {
        Notification::Status(s) => Some(s),
        _ => None,
    }
}

/// The two channels of a printer are not the same, nor those of two models.
pub proof fn channels_differ(a: PrinterModel, b: PrinterModel)
    ensures
        write_uuid(a) != notify_uuid(b),
        write_uuid(a) == write_uuid(b) ==> a == b,
        notify_uuid(a) == notify_uuid(b) ==> a == b,
{
}

/// An identifier is written in full as its bytes in hexadecimal, with dashes after
/// the fourth, sixth, eighth and tenth.
pub proof fn identifiers_show_their_bytes(uuid: Seq<u8>, k: int)
    requires
        uuid.len() == 16,
        !(uuid[0] == 0 && uuid[1] == 0 && uuid.subrange(4, 16) == base_tail()),
        0 <= k < 16,
    ensures
        ({
            let text = uuid_text(uuid);
            let at = 2 * k + if k < 4 {
                0int
            } else if k < 6 {
                1
            } else if k < 8 {
                2
            } else if k < 10 {
                3
            } else {
                4
            };
            &&& text.len() == 36
            &&& text[8] == '-' && text[13] == '-' && text[18] == '-' && text[23] == '-'
            &&& 16 * digit_value(text[at]) + digit_value(text[at + 1]) == uuid[k]
        }),
{
    reveal_strlit("-");
    let text = uuid_text(uuid);
    let a = uuid.subrange(0, 4);
    let b = uuid.subrange(4, 6);
    let c = uuid.subrange(6, 8);
    let d = uuid.subrange(8, 10);
    let e = uuid.subrange(10, 16);
    if k < 4 {
        hex_is_read_back(a, k);
        assert(text[2 * k] == hex_digits(a)[2 * k]);
        assert(text[2 * k + 1] == hex_digits(a)[2 * k + 1]);
    } else if k < 6 {
        hex_is_read_back(b, k - 4);
        assert(text[2 * k + 1] == hex_digits(b)[2 * (k - 4)]);
        assert(text[2 * k + 2] == hex_digits(b)[2 * (k - 4) + 1]);
    } else if k < 8 {
        hex_is_read_back(c, k - 6);
        assert(text[2 * k + 2] == hex_digits(c)[2 * (k - 6)]);
        assert(text[2 * k + 3] == hex_digits(c)[2 * (k - 6) + 1]);
    } else if k < 10 {
        hex_is_read_back(d, k - 8);
        assert(text[2 * k + 3] == hex_digits(d)[2 * (k - 8)]);
        assert(text[2 * k + 4] == hex_digits(d)[2 * (k - 8) + 1]);
    } else {
        hex_is_read_back(e, k - 10);
        assert(text[2 * k + 4] == hex_digits(e)[2 * (k - 10)]);
        assert(text[2 * k + 5] == hex_digits(e)[2 * (k - 10) + 1]);
    }
}

/// A short identifier is its third and fourth byte, and the full one that belongs to
/// it has it in the bits from 96 on.
pub proof fn short_identifiers_show_two_bytes(uuid: Seq<u8>, short: u16, other: u16)
    requires
        uuid.len() == 16,
        uuid[0] == 0 && uuid[1] == 0 && uuid.subrange(4, 16) == base_tail(),
    ensures
        uuid_text(uuid).len() == 6,
        uuid_text(uuid)[0] == '0' && uuid_text(uuid)[1] == 'x',
        forall|i: int|
            2 <= i < 6 ==> '0' <= #[trigger] uuid_text(uuid)[i] <= '9' || 'A' <= uuid_text(uuid)[i]
                <= 'F',
        full_uuid(short) == full_uuid(other) ==> short == other,
        full_uuid(short) / 0x1_0000_0000_0000_0000_0000_0000 == short,
        full_uuid(short) % 0x1_0000_0000_0000_0000_0000_0000
            == 0x0000_1000_8000_0080_5F9B_34FBu128,
{
    reveal_strlit("0x");
    assert(uuid[2] / 16 < 16 && uuid[3] / 16 < 16);
}

} // verus!
