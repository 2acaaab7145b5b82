//! Command-line values of the emulator.

use crate::emulator::echo::EchoMode;
use crate::protocol::types::{same_but_case, HpsdrHw};
use vstd::prelude::*;
use vstd::string::StringExecFns;

verus! {

/// Address of a radio for which none is given.
pub const DEFAULT_MAC: [u8; 6] = [0x02, 0xaa, 0xbb, 0xcc, 0xdd, 0xee];

/// Sample rate of a client until it sets another one.
pub const INITIAL_SAMPLE_RATE: u32 = 48_000;

/// Reads the name of a radio.
pub fn parse_radio(s: &str) -> (r: Result<HpsdrHw, String>)
    ensures
        r is Ok <==> same_but_case(s@, "hermes"@) || same_but_case(s@, "hermeslite"@)
            || same_but_case(s@, "hermeslite2"@),
        r matches Ok(hw) ==> hw == if same_but_case(s@, "hermes"@) {
            HpsdrHw::Hermes
        } else {
            HpsdrHw::HermesLite
        },
        r matches Err(e) ==> e@ == "unknown radio '"@ + s@ + "'. Valid: "@ + "hermes"@ + ", "@
            + "hermeslite"@,
{
    match HpsdrHw::from_name(s) {
        Some(hw) => Ok(hw),
        None => {
            let names: [&'static str; 2] = HpsdrHw::all_names();
            let mut e: String = String::from_str("unknown radio '");
            e.append(s);
            e.append("'. Valid: ");
            e.append(names[0]);
            e.append(", ");
            e.append(names[1]);
            Err(e)
        },
    }
}

/// Value of a hexadecimal digit.
pub open spec fn hex_value(c: char) -> Option<u8> {
    if '0' <= c <= '9' {
        Some((c as int - '0' as int) as u8)
    } else if 'a' <= c <= 'f' {
        Some((c as int - 'a' as int + 10) as u8)
    } else if 'A' <= c <= 'F' {
        Some((c as int - 'A' as int + 10) as u8)
    } else {
        None
    }
}

/// Values of the hexadecimal digits in a text; everything else is left out.
pub open spec fn hex_values(text: Seq<char>) -> Seq<u8>
    decreases text.len(),
{
    if text.len() == 0 {
        Seq::empty()
    } else {
        match hex_value(text.last()) {
            Some(v) => hex_values(text.drop_last()).push(v),
            None => hex_values(text.drop_last()),
        }
    }
}

fn value_of_hex(c: char) -> (v: Option<u8>)
    ensures
        v == hex_value(c),
        v matches Some(d) ==> d < 16,
{
    if c >= '0' && c <= '9' {
        Some(c as u8 - 48)
    } else if c >= 'a' && c <= 'f' {
        Some(c as u8 - 87)
    } else if c >= 'A' && c <= 'F' {
        Some(c as u8 - 55)
    } else {
        None
    }
}

/// Reads an interface address: twelve hexadecimal digits, with anything between
/// them.
pub fn parse_mac(text: &str) -> (r: Option<[u8; 6]>)
    ensures
        r is Some <==> hex_values(text@).len() == 12,
        r matches Some(mac) ==> forall|k: int|
            0 <= k < 6 ==> #[trigger] mac@[k] == 16 * hex_values(text@)[2 * k] + hex_values(
                text@,
            )[2 * k + 1],
{
    let ghost all = text@;
    let mut digits: Vec<u8> = Vec::new();
    for c in it: text.chars()
        invariant
            it.seq() == all,
            all == text@,
            digits@ == hex_values(all.take(it.index())),
            forall|k: int| 0 <= k < digits@.len() ==> #[trigger] digits@[k] < 16,
    {
        proof {
            let next = all.take(it.index() + 1);
            assert(c == all[it.index()]);
            assert(next.drop_last() == all.take(it.index()));
            assert(next.last() == c);
        }
        match value_of_hex(c) {
            Some(v) => {
                digits.push(v);
            },
            None => {},
        }
    }
    assert(all.take(all.len() as int) == all);
    if digits.len() != 12 {
        return None;
    }
    let d: &Vec<u8> = &digits;
    assert(d@[0] < 16 && d@[1] < 16 && d@[2] < 16 && d@[3] < 16 && d@[4] < 16 && d@[5] < 16 && d@[6]
        < 16 && d@[7] < 16 && d@[8] < 16 && d@[9] < 16 && d@[10] < 16 && d@[11] < 16);
    Some(
        [
            16 * d[0] + d[1],
            16 * d[2] + d[3],
            16 * d[4] + d[5],
            16 * d[6] + d[7],
            16 * d[8] + d[9],
            16 * d[10] + d[11],
        ],
    )
}

/// The echo mode that is asked for; live playback comes first.
pub fn echo_mode(live: bool, looped: bool) -> (m: Option<EchoMode>)
    ensures
        m == if live {
            Some(EchoMode::Live)
        } else if looped {
            Some(EchoMode::Loop)
        } else {
            None
        },
{
    if live {
        Some(EchoMode::Live)
    } else if looped {
        Some(EchoMode::Loop)
    } else {
        None
    }
}

/// Name of an echo mode.
pub fn echo_label(mode: Option<EchoMode>) -> (s: &'static str)
    ensures
        s == match mode {
            Some(EchoMode::Loop) => "loop",
            Some(EchoMode::Live) => "live",
            None => "off",
        },
{
    match mode {
        Some(EchoMode::Loop) => "loop",
        Some(EchoMode::Live) => "live",
        None => "off",
    }
}

} // verus!
