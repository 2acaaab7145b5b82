//! What the command line means.

use crate::emulator::cli::{echo_label, echo_mode, hex_value, hex_values, parse_mac, parse_radio};
use crate::emulator::echo::EchoMode;
use crate::protocol::types::HpsdrHw;
use crate::protocol::wire::{hex_digit, mac_text, mac_to_string};
use vstd::prelude::*;

verus! {

proof fn lemma_digit_has_its_value(n: int)
    requires
        0 <= n < 16,
    ensures
        hex_value(hex_digit(n)) == Some(n as u8),
{
}

proof fn lemma_values_of_text(mac: Seq<u8>, k: int)
    requires
        mac.len() == 6,
        0 <= k <= 6,
    ensures
        ({
            let part = mac_text(mac).take(if k == 6 {
                17
            } else {
                3 * k
            });
            hex_values(part) == Seq::new(
                (2 * k) as nat,
                |j: int|
                    if j % 2 == 0 {
                        mac[j / 2] / 16
                    } else {
                        mac[j / 2] % 16
                    },
            )
        }),
    decreases k,
{
    let text = mac_text(mac);
    if k == 0 {
        assert(text.take(0) =~= Seq::empty());
        assert(hex_values(text.take(0)) =~= Seq::empty());
    } else {
        lemma_values_of_text(mac, k - 1);
        let at = 3 * (k - 1);
        let b = mac[k - 1] as int;
        lemma_digit_has_its_value(b / 16);
        lemma_digit_has_its_value(b % 16);
        let one = text.take(at + 1);
        let two = text.take(at + 2);
        assert(one.drop_last() =~= text.take(at));
        assert(two.drop_last() =~= one);
        assert(one.last() == hex_digit(b / 16));
        assert(two.last() == hex_digit(b % 16));
        if k < 6 {
            let three = text.take(at + 3);
            assert(three.drop_last() =~= two);
            assert(three.last() == ':');
            assert(hex_value(':') is None);
        }
        assert(hex_values(one) == hex_values(text.take(at)).push((b / 16) as u8));
        assert(hex_values(two) == hex_values(text.take(at)).push((b / 16) as u8).push(
            (b % 16) as u8,
        ));
        assert(hex_values(two) =~= Seq::new(
            (2 * k) as nat,
            |j: int|
                if j % 2 == 0 {
                    mac[j / 2] / 16
                } else {
                    mac[j / 2] % 16
                },
        ));
    }
}

/// An interface address that is written as text is read back.
pub proof fn lemma_address_text_is_read_back(
    mac: [u8; 6],
    text: String,
    s: &str,
    r: Option<[u8; 6]>,
)
    requires
        call_ensures(mac_to_string, (&mac,), text),
        s@ == text@,
        call_ensures(parse_mac, (s,), r),
    ensures
        r is Some,
        r->0@ == mac@,
        s@.len() == 17,
{
    let t = mac_text(mac@);
    lemma_values_of_text(mac@, 6);
    assert(t.take(17) =~= t);
    assert(r->0@ =~= mac@) by {
        assert forall|k: int| 0 <= k < 6 implies r->0@[k] == mac@[k] by {
            let v = hex_values(s@);
            assert(v[2 * k] == mac@[k] / 16);
            assert(v[2 * k + 1] == mac@[k] % 16);
        }
    }
}

/// Signs between the digits do not count, so an address may be written with or without
/// them.
pub proof fn lemma_other_signs_do_not_count(text: Seq<char>, sign: char)
    requires
        !('0' <= sign <= '9') && !('a' <= sign <= 'f') && !('A' <= sign <= 'F'),
    ensures
        hex_values(text.push(sign)) == hex_values(text),
{
    assert(text.push(sign).drop_last() =~= text);
}

/// Digits have their values in either case.
pub proof fn lemma_hex_digits_have_their_values(text: Seq<char>, n: int)
    requires
        0 <= n < 16,
    ensures
        n < 10 ==> hex_values(text.push(('0' as int + n) as char)) == hex_values(text).push(
            n as u8,
        ),
        n >= 10 ==> hex_values(text.push(('a' as int + n - 10) as char)) == hex_values(text).push(
            n as u8,
        ),
        n >= 10 ==> hex_values(text.push(('A' as int + n - 10) as char)) == hex_values(text).push(
            n as u8,
        ),
{
    assert(text.push(('0' as int + n) as char).drop_last() =~= text);
    assert(text.push(('a' as int + n - 10) as char).drop_last() =~= text);
    assert(text.push(('A' as int + n - 10) as char).drop_last() =~= text);
}

/// Live playback comes before loops, and without either there is no echo; each mode has
/// a name of its own.
pub proof fn lemma_echo_mode_is_as_asked(
    live: bool,
    looped: bool,
    m: Option<EchoMode>,
    label: &'static str,
)
    requires
        call_ensures(echo_mode, (live, looped), m),
        call_ensures(echo_label, (m,), label),
    ensures
        live ==> m == Some(EchoMode::Live) && label@ == "live"@,
        !live && looped ==> m == Some(EchoMode::Loop) && label@ == "loop"@,
        !live && !looped ==> m is None && label@ == "off"@,
{
}

/// A radio is named on the command line as it is named anywhere.
pub proof fn lemma_radio_is_read_by_name(
    s: &str,
    r: Result<HpsdrHw, String>,
    named: Option<HpsdrHw>,
)
    requires
        call_ensures(parse_radio, (s,), r),
        call_ensures(HpsdrHw::from_name, (s,), named),
    ensures
        r is Ok <==> named is Some,
        r matches Ok(hw) ==> named == Some(hw),
{
}

} // verus!
