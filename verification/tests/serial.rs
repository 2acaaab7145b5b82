use radio_utils::keyer::config::SerialPin;
use radio_utils::keyer::paddle::format_serial_description;

#[test]
fn port_config_description() {
    let desc = format_serial_description("/dev/ttyUSB0", SerialPin::CTS, SerialPin::DSR);
    assert_eq!(desc, "Serial paddle on /dev/ttyUSB0 (dit=CTS, dash=DSR)");

    let desc2 = format_serial_description("COM3", SerialPin::DCD, SerialPin::RI);
    assert_eq!(desc2, "Serial paddle on COM3 (dit=DCD, dash=RI)");
}
