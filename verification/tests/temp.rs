use crsf2pwm::temp::{
    crc8, is_valid_rom_address, read_temperatures, rom_address_bytes, scratchpad_temperature,
    DeviceScan,
};

// ROM code of the Maxim application note on 1-Wire CRCs.
const ROM: u64 = 0xA200_0000_01B8_1C02;

#[test]
fn crc8_known_value() {
    assert_eq!(crc8(&[0x02, 0x1C, 0xB8, 0x01, 0x00, 0x00, 0x00]), 0xA2);
    assert_eq!(crc8(&[]), 0);
    assert_eq!(crc8(&ROM.to_le_bytes()), 0);
}

#[test]
fn crc8_of_data_with_its_crc_is_zero() {
    for data in [vec![1u8, 2, 3], vec![0xFF; 8], vec![0x91, 0x01, 0x4B, 0x46, 0x7F, 0xFF, 0x0F, 0x10]] {
        let mut with = data.clone();
        with.push(crc8(&data));
        assert_eq!(crc8(&with), 0);
    }
}

#[test]
fn rom_address_validation() {
    assert!(is_valid_rom_address(ROM));
    assert!(!is_valid_rom_address(ROM ^ 1));
    assert_eq!(rom_address_bytes(ROM), ROM.to_le_bytes().to_vec());
}

fn scratchpad(lsb: u8, msb: u8) -> [u8; 9] {
    let mut d = [lsb, msb, 0x4B, 0x46, 0x7F, 0xFF, 0x0F, 0x10, 0];
    d[8] = crc8(&d[..8]);
    d
}

#[test]
fn scratchpad_temperatures_decode() {
    // +25.0625 C and -10.125 C from the DS18B20 data sheet.
    assert_eq!(scratchpad_temperature(&scratchpad(0x91, 0x01)), Some(0x0191));
    assert_eq!(scratchpad_temperature(&scratchpad(0x5E, 0xFF)), Some(-162));
    let mut bad = scratchpad(0x91, 0x01);
    bad[0] ^= 0x10;
    assert_eq!(scratchpad_temperature(&bad), None);
}

#[test]
fn damaged_scratchpads_are_left_out() {
    let mut bad = scratchpad(0x00, 0x00);
    bad[8] ^= 1;
    let pads = vec![scratchpad(0x91, 0x01), bad, scratchpad(0x5E, 0xFF)];
    assert_eq!(read_temperatures(&pads), vec![0x0191, -162]);
    assert_eq!(read_temperatures(&vec![]), Vec::<i16>::new());
}

#[test]
fn device_scan_keeps_valid_addresses() {
    let mut scan = DeviceScan::new(3);
    assert!(scan.wants_more(false));
    assert!(!scan.wants_more(true));
    assert!(scan.record(Some(ROM)));
    assert!(!scan.record(Some(ROM ^ 0xFF00)));
    assert!(!scan.record(None));
    assert!(!scan.wants_more(false));
    assert_eq!(scan.devices(), vec![ROM]);
}

#[test]
fn crc8_check_byte_is_unique() {
    let data = [0x02u8, 0x1C, 0xB8, 0x01, 0x00, 0x00, 0x00];
    for x in 0..=255u8 {
        let mut block = data.to_vec();
        block.push(x);
        assert_eq!(crc8(&block) == 0, x == 0xA2);
    }
}
