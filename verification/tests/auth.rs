//! Auth responses.

use printa_ble::protocol::auth::auth_response;
use printa_ble::protocol::crc::crc16_xmodem;

const MAC: [u8; 6] = [0xAA, 0xBB, 0xCC, 0x11, 0x22, 0x33];

#[test]
fn auth_response_matches_manual_crc() {
    let challenge = [0u8; 10];
    let resp = auth_response(&challenge, &MAC);
    // Every byte identical for an all-zero challenge
    let mut buf = vec![0u8];
    buf.extend_from_slice(&MAC);
    let expected = (crc16_xmodem(&buf) >> 8) as u8;
    assert_eq!(resp, [expected; 10]);
}

#[test]
fn auth_response_uses_each_challenge_byte() {
    let challenge = [0, 1, 2, 3, 4, 5, 6, 7, 8, 9];
    let resp = auth_response(&challenge, &MAC);
    for (i, &c) in challenge.iter().enumerate() {
        let mut buf = vec![c];
        buf.extend_from_slice(&MAC);
        assert_eq!(resp[i], (crc16_xmodem(&buf) >> 8) as u8);
    }
}

#[test]
fn crc16_xmodem_check_value() {
    // Standard CRC16/XMODEM check: "123456789" -> 0x31C3
    assert_eq!(crc16_xmodem(b"123456789"), 0x31C3);
}

#[test]
fn crc16_xmodem_empty_is_zero() {
    assert_eq!(crc16_xmodem(&[]), 0x0000);
}
