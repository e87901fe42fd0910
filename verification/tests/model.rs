//! Printer models.

use printa_ble::model::PrinterModel;

#[test]
fn detects_models_from_advertised_names() {
    assert_eq!(
        PrinterModel::from_device_name("LX-D02"),
        Some(PrinterModel::LxD02)
    );
    assert_eq!(
        PrinterModel::from_device_name("LXP-42"),
        Some(PrinterModel::LxD02)
    );
    assert_eq!(
        PrinterModel::from_device_name("X6h-A1B2"),
        Some(PrinterModel::X6)
    );
    assert_eq!(
        PrinterModel::from_device_name("x6h-A1B2"),
        Some(PrinterModel::X6)
    );
    assert_eq!(PrinterModel::from_device_name("GB01"), None);
    // "X6H-" (capital H) is a *different* model; do not match it.
    assert_eq!(PrinterModel::from_device_name("X6H-A1B2"), None);
}

#[test]
fn uuids_per_model() {
    assert_eq!(PrinterModel::LxD02.service_uuid16(), 0xFFE6);
    assert_eq!(PrinterModel::LxD02.write_char_uuid16(), 0xFFE1);
    assert_eq!(PrinterModel::LxD02.notify_char_uuid16(), 0xFFE2);
    assert_eq!(PrinterModel::X6.service_uuid16(), 0xAE30);
    assert_eq!(PrinterModel::X6.write_char_uuid16(), 0xAE01);
    assert_eq!(PrinterModel::X6.notify_char_uuid16(), 0xAE02);
}

#[test]
fn string_round_trip_for_config_and_cli() {
    assert_eq!("lx-d02".parse::<PrinterModel>(), Ok(PrinterModel::LxD02));
    assert_eq!("x6".parse::<PrinterModel>(), Ok(PrinterModel::X6));
    assert!("gb01".parse::<PrinterModel>().is_err());
    assert_eq!(PrinterModel::LxD02.name(), "lx-d02");
    assert_eq!(PrinterModel::X6.name(), "x6");
}
