use resctl_bench::calibrate::{
    CalibrationData, DeviceIdentity, IoCostModelParams, IoCostQoSParams, IdField,
    LiveIoCostSnapshot, PrepareError, prepare,
};

fn detected() -> DeviceIdentity {
    DeviceIdentity { model: "ACME SSD".to_string(), fwrev: "1.2".to_string(), size: 512 }
}

fn live(enable: bool) -> LiveIoCostSnapshot {
    LiveIoCostSnapshot {
        enable,
        model: IoCostModelParams {
            rbps: 1,
            rseqiops: 2,
            rrandiops: 3,
            wbps: 4,
            wseqiops: 5,
            wrandiops: 6,
        },
        qos: IoCostQoSParams {
            rpct_x100: 9500,
            rlat: 25000,
            wpct_x100: 9500,
            wlat: 25000,
            min_x100: 2500,
            max_x100: 10000,
        },
    }
}

#[test]
fn prepare_from_default_records_identity() {
    let loaded = CalibrationData::default();
    let r = prepare(&loaded, &detected(), &live(false), false).unwrap();
    assert_eq!(r.dev_model, "ACME SSD");
    assert_eq!(r.dev_fwrev, "1.2");
    assert_eq!(r.dev_size, 512);
    assert_eq!(r.iocost_seq, 0);
    assert_eq!(r.model, loaded.model);
    assert_eq!(r.qos, loaded.qos);
}

#[test]
fn prepare_matching_identity_succeeds() {
    let mut loaded = CalibrationData::default();
    loaded.dev_model = "ACME SSD".to_string();
    loaded.dev_fwrev = "1.2".to_string();
    loaded.dev_size = 512;
    loaded.iocost_seq = 4;
    let r = prepare(&loaded, &detected(), &live(false), false).unwrap();
    assert_eq!(r.iocost_seq, 4);
}

#[test]
fn prepare_model_mismatch_fails_without_modification() {
    let mut loaded = CalibrationData::default();
    loaded.dev_model = "OTHER DISK".to_string();
    let before = loaded.clone();
    let e = prepare(&loaded, &detected(), &live(false), false).unwrap_err();
    // the error names both the stored and the detected identity
    match e {
        PrepareError::DeviceMismatch { field, stored, detected: det } => {
            assert_eq!(field, IdField::Model);
            assert_eq!(stored.model, "OTHER DISK");
            assert_eq!(det.model, "ACME SSD");
        }
        other => panic!("unexpected error {:?}", other),
    }
    assert_eq!(loaded, before);
}

#[test]
fn prepare_fwrev_mismatch_fails() {
    let mut loaded = CalibrationData::default();
    loaded.dev_fwrev = "9.9".to_string();
    let e = prepare(&loaded, &detected(), &live(false), false).unwrap_err();
    match e {
        PrepareError::DeviceMismatch { field, stored, detected: det } => {
            assert_eq!(field, IdField::Fwrev);
            assert_eq!(stored.fwrev, "9.9");
            assert_eq!(det.fwrev, "1.2");
        }
        other => panic!("unexpected error {:?}", other),
    }
}

#[test]
fn prepare_size_mismatch_fails() {
    let mut loaded = CalibrationData::default();
    loaded.dev_size = 256;
    let e = prepare(&loaded, &detected(), &live(false), false).unwrap_err();
    match e {
        PrepareError::DeviceMismatch { field, stored, detected: det } => {
            assert_eq!(field, IdField::Size);
            assert_eq!(stored.size, 256);
            assert_eq!(det.size, 512);
        }
        other => panic!("unexpected error {:?}", other),
    }
}

#[test]
fn prepare_live_requires_iocost_enabled() {
    let loaded = CalibrationData::default();
    let e = prepare(&loaded, &detected(), &live(false), true).unwrap_err();
    assert_eq!(e, PrepareError::LiveIoCostUnavailable);
}

#[test]
fn prepare_live_copies_parameters_and_bumps_sequence() {
    let loaded = CalibrationData::default();
    let snap = live(true);
    let r = prepare(&loaded, &detected(), &snap, true).unwrap();
    assert_eq!(r.iocost_seq, 1);
    assert_eq!(r.model, snap.model);
    assert_eq!(r.qos, snap.qos);
}

#[test]
fn prepare_live_bump_is_monotonic() {
    // reloading previously prepared data still moves the sequence forward
    let mut loaded = CalibrationData::default();
    loaded.dev_model = "ACME SSD".to_string();
    loaded.dev_fwrev = "1.2".to_string();
    loaded.dev_size = 512;
    loaded.iocost_seq = 4;
    let r = prepare(&loaded, &detected(), &live(true), true).unwrap();
    assert_eq!(r.iocost_seq, 5);
    assert!(r.iocost_seq > loaded.iocost_seq);
}
