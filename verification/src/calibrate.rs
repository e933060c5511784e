//! Device calibration data and the hardware-identity guard.
//!
//! Calibration parameters are only meaningful for the physical device they
//! were measured on.  `prepare` therefore refuses to hand out loaded
//! calibration data whose recorded identity differs from the freshly
//! detected one, and records the detected identity on first use.

use vstd::prelude::*;

verus! {

/// Freshly detected identity of the scratch block device.
#[derive(Debug, PartialEq, Eq)]
pub struct DeviceIdentity {
    pub model: String,
    pub fwrev: String,
    pub size: u64,
}

impl Clone for DeviceIdentity {
    fn clone(&self) -> (r: Self)
        ensures
            r == *self,
    {
        DeviceIdentity { model: self.model.clone(), fwrev: self.fwrev.clone(), size: self.size }
    }
}

/// iocost cost-model parameters.
#[derive(Clone, Copy, Debug, PartialEq, Eq, Structural)]
pub struct IoCostModelParams {
    pub rbps: u64,
    pub rseqiops: u64,
    pub rrandiops: u64,
    pub wbps: u64,
    pub wseqiops: u64,
    pub wrandiops: u64,
}

/// iocost quality-of-service parameters.  Percentages are carried in
/// hundredths of a percent so the library stays in integer arithmetic.
#[derive(Clone, Copy, Debug, PartialEq, Eq, Structural)]
pub struct IoCostQoSParams {
    pub rpct_x100: u64,
    pub rlat: u64,
    pub wpct_x100: u64,
    pub wlat: u64,
    pub min_x100: u64,
    pub max_x100: u64,
}

/// iocost parameters read directly from the kernel for one device.
#[derive(Clone, Copy, Debug, PartialEq, Eq, Structural)]
pub struct LiveIoCostSnapshot {
    pub enable: bool,
    pub model: IoCostModelParams,
    pub qos: IoCostQoSParams,
}

/// Persisted calibration data: device identity, iocost parameters and the
/// sequence number the agent watches to detect updated calibration.
/// Identity fields stay empty/zero until the first validated run.
#[derive(Clone, Debug, PartialEq, Eq)]
pub struct CalibrationData {
    pub dev_model: String,
    pub dev_fwrev: String,
    pub dev_size: u64,
    pub iocost_seq: u64,
    pub model: IoCostModelParams,
    pub qos: IoCostQoSParams,
}

impl Default for CalibrationData {
    /// Empty identity, zeroed parameters: the state before any run.
    fn default() -> (r: Self)
        ensures
            calibration_is_default(r),
    {
        CalibrationData {
            dev_model: String::new(),
            dev_fwrev: String::new(),
            dev_size: 0,
            iocost_seq: 0,
            model: IoCostModelParams {
                rbps: 0,
                rseqiops: 0,
                rrandiops: 0,
                wbps: 0,
                wseqiops: 0,
                wrandiops: 0,
            },
            qos: IoCostQoSParams {
                rpct_x100: 0,
                rlat: 0,
                wpct_x100: 0,
                wlat: 0,
                min_x100: 0,
                max_x100: 0,
            },
        }
    }
}

/// Calibration data that has never been touched: empty identity, zeroed
/// parameters and sequence number.
pub open spec fn calibration_is_default(c: CalibrationData) -> bool {
    &&& c.dev_model@.len() == 0
    &&& c.dev_fwrev@.len() == 0
    &&& c.dev_size == 0
    &&& c.iocost_seq == 0
    &&& c.model == (IoCostModelParams {
        rbps: 0,
        rseqiops: 0,
        rrandiops: 0,
        wbps: 0,
        wseqiops: 0,
        wrandiops: 0,
    })
    &&& c.qos == (IoCostQoSParams {
        rpct_x100: 0,
        rlat: 0,
        wpct_x100: 0,
        wlat: 0,
        min_x100: 0,
        max_x100: 0,
    })
}

/// The identity field on which loaded calibration disagrees with the
/// detected device.
#[derive(Clone, Copy, Debug, PartialEq, Eq, Structural)]
pub enum IdField {
    Model,
    Fwrev,
    Size,
}

/// Why calibration data could not be prepared.
#[derive(Clone, Debug, PartialEq, Eq)]
pub enum PrepareError {
    /// A non-empty stored identity field differs from the detected device.
    /// Carries the stored and the detected identity so the caller can name
    /// both values when reporting the mismatch.
    DeviceMismatch { field: IdField, stored: DeviceIdentity, detected: DeviceIdentity },
    /// Live iocost parameters were requested but the kernel reports iocost
    /// control disabled for the device.
    LiveIoCostUnavailable,
}

/// The identity recorded in calibration data, as a device identity value.
pub open spec fn stored_identity(c: CalibrationData) -> DeviceIdentity {
    DeviceIdentity { model: c.dev_model, fwrev: c.dev_fwrev, size: c.dev_size }
}

fn stored_identity_of(c: &CalibrationData) -> (r: DeviceIdentity)
    ensures
        r == stored_identity(*c),
{
    DeviceIdentity { model: c.dev_model.clone(), fwrev: c.dev_fwrev.clone(), size: c.dev_size }
}

/// A stored identity field constrains the device only once it has been
/// recorded: empty/zero fields match any device.
pub open spec fn identity_matches(c: CalibrationData, d: DeviceIdentity) -> bool {
    &&& c.dev_model@.len() > 0 ==> c.dev_model@ == d.model@
    &&& c.dev_fwrev@.len() > 0 ==> c.dev_fwrev@ == d.fwrev@
    &&& c.dev_size > 0 ==> c.dev_size == d.size
}

/// The calibration data `prepare` hands out on success: detected identity
/// recorded, and iocost parameters either kept or taken live with the
/// sequence number bumped above the loaded one — the monotonic bump is the
/// signal the agent uses to detect and reapply updated calibration.
pub open spec fn spec_prepared(
    loaded: CalibrationData,
    d: DeviceIdentity,
    live: LiveIoCostSnapshot,
    use_live: bool,
) -> CalibrationData {
    CalibrationData {
        dev_model: d.model,
        dev_fwrev: d.fwrev,
        dev_size: d.size,
        iocost_seq: if use_live {
            (loaded.iocost_seq + 1) as u64
        } else {
            loaded.iocost_seq
        },
        model: if use_live {
            live.model
        } else {
            loaded.model
        },
        qos: if use_live {
            live.qos
        } else {
            loaded.qos
        },
    }
}

/// Full behaviour of `prepare` as a function of its inputs.
pub open spec fn spec_prepare(
    loaded: CalibrationData,
    d: DeviceIdentity,
    live: LiveIoCostSnapshot,
    use_live: bool,
) -> Result<CalibrationData, PrepareError> {
    if loaded.dev_model@.len() > 0 && loaded.dev_model@ != d.model@ {
        Result::Err(
            PrepareError::DeviceMismatch {
                field: IdField::Model,
                stored: stored_identity(loaded),
                detected: d,
            },
        )
    } else if loaded.dev_fwrev@.len() > 0 && loaded.dev_fwrev@ != d.fwrev@ {
        Result::Err(
            PrepareError::DeviceMismatch {
                field: IdField::Fwrev,
                stored: stored_identity(loaded),
                detected: d,
            },
        )
    } else if loaded.dev_size > 0 && loaded.dev_size != d.size {
        Result::Err(
            PrepareError::DeviceMismatch {
                field: IdField::Size,
                stored: stored_identity(loaded),
                detected: d,
            },
        )
    } else if use_live && !live.enable {
        Result::Err(PrepareError::LiveIoCostUnavailable)
    } else {
        Result::Ok(spec_prepared(loaded, d, live, use_live))
    }
}

/// Validate loaded calibration data against the detected device and
/// produce the data for this invocation.
///
/// Succeeds exactly when every recorded identity field matches the
/// detected device and, if live sourcing is requested, the kernel has
/// iocost control enabled; the inputs are never modified.
pub fn prepare(
    loaded: &CalibrationData,
    detected: &DeviceIdentity,
    live: &LiveIoCostSnapshot,
    use_live: bool,
) -> (r: Result<CalibrationData, PrepareError>)
    requires
        use_live ==> loaded.iocost_seq < u64::MAX,
    ensures
        r == spec_prepare(*loaded, *detected, *live, use_live),
        r is Ok <==> identity_matches(*loaded, *detected) && (use_live ==> live.enable),
        r is Ok ==> r.unwrap().dev_model@ == detected.model@
            && r.unwrap().dev_fwrev@ == detected.fwrev@ && r.unwrap().dev_size == detected.size,
        r is Ok && use_live ==> r.unwrap().iocost_seq > loaded.iocost_seq,
{
    if !loaded.dev_model.as_str().is_empty() && !(loaded.dev_model == detected.model) {
        return Result::Err(
            PrepareError::DeviceMismatch {
                field: IdField::Model,
                stored: stored_identity_of(loaded),
                detected: detected.clone(),
            },
        );
    }
    if !loaded.dev_fwrev.as_str().is_empty() && !(loaded.dev_fwrev == detected.fwrev) {
        return Result::Err(
            PrepareError::DeviceMismatch {
                field: IdField::Fwrev,
                stored: stored_identity_of(loaded),
                detected: detected.clone(),
            },
        );
    }
    if loaded.dev_size > 0 && loaded.dev_size != detected.size {
        return Result::Err(
            PrepareError::DeviceMismatch {
                field: IdField::Size,
                stored: stored_identity_of(loaded),
                detected: detected.clone(),
            },
        );
    }
    if use_live && !live.enable {
        return Result::Err(PrepareError::LiveIoCostUnavailable);
    }
    let r = CalibrationData {
        dev_model: detected.model.clone(),
        dev_fwrev: detected.fwrev.clone(),
        dev_size: detected.size,
        iocost_seq: if use_live {
            loaded.iocost_seq + 1
        } else {
            loaded.iocost_seq
        },
        model: if use_live {
            live.model
        } else {
            loaded.model
        },
        qos: if use_live {
            live.qos
        } else {
            loaded.qos
        },
    };
    Result::Ok(r)
}

/// Any mismatch on a recorded identity field makes `prepare` fail with a
/// device-mismatch error, whatever the other inputs.
pub proof fn lemma_prepare_mismatch_fails(
    loaded: CalibrationData,
    d: DeviceIdentity,
    live: LiveIoCostSnapshot,
    use_live: bool,
)
    requires
        !identity_matches(loaded, d),
    ensures
        spec_prepare(loaded, d, live, use_live) matches Result::Err(e)
            && e matches PrepareError::DeviceMismatch { .. },
{
}

/// From default (empty) calibration data, `prepare` always succeeds and
/// records the detected identity.  (Live sourcing is the one exception:
/// it is refused whatever the stored data when the kernel has iocost
/// control disabled.)  Without live sourcing the zeroed parameters and
/// sequence number stay in place.
pub proof fn lemma_prepare_default_succeeds(
    c: CalibrationData,
    d: DeviceIdentity,
    live: LiveIoCostSnapshot,
    use_live: bool,
)
    requires
        calibration_is_default(c),
        use_live ==> live.enable,
    ensures
        spec_prepare(c, d, live, use_live) is Ok,
        ({
            let r = spec_prepare(c, d, live, use_live).unwrap();
            r.dev_model == d.model && r.dev_fwrev == d.fwrev && r.dev_size == d.size
        }),
        !use_live ==> spec_prepare(c, d, live, use_live) == Result::<
            CalibrationData,
            PrepareError,
        >::Ok(
            CalibrationData {
                dev_model: d.model,
                dev_fwrev: d.fwrev,
                dev_size: d.size,
                iocost_seq: 0,
                model: c.model,
                qos: c.qos,
            },
        ),
{
}

} // verus!
