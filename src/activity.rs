use vstd::prelude::*;

use crate::calendar::CalendarDate;
use crate::error::EfficiencyError;

verus! {

/// Whole days that the source has decayed between its calibration and the
/// measurement; negative where the measurement comes first. Both dates must be set.
pub fn elapsed_days(
    calibration: Option<CalendarDate>,
    measurement: Option<CalendarDate>,
) -> (r: Result<i64, EfficiencyError>)
    ensures
        (calibration.is_none() || measurement.is_none()) <==> r is Err,
        r matches Err(e) ==> e == EfficiencyError::UnsetDate,
        calibration matches Some(c) ==> measurement matches Some(m) ==> r matches Ok(days)
            && days == m.serial() - c.serial(),
{
    match (calibration, measurement) {
        (Some(c), Some(m)) => Ok(c.days_until(&m)),
        _ => Err(EfficiencyError::UnsetDate),
    }
}

} // verus!
