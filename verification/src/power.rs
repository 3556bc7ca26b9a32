//! Power-event message shapes and the pure classification of the OS
//! power-broadcast words. The OS listener itself (window class, message
//! loop) is platform plumbing and lives outside the library; on platforms
//! without it the start and stop entry points do nothing.

use vstd::prelude::*;

verus! {

/// The power transitions reported to the host.
#[derive(Debug, Clone, Copy, PartialEq, Eq, Structural)]
pub enum PowerEventType {
    Suspend,
    ResumeAutomatic,
    ResumeSuspend,
}

/// One power event as sent to the host.
pub struct SystemPowerEvent {
    pub event_type: PowerEventType,
}

/// The OS word announcing entry into suspend.
pub const PBT_APMSUSPEND: u32 = 4;

/// The OS word announcing an automatic resume.
pub const PBT_APMRESUMEAUTOMATIC: u32 = 18;

/// The OS word announcing a user-triggered resume.
pub const PBT_APMRESUMESUSPEND: u32 = 7;

/// The OS word announcing a power-setting change.
pub const PBT_POWERSETTINGCHANGE: u32 = 32787;

/// Classifies a power-broadcast event word into the event to report;
/// words that announce no suspend or resume report nothing.
pub fn power_event_of(event_word: u32) -> (r: Option<PowerEventType>)
    ensures
        event_word == PBT_APMSUSPEND ==> r == Some(PowerEventType::Suspend),
        event_word == PBT_APMRESUMEAUTOMATIC ==> r == Some(PowerEventType::ResumeAutomatic),
        event_word == PBT_APMRESUMESUSPEND ==> r == Some(PowerEventType::ResumeSuspend),
        event_word != PBT_APMSUSPEND && event_word != PBT_APMRESUMEAUTOMATIC && event_word
            != PBT_APMRESUMESUSPEND ==> r is None,
{
    if event_word == PBT_APMSUSPEND {
        Some(PowerEventType::Suspend)
    } else if event_word == PBT_APMRESUMEAUTOMATIC {
        Some(PowerEventType::ResumeAutomatic)
    } else if event_word == PBT_APMRESUMESUSPEND {
        Some(PowerEventType::ResumeSuspend)
    } else {
        None
    }
}

/// A data byte of a power-setting payload, or zero where the payload is
/// shorter than the OS-declared length.
pub open spec fn spec_byte_or_zero(data: Seq<u8>, i: int) -> int {
    if 0 <= i < data.len() {
        data[i] as int
    } else {
        0
    }
}

/// The display state carried by a power-setting change: the first four
/// payload bytes read little-endian when the declared length is at least
/// four (missing bytes read as zero), zero otherwise.
pub open spec fn spec_display_state(data: Seq<u8>, data_length: u32) -> int {
    if data_length >= 4 {
        spec_byte_or_zero(data, 0) + spec_byte_or_zero(data, 1) * 0x100 + spec_byte_or_zero(data, 2)
            * 0x10000 + spec_byte_or_zero(data, 3) * 0x1000000
    } else {
        0
    }
}

/// Reads the display state out of a power-setting payload.
pub fn display_state_from_data(data: &Vec<u8>, data_length: u32) -> (r: u32)
    ensures
        r == spec_display_state(data@, data_length),
{
    if data_length >= 4 {
        let b0: u32 = if data.len() > 0 {
            data[0] as u32
        } else {
            0
        };
        let b1: u32 = if data.len() > 1 {
            data[1] as u32
        } else {
            0
        };
        let b2: u32 = if data.len() > 2 {
            data[2] as u32
        } else {
            0
        };
        let b3: u32 = if data.len() > 3 {
            data[3] as u32
        } else {
            0
        };
        b0 + b1 * 0x100 + b2 * 0x10000 + b3 * 0x1000000
    } else {
        0
    }
}

/// Starts the OS power-event listener. On platforms without one this does
/// nothing.
pub fn start_power_event_listener() {
}

/// Stops the OS power-event listener. On platforms without one this does
/// nothing.
pub fn stop_power_event_listener() {
}

} // verus!
