//! The wall clock, as the CMOS real-time clock tells it.

use vstd::prelude::*;

verus! {

/// The CMOS port that selects a register.
pub const CMOS_CONTROL_PORT: u16 = 0x70;

/// The CMOS port that holds the selected register.
pub const CMOS_DATA_PORT: u16 = 0x71;

/// The CMOS registers of the clock, in the order the kernel reads them:
/// seconds, minutes, hours, day, month, year, century.
pub const RTC_REGISTERS: [u8; 7] = [0x00, 0x02, 0x04, 0x07, 0x08, 0x09, 0x32];

/// The CMOS register whose bit 7 tells that the clock is being updated.
pub const RTC_STATUS_A: u8 = 0x0A;

/// The CMOS register that tells the format of the clock's registers.
pub const RTC_STATUS_B: u8 = 0x0B;

/// The registers of the clock as read, in whatever format status B tells.
#[derive(Clone, Copy, PartialEq, Eq, Structural, Debug)]
pub struct RtcRegisters {
    pub second: u8,
    pub minute: u8,
    pub hour: u8,
    pub day: u8,
    pub month: u8,
    pub year: u8,
    pub century: u8,
}

/// A date and a time of day.
#[derive(Clone, Copy, PartialEq, Eq, Structural, Debug)]
pub struct RtcTime {
    pub year: i32,
    pub month: u32,
    pub day: u32,
    pub hour: u32,
    pub minute: u32,
    pub second: u32,
}

/// The number that a byte of two decimal digits, one to the nibble, stands
/// for.
pub open spec fn from_bcd(x: u8) -> u8 {
    (x % 16 + (x / 16) * 10) as u8
}

/// The hour that the hour register stands for. Bit 7 marks the afternoon in
/// 12-hour mode and is no part of the number.
pub open spec fn decoded_hour(hour: u8, register_b: u8) -> u8 {
    let afternoon = hour >= 128;
    let number = if register_b & 0x04 == 0 {
        from_bcd((hour % 128) as u8)
    } else {
        (hour % 128) as u8
    };
    if register_b & 0x02 == 0 && afternoon {
        ((number + 12) % 24) as u8
    } else if afternoon {
        (number + 128) as u8
    } else {
        number
    }
}

/// The number that a register other than the hour stands for.
pub open spec fn decoded(x: u8, register_b: u8) -> u8 {
    if register_b & 0x04 == 0 {
        from_bcd(x)
    } else {
        x
    }
}

/// The date and time that the registers stand for. Bit 2 of status B tells
/// that the registers are binary, not decimal digits; bit 1 that the hour
/// counts to 24, not to 12 twice.
pub open spec fn decoded_time(raw: RtcRegisters, register_b: u8) -> RtcTime {
    RtcTime {
        year: (decoded(raw.century, register_b) * 100 + decoded(raw.year, register_b)) as i32,
        month: decoded(raw.month, register_b) as u32,
        day: decoded(raw.day, register_b) as u32,
        hour: decoded_hour(raw.hour, register_b) as u32,
        minute: decoded(raw.minute, register_b) as u32,
        second: decoded(raw.second, register_b) as u32,
    }
}

/// Tells from status A whether the clock is in the middle of an update.
pub fn update_in_progress(status_a: u8) -> (busy: bool)
    ensures
        busy == (status_a & 0x80 != 0),
{
    status_a & 0x80 != 0
}

/// Tells whether two readings of the clock agree, so that the second can
/// be trusted.
pub fn settled(last: &RtcRegisters, now: &RtcRegisters) -> (same: bool)
    ensures
        same == (*last == *now),
{
    now.second == last.second && now.minute == last.minute && now.hour == last.hour && now.day
        == last.day && now.month == last.month && now.year == last.year && now.century
        == last.century
}

fn bcd_to_binary(x: u8) -> (n: u8)
    ensures
        n == from_bcd(x),
{
    x % 16 + (x / 16) * 10
}

/// Turns a settled reading of the clock and status B into a date and time.
pub fn read_rtc(raw: &RtcRegisters, register_b: u8) -> (time: RtcTime)
    ensures
        time == decoded_time(*raw, register_b),
{
    let mut second = raw.second;
    let mut minute = raw.minute;
    let afternoon = raw.hour >= 128;
    let mut hour = raw.hour % 128;
    let mut day = raw.day;
    let mut month = raw.month;
    let mut year = raw.year;
    let mut century = raw.century;
    if register_b & 0x04 == 0 {
        second = bcd_to_binary(second);
        minute = bcd_to_binary(minute);
        hour = bcd_to_binary(hour);
        day = bcd_to_binary(day);
        month = bcd_to_binary(month);
        year = bcd_to_binary(year);
        century = bcd_to_binary(century);
    }
    if register_b & 0x02 == 0 && afternoon {
        hour = (hour + 12) % 24;
    } else if afternoon {
        hour = hour + 128;
    }
    RtcTime {
        year: century as i32 * 100 + year as i32,
        month: month as u32,
        day: day as u32,
        hour: hour as u32,
        minute: minute as u32,
        second: second as u32,
    }
}

} // verus!
